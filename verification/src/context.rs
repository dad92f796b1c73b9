//! Machine contexts: the registers that a switch saves and restores.
use vstd::prelude::*;

verus! {

/// Number of general and of floating-point registers in a context.
pub const REGISTERS: usize = 32;

/// The register that carries the first argument of a call.
pub const ARGUMENT: usize = 0;

/// The register that holds the address a function returns to.
pub const LINK: usize = 30;

/// The saved registers of a thread that is not running.
#[derive(Debug)]
pub struct ThreadContext {
    pub sp: usize,
    pub regs: [usize; 32],
    pub fpregs: [u128; 32],
    pub pc: usize,
}

/// What a [`ThreadContext`] holds.
#[verifier::ext_equal]
pub struct Registers {
    pub sp: usize,
    pub regs: Seq<usize>,
    pub fpregs: Seq<u128>,
    pub pc: usize,
}

impl View for ThreadContext {
    type V = Registers;

    open spec fn view(&self) -> Registers {
        Registers { sp: self.sp, regs: self.regs@, fpregs: self.fpregs@, pc: self.pc }
    }
}

/// All general registers zero.
pub open spec fn zero_regs() -> Seq<usize> {
    Seq::new(REGISTERS as nat, |i: int| 0usize)
}

/// All floating-point registers zero.
pub open spec fn zero_fpregs() -> Seq<u128> {
    Seq::new(REGISTERS as nat, |i: int| 0u128)
}

/// `address` rounded down to a multiple of 16, as a stack pointer must be.
pub open spec fn stack_pointer(address: usize) -> usize {
    (address - address % 16) as usize
}

/// The context of a thread that has not run yet: its stack starts at the top,
/// it enters at `entry` with `arg` as its argument, and returns to `exit`.
pub open spec fn fresh(stack_top: usize, entry: usize, arg: usize, exit: usize) -> Registers {
    Registers {
        sp: stack_pointer(stack_top),
        regs: zero_regs().update(ARGUMENT as int, arg).update(LINK as int, exit),
        fpregs: zero_fpregs(),
        pc: entry,
    }
}

impl ThreadContext {
    /// A context with every register zero.
    pub fn zeroed() -> (ctx: Self)
        ensures
            ctx@ == (Registers { sp: 0, regs: zero_regs(), fpregs: zero_fpregs(), pc: 0 }),
            ctx.sp == 0,
            ctx.pc == 0,
            forall|i: int| 0 <= i < 32 ==> #[trigger] ctx.regs[i] == 0,
            forall|i: int| 0 <= i < 32 ==> #[trigger] ctx.fpregs[i] == 0,
    {
        let ctx = ThreadContext { sp: 0, regs: [0; 32], fpregs: [0; 32], pc: 0 };
        assert(ctx.regs@ =~= zero_regs());
        assert(ctx.fpregs@ =~= zero_fpregs());
        ctx
    }
}

impl Default for ThreadContext {
    fn default() -> (ctx: Self)
        ensures
            ctx@ == (Registers { sp: 0, regs: zero_regs(), fpregs: zero_fpregs(), pc: 0 }),
            ctx.sp == 0,
            ctx.pc == 0,
            forall|i: int| 0 <= i < 32 ==> #[trigger] ctx.regs[i] == 0,
            forall|i: int| 0 <= i < 32 ==> #[trigger] ctx.fpregs[i] == 0,
    {
        ThreadContext::zeroed()
    }
}

/// Rounds `address` down to a multiple of 16.
fn align_stack_pointer(address: usize) -> (sp: usize)
    ensures
        sp == stack_pointer(address),
{
    assert(address & !0x0F == address - address % 16) by (bit_vector);
    address & !0x0F
}

/// Prepares `ctx` to enter `entry`, without an argument, on the stack that ends
/// at `stack_top`; `exit` is the address that the entry function returns to.
///
/// The top of the stack has to be a multiple of 16 already.
pub fn init_stack(stack_top: usize, ctx: &mut ThreadContext, entry: usize, exit: usize)
    requires
        stack_top % 16 == 0,
    ensures
        final(ctx)@ == fresh(stack_top, entry, 0, exit),
        final(ctx).sp == stack_top,
        final(ctx).pc == entry,
        final(ctx).regs[30] == exit,
        forall|i: int| 0 <= i < 32 && i != 30 ==> #[trigger] final(ctx).regs[i] == 0,
        forall|i: int| 0 <= i < 32 ==> #[trigger] final(ctx).fpregs[i] == 0,
{
    let sp = align_stack_pointer(stack_top);

    ctx.sp = sp;
    ctx.regs = [0; 32];
    ctx.regs[LINK] = exit;
    ctx.fpregs = [0; 32];
    ctx.pc = entry;
    assert(ctx.regs@ =~= fresh(stack_top, entry, 0, exit).regs);
    assert(ctx.fpregs@ =~= zero_fpregs());
}

/// Prepares `ctx` to enter `entry` with the argument `arg` on the stack that
/// ends at `stack_top`; `exit` is the address that the entry function returns to.
pub fn init_stack_with_arg(
    stack_top: usize,
    ctx: &mut ThreadContext,
    entry: usize,
    arg: usize,
    exit: usize,
)
    ensures
        final(ctx)@ == fresh(stack_top, entry, arg, exit),
        final(ctx).sp % 16 == 0,
        final(ctx).sp <= stack_top < final(ctx).sp + 16,
        final(ctx).pc == entry,
        final(ctx).regs[0] == arg,
        final(ctx).regs[30] == exit,
        forall|i: int|
            0 <= i < 32 && i != 0 && i != 30 ==> #[trigger] final(ctx).regs[i] == 0,
        forall|i: int| 0 <= i < 32 ==> #[trigger] final(ctx).fpregs[i] == 0,
{
    let sp = align_stack_pointer(stack_top);
    ctx.sp = sp;
    ctx.regs = [0; 32];
    ctx.regs[ARGUMENT] = arg;
    ctx.regs[LINK] = exit;
    ctx.fpregs = [0; 32];
    ctx.pc = entry;
    assert(ctx.regs@ =~= fresh(stack_top, entry, arg, exit).regs);
    assert(ctx.fpregs@ =~= zero_fpregs());
}

/// A fresh thread starts on an aligned stack pointer, at most 15 bytes below the
/// top that it was given and never above it.
pub proof fn law_fresh_stack_pointer_is_aligned(
    stack_top: usize,
    entry: usize,
    arg: usize,
    exit: usize,
)
    ensures
        fresh(stack_top, entry, arg, exit).sp % 16 == 0,
        fresh(stack_top, entry, arg, exit).sp <= stack_top,
        stack_top - fresh(stack_top, entry, arg, exit).sp < 16,
{
}

/// The view of a context is its registers, each under its own number.
pub proof fn law_view_shows_every_register(ctx: ThreadContext)
    ensures
        ctx@.sp == ctx.sp,
        ctx@.pc == ctx.pc,
        ctx@.regs.len() == 32,
        ctx@.fpregs.len() == 32,
        forall|i: int| 0 <= i < 32 ==> #[trigger] ctx@.regs[i] == ctx.regs[i],
        forall|i: int| 0 <= i < 32 ==> #[trigger] ctx@.fpregs[i] == ctx.fpregs[i],
{
}

/// A fresh thread finds its whole argument in the first register and the address
/// that it returns to in the link register, starts at its entry, and finds zero
/// everywhere else, whatever these values are.
pub proof fn law_fresh_registers(stack_top: usize, entry: usize, arg: usize, exit: usize)
    ensures
        fresh(stack_top, entry, arg, exit).pc == entry,
        fresh(stack_top, entry, arg, exit).regs.len() == 32,
        fresh(stack_top, entry, arg, exit).regs[0] == arg,
        fresh(stack_top, entry, arg, exit).regs[30] == exit,
        forall|i: int|
            0 <= i < 32 && i != 0 && i != 30 ==> #[trigger] fresh(
                stack_top,
                entry,
                arg,
                exit,
            ).regs[i] == 0,
        fresh(stack_top, entry, arg, exit).fpregs.len() == 32,
        forall|i: int|
            0 <= i < 32 ==> #[trigger] fresh(stack_top, entry, arg, exit).fpregs[i] == 0,
{
}

/// Two fresh contexts are the same only if they were made from the same entry,
/// argument and exit address, and from tops within the same 16 bytes.
pub proof fn law_fresh_tells_threads_apart(
    stack_top: usize,
    entry: usize,
    arg: usize,
    exit: usize,
    other_top: usize,
    other_entry: usize,
    other_arg: usize,
    other_exit: usize,
)
    requires
        fresh(stack_top, entry, arg, exit) == fresh(
            other_top,
            other_entry,
            other_arg,
            other_exit,
        ),
    ensures
        stack_top / 16 == other_top / 16,
        entry == other_entry,
        arg == other_arg,
        exit == other_exit,
{
    law_fresh_registers(stack_top, entry, arg, exit);
    law_fresh_registers(other_top, other_entry, other_arg, other_exit);
    law_fresh_stack_pointer_is_aligned(stack_top, entry, arg, exit);
    law_fresh_stack_pointer_is_aligned(other_top, other_entry, other_arg, other_exit);
}

} // verus!
