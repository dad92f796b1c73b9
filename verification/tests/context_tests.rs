use parfum::context::{init_stack, init_stack_with_arg, ThreadContext};

#[test]
fn zeroed_context_is_all_zero() {
    let ctx = ThreadContext::zeroed();
    assert_eq!(ctx.sp, 0);
    assert_eq!(ctx.regs, [0; 32]);
    assert_eq!(ctx.fpregs, [0; 32]);
    assert_eq!(ctx.pc, 0);
    let other = ThreadContext::default();
    assert_eq!(other.regs, [0; 32]);
    assert_eq!(other.sp, 0);
}

#[test]
fn init_stack_sets_entry_and_return_address() {
    let mut ctx = ThreadContext::zeroed();
    ctx.regs[7] = 99;
    ctx.fpregs[3] = 5;
    init_stack(0x7000, &mut ctx, 0x1234, 0x5678);
    let mut regs = [0usize; 32];
    regs[30] = 0x5678;
    assert_eq!(ctx.sp, 0x7000);
    assert_eq!(ctx.regs, regs);
    assert_eq!(ctx.fpregs, [0; 32]);
    assert_eq!(ctx.pc, 0x1234);
}

#[test]
fn init_stack_with_arg_aligns_and_passes_the_argument() {
    let mut ctx = ThreadContext::zeroed();
    ctx.regs[12] = 1;
    init_stack_with_arg(0x701f, &mut ctx, 0x1234, 0xabcd, 0x5678);
    let mut regs = [0usize; 32];
    regs[0] = 0xabcd;
    regs[30] = 0x5678;
    assert_eq!(ctx.sp, 0x7010);
    assert_eq!(ctx.regs, regs);
    assert_eq!(ctx.fpregs, [0; 32]);
    assert_eq!(ctx.pc, 0x1234);
}

#[test]
fn fresh_stack_pointers_are_multiples_of_sixteen() {
    let tops: [usize; 6] = [0, 1, 15, 16, 17, usize::MAX];
    let sps: [usize; 6] = [0, 0, 0, 16, 16, usize::MAX - 15];
    for i in 0..6 {
        let mut ctx = ThreadContext::zeroed();
        init_stack_with_arg(tops[i], &mut ctx, 0, 0, 0);
        assert_eq!(ctx.sp, sps[i]);
    }
}
