//! Thread stacks: how one is laid out in a reserved region, which regions there
//! are, and which page of one a fault makes usable.
//!
//! A region is mapped without access. The pages at its top are opened when it is
//! reserved, the others one by one when the thread first touches them.
use vstd::arithmetic::div_mod::lemma_div_denominator;
use vstd::arithmetic::power::{lemma_pow0, lemma_pow1, lemma_pow_adds, lemma_pow_positive, pow};
use vstd::prelude::*;

verus! {

/// The size of a page.
pub const PAGE_SIZE: usize = 16384;

/// How many pages of a stack are usable from the start.
pub const INITIAL_PAGE_COUNT: usize = 4;

/// How many pages a stack can grow to: 8 MiB of them.
pub const MAX_PAGE: usize = 8 * 1024 * 1024 / PAGE_SIZE;

/// The exit code of a process that faulted outside its stacks.
pub const FAULT_EXIT_CODE: i32 = 0xff;

/// A region reserved for a stack, in the list of all of them.
#[derive(Debug)]
pub struct StackRegion {
    pub start: usize,
    pub end: usize,
    pub next: Option<&'static StackRegion>,
}

/// All regions reserved so far: a list that only ever grows at its head, so that
/// a fault handler can walk it at any time.
///
/// Its view is the row of `(start, end)`, the newest first.
#[derive(Debug, Clone, Copy)]
pub struct StackRegistry {
    pub head: Option<&'static StackRegion>,
}

/// The regions of a list that starts at `head`.
pub open spec fn regions(head: Option<&'static StackRegion>) -> Seq<(usize, usize)>
    decreases head,
{
    match head {
        None => Seq::empty(),
        Some(region) => seq![(region.start, region.end)] + regions(region.next),
    }
}

impl View for StackRegistry {
    type V = Seq<(usize, usize)>;

    open spec fn view(&self) -> Seq<(usize, usize)> {
        regions(self.head)
    }
}

/// `address` lies in `region`.
pub open spec fn covers(region: (usize, usize), address: usize) -> bool {
    region.0 <= address < region.1
}

/// The newest of `row` in which `address` lies.
pub open spec fn region_of(row: Seq<(usize, usize)>, address: usize) -> Option<(usize, usize)>
    decreases row.len(),
{
    if row.len() == 0 {
        None
    } else if covers(row[0], address) {
        Some(row[0])
    } else {
        region_of(row.drop_first(), address)
    }
}

/// `Box::leak`: the value stays where it is for good.
#[verifier::external_body]
fn leak(region: Box<StackRegion>) -> (leaked: &'static StackRegion)
    ensures
        *leaked == *region,
{
    Box::leak(region)
}

impl StackRegistry {
    /// A registry without regions.
    pub fn new() -> (registry: Self)
        ensures
            registry@ == Seq::<(usize, usize)>::empty(),
            registry.head is None,
    {
        StackRegistry { head: None }
    }
}

/// Adds the region from `start` up to `end` as the newest one.
pub fn register_stack_region(registry: &mut StackRegistry, start: usize, end: usize)
    ensures
        final(registry)@ == seq![(start, end)] + old(registry)@,
        final(registry).head matches Some(region) && region.start == start && region.end == end
            && region.next == old(registry).head,
{
    let region = Box::new(StackRegion { start, end, next: registry.head });
    registry.head = Some(leak(region));
}

/// Finds the region in which `address` lies: the newest, should there be several.
/// It is the one in the list, with all older ones behind it.
pub fn find_stack_region(registry: &StackRegistry, address: usize) -> (found: Option<
    &'static StackRegion,
>)
    ensures
        match found {
            Some(region) => region_of(registry@, address) == Some((region.start, region.end)),
            None => region_of(registry@, address) == None::<(usize, usize)>,
        },
        found matches Some(region) ==> exists|i: int|
            {
                &&& 0 <= i < registry@.len()
                &&& #[trigger] registry@.skip(i) == regions(Some(region))
                &&& forall|j: int| 0 <= j < i ==> !covers(#[trigger] registry@[j], address)
            },
        match found {
            Some(region) => {
                &&& region.start <= address < region.end
                &&& exists|i: int|
                    {
                        &&& 0 <= i < registry@.len()
                        &&& #[trigger] registry@[i] == (region.start, region.end)
                        &&& forall|j: int|
                            0 <= j < i ==> !((#[trigger] registry@[j]).0 <= address
                                < registry@[j].1)
                    }
            },
            None => forall|j: int|
                0 <= j < registry@.len() ==> !((#[trigger] registry@[j]).0 <= address
                    < registry@[j].1),
        },
{
    let mut current = registry.head;
    let ghost mut i: int = 0;
    assert(registry@.skip(0) =~= registry@);
    loop
        invariant
            region_of(regions(current), address) == region_of(registry@, address),
            0 <= i <= registry@.len(),
            registry@.skip(i) == regions(current),
            forall|j: int| 0 <= j < i ==> !covers(#[trigger] registry@[j], address),
        decreases current,
    {
        match current {
            None => {
                return None;
            },
            Some(region) => {
                proof {
                    assert(regions(current).drop_first() =~= regions(region.next));
                    assert(registry@.skip(i).len() > 0);
                    assert(registry@[i] == regions(current)[0]);
                    assert(registry@.skip(i + 1) =~= registry@.skip(i).drop_first());
                }
                if address >= region.start && address < region.end {
                    return Some(region);
                }
                current = region.next;
                proof {
                    i = i + 1;
                }
            },
        }
    }
}

/// What came of the last step of a reservation.
#[derive(PartialEq, Eq, Structural, Copy, Clone, Debug)]
pub enum ReserveEvent {
    /// Nothing was done yet.
    Start,
    /// The mapping was made, at this address, or refused.
    Mapped { address: Option<usize> },
    /// The first pages of the mapping at `region` were opened, or not.
    Opened { region: usize, ok: bool },
}

/// What a reservation needs next.
#[derive(PartialEq, Eq, Structural, Copy, Clone, Debug)]
pub enum ReserveStep {
    /// Map this many bytes, private, anonymous and without access.
    MapRegion { length: usize },
    /// Open the pages from `address` on for reading and writing.
    OpenPages { region: usize, address: usize, length: usize },
    /// The stack is there: it starts at `top` and is usable down to `bottom`.
    Reserved { top: usize, bottom: usize },
    /// The stack cannot be had.
    Failed { error: ReserveError },
}

/// Why a stack could not be reserved.
#[derive(PartialEq, Eq, Structural, Copy, Clone, Debug)]
pub enum ReserveError {
    /// The mapping was refused.
    MapFailed,
    /// The first pages could not be opened.
    ProtectFailed,
}

/// The size of the region of a stack.
pub open spec fn region_size() -> int {
    MAX_PAGE * PAGE_SIZE
}

/// The size of the part of a stack that is usable from the start.
pub open spec fn initial_size() -> int {
    INITIAL_PAGE_COUNT * PAGE_SIZE
}

/// The address space has room for the whole region that the event speaks of.
pub open spec fn has_room(event: ReserveEvent) -> bool {
    match event {
        ReserveEvent::Mapped { address: Some(region) } => region + region_size() <= usize::MAX,
        ReserveEvent::Opened { region, ok } => region + region_size() <= usize::MAX,
        _ => true,
    }
}

/// What a reservation needs after `event`.
pub open spec fn reserve_step(event: ReserveEvent) -> ReserveStep {
    match event {
        ReserveEvent::Start => ReserveStep::MapRegion { length: region_size() as usize },
        ReserveEvent::Mapped { address: None } => ReserveStep::Failed {
            error: ReserveError::MapFailed,
        },
        ReserveEvent::Mapped { address: Some(region) } => ReserveStep::OpenPages {
            region,
            address: (region + region_size() - initial_size()) as usize,
            length: initial_size() as usize,
        },
        ReserveEvent::Opened { region, ok } => if ok {
            ReserveStep::Reserved {
                top: (region + region_size()) as usize,
                bottom: (region + region_size() - initial_size()) as usize,
            }
        } else {
            ReserveStep::Failed { error: ReserveError::ProtectFailed }
        },
    }
}

/// Reserves a stack, one step at a time: called with what came of the last step,
/// returns the next one. With the last step the region is registered.
pub fn reserve_stack(registry: &mut StackRegistry, event: ReserveEvent) -> (step: ReserveStep)
    requires
        has_room(event),
    ensures
        step == reserve_step(event),
        final(registry)@ == match event {
            ReserveEvent::Opened { region, ok: true } => seq![
                (region, (region + region_size()) as usize),
            ] + old(registry)@,
            _ => old(registry)@,
        },
        match event {
            ReserveEvent::Start => step == (ReserveStep::MapRegion { length: 8388608 }),
            ReserveEvent::Mapped { address: None } => step == (ReserveStep::Failed {
                error: ReserveError::MapFailed,
            }),
            ReserveEvent::Mapped { address: Some(start) } => {
                &&& step matches ReserveStep::OpenPages { region, address, length }
                &&& region == start
                &&& address == start + 8388608 - 65536
                &&& length == 65536
            },
            ReserveEvent::Opened { region, ok: true } => {
                &&& step matches ReserveStep::Reserved { top, bottom }
                &&& top == region + 8388608
                &&& bottom == top - 65536
                &&& final(registry).head matches Some(newest)
                &&& newest.start == region
                &&& newest.end == top
                &&& newest.next == old(registry).head
            },
            ReserveEvent::Opened { region, ok: false } => step == (ReserveStep::Failed {
                error: ReserveError::ProtectFailed,
            }),
        },
        step !is Reserved ==> *final(registry) == *old(registry),
{
    let max_size: usize = MAX_PAGE * PAGE_SIZE;
    let initial: usize = INITIAL_PAGE_COUNT * PAGE_SIZE;
    match event {
        ReserveEvent::Start => ReserveStep::MapRegion { length: max_size },
        ReserveEvent::Mapped { address: None } => ReserveStep::Failed {
            error: ReserveError::MapFailed,
        },
        ReserveEvent::Mapped { address: Some(region) } => {
            let top = region + max_size;
            let bottom = top - initial;
            ReserveStep::OpenPages { region, address: bottom, length: initial }
        },
        ReserveEvent::Opened { region, ok } => {
            if !ok {
                return ReserveStep::Failed { error: ReserveError::ProtectFailed };
            }
            let top = region + max_size;
            let bottom = top - initial;
            register_stack_region(registry, region, top);
            ReserveStep::Reserved { top, bottom }
        },
    }
}

/// The start of the page in which `address` lies.
pub open spec fn page_of(address: usize) -> usize {
    (address - address % PAGE_SIZE) as usize
}

/// Rounds `address` down to the start of its page.
fn page_start(address: usize) -> (page: usize)
    ensures
        page == page_of(address),
        page % 16384 == 0,
        page <= address < page + 16384,
{
    assert(address & !16383usize == address - address % 16384) by (bit_vector);
    address & !(PAGE_SIZE - 1)
}

/// What a fault handler was told.
#[derive(PartialEq, Eq, Structural, Copy, Clone, Debug)]
pub enum FaultEvent {
    /// An access to this address faulted.
    Fault { address: usize },
    /// The page was opened, or not.
    Opened { ok: bool },
}

/// What a fault handler has to do.
#[derive(PartialEq, Eq, Structural, Copy, Clone, Debug)]
pub enum FaultStep {
    /// Open the page at `page` for reading and writing.
    OpenPage { page: usize, length: usize },
    /// Return: the access is tried again.
    Resume,
    /// End the process.
    Exit { code: i32 },
}

/// What a fault handler does on `event`, with the regions `row`: the page of an
/// address in a stack region is opened, if it starts within that region; every
/// other fault, and a page that cannot be opened, ends the process.
pub open spec fn fault_step(row: Seq<(usize, usize)>, event: FaultEvent) -> FaultStep {
    match event {
        FaultEvent::Fault { address } => match region_of(row, address) {
            Some(region) => if covers(region, page_of(address)) {
                FaultStep::OpenPage { page: page_of(address), length: PAGE_SIZE }
            } else {
                FaultStep::Exit { code: FAULT_EXIT_CODE }
            },
            None => FaultStep::Exit { code: FAULT_EXIT_CODE },
        },
        FaultEvent::Opened { ok } => if ok {
            FaultStep::Resume
        } else {
            FaultStep::Exit { code: FAULT_EXIT_CODE }
        },
    }
}

/// Decides what to do about a fault. Called from a signal handler: it allocates
/// nothing and only reads the registry.
pub fn segv_handler(registry: &StackRegistry, event: FaultEvent) -> (step: FaultStep)
    ensures
        step == fault_step(registry@, event),
        event == (FaultEvent::Opened { ok: true }) ==> step == FaultStep::Resume,
        event == (FaultEvent::Opened { ok: false }) ==> step == (FaultStep::Exit { code: 0xff }),
        event matches FaultEvent::Fault { address } ==> {
            &&& forall|i: int|
                {
                    &&& 0 <= i < registry@.len()
                    &&& (#[trigger] registry@[i]).0 <= address < registry@[i].1
                    &&& forall|j: int|
                        0 <= j < i ==> !((#[trigger] registry@[j]).0 <= address < registry@[j].1)
                } ==> step == (if registry@[i].0 <= address - address % 16384 {
                    FaultStep::OpenPage {
                        page: (address - address % 16384) as usize,
                        length: 16384,
                    }
                } else {
                    FaultStep::Exit { code: 0xff }
                })
            &&& (forall|j: int|
                0 <= j < registry@.len() ==> !((#[trigger] registry@[j]).0 <= address
                    < registry@[j].1)) ==> step == (FaultStep::Exit { code: 0xff })
        },
{
    match event {
        FaultEvent::Fault { address } => {
            if let Some(region) = find_stack_region(registry, address) {
                let page = page_start(address);
                if page >= region.start && page < region.end {
                    return FaultStep::OpenPage { page, length: PAGE_SIZE };
                }
            }
            FaultStep::Exit { code: FAULT_EXIT_CODE }
        },
        FaultEvent::Opened { ok } => {
            if ok {
                return FaultStep::Resume;
            }
            FaultStep::Exit { code: FAULT_EXIT_CODE }
        },
    }
}

/// The character of the hexadecimal digit `d`.
pub open spec fn hex_digit(d: nat) -> u8 {
    if d < 10 {
        (0x30 + d) as u8
    } else {
        (0x61 + (d - 10)) as u8
    }
}

/// `n` in hexadecimal, in lower case and without leading zeros.
pub open spec fn hex(n: nat) -> Seq<u8>
    decreases n,
{
    if n < 16 {
        seq![hex_digit(n)]
    } else {
        hex(n / 16).push(hex_digit(n % 16))
    }
}

/// `n` without its last `places` hexadecimal digits.
spec fn leading(n: u64, places: u64) -> u64 {
    if places < 16 {
        n >> (places * 4) as u64
    } else {
        0
    }
}

proof fn lemma_leading(n: u64, places: u64)
    requires
        places < 16,
    ensures
        leading(n, places) == leading(n, (places + 1) as u64) * 16 + ((n >> ((places * 4) as u64))
            & 0xf),
        ((n >> ((places * 4) as u64)) & 0xf) < 16,
        ((n >> ((places * 4) as u64)) & 0xf) as u8 == (n >> ((places * 4) as u64)) & 0xf,
{
    let shift: u64 = (places * 4) as u64;
    let next: u64 = (shift + 4) as u64;
    let lead: u64 = n >> shift;
    assert(lead & 0xf < 16) by (bit_vector);
    assert(lead & 0xf == lead % 16) by (bit_vector);
    if places < 15 {
        assert(n >> next == (n >> shift) / 16) by (bit_vector)
            requires
                next == shift + 4,
                next < 64,
        ;
    } else {
        assert((n >> 60) / 16 == 0) by (bit_vector);
    }
}

/// Writes `address` in hexadecimal to the start of `buf` and returns how many
/// characters that took. Called from a signal handler: it allocates nothing.
pub fn write_hex(address: usize, buf: &mut [u8; 64]) -> (n: usize)
    ensures
        n == hex(address as nat).len(),
        n <= 16,
        final(buf)@.subrange(0, n as int) == hex(address as nat),
        final(buf)@.subrange(n as int, 64) == old(buf)@.subrange(n as int, 64),
        address < pow(16, n as nat),
        n > 1 ==> pow(16, (n - 1) as nat) <= address,
        forall|k: int|
            0 <= k < n ==> #[trigger] final(buf)@[k] == ({
                let digit = (address as int / pow(16, (n - 1 - k) as nat)) % 16;
                if digit < 10 {
                    48 + digit
                } else {
                    87 + digit
                }
            }),
{
    let addr: u64 = address as u64;
    let mut n: usize = 0;
    let mut started = false;
    let mut i: u64 = 16;
    while i > 0
        invariant
            i <= 16,
            n <= 16 - i,
            addr == address,
            i > 0 && started ==> leading(addr, i) > 0,
            i == 0 ==> started,
            started ==> buf@.subrange(0, n as int) == hex(leading(addr, i) as nat),
            !started ==> leading(addr, i) == 0 && n == 0,
            buf@.subrange(n as int, 64) == old(buf)@.subrange(n as int, 64),
        decreases i,
    {
        let ghost before = *buf;
        let ghost was_started = started;
        i -= 1;
        let digit = ((addr >> (i * 4)) & 0xf) as u8;
        proof {
            lemma_leading(addr, i);
        }
        if digit != 0 || started || i == 0 {
            started = true;
            buf[n] = if digit < 10 {
                0x30 + digit
            } else {
                0x61 + (digit - 10)
            };
            n += 1;
            proof {
                assert(buf@.subrange(0, n as int) =~= before@.subrange(0, n - 1).push(
                    hex_digit(digit as nat),
                ));
                if !was_started {
                    assert(before@.subrange(0, 0) =~= Seq::<u8>::empty());
                }
                assert forall|j: int| 0 <= j < 64 - n implies buf@.subrange(n as int, 64)[j]
                    == old(buf)@.subrange(n as int, 64)[j] by {
                    assert(before@.subrange(n - 1, 64)[j + 1] == old(buf)@.subrange(
                        n - 1,
                        64,
                    )[j + 1]);
                }
                assert(buf@.subrange(n as int, 64) =~= old(buf)@.subrange(n as int, 64));
            }
        }
    }
    proof {
        assert(addr >> 0 == addr) by (bit_vector);
        law_hex_reads_back(address as nat);
        law_hex_shows_every_digit(address as nat, 0);
        assert forall|k: int| 0 <= k < n implies #[trigger] buf@[k] == ({
            let digit = (address as int / pow(16, (n - 1 - k) as nat)) % 16;
            if digit < 10 {
                48 + digit
            } else {
                87 + digit
            }
        }) by {
            law_hex_shows_every_digit(address as nat, (n - 1 - k) as nat);
            assert(buf@[k] == buf@.subrange(0, n as int)[k]);
        }
    }
    n
}

/// A registry lists the regions of its list, all of them and in their order.
pub proof fn law_registry_lists_every_region(registry: StackRegistry)
    ensures
        registry.head is None ==> registry@.len() == 0,
        registry.head matches Some(region) ==> {
            let rest = StackRegistry { head: region.next };
            &&& registry@.len() == rest@.len() + 1
            &&& registry@[0] == (region.start, region.end)
            &&& forall|i: int| 0 <= i < rest@.len() ==> #[trigger] rest@[i] == registry@[i + 1]
        },
{
}

/// What is found is the first in the row of the regions in which the address lies:
/// the address is not below its start, is below its end, and lies in none of those
/// that were registered later.
pub proof fn law_found_region_is_the_newest(row: Seq<(usize, usize)>, address: usize, i: int)
    requires
        0 <= i < row.len(),
        row[i].0 <= address < row[i].1,
        forall|j: int| 0 <= j < i ==> !((#[trigger] row[j]).0 <= address < row[j].1),
    ensures
        region_of(row, address) == Some(row[i]),
    decreases row.len(),
{
    if i > 0 {
        let rest = row.drop_first();
        assert(!(row[0].0 <= address < row[0].1));
        assert forall|j: int| 0 <= j < i - 1 implies !((#[trigger] rest[j]).0 <= address
            < rest[j].1) by {
            assert(rest[j] == row[j + 1]);
        }
        law_found_region_is_the_newest(rest, address, i - 1);
    }
}

/// Nothing is found only where the address lies in no region of the row.
pub proof fn law_nothing_is_found_outside(row: Seq<(usize, usize)>, address: usize)
    ensures
        region_of(row, address) is None <==> forall|j: int|
            0 <= j < row.len() ==> !((#[trigger] row[j]).0 <= address < row[j].1),
{
    law_found_region_covers(row, address);
    assert forall|j: int| 0 <= j < row.len() implies (covers(#[trigger] row[j], address)
        <==> row[j].0 <= address < row[j].1) by {}
}

/// Where a page begins: at the multiple of the page size that is not above the
/// address and less than a page below it.
pub proof fn law_page_holds_its_address(address: usize)
    ensures
        page_of(address) % 16384 == 0,
        page_of(address) <= address < page_of(address) + 16384,
{
}

/// Once its page is open an access is tried again, and where the page could not be
/// opened the process ends with the code for a fault, whatever regions there are.
pub proof fn law_opened_page_resumes(row: Seq<(usize, usize)>)
    ensures
        fault_step(row, FaultEvent::Opened { ok: true }) == FaultStep::Resume,
        fault_step(row, FaultEvent::Opened { ok: false }) == (FaultStep::Exit { code: 0xff }),
{
}

/// A fault in the newest region that holds its address opens the 16 KiB page of that
/// address, unless the page begins before the region; that, and a fault in no region,
/// ends the process. The other regions make no difference.
pub proof fn law_fault_opens_its_page(row: Seq<(usize, usize)>, address: usize, i: int)
    requires
        0 <= i <= row.len(),
        i < row.len() ==> row[i].0 <= address < row[i].1,
        forall|j: int| 0 <= j < i ==> !((#[trigger] row[j]).0 <= address < row[j].1),
    ensures
        i < row.len() && row[i].0 <= address - address % 16384 ==> fault_step(
            row,
            FaultEvent::Fault { address },
        ) == (FaultStep::OpenPage {
            page: (address - address % 16384) as usize,
            length: 16384,
        }),
        i == row.len() || row[i].0 > address - address % 16384 ==> fault_step(
            row,
            FaultEvent::Fault { address },
        ) == (FaultStep::Exit { code: 0xff }),
{
    law_nothing_is_found_outside(row, address);
    if i < row.len() {
        law_found_region_is_the_newest(row, address, i);
    }
}

/// A reservation maps 8 MiB and opens the last 64 KiB of them, wherever they lie;
/// the stack starts at their end and is usable for these 64 KiB. It fails for the
/// mapping exactly when that was refused, and for the pages exactly when they could
/// not be opened.
pub proof fn law_reservation_goes_by_its_events(region: usize)
    requires
        region + 8388608 <= usize::MAX,
    ensures
        has_room(ReserveEvent::Start),
        has_room(ReserveEvent::Mapped { address: None }),
        has_room(ReserveEvent::Mapped { address: Some(region) }),
        has_room(ReserveEvent::Opened { region, ok: true }),
        has_room(ReserveEvent::Opened { region, ok: false }),
        reserve_step(ReserveEvent::Start) == (ReserveStep::MapRegion { length: 8388608 }),
        reserve_step(ReserveEvent::Mapped { address: None }) == (ReserveStep::Failed {
            error: ReserveError::MapFailed,
        }),
        reserve_step(ReserveEvent::Mapped { address: Some(region) }) == (
        ReserveStep::OpenPages {
            region,
            address: (region + 8323072) as usize,
            length: 65536,
        }),
        reserve_step(ReserveEvent::Opened { region, ok: true }) == (ReserveStep::Reserved {
            top: (region + 8388608) as usize,
            bottom: (region + 8323072) as usize,
        }),
        reserve_step(ReserveEvent::Opened { region, ok: false }) == (ReserveStep::Failed {
            error: ReserveError::ProtectFailed,
        }),
{
}

/// A region is found from the moment it is registered, under every address in
/// it, and what was found elsewhere before is found still.
pub proof fn law_registered_region_is_found(
    row: Seq<(usize, usize)>,
    region: (usize, usize),
    address: usize,
)
    ensures
        region_of(seq![region] + row, address) == (if covers(region, address) {
            Some(region)
        } else {
            region_of(row, address)
        }),
{
    assert((seq![region] + row).drop_first() =~= row);
}

/// What is found is a registered region in which the address lies, and nothing
/// is found exactly when the address lies in none.
pub proof fn law_found_region_covers(row: Seq<(usize, usize)>, address: usize)
    ensures
        region_of(row, address) matches Some(region) ==> covers(region, address) && row.contains(
            region,
        ),
        region_of(row, address) is None <==> forall|i: int|
            0 <= i < row.len() ==> !covers(#[trigger] row[i], address),
    decreases row.len(),
{
    if row.len() > 0 {
        let rest = row.drop_first();
        law_found_region_covers(rest, address);
        assert(row[0] == row.first());
        if covers(row[0], address) {
            assert(row.contains(row[0]));
        } else {
            if region_of(rest, address) is Some {
                let region = region_of(rest, address)->0;
                let i = choose|i: int| 0 <= i < rest.len() && rest[i] == region;
                assert(row[i + 1] == region);
            }
            if exists|i: int| 0 <= i < row.len() && covers(#[trigger] row[i], address) {
                let i = choose|i: int| 0 <= i < row.len() && covers(#[trigger] row[i], address);
                assert(covers(rest[i - 1], address));
            }
            assert forall|i: int|
                region_of(rest, address) is None && 0 <= i < row.len() implies !covers(
                #[trigger] row[i],
                address,
            ) by {
                if i > 0 {
                    assert(!covers(rest[i - 1], address));
                }
            }
        }
    }
}

/// A reserved stack lies in its region: it starts at the end of the region, and
/// the pages opened for it are just those between its bottom and its top.
pub proof fn law_reserved_stack_fits(region: usize)
    requires
        region + region_size() <= usize::MAX,
    ensures
        ({
            let opened = reserve_step(ReserveEvent::Mapped { address: Some(region) });
            let reserved = reserve_step(ReserveEvent::Opened { region, ok: true });
            &&& opened matches ReserveStep::OpenPages { region: of, address, length }
                && reserved matches ReserveStep::Reserved { top, bottom } && {
                &&& of == region
                &&& top == region + region_size()
                &&& region < bottom < top
                &&& address == bottom
                &&& bottom + length == top
                &&& length == INITIAL_PAGE_COUNT * PAGE_SIZE
            }
        }),
{
}

/// Stacks grow on demand: a fault at an address of a region opens the page of
/// that address whenever the page starts within the region, which it always does
/// where the region starts at a page. The page lies within the region where that
/// also ends at a page.
pub proof fn law_stack_grows_on_demand(
    row: Seq<(usize, usize)>,
    region: (usize, usize),
    address: usize,
)
    requires
        region_of(row, address) == Some(region),
    ensures
        ({
            let step = fault_step(row, FaultEvent::Fault { address });
            &&& step is OpenPage <==> region.0 <= page_of(address)
            &&& region.0 % PAGE_SIZE == 0 ==> step is OpenPage
            &&& step matches FaultStep::OpenPage { page, length } ==> {
                &&& region.0 <= page <= address < page + length
                &&& page % PAGE_SIZE == 0
                &&& length == PAGE_SIZE
                &&& region.1 % PAGE_SIZE == 0 ==> page + length <= region.1
            }
        }),
{
    law_found_region_covers(row, address);
}

/// A reserved stack is usable throughout: once the reservation is done, a fault at
/// an address of the region opens the page that holds the address. Left out is only
/// what lies before the first whole page of a region that does not start at one.
pub proof fn law_reserved_stack_grows(row: Seq<(usize, usize)>, region: usize, address: usize)
    requires
        region + region_size() <= usize::MAX,
        region <= address < region + region_size(),
        region % PAGE_SIZE == 0 || region <= page_of(address),
    ensures
        ({
            let reserved = seq![(region, (region + region_size()) as usize)] + row;
            fault_step(reserved, FaultEvent::Fault { address }) matches FaultStep::OpenPage {
                page,
                length,
            } && region <= page <= address < page + length && (region % PAGE_SIZE == 0 ==> page
                + length <= region + region_size())
        }),
{
    let newest = (region, (region + region_size()) as usize);
    law_registered_region_is_found(row, newest, address);
    law_stack_grows_on_demand(seq![newest] + row, newest, address);
}

/// A fault outside all regions ends the process.
pub proof fn law_fault_outside_stacks_is_fatal(row: Seq<(usize, usize)>, address: usize)
    requires
        forall|i: int| 0 <= i < row.len() ==> !covers(#[trigger] row[i], address),
    ensures
        fault_step(row, FaultEvent::Fault { address }) == (FaultStep::Exit {
            code: FAULT_EXIT_CODE,
        }),
{
    law_found_region_covers(row, address);
}

/// The value of a hexadecimal digit in lower case.
pub open spec fn digit_value(c: u8) -> nat {
    if c < 0x61 {
        (c - 0x30) as nat
    } else {
        (c - 0x61 + 10) as nat
    }
}

/// The value of a row of hexadecimal digits.
pub open spec fn hex_value(digits: Seq<u8>) -> nat
    decreases digits.len(),
{
    if digits.len() == 0 {
        0
    } else {
        16 * hex_value(digits.drop_last()) + digit_value(digits.last())
    }
}

/// A number in hexadecimal shows at each place the digit that the number has there,
/// `0` to `9` or `a` to `f`, and has just as many places as it needs.
pub proof fn law_hex_shows_every_digit(n: nat, place: nat)
    requires
        place < hex(n).len(),
    ensures
        ({
            let digit = (n as int / pow(16, place)) % 16;
            hex(n)[hex(n).len() - 1 - place] == (if digit < 10 {
                48 + digit
            } else {
                87 + digit
            })
        }),
        n < pow(16, hex(n).len()),
        hex(n).len() > 1 ==> pow(16, (hex(n).len() - 1) as nat) <= n,
    decreases n,
{
    let len = hex(n).len();
    lemma_pow0(16);
    if n < 16 {
        lemma_pow1(16);
    } else {
        let rest = n / 16;
        assert(hex(rest).len() == len - 1);
        law_hex_reads_back(rest);
        lemma_pow_adds(16, 1, (len - 1) as nat);
        lemma_pow1(16);
        if place == 0 {
            law_hex_shows_every_digit(rest, 0);
        } else {
            let upper = (place - 1) as nat;
            law_hex_shows_every_digit(rest, upper);
            lemma_pow_adds(16, 1, upper);
            lemma_pow_positive(16, upper);
            lemma_div_denominator(n as int, 16, pow(16, upper));
            assert(hex(n)[len - 1 - place] == hex(rest)[len - 2 - upper]);
        }
        if len > 2 {
            lemma_pow_adds(16, 1, (len - 2) as nat);
        } else {
            assert(pow(16, (len - 1) as nat) == 16);
        }
    }
}

/// A number written in hexadecimal reads back as that number, and starts with a
/// zero only if it is zero.
pub proof fn law_hex_reads_back(n: nat)
    ensures
        hex_value(hex(n)) == n,
        hex(n).len() > 0,
        hex(n)[0] == 0x30 ==> n == 0,
    decreases n,
{
    if n < 16 {
        assert(hex(n).drop_last() =~= Seq::<u8>::empty());
        assert(hex_value(hex(n).drop_last()) == 0);
    } else {
        law_hex_reads_back(n / 16);
        assert(hex(n).drop_last() =~= hex(n / 16));
    }
}

} // verus!
