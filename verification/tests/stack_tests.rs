use parfum::stack::{
    find_stack_region, register_stack_region, reserve_stack, segv_handler, write_hex, FaultEvent,
    FaultStep, ReserveError, ReserveEvent, ReserveStep, StackRegistry, INITIAL_PAGE_COUNT, MAX_PAGE,
    PAGE_SIZE,
};

fn reserve_at(registry: &mut StackRegistry, region: usize) -> (usize, usize) {
    assert_eq!(
        reserve_stack(registry, ReserveEvent::Start),
        ReserveStep::MapRegion { length: 8 * 1024 * 1024 }
    );
    let step = reserve_stack(registry, ReserveEvent::Mapped { address: Some(region) });
    assert_eq!(
        step,
        ReserveStep::OpenPages {
            region,
            address: region + 8 * 1024 * 1024 - 65536,
            length: 65536
        }
    );
    match reserve_stack(registry, ReserveEvent::Opened { region, ok: true }) {
        ReserveStep::Reserved { top, bottom } => (top, bottom),
        other => panic!("{:?}", other),
    }
}

fn hex_of(address: usize) -> String {
    let mut buf = [0xeeu8; 64];
    let n = write_hex(address, &mut buf);
    assert!(buf[n..].iter().all(|b| *b == 0xee));
    String::from_utf8(buf[..n].to_vec()).unwrap()
}

fn recursive(n: usize) -> usize {
    if n == 0 {
        1
    } else {
        1 + recursive(n - 1)
    }
}

#[test]
fn test_stack_growth() {
    let mut registry = StackRegistry::new();
    let (top, bottom) = reserve_at(&mut registry, 0x4000_0000);
    // Every page below the ones opened at first is opened by the fault on it.
    let mut sp = bottom - 8;
    let mut opened = 0;
    while sp >= top - MAX_PAGE * PAGE_SIZE {
        let step = segv_handler(&registry, FaultEvent::Fault { address: sp });
        assert_eq!(step, FaultStep::OpenPage { page: sp + 8 - PAGE_SIZE, length: PAGE_SIZE });
        let step = segv_handler(&registry, FaultEvent::Opened { ok: true });
        assert_eq!(step, FaultStep::Resume);
        opened += 1;
        sp -= PAGE_SIZE;
    }
    assert_eq!(opened, MAX_PAGE - INITIAL_PAGE_COUNT);
    let depth = 2000;
    let result = recursive(depth);
    assert_eq!(result, depth + 1);
}

#[test]
fn page_constants() {
    assert_eq!(PAGE_SIZE, 16384);
    assert_eq!(INITIAL_PAGE_COUNT, 4);
    assert_eq!(MAX_PAGE, 512);
}

#[test]
fn reserved_stack_lies_at_the_end_of_its_region() {
    let mut registry = StackRegistry::new();
    let (top, bottom) = reserve_at(&mut registry, 0x1000_0000);
    assert_eq!(top, 0x1080_0000);
    assert_eq!(bottom, 0x107f_0000);
    let region = find_stack_region(&registry, 0x1000_0000).unwrap();
    assert_eq!((region.start, region.end), (0x1000_0000, 0x1080_0000));
    assert!(find_stack_region(&registry, 0x107f_ffff).is_some());
    assert!(find_stack_region(&registry, 0x1080_0000).is_none());
    assert!(find_stack_region(&registry, 0x0fff_ffff).is_none());
}

#[test]
fn refused_mapping_fails_the_reservation() {
    let mut registry = StackRegistry::new();
    assert_eq!(
        reserve_stack(&mut registry, ReserveEvent::Mapped { address: None }),
        ReserveStep::Failed { error: ReserveError::MapFailed }
    );
    assert!(registry.head.is_none());
}

#[test]
fn refused_protection_fails_the_reservation() {
    let mut registry = StackRegistry::new();
    assert_eq!(
        reserve_stack(&mut registry, ReserveEvent::Opened { region: 0x4000, ok: false }),
        ReserveStep::Failed { error: ReserveError::ProtectFailed }
    );
    assert!(registry.head.is_none());
}

#[test]
fn newest_region_is_found_first() {
    let mut registry = StackRegistry::new();
    assert!(find_stack_region(&registry, 150).is_none());
    register_stack_region(&mut registry, 100, 200);
    register_stack_region(&mut registry, 150, 300);
    let region = find_stack_region(&registry, 160).unwrap();
    assert_eq!((region.start, region.end), (150, 300));
    let older = region.next.unwrap();
    assert_eq!((older.start, older.end), (100, 200));
    assert!(older.next.is_none());
    let region = find_stack_region(&registry, 149).unwrap();
    assert_eq!((region.start, region.end), (100, 200));
    assert!(find_stack_region(&registry, 99).is_none());
    assert!(find_stack_region(&registry, 300).is_none());
}

#[test]
fn empty_region_covers_nothing() {
    let mut registry = StackRegistry::new();
    register_stack_region(&mut registry, 100, 100);
    register_stack_region(&mut registry, 200, 100);
    assert!(find_stack_region(&registry, 100).is_none());
    assert!(find_stack_region(&registry, 150).is_none());
}

#[test]
fn fault_outside_all_stacks_ends_the_process() {
    let mut registry = StackRegistry::new();
    assert_eq!(
        segv_handler(&registry, FaultEvent::Fault { address: 0 }),
        FaultStep::Exit { code: 255 }
    );
    reserve_at(&mut registry, 0x1000_0000);
    assert_eq!(
        segv_handler(&registry, FaultEvent::Fault { address: 0x1080_0000 }),
        FaultStep::Exit { code: 255 }
    );
}

#[test]
fn page_that_starts_before_its_region_is_not_opened() {
    let mut registry = StackRegistry::new();
    register_stack_region(&mut registry, 0x5000, 0x20000);
    assert_eq!(
        segv_handler(&registry, FaultEvent::Fault { address: 0x5001 }),
        FaultStep::Exit { code: 255 }
    );
    assert_eq!(
        segv_handler(&registry, FaultEvent::Fault { address: 0x9abc }),
        FaultStep::OpenPage { page: 0x8000, length: 0x4000 }
    );
}

#[test]
fn page_that_cannot_be_opened_ends_the_process() {
    let registry = StackRegistry::new();
    assert_eq!(
        segv_handler(&registry, FaultEvent::Opened { ok: false }),
        FaultStep::Exit { code: 255 }
    );
}

#[test]
fn addresses_in_hexadecimal() {
    assert_eq!(hex_of(0), "0");
    assert_eq!(hex_of(9), "9");
    assert_eq!(hex_of(10), "a");
    assert_eq!(hex_of(16), "10");
    assert_eq!(hex_of(0xdead_beef), "deadbeef");
    assert_eq!(hex_of(0x1000_0000), "10000000");
    assert_eq!(hex_of(0xffff_ffff_ffff_ffff), "ffffffffffffffff");
    for n in [1usize, 15, 255, 256, 4097, 0x7fff_1234_5678] {
        assert_eq!(usize::from_str_radix(&hex_of(n), 16).unwrap(), n);
    }
}
