use libkernel::interrupt::{
    enable_fiq_writes, enable_write, disable_write, Dispatch, HandlerTable, IRQNumber, InterruptController,
    PendingIRQs, PeripheralWrite, NUM_PERIPHERAL_IRQS,
};

#[test]
fn pending_mask_yields_set_bits_in_order() {
    let p = PendingIRQs::new(0xA000_0000_0000_0005);
    assert_eq!(p.to_vec(), vec![0, 2, 61, 63]);
    let mut it = PendingIRQs::new(0xA000_0000_0000_0005);
    assert_eq!(it.next(), Some(0));
    assert_eq!(it.next(), Some(2));
    assert_eq!(it.next(), Some(61));
    assert_eq!(it.next(), Some(63));
    assert_eq!(it.next(), None);
    assert_eq!(it.next(), None);
}

#[test]
fn empty_mask_yields_nothing() {
    assert_eq!(PendingIRQs::new(0).to_vec(), Vec::<usize>::new());
}

#[test]
fn full_mask_yields_every_number_once() {
    let v = PendingIRQs::new(u64::MAX).to_vec();
    assert_eq!(v, (0..64).collect::<Vec<usize>>());
}

#[test]
fn single_high_bit() {
    assert_eq!(PendingIRQs::new(1 << 63).to_vec(), vec![63]);
}

#[test]
fn second_registration_fails_and_first_handler_stays() {
    let mut t: HandlerTable<u32> = HandlerTable::new(NUM_PERIPHERAL_IRQS);
    assert_eq!(t.register_handler(57, 100), Ok(()));
    assert_eq!(t.register_handler(57, 200), Err("IRQ handler already registered"));
    assert_eq!(t.get(57), Some(100));
    let plan = t.dispatch(1 << 57, false);
    assert_eq!(plan.len(), 1);
    assert!(matches!(plan[0], Dispatch::Call(57, 100)));
}

#[test]
fn lookups_outside_the_table_find_nothing() {
    let t: HandlerTable<u32> = HandlerTable::new(12);
    assert_eq!(t.get(3), None);
    assert_eq!(t.get(40), None);
}

#[test]
fn missing_handlers_are_fatal_except_gpu_edge_locally() {
    let mut t: HandlerTable<u32> = HandlerTable::new(12);
    t.register_handler(1, 7).unwrap();
    let local = t.dispatch((1 << 1) | (1 << 8) | (1 << 9), true);
    assert!(matches!(local[0], Dispatch::Call(1, 7)));
    assert!(matches!(local[1], Dispatch::Ignore(8)));
    assert!(matches!(local[2], Dispatch::Unhandled(9)));
    let periph = t.dispatch(1 << 8, false);
    assert!(matches!(periph[0], Dispatch::Unhandled(8)));
    let beyond = t.dispatch(1 << 40, true);
    assert!(matches!(beyond[0], Dispatch::Unhandled(40)));
}

#[test]
fn controller_keeps_per_core_local_tables() {
    let mut ic: InterruptController<u32> = InterruptController::new();
    let timer = IRQNumber::local(1).unwrap();
    let uart = IRQNumber::peripheral(57).unwrap();
    assert_eq!(ic.register_handler(timer, 0, 10), Ok(()));
    assert_eq!(ic.register_handler(timer, 1, 11), Ok(()));
    assert_eq!(ic.register_handler(timer, 1, 12), Err("IRQ handler already registered"));
    assert_eq!(ic.register_handler(uart, 0, 57), Ok(()));
    assert_eq!(ic.register_handler(uart, 2, 58), Err("IRQ handler already registered"));
    let (p, l) = ic.dispatch(1, 1 << 57, 1 << 1);
    assert!(matches!(p[0], Dispatch::Call(57, 57)));
    assert!(matches!(l[0], Dispatch::Call(1, 11)));
    let (p, l) = ic.dispatch(3, 0, 1 << 1);
    assert!(p.is_empty());
    assert!(matches!(l[0], Dispatch::Unhandled(1)));
}

#[test]
fn fiq_handler_is_replaced() {
    let mut ic: InterruptController<u32> = InterruptController::new();
    assert_eq!(ic.fiq_handler(), None);
    ic.register_fiq(9);
    ic.register_fiq(10);
    assert_eq!(ic.fiq_handler(), Some(10));
}

#[test]
fn irq_numbers_are_range_checked() {
    assert_eq!(IRQNumber::local(11), Some(IRQNumber::Local(11)));
    assert_eq!(IRQNumber::local(12), None);
    assert_eq!(IRQNumber::peripheral(63), Some(IRQNumber::Peripheral(63)));
    assert_eq!(IRQNumber::peripheral(64), None);
}

#[test]
fn enable_selects_register_by_number() {
    assert_eq!(enable_write(1), PeripheralWrite::Enable1(1 << 1));
    assert_eq!(enable_write(31), PeripheralWrite::Enable1(1 << 31));
    assert_eq!(enable_write(32), PeripheralWrite::Enable2(1));
    assert_eq!(enable_write(57), PeripheralWrite::Enable2(1 << 25));
    assert_eq!(disable_write(9), PeripheralWrite::Disable1(1 << 9));
    assert_eq!(disable_write(40), PeripheralWrite::Disable2(1 << 8));
}

#[test]
fn fiq_routing_disables_then_selects() {
    assert_eq!(
        enable_fiq_writes(9),
        (PeripheralWrite::Disable1(1 << 9), PeripheralWrite::FiqControl(0x80 | 9))
    );
    assert_eq!(
        enable_fiq_writes(63),
        (PeripheralWrite::Disable2(1 << 31), PeripheralWrite::FiqControl(0x80 | 63))
    );
}

#[test]
fn registered_handlers_can_be_listed() {
    let mut ic: InterruptController<u32> = InterruptController::new();
    ic.register_handler(IRQNumber::peripheral(2).unwrap(), 0, 5).unwrap();
    ic.register_handler(IRQNumber::local(1).unwrap(), 3, 6).unwrap();
    assert_eq!(ic.peripheral_handler(2), Some(5));
    assert_eq!(ic.peripheral_handler(3), None);
    assert_eq!(ic.peripheral_handler(64), None);
    assert_eq!(ic.local_handler(3, 1), Some(6));
    assert_eq!(ic.local_handler(0, 1), None);
    assert_eq!(ic.local_handler(3, 12), None);
}
