use libkernel::atag::{Atag, Core, Mem};
use libkernel::bsp::board_name;
use libkernel::exception::{ExceptionContext, PrivilegeLevel};
use libkernel::net::{Frame, USPI_FRAME_BUFFER_SIZE};
use libkernel::timer::{counter_time_us, SystemTimerInner, DEFAULT_INTERVAL};

#[test]
fn board_is_named() {
    assert_eq!(board_name(), "Raspberry Pi 3");
}

#[test]
fn default_frame_is_zeroed() {
    let ec = ExceptionContext::default();
    assert!(ec.gpr.iter().all(|r| *r == 0));
    assert_eq!((ec.sp, ec.elr, ec.spsr, ec.tpidr), (0, 0, 0, 0));
}

#[test]
fn privilege_level_from_current_el() {
    assert_eq!(PrivilegeLevel::from_current_el(0b0000), PrivilegeLevel::User);
    assert_eq!(PrivilegeLevel::from_current_el(0b0100), PrivilegeLevel::Kernel);
    assert_eq!(PrivilegeLevel::from_current_el(0b1000), PrivilegeLevel::Hypervisor);
    assert_eq!(PrivilegeLevel::from_current_el(0b1100), PrivilegeLevel::Unknown);
    assert_eq!(PrivilegeLevel::from_current_el(0b0111), PrivilegeLevel::Kernel);
}

#[test]
fn counter_joins_high_and_low_words() {
    assert_eq!(counter_time_us(0, 5), 5);
    assert_eq!(counter_time_us(1, 5), (1u64 << 32) + 5);
    assert_eq!(counter_time_us(u32::MAX, u32::MAX), u64::MAX);
}

#[test]
fn timer_rearms_one_interval_later() {
    let mut t = SystemTimerInner::new(0x3F00_3000);
    assert_eq!(t.base_addr(), 0x3F00_3000);
    assert_eq!(t.init(1000), 1000 + DEFAULT_INTERVAL);
    assert_eq!(t.handle(), 1000 + 2 * DEFAULT_INTERVAL);
}

#[test]
fn timer_compare_wraps_with_counter() {
    let mut t = SystemTimerInner::new(0);
    assert_eq!(t.init(u32::MAX - 99), DEFAULT_INTERVAL - 100);
}

#[test]
fn atag_accessors_pick_their_kind() {
    let core = Atag::Core(Core { flags: 1, page_size: 4096, root_dev: 0 });
    let mem = Atag::Mem(Mem { size: 0x3B00_0000, start: 0 });
    let cmd = Atag::Cmd("console=serial0");
    assert_eq!(core.as_core(), Some(Core { flags: 1, page_size: 4096, root_dev: 0 }));
    assert_eq!(core.mem(), None);
    assert_eq!(mem.mem(), Some(Mem { size: 0x3B00_0000, start: 0 }));
    assert_eq!(mem.cmd(), None);
    assert_eq!(cmd.cmd(), Some("console=serial0"));
    assert_eq!(cmd.as_core(), None);
    assert_eq!(Atag::Unknown(7).mem(), None);
    assert_eq!(Atag::End.cmd(), None);
}

#[test]
fn frame_length_limits_the_slice() {
    let mut f = Frame::new();
    assert_eq!(f.len(), USPI_FRAME_BUFFER_SIZE);
    assert_eq!(f.as_slice().len(), 1600);
    f.set_len(10);
    assert_eq!(f.len(), 10);
    assert_eq!(f.as_slice(), &[0u8; 10][..]);
    f.set_len(0);
    assert!(f.as_slice().is_empty());
}
