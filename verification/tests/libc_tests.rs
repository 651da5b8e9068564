use lib::libc_lite::{
    byte_swap16, byte_swap32, BumpAllocator, SockAddrIn, Timespec, UtsName, AF_INET, HEAP_SIZE,
};

#[test]
fn byte_swaps() {
    assert_eq!(byte_swap16(0x1F90), 0x901F);
    assert_eq!(byte_swap32(0x7F00_0001), 0x0100_007F);
    assert_eq!(byte_swap16(byte_swap16(0xABCD)), 0xABCD);
    assert_eq!(byte_swap32(byte_swap32(0x1234_5678)), 0x1234_5678);
}

#[test]
fn loopback_address_is_in_network_order() {
    let a = SockAddrIn::new_loopback(8080);
    assert_eq!(a.sin_family, AF_INET as u16);
    assert_eq!(a.sin_port, 0x901F);
    assert_eq!(a.sin_addr, 0x0100_007F);
    assert_eq!(a.port_host(), 8080);
    assert_eq!(a.ip_host(), 0x7F00_0001);
}

#[test]
fn sleep_ms_timespec() {
    let t = Timespec::from_millis(2500);
    assert_eq!(t, Timespec { tv_sec: 2, tv_nsec: 500_000_000 });
    let z = Timespec::from_millis(999);
    assert_eq!(z, Timespec { tv_sec: 0, tv_nsec: 999_000_000 });
}

#[test]
fn uname_buffer_starts_zeroed() {
    let u = UtsName::zeroed();
    assert!(u.sysname.iter().all(|b| *b == 0));
    assert!(u.machine.iter().all(|b| *b == 0));
}

#[test]
fn bump_allocator_aligns_and_runs_out() {
    let mut a = BumpAllocator::new();
    assert_eq!(a.reserve(10, 1), Some(0));
    assert_eq!(a.reserve(8, 16), Some(16));
    assert_eq!(a.reserve(1, 8), Some(24));
    assert_eq!(a.reserve(HEAP_SIZE, 1), None);
    assert_eq!(a.reserve(4, 4), Some(28));
    assert_eq!(a.reserve(HEAP_SIZE - 32, 1), Some(32));
    assert_eq!(a.reserve(1, 1), None);
}
