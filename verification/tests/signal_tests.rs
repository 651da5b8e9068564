use lib::task::signal::{SignalFrame, SignalState, Signal, SIG_DFL};

#[test]
fn signal_frame_size_is_160() {
    assert_eq!(core::mem::size_of::<SignalFrame>(), 160);
}

#[test]
fn signal_frame_aligned_size_is_160() {
    assert_eq!(SignalFrame::aligned_size(), 160);
}

#[test]
fn signal_frame_alignment_is_at_least_8() {
    assert_eq!(core::mem::align_of::<SignalFrame>(), 8);
}

#[test]
fn signal_frame_field_offsets() {
    let mut f = SignalFrame::default();
    f.rax = 0x1111;
    f.rbx = 0x2222;
    f.r15 = 0x3333;
    f.rip = 0x4444;
    f.rsp = 0x5555;
    f.rflags = 0x6666;
    f.saved_sigmask = 0x7777;
    f.signal_number = 0x88;
    f._pad = 0x99;
    let b = f.to_bytes();
    assert_eq!(b.len(), 160);
    let word = |o: usize| u64::from_le_bytes(b[o..o + 8].try_into().unwrap());
    let half = |o: usize| u32::from_le_bytes(b[o..o + 4].try_into().unwrap());
    assert_eq!(word(0), 0x1111);
    assert_eq!(word(8), 0x2222);
    assert_eq!(word(14 * 8), 0x3333);
    assert_eq!(word(15 * 8), 0x4444);
    assert_eq!(word(16 * 8), 0x5555);
    assert_eq!(word(17 * 8), 0x6666);
    assert_eq!(word(18 * 8), 0x7777);
    assert_eq!(half(152), 0x88);
    assert_eq!(half(156), 0x99);
    let back = SignalFrame::from_bytes(&b);
    assert_eq!((back.rax, back.r15, back.rip, back.signal_number, back._pad), (0x1111, 0x3333, 0x4444, 0x88, 0x99));
}

#[test]
fn signal_frame_default_is_zeroed() {
    let f = SignalFrame::default();
    assert_eq!(f.rax, 0);
    assert_eq!(f.rip, 0);
    assert_eq!(f.rsp, 0);
    assert_eq!(f.rflags, 0);
    assert_eq!(f.saved_sigmask, 0);
    assert_eq!(f.signal_number, 0);
    assert_eq!(f._pad, 0);
}

#[test]
fn lowest_pending_signal_is_taken_first() {
    let mut s = SignalState::new();
    assert!(!s.has_pending());
    s.send(Signal::SIGTERM);
    s.send(Signal::SIGINT);
    assert!(s.has_pending());
    assert_eq!(s.take_pending(), Some(Signal::SIGINT));
    assert_eq!(s.take_pending(), Some(Signal::SIGTERM));
    assert_eq!(s.take_pending(), None);
}

#[test]
fn signal_numbers_round_trip() {
    assert_eq!(Signal::from_u8(2), Some(Signal::SIGINT));
    assert_eq!(Signal::SIGINT.number(), 2);
    assert_eq!(Signal::SIGKILL.mask(), 1u32 << 9);
    assert_eq!(Signal::from_u8(0), None);
}

#[test]
fn handlers_default_then_set() {
    let mut s = SignalState::new();
    assert_eq!(s.get_handler(2), SIG_DFL);
    s.set_handler(2, 0x4000);
    assert_eq!(s.get_handler(2), 0x4000);
}
