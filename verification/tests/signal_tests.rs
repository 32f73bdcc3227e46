use kernel_core::signal::{SignalFlags, SIGILL, SIGKILL, SIGSEGV};

#[test]
fn empty_set_has_no_fatal_signal() {
    let s = SignalFlags::empty();
    assert!(s.is_empty());
    assert_eq!(s.check_error(), None);
}

#[test]
fn lowest_fatal_signal_wins() {
    let mut s = SignalFlags::empty();
    s.insert(SignalFlags::from_signum(SIGSEGV).unwrap());
    s.insert(SignalFlags::from_signum(SIGKILL).unwrap());
    assert_eq!(s.check_error(), Some((-9, "Killed, SIGKILL=9")));
    s.insert(SignalFlags::from_signum(SIGILL).unwrap());
    assert_eq!(s.check_error(), Some((-4, "Illegal Instruction, SIGILL=4")));
}
