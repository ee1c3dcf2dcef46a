use twostack::tape::Tape;

#[test]
fn tape_length_limit() {
    assert!(Tape::can_hold(0));
    assert!(Tape::can_hold(usize::MAX - 9));
    assert!(!Tape::can_hold(usize::MAX - 8));
    assert!(!Tape::can_hold(usize::MAX));
}
