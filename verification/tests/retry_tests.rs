use gtmov::retry::Retry;

#[test]
fn three_attempts_with_growing_pauses() {
    let mut r = Retry::new();
    assert_eq!(r.next_attempt(), Some(0));
    assert_eq!(r.next_attempt(), Some(2));
    assert_eq!(r.next_attempt(), Some(4));
    assert_eq!(r.next_attempt(), None);
    assert_eq!(r.next_attempt(), None);
}
