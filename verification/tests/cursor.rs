use cart_prod::cursor::Cursor;

#[test]
fn cursor_pull_and_peek() {
    let mut c = Cursor::new(vec![10, 20]);
    assert_eq!(c.peek(), Some(10));
    assert_eq!(c.pull_next(), Some(10));
    assert_eq!(c.peek(), Some(20));
    assert_eq!(c.pull_next(), Some(20));
    assert_eq!(c.peek(), None);
    assert_eq!(c.pull_next(), None);
}

#[test]
fn cursor_duplicate_is_independent_and_positioned_alike() {
    let mut c = Cursor::new(vec![1, 2, 3]);
    assert_eq!(c.pull_next(), Some(1));
    let mut d = c.duplicate();
    assert_eq!(d.pull_next(), Some(2));
    assert_eq!(d.pull_next(), Some(3));
    assert_eq!(d.pull_next(), None);
    // The original is untouched by pulls on the duplicate.
    assert_eq!(c.pull_next(), Some(2));
}

#[test]
fn cursor_remaining_estimate_is_exact() {
    let mut c = Cursor::new(vec![5, 6, 7]);
    assert_eq!(c.remaining_estimate(), (3, Some(3)));
    assert_eq!(c.pull_next(), Some(5));
    assert_eq!(c.remaining_estimate(), (2, Some(2)));
    let empty: Cursor<i32> = Cursor::new(vec![]);
    assert_eq!(empty.remaining_estimate(), (0, Some(0)));
}
