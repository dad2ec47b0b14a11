use zeta::cursor::Cursor;

#[test]
fn cursor_starts_at_zero() {
    assert_eq!(Cursor::new().index, 0);
}

#[test]
fn cursor_moves_within_bounds() {
    let mut c = Cursor::new();
    c.move_left();
    assert_eq!(c.index, 0);
    c.move_right(2);
    c.move_right(2);
    assert_eq!(c.index, 2);
    c.move_right(2);
    assert_eq!(c.index, 2);
    c.move_left();
    assert_eq!(c.index, 1);
}
