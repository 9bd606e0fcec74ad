use chainstate::cursor::ByteCursor;

#[test]
fn a_new_cursor_stands_at_the_start() {
    let bytes = [1u8, 2, 3];
    let cursor = ByteCursor::new(&bytes);
    assert_eq!(cursor.position(), 0);
    assert_eq!(cursor.remaining(), 3);
}

#[test]
fn read_u8_steps_through_the_buffer() {
    let bytes = [7u8, 8];
    let mut cursor = ByteCursor::new(&bytes);
    assert_eq!(cursor.read_u8(), Some(7));
    assert_eq!(cursor.read_u8(), Some(8));
    assert_eq!(cursor.position(), 2);
    assert_eq!(cursor.read_u8(), None);
    assert_eq!(cursor.position(), 2);
    assert_eq!(cursor.remaining(), 0);
}

#[test]
fn rewind_steps_back_within_what_was_read() {
    let bytes = [7u8, 8, 9];
    let mut cursor = ByteCursor::new(&bytes);
    cursor.read_u8();
    cursor.read_u8();
    assert!(cursor.rewind(1));
    assert_eq!(cursor.position(), 1);
    assert_eq!(cursor.read_u8(), Some(8));
    assert!(!cursor.rewind(3));
    assert_eq!(cursor.position(), 2);
    assert!(cursor.rewind(2));
    assert_eq!(cursor.position(), 0);
}

#[test]
fn read_to_end_takes_the_unread_bytes() {
    let bytes = [7u8, 8, 9];
    let mut cursor = ByteCursor::new(&bytes);
    cursor.read_u8();
    assert_eq!(cursor.read_to_end(), vec![8, 9]);
    assert_eq!(cursor.position(), 3);
    assert_eq!(cursor.read_to_end(), Vec::<u8>::new());
}
