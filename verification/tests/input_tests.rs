use std::io::Cursor;

use znote::input::read_all;

#[test]
fn test_read_all() {
    let input = "Hello world\nThis is a test.";
    let reader = Cursor::new(input);
    let result = read_all(reader).unwrap();
    assert_eq!(result, input);
}

#[test]
fn read_all_rejects_invalid_utf8() {
    let bytes: &[u8] = &[0x66, 0xff, 0x6f];
    assert!(read_all(Cursor::new(bytes)).is_err());
    assert_eq!(read_all(Cursor::new("")).unwrap(), "");
}
