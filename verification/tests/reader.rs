use pkgmk::error::Error;
use pkgmk::reader::{BytePred, Reader};

#[test]
fn reads_and_peeks_bytes() {
    let mut r = Reader::new(b"ab");
    assert_eq!(r.peek_byte(), Some(b'a'));
    assert_eq!(r.read_byte(), Some(b'a'));
    assert_eq!(r.read_byte(), Some(b'b'));
    assert_eq!(r.peek_byte(), None);
    assert_eq!(r.read_byte(), None);
}

#[test]
fn read_while_takes_the_whole_run() {
    let mut r = Reader::new(b"abc1 x");
    let mut buf = b"z".to_vec();
    r.read_while(&mut buf, BytePred::Alphabetic);
    assert_eq!(buf, b"zabc".to_vec());
    assert_eq!(r.peek_byte(), Some(b'1'));
    r.read_while(&mut buf, BytePred::Not(b' '));
    assert_eq!(buf, b"zabc1".to_vec());
    r.skip_while(BytePred::Whitespace);
    assert_eq!(r.read_byte(), Some(b'x'));
    r.skip_while(BytePred::Whitespace);
    assert_eq!(r.read_byte(), None);
}

#[test]
fn skip_while_stops_at_a_newline_for_inline_whitespace() {
    let mut r = Reader::new(b" \t\r\n x");
    r.skip_while(BytePred::InlineWhitespace);
    assert_eq!(r.peek_byte(), Some(b'\n'));
    r.skip_while(BytePred::Whitespace);
    assert_eq!(r.peek_byte(), Some(b'x'));
}

#[test]
fn expect_byte_checks_the_next_byte() {
    let mut r = Reader::new(b"()");
    assert_eq!(r.expect_byte(b'('), Ok(()));
    assert_eq!(r.expect_byte(b'('), Err(Error::UnexpectedByte(b')')));
    assert_eq!(r.expect_byte(b')'), Err(Error::UnexpectedEof));
}

#[test]
fn byte_classes() {
    for b in [b' ', b'\t', b'\n', 0x0c, b'\r'] {
        assert!(BytePred::Whitespace.test(b));
    }
    assert!(!BytePred::Whitespace.test(0x0b));
    assert!(!BytePred::InlineWhitespace.test(b'\n'));
    assert!(BytePred::Alphabetic.test(b'Z') && BytePred::Alphabetic.test(b'q'));
    assert!(!BytePred::Alphabetic.test(b'_'));
    assert!(!BytePred::ListWord.test(b')') && !BytePred::ListWord.test(b' '));
    assert!(BytePred::ListWord.test(b'#'));
}
