use teardown_format::numeric::{Real32, Real64};
use teardown_format::parser::{Decode, ParseErrorKind, Parser, PathStep, Prefix};
use teardown_format::tags::{Entry, Registry, Tags};

#[test]
fn numbers_are_little_endian() {
    let bytes = [0x01, 0x02, 0x03, 0x04, 0xff, 0xff, 0xff, 0xff, 0x00, 0x00, 0x80, 0x3f, 0x2a];
    let mut parser = Parser::new(&bytes);
    assert_eq!(parser.read_u32().unwrap(), 0x0403_0201);
    assert_eq!(parser.position(), 4);
    assert_eq!(parser.read_i32().unwrap(), -1);
    assert_eq!(parser.read_real32().unwrap(), Real32(0x3f80_0000));
    assert_eq!(f32::from_bits(Real32::one().to_bits()), 1.0);
    assert_eq!(f32::from_bits(Real32::zero().to_bits()), 0.0);
    assert_eq!(parser.read_u8().unwrap(), 0x2a);
    assert_eq!(parser.remaining(), 0);
}

#[test]
fn signed_numbers() {
    let bytes = [0x00, 0x00, 0x00, 0x80, 0xff, 0xff, 0xff, 0x7f, 0xfe, 0xff, 0xff, 0xff];
    let mut parser = Parser::new(&bytes);
    assert_eq!(parser.read_i32().unwrap(), i32::MIN);
    assert_eq!(parser.read_i32().unwrap(), i32::MAX);
    assert_eq!(parser.read_i32().unwrap(), -2);
}

#[test]
fn eight_byte_reals() {
    let bytes = 1.5f64.to_le_bytes();
    let mut parser = Parser::new(&bytes);
    let number = parser.read_real64().unwrap();
    assert_eq!(number, Real64(1.5f64.to_bits()));
    assert_eq!(f64::from_bits(number.to_bits()), 1.5);
}

#[test]
fn reading_past_the_end_fails_and_leaves_the_cursor() {
    let bytes = [1, 2, 3];
    let mut parser = Parser::new(&bytes);
    assert_eq!(parser.read_u8().unwrap(), 1);
    let error = parser.read_u32().unwrap_err();
    assert_eq!(error.kind, ParseErrorKind::UnexpectedEnd);
    assert_eq!(error.offset, 1);
    assert!(error.path.is_empty());
    assert_eq!(parser.position(), 1);
    assert_eq!(parser.read_bytes(2).unwrap(), vec![2, 3]);
    assert_eq!(parser.read_u8().unwrap_err().offset, 3);
    assert_eq!(parser.read_bytes(0).unwrap(), Vec::<u8>::new());
    assert_eq!(parser.read_bytes(usize::MAX).unwrap_err().kind, ParseErrorKind::UnexpectedEnd);
}

#[test]
fn truth_values_are_0_and_1() {
    let bytes = [0, 1, 2];
    let mut parser = Parser::new(&bytes);
    assert!(!parser.read_bool().unwrap());
    assert!(parser.read_bool().unwrap());
    let error = parser.read_bool().unwrap_err();
    assert_eq!(error.kind, ParseErrorKind::InvalidBool(2));
    assert_eq!(error.offset, 2);
    assert_eq!(parser.position(), 2);
}

#[test]
fn strings_have_their_length_in_front() {
    let bytes = [3, 0, 0, 0, b'a', b'b', b'c', 2, 0xc3, 0xa4, 1, 0xff, 9, 0, 0, 0, b'x'];
    let mut parser = Parser::new(&bytes);
    assert_eq!(parser.read_string(Prefix::U32).unwrap(), "abc");
    assert_eq!(parser.read_string(Prefix::U8).unwrap(), "ä");
    let start = parser.position();
    let error = parser.read_string(Prefix::U8).unwrap_err();
    assert_eq!(error.kind, ParseErrorKind::InvalidUtf8);
    assert_eq!(error.offset, start);
    assert_eq!(parser.position(), start);
    assert_eq!(parser.read_bytes(2).unwrap(), vec![1, 0xff]);
    let error = parser.read_string(Prefix::U32).unwrap_err();
    assert_eq!(error.kind, ParseErrorKind::UnexpectedEnd);
    assert_eq!(error.offset, 16);
}

#[test]
fn peek_and_rewind() {
    let bytes = [7, 0, 0, 0, 9];
    let mut parser = Parser::new(&bytes);
    assert_eq!(parser.peek_u32().unwrap(), 7);
    assert_eq!(parser.position(), 0);
    assert_eq!(parser.read_u32().unwrap(), 7);
    assert!(parser.peek_u32().is_err());
    assert_eq!(parser.position(), 4);
    parser.rewind(1);
    assert_eq!(parser.position(), 1);
    parser.rewind(3);
    assert_eq!(parser.position(), 1);
    assert_eq!(parser.read_u32().unwrap(), 0x0900_0000);
}

#[test]
fn expected_bytes() {
    let bytes = [1, 2, 3, 4];
    let mut parser = Parser::new(&bytes);
    assert_eq!(parser.expect(&[1, 2]).unwrap(), vec![1, 2]);
    let error = parser.expect(&[3, 5]).unwrap_err();
    assert_eq!(error.kind, ParseErrorKind::Mismatch);
    assert_eq!(error.offset, 2);
    assert_eq!(parser.position(), 2);
    assert_eq!(parser.expect(&[3, 4, 5]).unwrap_err().kind, ParseErrorKind::UnexpectedEnd);
    assert_eq!(parser.expect(&[]).unwrap(), Vec::<u8>::new());
}

#[test]
fn arrays() {
    let bytes = [1, 0, 0, 0, 2, 0, 0, 0, 3, 0, 0, 0, 4];
    let mut parser = Parser::new(&bytes);
    assert_eq!(parser.read_u32x3().unwrap(), [1, 2, 3]);
    let error = parser.read_u8x3().unwrap_err();
    assert_eq!(error.offset, 12);
    parser.rewind(0);
    assert_eq!(parser.read_real32x2().unwrap(), [Real32(1), Real32(2)]);
    assert_eq!(parser.read_u8x5().unwrap(), [3, 0, 0, 0, 4]);
}

#[test]
fn counted_sequences() {
    let bytes = [2, 0, 0, 0, 5, 0, 0, 0, 6, 0, 0, 0, 3, 1, 0, 0, 0, 2, 0];
    let mut parser = Parser::new(&bytes);
    assert_eq!(parser.read_counted::<u32>(Prefix::U32).unwrap(), vec![5, 6]);
    let error = parser.read_counted::<u32>(Prefix::U8).unwrap_err();
    assert_eq!(error.kind, ParseErrorKind::UnexpectedEnd);
    assert_eq!(error.offset, 17);
    assert_eq!(error.path, vec![PathStep::Index(1)]);
    let empty = [0u8];
    let mut parser = Parser::new(&empty);
    assert_eq!(parser.read_counted::<u32>(Prefix::U8).unwrap(), Vec::<u32>::new());
}

fn text(out: &mut Vec<u8>, s: &str) {
    out.extend((s.len() as u32).to_le_bytes());
    out.extend(s.as_bytes());
}

#[test]
fn tags_keep_the_order_of_the_file_and_the_last_value_counts() {
    let mut bytes = vec![3u8];
    for (key, value) in [("a", "1"), ("b", ""), ("a", "2")] {
        text(&mut bytes, key);
        text(&mut bytes, value);
    }
    let mut parser = Parser::new(&bytes);
    let tags = Tags::parse(&mut parser).unwrap();
    assert_eq!(parser.remaining(), 0);
    assert_eq!(tags.len(), 3);
    assert!(!tags.is_empty());
    assert_eq!(tags.0[0].key, "a");
    assert_eq!(tags.0[0].value, "1");
    assert_eq!(tags.get("a").map(String::as_str), Some("2"));
    assert_eq!(tags.get("b").map(String::as_str), Some(""));
    assert_eq!(tags.get("c"), None);
    let mut parser = Parser::new(&bytes);
    let registry = Registry::parse(&mut parser).unwrap();
    assert_eq!(registry.get("a").map(String::as_str), Some("2"));
    let none = Tags(Vec::<Entry>::new());
    assert!(none.is_empty());
    assert_eq!(none.get("a"), None);
}

#[test]
fn failure_in_a_tag_says_where() {
    let mut bytes = vec![2u8];
    text(&mut bytes, "a");
    text(&mut bytes, "1");
    text(&mut bytes, "b");
    bytes.extend([9, 0, 0, 0]);
    let mut parser = Parser::new(&bytes);
    let error = Tags::parse(&mut parser).unwrap_err();
    assert_eq!(error.kind, ParseErrorKind::UnexpectedEnd);
    assert_eq!(error.offset, bytes.len());
    assert_eq!(error.path, vec![PathStep::Field("value"), PathStep::Index(1)]);
}
