use bencode::grammar::Scanned;
use bencode::number::Integer;
use bencode::{Deserializer, Error, ErrorKind};

fn number<T: Integer>(bytes: &[u8]) -> Result<T, Error> {
    let mut de = Deserializer::new(bytes);
    let value = de.parse_number::<T>()?;
    de.end()?;
    Ok(value)
}

fn fails<T: Integer>(bytes: &[u8]) -> String {
    match number::<T>(bytes) {
        Ok(_) => panic!("{:?} was read as a number", bytes),
        Err(e) => e.to_string(),
    }
}

fn length_prefix(bytes: &[u8]) -> Result<usize, Error> {
    Deserializer::new(bytes).parse_integer::<usize>(true)
}

#[test]
fn numbers_at_the_ends_of_each_range() {
    assert_eq!(number::<i8>(b"i127e").unwrap(), i8::MAX);
    assert_eq!(number::<i8>(b"i-128e").unwrap(), i8::MIN);
    assert_eq!(number::<i16>(b"i32767e").unwrap(), i16::MAX);
    assert_eq!(number::<i16>(b"i-32768e").unwrap(), i16::MIN);
    assert_eq!(number::<i32>(b"i2147483647e").unwrap(), i32::MAX);
    assert_eq!(number::<i32>(b"i-2147483648e").unwrap(), i32::MIN);
    assert_eq!(number::<i64>(b"i9223372036854775807e").unwrap(), i64::MAX);
    assert_eq!(number::<i64>(b"i-9223372036854775808e").unwrap(), i64::MIN);
    assert_eq!(number::<u8>(b"i255e").unwrap(), u8::MAX);
    assert_eq!(number::<u16>(b"i65535e").unwrap(), u16::MAX);
    assert_eq!(number::<u32>(b"i4294967295e").unwrap(), u32::MAX);
    assert_eq!(number::<u64>(b"i18446744073709551615e").unwrap(), u64::MAX);
    assert_eq!(number::<usize>(b"i7e").unwrap(), 7usize);
}

#[test]
fn numbers_one_past_each_range_are_out_of_range() {
    let out = "integer out of range at index 0";
    assert_eq!(fails::<i8>(b"i128e"), out);
    assert_eq!(fails::<i8>(b"i-129e"), out);
    assert_eq!(fails::<i16>(b"i32768e"), out);
    assert_eq!(fails::<i16>(b"i-32769e"), out);
    assert_eq!(fails::<i32>(b"i2147483648e"), out);
    assert_eq!(fails::<i32>(b"i-2147483649e"), out);
    assert_eq!(fails::<i64>(b"i9223372036854775808e"), out);
    assert_eq!(fails::<u8>(b"i256e"), out);
    assert_eq!(fails::<u16>(b"i65536e"), out);
    assert_eq!(fails::<u32>(b"i4294967296e"), out);
    assert_eq!(fails::<u8>(b"i-1e"), out);
    assert_eq!(fails::<u16>(b"i-1e"), out);
    assert_eq!(fails::<u32>(b"i-1e"), out);
    assert_eq!(fails::<usize>(b"i-1e"), out);
}

#[test]
fn accumulator_wraps_at_two_to_the_64() {
    // 2^64 and 2^64 + 42
    assert_eq!(number::<u64>(b"i18446744073709551616e").unwrap(), 0);
    assert_eq!(number::<i64>(b"i18446744073709551658e").unwrap(), 42);
    assert_eq!(number::<u8>(b"i18446744073709551658e").unwrap(), 42);
}

#[test]
fn negation_wraps_in_64_bits() {
    // -(2^63 + 1) comes out as 2^63 - 1
    assert_eq!(number::<i64>(b"i-9223372036854775809e").unwrap(), i64::MAX);
    // -(2^64 - 1) comes out as 1
    assert_eq!(number::<i64>(b"i-18446744073709551615e").unwrap(), 1);
    assert_eq!(number::<u8>(b"i-18446744073709551615e").unwrap(), 1);
}

#[test]
fn number_cut_short_is_eof_at_the_end() {
    assert_eq!(fails::<i64>(b"i"), "EOF while parsing at index 1");
    assert_eq!(fails::<i64>(b"i-"), "EOF while parsing at index 2");
    assert_eq!(fails::<i64>(b"i-0"), "EOF while parsing at index 3");
    assert_eq!(fails::<i64>(b"i0"), "EOF while parsing at index 2");
    assert_eq!(fails::<i64>(b"i12"), "EOF while parsing at index 3");
    assert_eq!(fails::<i64>(b"i-12"), "EOF while parsing at index 4");
}

#[test]
fn number_with_a_wrong_first_byte() {
    assert_eq!(fails::<i64>(b"x42e"), "expected integer at index 0");
    assert_eq!(fails::<i64>(b"ie"), "expected integer at index 0");
    assert_eq!(fails::<i64>(b"i--1e"), "expected integer at index 0");
    assert_eq!(fails::<i64>(b"i-e"), "expected integer at index 0");
    assert_eq!(fails::<i64>(b"i-0:"), "expected integer at index 0");
    assert_eq!(fails::<i64>(b"i:e"), "expected integer at index 0");
}

#[test]
fn number_with_a_wrong_byte_after_digits() {
    assert_eq!(fails::<i64>(b"i0xe"), "expected `e` at index 2");
    assert_eq!(fails::<i64>(b"i0-e"), "expected `e` at index 2");
    assert_eq!(fails::<i64>(b"i12:e"), "expected `e` at index 3");
    assert_eq!(fails::<i64>(b"i-12-e"), "expected `e` at index 4");
    assert_eq!(fails::<i64>(b"i1 e"), "expected `e` at index 2");
}

#[test]
fn leading_zero_is_reported_at_the_zero() {
    assert_eq!(fails::<i64>(b"i00e"), "leading zeros are invalid at index 1");
    assert_eq!(fails::<i64>(b"i01e"), "leading zeros are invalid at index 1");
    assert_eq!(fails::<i64>(b"i-00e"), "leading zeros are invalid at index 2");
    assert_eq!(fails::<i64>(b"i-01e"), "leading zeros are invalid at index 2");
}

#[test]
fn zero_after_other_digits_is_no_leading_zero() {
    assert_eq!(number::<i64>(b"i10e").unwrap(), 10);
    assert_eq!(number::<i64>(b"i-10e").unwrap(), -10);
    assert_eq!(number::<i64>(b"i1000000e").unwrap(), 1_000_000);
}

#[test]
fn number_faults_inside_a_message_are_reported_at_their_token() {
    let mut de = Deserializer::new(b"li-0ee");
    de.begin_seq().unwrap();
    let e = de.parse_number::<i64>().unwrap_err();
    assert!(matches!(e.kind(), ErrorKind::MinusZero));
    assert_eq!(e.index(), Some(1));

    let mut de = Deserializer::new(b"li1ei300ee");
    de.begin_seq().unwrap();
    assert_eq!(de.parse_number::<u8>().unwrap(), 1);
    let e = de.parse_number::<u8>().unwrap_err();
    assert!(matches!(e.kind(), ErrorKind::IntegerOutOfRange));
    assert_eq!(e.index(), Some(4));
}

#[test]
fn length_prefix_is_never_signed() {
    assert_eq!(length_prefix(b"0:").unwrap(), 0);
    assert_eq!(length_prefix(b"12:").unwrap(), 12);
    let minus_zero = length_prefix(b"-0:").unwrap_err();
    assert_eq!(minus_zero.to_string(), "`i-0e` is invalid at index 0");
    let leading = length_prefix(b"-05:").unwrap_err();
    assert_eq!(leading.to_string(), "leading zeros are invalid at index 1");
    let other = length_prefix(b"-0x").unwrap_err();
    assert_eq!(other.to_string(), "expected string at index 0");
    let signed = length_prefix(b"-5:").unwrap_err();
    assert_eq!(signed.to_string(), "expected string at index 0");
    let colon = length_prefix(b":").unwrap_err();
    assert_eq!(colon.to_string(), "expected string at index 0");
    let cut = length_prefix(b"1").unwrap_err();
    assert_eq!(cut.to_string(), "EOF while parsing at index 1");
    let closed_by_e = length_prefix(b"1e").unwrap_err();
    assert_eq!(closed_by_e.to_string(), "expected `:` at index 1");
}

#[test]
fn scan_hands_out_the_sign_and_the_digits() {
    let mut de = Deserializer::new(b"-42e");
    let token = de.scan_integer(false).unwrap();
    assert_eq!((token.positive, token.digits), (false, 42));

    let mut de = Deserializer::new(b"0e");
    let token = de.scan_integer(false).unwrap();
    assert_eq!((token.positive, token.digits), (true, 0));

    let mut de = Deserializer::new(b"18446744073709551615:");
    let token = de.scan_integer(true).unwrap();
    assert_eq!((token.positive, token.digits), (true, u64::MAX));
}

#[test]
fn scanned_number_keeps_what_no_integer_type_holds() {
    let mut de = Deserializer::new(b"i-18446744073709551615e");
    let token = de.scan_number().unwrap();
    assert_eq!((token.positive, token.digits), (false, u64::MAX));
    assert_eq!(token.negation(), 1);
    de.end().unwrap();

    let e = Deserializer::new(b"x1e").scan_number().unwrap_err();
    assert_eq!(e.to_string(), "expected integer at index 0");
}

#[test]
fn negation_is_in_twos_complement() {
    let of = |digits: u64| Scanned { positive: false, digits }.negation();
    assert_eq!(of(0), 0);
    assert_eq!(of(1), -1);
    assert_eq!(of(i64::MAX as u64), -i64::MAX);
    assert_eq!(of(1 << 63), i64::MIN);
    assert_eq!(of((1 << 63) + 1), i64::MAX);
    assert_eq!(of(u64::MAX), 1);
}

#[test]
fn bool_is_i1e_or_i0e() {
    assert_eq!(Deserializer::new(b"i1e").parse_bool().unwrap(), true);
    assert_eq!(Deserializer::new(b"i0e").parse_bool().unwrap(), false);
}

#[test]
fn bool_of_any_other_three_bytes_is_rejected_at_the_third() {
    for input in [&b"i2e"[..], b"i10e", b"i-1e", b"1:a", b"iee", b"xyz"] {
        let e = Deserializer::new(input).parse_bool().unwrap_err();
        assert_eq!(e.to_string(), "expected boolean at index 2");
    }
}

#[test]
fn bool_cut_short_is_eof() {
    assert_eq!(
        Deserializer::new(b"").parse_bool().unwrap_err().to_string(),
        "EOF while parsing at index 0"
    );
    assert_eq!(
        Deserializer::new(b"i1").parse_bool().unwrap_err().to_string(),
        "EOF while parsing at index 2"
    );
}

#[test]
fn bool_inside_a_message() {
    let mut de = Deserializer::new(b"li1ei0ee");
    de.begin_seq().unwrap();
    assert_eq!(de.parse_bool().unwrap(), true);
    assert_eq!(de.parse_bool().unwrap(), false);
    de.expect_end().unwrap();
    de.end().unwrap();
}

#[test]
fn char_is_a_string_of_one_byte() {
    assert_eq!(Deserializer::new(b"1:a").parse_char().unwrap(), 'a');
    assert_eq!(Deserializer::new(b"1:\xe9").parse_char().unwrap(), '\u{e9}');
    assert_eq!(Deserializer::new(b"1:\x00").parse_char().unwrap(), '\0');
}

#[test]
fn char_of_another_length_is_rejected_at_its_last_byte() {
    let two = Deserializer::new(b"2:ab").parse_char().unwrap_err();
    assert_eq!(two.to_string(), "expected character at index 3");
    let none = Deserializer::new(b"0:").parse_char().unwrap_err();
    assert_eq!(none.to_string(), "expected character at index 1");
    let long = Deserializer::new("2:\u{e9}".as_bytes()).parse_char().unwrap_err();
    assert_eq!(long.to_string(), "expected character at index 3");
}

#[test]
fn bytes_need_not_be_utf8() {
    let mut de = Deserializer::new(b"3:\xff\x00\xfe");
    assert_eq!(de.parse_bytes().unwrap(), b"\xff\x00\xfe");
    de.end().unwrap();
}

#[test]
fn bytes_longer_than_the_input_are_eof_at_the_end() {
    let e = Deserializer::new(b"10:short").parse_bytes().unwrap_err();
    assert!(matches!(e.kind(), ErrorKind::Eof));
    assert_eq!(e.index(), Some(8));
    let huge = Deserializer::new(b"18446744073709551615:x").parse_bytes().unwrap_err();
    assert_eq!(huge.to_string(), "EOF while parsing at index 22");
}

#[test]
fn string_that_is_not_utf8_is_rejected_at_its_last_byte() {
    let e = Deserializer::new(b"2:\xff\xfe").parse_str().unwrap_err();
    assert_eq!(e.to_string(), "strings must be a utf-8 at index 3");
    let cut = Deserializer::new(b"1:\xc3").parse_str().unwrap_err();
    assert_eq!(cut.to_string(), "strings must be a utf-8 at index 2");
}

#[test]
fn string_of_several_bytes_per_character() {
    let input = "7:h\u{e9}llo\u{20ac}".as_bytes();
    assert_eq!(&input[..2], b"7:");
    let mut de = Deserializer::new(b"9:h\xc3\xa9llo\xe2\x82\xac");
    assert_eq!(de.parse_str().unwrap(), "h\u{e9}llo\u{20ac}");
    de.end().unwrap();
}
