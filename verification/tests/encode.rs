use bencode::Serializer;

fn written(write: impl FnOnce(&mut Serializer)) -> Vec<u8> {
    let mut serializer = Serializer::new(Vec::new());
    write(&mut serializer);
    serializer.into_inner()
}

#[test]
fn serializer_goes_on_after_what_the_buffer_holds() {
    let mut s = Serializer::new(b"1:a".to_vec());
    s.serialize_i64(7);
    assert_eq!(s.into_inner(), b"1:ai7e");
}

#[test]
fn booleans_are_the_numbers_one_and_zero() {
    assert_eq!(written(|s| s.serialize_bool(true)), b"i1e");
    assert_eq!(written(|s| s.serialize_bool(false)), b"i0e");
}

#[test]
fn signed_numbers_of_every_width() {
    assert_eq!(written(|s| s.serialize_i8(i8::MIN)), b"i-128e");
    assert_eq!(written(|s| s.serialize_i8(i8::MAX)), b"i127e");
    assert_eq!(written(|s| s.serialize_i16(i16::MIN)), b"i-32768e");
    assert_eq!(written(|s| s.serialize_i32(i32::MIN)), b"i-2147483648e");
    assert_eq!(written(|s| s.serialize_i64(i64::MIN)), b"i-9223372036854775808e");
    assert_eq!(written(|s| s.serialize_i64(i64::MAX)), b"i9223372036854775807e");
    assert_eq!(written(|s| s.serialize_i64(0)), b"i0e");
    assert_eq!(written(|s| s.serialize_i64(-1)), b"i-1e");
    assert_eq!(written(|s| s.serialize_i64(-10)), b"i-10e");
}

#[test]
fn unsigned_numbers_of_every_width() {
    assert_eq!(written(|s| s.serialize_u8(u8::MAX)), b"i255e");
    assert_eq!(written(|s| s.serialize_u16(u16::MAX)), b"i65535e");
    assert_eq!(written(|s| s.serialize_u32(u32::MAX)), b"i4294967295e");
    assert_eq!(written(|s| s.serialize_u64(u64::MAX)), b"i18446744073709551615e");
    assert_eq!(written(|s| s.serialize_u64(0)), b"i0e");
    assert_eq!(written(|s| s.serialize_u64(100)), b"i100e");
}

#[test]
fn strings_are_counted_in_bytes() {
    assert_eq!(written(|s| s.serialize_str("")), b"0:");
    assert_eq!(written(|s| s.serialize_str("spam")), b"4:spam");
    assert_eq!(written(|s| s.serialize_str("h\u{e9}")), b"3:h\xc3\xa9");
    assert_eq!(written(|s| s.serialize_str("0123456789")), b"10:0123456789");
}

#[test]
fn bytes_are_written_raw() {
    assert_eq!(written(|s| s.serialize_bytes(b"")), b"0:");
    assert_eq!(written(|s| s.serialize_bytes(b"\xff\x00e:")), b"4:\xff\x00e:");
    let long = vec![b'x'; 123];
    let mut expected = b"123:".to_vec();
    expected.extend_from_slice(&long);
    assert_eq!(written(|s| s.serialize_bytes(&long)), expected);
}

#[test]
fn char_of_one_byte_is_a_string_of_length_one() {
    assert_eq!(written(|s| s.serialize_char('a')), b"1:a");
    assert_eq!(written(|s| s.serialize_char('\0')), b"1:\x00");
}

#[test]
fn char_of_several_bytes_is_a_string_of_as_many() {
    assert_eq!(written(|s| s.serialize_char('\u{e9}')), b"2:\xc3\xa9");
    assert_eq!(written(|s| s.serialize_char('\u{20ac}')), b"3:\xe2\x82\xac");
}

#[test]
fn none_and_unit_take_no_bytes() {
    assert_eq!(written(|s| s.serialize_none()), b"");
    assert_eq!(written(|s| s.serialize_unit()), b"");
    assert_eq!(written(|s| s.serialize_unit_struct("Marker")), b"");
    let mut s = Serializer::new(b"le".to_vec());
    s.serialize_none();
    s.serialize_unit();
    assert_eq!(s.into_inner(), b"le");
}

#[test]
fn variants_are_keyed_by_their_name() {
    assert_eq!(written(|s| s.serialize_unit_variant("E", 3, "Name")), b"4:Name");
    assert_eq!(written(|s| s.serialize_newtype_variant("E", 0, "N")), b"d1:N");
    assert_eq!(written(|s| s.serialize_tuple_variant("E", 1, "T", 2)), b"d1:Tl");
    assert_eq!(written(|s| s.serialize_struct_variant("E", 2, "S", 2)), b"d1:Sd");
}

#[test]
fn composites_open_and_close() {
    assert_eq!(written(|s| s.serialize_seq(None)), b"l");
    assert_eq!(written(|s| s.serialize_seq(Some(3))), b"l");
    assert_eq!(written(|s| s.serialize_tuple(2)), b"l");
    assert_eq!(written(|s| s.serialize_tuple_struct("T", 2)), b"l");
    assert_eq!(written(|s| s.serialize_map(None)), b"d");
    assert_eq!(written(|s| s.serialize_struct("S", 1)), b"d");
    assert_eq!(written(|s| s.end()), b"e");
    assert_eq!(written(|s| s.end_variant()), b"ee");
}

#[test]
fn empty_composites() {
    let list = written(|s| {
        s.serialize_seq(Some(0));
        s.end();
    });
    let dict = written(|s| {
        s.serialize_map(Some(0));
        s.end();
    });
    assert_eq!(list, b"le");
    assert_eq!(dict, b"de");
}

#[test]
fn dict_entries_stay_in_the_order_given() {
    let a_first = written(|s| {
        s.serialize_map(Some(2));
        s.serialize_str("a");
        s.serialize_i64(1);
        s.serialize_str("b");
        s.serialize_i64(2);
        s.end();
    });
    let b_first = written(|s| {
        s.serialize_map(Some(2));
        s.serialize_str("b");
        s.serialize_i64(2);
        s.serialize_str("a");
        s.serialize_i64(1);
        s.end();
    });
    assert_eq!(a_first, b"d1:ai1e1:bi2ee");
    assert_eq!(b_first, b"d1:bi2e1:ai1ee");
    assert_ne!(a_first, b_first);
}
