use bencode::Serializer;

fn to_bytes(write: impl FnOnce(&mut Serializer)) -> Vec<u8> {
    let mut serializer = Serializer::new(Vec::with_capacity(128));
    write(&mut serializer);
    serializer.into_inner()
}

fn strings(s: &mut Serializer, items: &[&str]) {
    s.serialize_seq(Some(items.len()));
    for item in items {
        s.serialize_str(item);
    }
    s.end();
}

#[test]
fn ser_test_int() {
    let i = -42i32;

    assert_eq!(to_bytes(|s| s.serialize_i32(i)), b"i-42e");
}

#[test]
fn test_uint() {
    let i = 42u32;

    assert_eq!(to_bytes(|s| s.serialize_u32(i)), b"i42e");
}

#[test]
fn test_float() {
    let f = 42.69f32;

    assert_eq!(to_bytes(|s| s.serialize_i64(f.trunc() as i64)), b"i42e");
}

#[test]
fn ser_test_string() {
    let s = String::from("Hello World!");

    assert_eq!(to_bytes(|ser| ser.serialize_str(&s)), b"12:Hello World!");
}

#[test]
fn ser_test_option() {
    assert_eq!(to_bytes(|s| s.serialize_none()).len(), 0);
}

#[test]
fn ser_test_unit() {
    assert_eq!(to_bytes(|s| s.serialize_unit()).len(), 0);
}

#[test]
fn ser_test_unit_struct() {
    assert_eq!(to_bytes(|s| s.serialize_unit_struct("Test")).len(), 0);
}

#[test]
fn ser_test_unit_variant() {
    assert_eq!(to_bytes(|s| s.serialize_unit_variant("Test", 0, "B")), b"1:B");
}

#[test]
fn ser_test_newtype_struct() {
    assert_eq!(to_bytes(|s| s.serialize_u16(5)), b"i5e");
}

#[test]
fn ser_test_newtype_variant() {
    let bytes = to_bytes(|s| {
        s.serialize_newtype_variant("Test", 0, "A");
        s.serialize_u16(69);
        s.end();
    });

    assert_eq!(bytes, b"d1:Ai69ee");
}

#[test]
fn ser_test_seq() {
    let v = vec![1u8, 2, 3, 4, 5];
    let bytes = to_bytes(|s| {
        s.serialize_seq(Some(v.len()));
        for item in &v {
            s.serialize_u8(*item);
        }
        s.end();
    });

    assert_eq!(bytes, b"li1ei2ei3ei4ei5ee");
}

#[test]
fn test_tuple() {
    let t = (42i8, "Hello", Some(vec!["ok1", "ok2"]));
    let bytes = to_bytes(|s| {
        s.serialize_tuple(3);
        s.serialize_i8(t.0);
        s.serialize_str(t.1);
        match &t.2 {
            Some(items) => strings(s, items),
            None => s.serialize_none(),
        }
        s.end();
    });

    assert_eq!(bytes, b"li42e5:Hellol3:ok13:ok2ee");
}

#[test]
fn ser_test_tuple_struct() {
    let ts = (21u16, String::from("test"));
    let bytes = to_bytes(|s| {
        s.serialize_tuple_struct("Test", 2);
        s.serialize_u16(ts.0);
        s.serialize_str(&ts.1);
        s.end();
    });

    assert_eq!(bytes, b"li21e4:teste");
}

#[test]
fn ser_test_tuple_variant() {
    let tv = (20u16, String::from("okok"));
    let bytes = to_bytes(|s| {
        s.serialize_tuple_variant("Test", 0, "A", 2);
        s.serialize_u16(tv.0);
        s.serialize_str(&tv.1);
        s.end_variant();
    });

    assert_eq!(bytes, b"d1:Ali20e4:okokee");
}

#[test]
fn ser_test_map() {
    let mut m = std::collections::BTreeMap::new();
    m.insert("test", 24u32);
    let bytes = to_bytes(|s| {
        s.serialize_map(Some(m.len()));
        for (key, value) in &m {
            s.serialize_str(key);
            s.serialize_u32(*value);
        }
        s.end();
    });

    assert_eq!(bytes, b"d4:testi24ee");
}

#[test]
fn ser_test_struct() {
    let bytes = to_bytes(|s| {
        s.serialize_struct("Test", 2);
        s.serialize_str("a");
        s.serialize_i64(12345);
        s.serialize_str("b");
        strings(s, &["hello", "world"]);
        s.end();
    });

    assert_eq!(bytes, b"d1:ai12345e1:bl5:hello5:worldee");
}

#[test]
fn ser_test_struct_variant() {
    let bytes = to_bytes(|s| {
        s.serialize_struct_variant("Test", 0, "A", 2);
        s.serialize_str("a");
        s.serialize_i64(12345);
        s.serialize_str("b");
        strings(s, &["hello", "world"]);
        s.end_variant();
    });

    assert_eq!(bytes, b"d1:Ad1:ai12345e1:bl5:hello5:worldeee");
}
