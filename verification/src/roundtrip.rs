//! What is written can be read back: reading a token that the encoder wrote
//! gives the value it was written for, and ends right behind the token.

use vstd::prelude::*;
use vstd::utf8::{
    encode_utf8, encode_utf8_decode_utf8, encode_utf8_valid_utf8, is_ascii_chars,
    is_ascii_chars_encode_utf8,
};
use crate::error::ErrorContent;
use crate::grammar::{
    COLON, DICT, END, LIST, Token, ZERO, accumulated, boolean, byte_string, character, decimal,
    decimal_value, digits, digits_end, done, element_follows, enum_opening, integer_token,
    is_digit, key_follows, negated, number, scan_integer, string, string_token, token_of,
};
use crate::number::Integer;
use crate::value::{
    Tree, Value, entries_at, items_at, message, option_at, pairs, trees, value_at,
    wire_entries, wire_items, wire_option,
};

verus! {

/// Whether the bytes of `token` stand in `s` from `at` on.
pub open spec fn holds_at(s: Seq<u8>, at: int, token: Seq<u8>) -> bool {
    &&& 0 <= at
    &&& at + token.len() <= s.len()
    &&& s.subrange(at, at + token.len()) == token
}

/// The digits of a number are digits, at least one, and the first is `0` for
/// zero only.
pub proof fn lemma_digits_shape(n: nat)
    ensures
        digits(n).len() >= 1,
        forall|i: int| 0 <= i < digits(n).len() ==> is_digit(#[trigger] digits(n)[i]),
        n == 0 <==> digits(n)[0] == ZERO,
        n == 0 ==> digits(n).len() == 1,
    decreases n,
{
    if n >= 10 {
        lemma_digits_shape(n / 10);
    }
}

/// The digits of a number spell that number.
pub proof fn lemma_digits_value(n: nat)
    ensures
        decimal_value(digits(n)) == n,
    decreases n,
{
    lemma_digits_shape(n);
    if n < 10 {
        assert(digits(n).drop_last() =~= Seq::<u8>::empty());
        assert(decimal_value(digits(n).drop_last()) == 0);
        assert(digits(n).last() == ZERO + n);
    } else {
        lemma_digits_value(n / 10);
        assert(digits(n).drop_last() =~= digits(n / 10));
        assert(digits(n).last() == ZERO + n % 10);
    }
}

/// A run of digits that something else follows ends where that stands.
proof fn lemma_digits_end(s: Seq<u8>, from: int, stop: int)
    requires
        0 <= from <= stop < s.len(),
        forall|i: int| from <= i < stop ==> is_digit(#[trigger] s[i]),
        !is_digit(s[stop]),
    ensures
        digits_end(s, from) == stop,
    decreases stop - from,
{
    if from < stop {
        lemma_digits_end(s, from + 1, stop);
    }
}

/// Scanning the decimal text of `v`, closed by its terminator, gives `v`
/// back and ends behind the terminator.
proof fn lemma_scan_decimal(s: Seq<u8>, at: int, v: int, parsing_str: bool)
    requires
        -0x8000_0000_0000_0000 <= v < 0x1_0000_0000_0000_0000,
        parsing_str ==> v >= 0,
        holds_at(s, at, decimal(v) + seq![if parsing_str { COLON } else { END }]),
    ensures
        scan_integer(s, at, parsing_str).next == at + decimal(v).len() + 1,
        scan_integer(s, at, parsing_str).result is Ok,
        scan_integer(s, at, parsing_str).result->Ok_0.value() == v,
{
    let close = if parsing_str { COLON } else { END };
    let text = decimal(v) + seq![close];
    let magnitude = (if v < 0 { -v } else { v }) as nat;
    let first = if v < 0 { at + 1 } else { at };
    let stop = at + decimal(v).len();
    lemma_digits_shape(magnitude);
    lemma_digits_value(magnitude);
    assert forall|i: int| 0 <= i < text.len() implies s[at + i] == text[i] by {
        assert(s.subrange(at, at + text.len())[i] == s[at + i]);
    }
    assert(s[stop] == text[decimal(v).len() as int]);
    assert forall|i: int| first <= i < stop implies is_digit(#[trigger] s[i]) by {
        assert(s[i] == text[i - at]);
        assert(text[i - at] == digits(magnitude)[i - first]);
    }
    assert(s[first] == text[first - at]);
    assert(s[first] == digits(magnitude)[0]);
    if v != 0 {
        lemma_digits_end(s, first, stop);
        assert(s.subrange(first, stop) =~= digits(magnitude)) by {
            assert forall|i: int| 0 <= i < stop - first implies s[first + i] == digits(
                magnitude,
            )[i] by {
                assert(s[first + i] == text[first + i - at]);
            }
        }
        assert(accumulated(digits(magnitude)) == magnitude);
        if v < 0 {
            assert(s[at] == text[0]);
            assert(negated(magnitude as u64) == v);
        }
    }
}

/// A number that the encoder wrote reads back as itself, in every integer
/// type that holds it.
pub proof fn lemma_number_roundtrip<T: Integer>(s: Seq<u8>, at: int, v: int, t: T)
    requires
        -0x8000_0000_0000_0000 <= v < 0x1_0000_0000_0000_0000,
        T::of(v) == Some(t),
        holds_at(s, at, integer_token(v)),
    ensures
        number::<T>(s, at) == done(t, at + integer_token(v).len()),
{
    let token = integer_token(v);
    assert(s[at] == s.subrange(at, at + token.len())[0]);
    assert(s.subrange(at + 1, at + 1 + decimal(v).len() + 1) =~= decimal(v) + seq![END]) by {
        assert forall|i: int| 0 <= i < decimal(v).len() + 1 implies s[at + 1 + i] == (decimal(v)
            + seq![END])[i] by {
            assert(s.subrange(at, at + token.len())[1 + i] == s[at + 1 + i]);
        }
    }
    lemma_scan_decimal(s, at + 1, v, false);
}

/// A byte string that the encoder wrote reads back as itself.
pub proof fn lemma_bytes_roundtrip(s: Seq<u8>, at: int, bytes: Seq<u8>)
    requires
        bytes.len() <= usize::MAX,
        holds_at(s, at, string_token(bytes)),
    ensures
        byte_string(s, at) == done(bytes, at + string_token(bytes).len()),
{
    let token = string_token(bytes);
    let length = bytes.len() as int;
    let prefix = decimal(length) + seq![COLON];
    assert(s.subrange(at, at + prefix.len()) =~= prefix) by {
        assert forall|i: int| 0 <= i < prefix.len() implies s[at + i] == prefix[i] by {
            assert(s.subrange(at, at + token.len())[i] == s[at + i]);
        }
    }
    lemma_scan_decimal(s, at, length, true);
    let next = at + prefix.len();
    assert(s.subrange(next, next + length) =~= bytes) by {
        assert forall|i: int| 0 <= i < length implies s[next + i] == bytes[i] by {
            assert(s.subrange(at, at + token.len())[prefix.len() + i] == s[next + i]);
        }
    }
}

/// A string that the encoder wrote reads back as itself.
pub proof fn lemma_string_roundtrip(s: Seq<u8>, at: int, text: Seq<char>)
    requires
        encode_utf8(text).len() <= usize::MAX,
        holds_at(s, at, string_token(encode_utf8(text))),
    ensures
        string(s, at) == done(text, at + string_token(encode_utf8(text)).len()),
{
    lemma_bytes_roundtrip(s, at, encode_utf8(text));
    encode_utf8_valid_utf8(text);
    encode_utf8_decode_utf8(text);
}

/// A character of one byte that the encoder wrote reads back as itself. One
/// of more bytes does not: it is written as a string of as many bytes.
pub proof fn lemma_char_roundtrip(s: Seq<u8>, at: int, c: char)
    requires
        c as u32 <= 0x7f,
        holds_at(s, at, string_token(encode_utf8(seq![c]))),
    ensures
        character(s, at) == done(c, at + string_token(encode_utf8(seq![c])).len()),
{
    let text = seq![c];
    assert(is_ascii_chars(text));
    is_ascii_chars_encode_utf8(text);
    assert(encode_utf8(text) =~= seq![c as u8]);
    lemma_bytes_roundtrip(s, at, encode_utf8(text));
    assert((c as u8) as char == c);
}

/// A boolean that the encoder wrote reads back as itself.
pub proof fn lemma_bool_roundtrip(s: Seq<u8>, at: int, v: bool)
    requires
        holds_at(s, at, integer_token(if v { 1int } else { 0int })),
    ensures
        boolean(s, at) == done(v, at + 3),
{
    let token = integer_token(if v { 1int } else { 0int });
    assert(digits(1) =~= seq![(ZERO + 1) as u8]);
    assert(digits(0) =~= seq![ZERO]);
    assert(token.len() == 3);
    assert(s[at] == s.subrange(at, at + 3)[0]);
    assert(s[at + 1] == s.subrange(at, at + 3)[1]);
    assert(s[at + 2] == s.subrange(at, at + 3)[2]);
}

/// What stands in `s` as a whole stands there in its parts.
proof fn lemma_holds_split(s: Seq<u8>, at: int, a: Seq<u8>, b: Seq<u8>)
    requires
        holds_at(s, at, a + b),
    ensures
        holds_at(s, at, a),
        holds_at(s, at + a.len(), b),
{
    let whole = s.subrange(at, at + (a + b).len());
    assert(s.subrange(at, at + a.len()) =~= a) by {
        assert forall|i: int| 0 <= i < a.len() implies s[at + i] == a[i] by {
            assert(whole[i] == s[at + i]);
        }
    }
    assert(s.subrange(at + a.len(), at + a.len() + b.len()) =~= b) by {
        assert forall|i: int| 0 <= i < b.len() implies s[at + a.len() + i] == b[i] by {
            assert(whole[a.len() + i] == s[at + a.len() + i]);
        }
    }
}

/// A byte string token starts with a digit.
proof fn lemma_string_token_first(bytes: Seq<u8>)
    ensures
        string_token(bytes).len() >= 2,
        is_digit(string_token(bytes)[0]),
{
    lemma_digits_shape(bytes.len());
}

/// The bytes of a value start with the byte that tells its kind.
proof fn lemma_wire_first(tree: Tree)
    ensures
        tree.wire().len() >= 2,
        token_of(tree.wire()[0]) == Some(
            match tree {
                Tree::Integer(_) => Token::Integer,
                Tree::Bytes(_) => Token::ByteString,
                Tree::List(_) => Token::List,
                Tree::Dict(_) => Token::Dict,
            },
        ),
{
    match tree {
        Tree::Integer(_) => {},
        Tree::Bytes(bytes) => {
            lemma_string_token_first(bytes);
        },
        Tree::List(_) => {},
        Tree::Dict(_) => {},
    }
}

/// A value that the encoder wrote reads back as itself, and the cursor ends
/// right behind it.
pub proof fn lemma_value_roundtrip(s: Seq<u8>, at: int, tree: Tree)
    requires
        tree.fits(),
        holds_at(s, at, tree.wire()),
    ensures
        value_at(s, at) == done(tree, at + tree.wire().len()),
    decreases tree, 0nat,
{
    lemma_wire_first(tree);
    assert(s[at] == s.subrange(at, at + tree.wire().len())[0]);
    match tree {
        Tree::Integer(i) => {
            lemma_number_roundtrip::<i64>(s, at, i as int, i);
        },
        Tree::Bytes(bytes) => {
            lemma_bytes_roundtrip(s, at, bytes);
        },
        Tree::List(items) => {
            let body = wire_items(items, 0);
            assert(tree.wire() =~= seq![LIST] + (body + seq![END]));
            lemma_holds_split(s, at, seq![LIST], body + seq![END]);
            lemma_items_roundtrip(s, at + 1, items, 0);
            assert(items.subrange(0, items.len() as int) =~= items);
        },
        Tree::Dict(entries) => {
            let body = wire_entries(entries, 0);
            assert(tree.wire() =~= seq![DICT] + (body + seq![END]));
            lemma_holds_split(s, at, seq![DICT], body + seq![END]);
            lemma_entries_roundtrip(s, at + 1, entries, 0);
            assert(entries.subrange(0, entries.len() as int) =~= entries);
        },
    }
}

/// The items of a list that the encoder wrote read back as themselves, up
/// to the `e` behind them.
proof fn lemma_items_roundtrip(s: Seq<u8>, at: int, items: Seq<Tree>, from: int)
    requires
        0 <= from <= items.len(),
        forall|i: int| 0 <= i < items.len() ==> (#[trigger] items[i]).fits(),
        holds_at(s, at, wire_items(items, from) + seq![END]),
    ensures
        items_at(s, at) == done(
            items.subrange(from, items.len() as int),
            at + wire_items(items, from).len(),
        ),
    decreases items, items.len() - from,
{
    let whole = wire_items(items, from) + seq![END];
    assert(s[at] == s.subrange(at, at + whole.len())[0]);
    if from == items.len() {
        assert(items.subrange(from, items.len() as int) =~= Seq::<Tree>::empty());
    } else {
        let item = items[from];
        let rest = wire_items(items, from + 1);
        lemma_wire_first(item);
        assert(whole =~= item.wire() + (rest + seq![END]));
        lemma_holds_split(s, at, item.wire(), rest + seq![END]);
        lemma_value_roundtrip(s, at, item);
        lemma_items_roundtrip(s, at + item.wire().len(), items, from + 1);
        assert(seq![item] + items.subrange(from + 1, items.len() as int) =~= items.subrange(
            from,
            items.len() as int,
        ));
    }
}

/// The entries of a dictionary that the encoder wrote read back as
/// themselves and in their order, up to the `e` behind them.
proof fn lemma_entries_roundtrip(
    s: Seq<u8>,
    at: int,
    entries: Seq<(Seq<u8>, Tree)>,
    from: int,
)
    requires
        0 <= from <= entries.len(),
        forall|i: int|
            0 <= i < entries.len() ==> (#[trigger] entries[i]).0.len() <= usize::MAX
                && entries[i].1.fits(),
        holds_at(s, at, wire_entries(entries, from) + seq![END]),
    ensures
        entries_at(s, at) == done(
            entries.subrange(from, entries.len() as int),
            at + wire_entries(entries, from).len(),
        ),
    decreases entries, entries.len() - from,
{
    let whole = wire_entries(entries, from) + seq![END];
    assert(s[at] == s.subrange(at, at + whole.len())[0]);
    if from == entries.len() {
        assert(entries.subrange(from, entries.len() as int) =~= Seq::<(Seq<u8>, Tree)>::empty());
    } else {
        let entry = entries[from];
        let key = string_token(entry.0);
        let rest = wire_entries(entries, from + 1);
        lemma_string_token_first(entry.0);
        lemma_wire_first(entry.1);
        assert(whole =~= key + (entry.1.wire() + (rest + seq![END])));
        lemma_holds_split(s, at, key, entry.1.wire() + (rest + seq![END]));
        lemma_holds_split(s, at + key.len(), entry.1.wire(), rest + seq![END]);
        lemma_bytes_roundtrip(s, at, entry.0);
        lemma_value_roundtrip(s, at + key.len(), entry.1);
        lemma_entries_roundtrip(s, at + key.len() + entry.1.wire().len(), entries, from + 1);
        assert(seq![entry] + entries.subrange(from + 1, entries.len() as int)
            =~= entries.subrange(from, entries.len() as int));
    }
}

/// Every value in memory has byte strings of lengths that a `usize` holds.
pub proof fn lemma_value_fits(value: Value)
    ensures
        value@.fits(),
    decreases value,
{
    reveal_with_fuel(<Value as View>::view, 2);
    match value {
        Value::Integer(_) => {},
        Value::Bytes(bytes) => {
            assert(bytes@.len() == bytes.len());
        },
        Value::List(items) => {
            crate::value::lemma_view_list(items);
            assert forall|i: int| 0 <= i < items@.len() implies (#[trigger] trees(
                items@,
            )[i]).fits() by {
                lemma_value_fits(items@[i]);
            }
        },
        Value::Dict(entries) => {
            crate::value::lemma_view_dict(entries);
            assert forall|i: int| 0 <= i < entries@.len() implies (#[trigger] pairs(
                entries@,
            )[i]).0.len() <= usize::MAX && pairs(entries@)[i].1.fits() by {
                assert(entries@[i].0@.len() == entries@[i].0.len());
                lemma_value_fits(entries@[i].1);
            }
        },
    }
}

/// Decoding what encoding a value gives yields that value: the message is
/// read whole, and nothing is left over.
pub proof fn lemma_roundtrip(value: Value)
    ensures
        message(value@.wire()) == Ok::<Tree, ErrorContent>(value@),
{
    lemma_value_fits(value);
    let s = value@.wire();
    assert(s.subrange(0, s.len() as int) =~= s);
    lemma_value_roundtrip(s, 0, value@);
}

/// Where a value that the encoder wrote stands in an open list, the list has
/// one more element; where a key that it wrote stands in an open dictionary,
/// the dictionary has one more key.
pub proof fn lemma_written_follows(s: Seq<u8>, at: int, tree: Tree)
    requires
        holds_at(s, at, tree.wire()),
    ensures
        element_follows(s, at) == Ok::<bool, ErrorContent>(true),
        tree is Bytes ==> key_follows(s, at) == Ok::<bool, ErrorContent>(true),
{
    lemma_wire_first(tree);
    assert(s[at] == s.subrange(at, at + tree.wire().len())[0]);
}

/// The name of a variant without data that the encoder wrote opens an enum
/// as that name.
pub proof fn lemma_variant_name_roundtrip(s: Seq<u8>, at: int, name: Seq<char>)
    requires
        encode_utf8(name).len() <= usize::MAX,
        holds_at(s, at, string_token(encode_utf8(name))),
    ensures
        enum_opening(s, at) == done(Some(name), at + string_token(encode_utf8(name)).len()),
{
    lemma_string_token_first(encode_utf8(name));
    assert(s[at] == s.subrange(at, at + string_token(encode_utf8(name)).len())[0]);
    lemma_string_roundtrip(s, at, name);
}

/// An optional value at the end of a message reads back as itself: nothing
/// as absent, and what was written as the value that is there.
pub proof fn lemma_option_roundtrip(value: Option<Value>)
    ensures
        option_at(
            wire_option(
                match value {
                    Some(v) => Some(v@),
                    None => None,
                },
            ),
            0,
        ).result == Ok::<Option<Tree>, ErrorContent>(
            match value {
                Some(v) => Some(v@),
                None => None,
            },
        ),
{
    match value {
        Some(v) => {
            lemma_value_fits(v);
            let s = v@.wire();
            assert(s.subrange(0, s.len() as int) =~= s);
            lemma_value_roundtrip(s, 0, v@);
        },
        None => {},
    }
}

/// Values that differ are spelled differently. So a dictionary's bytes tell
/// the order of its entries: the encoder never sorts them.
pub proof fn lemma_wire_injective(a: Value, b: Value)
    requires
        a@.wire() == b@.wire(),
    ensures
        a@ == b@,
{
    lemma_roundtrip(a);
    lemma_roundtrip(b);
}

} // verus!
