//! The encoder: it appends the token of each value to its output, in the
//! order in which the values are handed to it.

use vstd::prelude::*;
use vstd::string::StringSliceAdditionalSpecFns;
use vstd::utf8::encode_utf8;
use crate::grammar::{COLON, DICT, END, INT, LIST, decimal, integer_token, string_token};

verus! {

/// An encoder that writes into a byte buffer.
pub struct Serializer {
    writer: Vec<u8>,
}

impl View for Serializer {
    type V = Seq<u8>;

    /// The bytes written so far.
    closed spec fn view(&self) -> Seq<u8> {
        self.writer@
    }
}

/// `itoa::Buffer::format` on an `i64`, which prints `v` in decimal.
#[verifier::external_body]
fn format_i64(v: i64) -> (r: Vec<u8>)
    ensures
        r@ == decimal(v as int),
{
    itoa::Buffer::new().format(v).as_bytes().to_vec()
}

/// `itoa::Buffer::format` on a `u64`, which prints `v` in decimal.
#[verifier::external_body]
fn format_u64(v: u64) -> (r: Vec<u8>)
    ensures
        r@ == decimal(v as int),
{
    itoa::Buffer::new().format(v).as_bytes().to_vec()
}

/// `itoa::Buffer::format` on a `usize`, which prints `v` in decimal.
#[verifier::external_body]
fn format_usize(v: usize) -> (r: Vec<u8>)
    ensures
        r@ == decimal(v as int),
{
    itoa::Buffer::new().format(v).as_bytes().to_vec()
}

/// `char::to_string`, which gives the string of the one character `c`.
#[verifier::external_body]
fn char_to_string(c: char) -> (r: String)
    ensures
        r@ == seq![c],
{
    c.to_string()
}

impl Serializer {
    /// An encoder that goes on after what `writer` holds.
    pub fn new(writer: Vec<u8>) -> (r: Self)
        ensures
            r@ == writer@,
    {
        Serializer { writer }
    }

    /// The bytes written.
    pub fn into_inner(self) -> (r: Vec<u8>)
        ensures
            r@ == self@,
    {
        self.writer
    }

    /// Appends `bytes` as they are.
    fn write_all(&mut self, bytes: &[u8])
        ensures
            final(self)@ == old(self)@ + bytes@,
    {
        let mut i: usize = 0;
        while i < bytes.len()
            invariant
                i <= bytes@.len(),
                self.writer@ == old(self)@ + bytes@.subrange(0, i as int),
            decreases bytes@.len() - i,
        {
            self.writer.push(bytes[i]);
            i += 1;
            assert(bytes@.subrange(0, i as int) =~= bytes@.subrange(0, i - 1).push(
                bytes@[i - 1],
            ));
        }
        assert(bytes@.subrange(0, i as int) =~= bytes@);
    }

    /// A boolean is the number 1 or 0.
    pub fn serialize_bool(&mut self, v: bool)
        ensures
            final(self)@ == old(self)@ + integer_token(if v { 1int } else { 0int }),
    {
        if v {
            self.serialize_i64(1)
        } else {
            self.serialize_i64(0)
        }
    }

    pub fn serialize_i8(&mut self, v: i8)
        ensures
            final(self)@ == old(self)@ + integer_token(v as int),
    {
        self.serialize_i64(i64::from(v))
    }

    pub fn serialize_i16(&mut self, v: i16)
        ensures
            final(self)@ == old(self)@ + integer_token(v as int),
    {
        self.serialize_i64(i64::from(v))
    }

    pub fn serialize_i32(&mut self, v: i32)
        ensures
            final(self)@ == old(self)@ + integer_token(v as int),
    {
        self.serialize_i64(i64::from(v))
    }

    /// A number is its decimal text between `i` and `e`.
    pub fn serialize_i64(&mut self, v: i64)
        ensures
            final(self)@ == old(self)@ + integer_token(v as int),
    {
        self.writer.push(INT);
        let text = format_i64(v);
        self.write_all(text.as_slice());
        self.writer.push(END);
        assert(self.writer@ =~= old(self)@ + integer_token(v as int));
    }

    pub fn serialize_u8(&mut self, v: u8)
        ensures
            final(self)@ == old(self)@ + integer_token(v as int),
    {
        self.serialize_u64(u64::from(v))
    }

    pub fn serialize_u16(&mut self, v: u16)
        ensures
            final(self)@ == old(self)@ + integer_token(v as int),
    {
        self.serialize_u64(u64::from(v))
    }

    pub fn serialize_u32(&mut self, v: u32)
        ensures
            final(self)@ == old(self)@ + integer_token(v as int),
    {
        self.serialize_u64(u64::from(v))
    }

    /// A number is its decimal text between `i` and `e`.
    pub fn serialize_u64(&mut self, v: u64)
        ensures
            final(self)@ == old(self)@ + integer_token(v as int),
    {
        self.writer.push(INT);
        let text = format_u64(v);
        self.write_all(text.as_slice());
        self.writer.push(END);
        assert(self.writer@ =~= old(self)@ + integer_token(v as int));
    }

    /// A character is the string of that one character: as many bytes as its
    /// UTF-8 form takes.
    pub fn serialize_char(&mut self, v: char)
        ensures
            final(self)@ == old(self)@ + string_token(encode_utf8(seq![v])),
    {
        let text = char_to_string(v);
        self.serialize_str(text.as_str())
    }

    /// A string is the byte string of its UTF-8 form.
    pub fn serialize_str(&mut self, v: &str)
        ensures
            final(self)@ == old(self)@ + string_token(v.spec_bytes()),
    {
        self.serialize_bytes(v.as_bytes())
    }

    /// A byte string is the count of its bytes in decimal, a `:`, and the
    /// bytes.
    pub fn serialize_bytes(&mut self, v: &[u8])
        ensures
            final(self)@ == old(self)@ + string_token(v@),
    {
        let length = format_usize(v.len());
        self.write_all(length.as_slice());
        self.writer.push(COLON);
        self.write_all(v);
        assert(self.writer@ =~= old(self)@ + string_token(v@));
    }

    /// An absent optional value takes no bytes.
    pub fn serialize_none(&mut self)
        ensures
            final(self)@ == old(self)@,
    {
        self.serialize_unit()
    }

    /// The unit value takes no bytes.
    pub fn serialize_unit(&mut self)
        ensures
            final(self)@ == old(self)@,
    {
    }

    /// A struct without fields takes no bytes.
    pub fn serialize_unit_struct(&mut self, _name: &str)
        ensures
            final(self)@ == old(self)@,
    {
        self.serialize_unit()
    }

    /// A variant without data is the string of its name.
    pub fn serialize_unit_variant(&mut self, _name: &str, _variant_index: u32, variant: &str)
        ensures
            final(self)@ == old(self)@ + string_token(variant.spec_bytes()),
    {
        self.serialize_str(variant)
    }

    /// Opens a variant of one value: a dictionary whose one key is the
    /// variant's name. The value follows, then [`Serializer::end`].
    pub fn serialize_newtype_variant(&mut self, _name: &str, _variant_index: u32, variant: &str)
        ensures
            final(self)@ == old(self)@ + seq![DICT] + string_token(variant.spec_bytes()),
    {
        self.writer.push(DICT);
        self.serialize_str(variant);
    }

    /// Opens a list. Its elements follow, then [`Serializer::end`].
    pub fn serialize_seq(&mut self, _len: Option<usize>)
        ensures
            final(self)@ == old(self)@ + seq![LIST],
    {
        self.writer.push(LIST);
        assert(self.writer@ =~= old(self)@ + seq![LIST]);
    }

    /// Opens a tuple, which is a list.
    pub fn serialize_tuple(&mut self, len: usize)
        ensures
            final(self)@ == old(self)@ + seq![LIST],
    {
        self.serialize_seq(Some(len))
    }

    /// Opens a tuple struct, which is a list.
    pub fn serialize_tuple_struct(&mut self, _name: &str, len: usize)
        ensures
            final(self)@ == old(self)@ + seq![LIST],
    {
        self.serialize_seq(Some(len))
    }

    /// Opens a tuple variant: a dictionary whose one key is the variant's
    /// name and whose value is the list of the fields. The fields follow,
    /// then [`Serializer::end_variant`].
    pub fn serialize_tuple_variant(
        &mut self,
        _name: &str,
        _variant_index: u32,
        variant: &str,
        _len: usize,
    )
        ensures
            final(self)@ == old(self)@ + seq![DICT] + string_token(variant.spec_bytes())
                + seq![LIST],
    {
        self.writer.push(DICT);
        self.serialize_str(variant);
        self.writer.push(LIST);
    }

    /// Opens a dictionary. Its keys and values follow in turn, then
    /// [`Serializer::end`].
    pub fn serialize_map(&mut self, _len: Option<usize>)
        ensures
            final(self)@ == old(self)@ + seq![DICT],
    {
        self.writer.push(DICT);
        assert(self.writer@ =~= old(self)@ + seq![DICT]);
    }

    /// Opens a struct, which is a dictionary keyed by the fields' names.
    pub fn serialize_struct(&mut self, _name: &str, len: usize)
        ensures
            final(self)@ == old(self)@ + seq![DICT],
    {
        self.serialize_map(Some(len))
    }

    /// Opens a struct variant: a dictionary whose one key is the variant's
    /// name and whose value is the dictionary of the fields. The fields
    /// follow, then [`Serializer::end_variant`].
    pub fn serialize_struct_variant(
        &mut self,
        _name: &str,
        _variant_index: u32,
        variant: &str,
        _len: usize,
    )
        ensures
            final(self)@ == old(self)@ + seq![DICT] + string_token(variant.spec_bytes())
                + seq![DICT],
    {
        self.writer.push(DICT);
        self.serialize_str(variant);
        self.writer.push(DICT);
    }

    /// Closes a list, a dictionary or a variant of one value.
    pub fn end(&mut self)
        ensures
            final(self)@ == old(self)@ + seq![END],
    {
        self.writer.push(END);
        assert(self.writer@ =~= old(self)@ + seq![END]);
    }

    /// Closes a tuple variant or a struct variant: the inner composite, then
    /// the dictionary around it.
    pub fn end_variant(&mut self)
        ensures
            final(self)@ == old(self)@ + seq![END, END],
    {
        self.writer.push(END);
        self.writer.push(END);
        assert(self.writer@ =~= old(self)@ + seq![END, END]);
    }
}

} // verus!
