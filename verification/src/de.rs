//! The decoder: a cursor over the input and one operation per shape.

use vstd::prelude::*;
use vstd::slice::{slice_subrange, slice_to_vec};
use vstd::string::StringSliceAdditionalSpecFns;
use vstd::utf8::{encode_utf8_decode_utf8, valid_utf8};
use crate::error::{Error, ErrorContent, ErrorKind, fault};
use crate::grammar::{
    COLON, DICT, END, INT, LIST, MINUS, NINE, ONE, ZERO, Scanned, Step, Token, accumulated, before,
    boolean, byte_string, character, closing, decimal_value, digits_end, element_follows,
    enum_opening, expected, expected_end, integer, is_digit, key_follows,
    lemma_byte_string_bounds, negated, number, opening, scan_digits, scan_integer, scan_number, string,
    terminator, token_at,
};
use crate::number::Integer;
use crate::value::{
    Tree, Value, after, entries_at, items_at, lemma_entries_bounds, lemma_items_bounds,
    lemma_value_bounds, lemma_view_dict, lemma_view_list, option_at, pairs, trees, value_at,
};

verus! {

/// A cursor over an input buffer. It only moves forward, and never past the
/// end of the input.
pub struct Deserializer<'de> {
    input: &'de [u8],
    index: usize,
}

/// Whether `r` is the outcome that `expected` describes.
pub open spec fn agrees<T>(r: Result<T, Error>, expected: Result<T, ErrorContent>) -> bool {
    match r {
        Ok(v) => expected == Ok::<T, ErrorContent>(v),
        Err(e) => expected == Err::<T, ErrorContent>(e@),
    }
}

/// Appending one more digit to a run multiplies the accumulator by ten and
/// adds the digit, both wrapping.
proof fn lemma_accumulated_push(s: Seq<u8>, from: int, to: int)
    requires
        0 <= from <= to < s.len(),
        is_digit(s[to]),
    ensures
        accumulated(s.subrange(from, to + 1)) == accumulated(s.subrange(from, to)).wrapping_mul(
            10,
        ).wrapping_add((s[to] - ZERO) as u64),
{
    let longer = s.subrange(from, to + 1);
    assert(longer.drop_last() =~= s.subrange(from, to));
    assert(longer.last() == s[to]);
}

impl<'de> Deserializer<'de> {
    #[verifier::type_invariant]
    spec fn within_input(self) -> bool {
        self.index <= self.input@.len()
    }

    /// The whole input.
    pub closed spec fn input(&self) -> Seq<u8> {
        self.input@
    }

    /// The offset of the next byte to read.
    pub closed spec fn offset(&self) -> int {
        self.index as int
    }

    /// Whether `after` is this cursor moved forward to `next` over the same
    /// input.
    pub open spec fn advanced_to(&self, after: &Self, next: int) -> bool {
        &&& after.input() == self.input()
        &&& after.offset() == next
        &&& 0 <= self.offset() <= next <= self.input().len()
    }

    /// Whether `r` and the cursor of `after` are what `step` says of a step
    /// taken from this cursor.
    pub open spec fn took<T>(&self, after: &Self, r: Result<T, Error>, step: Step<T>) -> bool {
        &&& self.advanced_to(after, step.next)
        &&& agrees(r, step.result)
    }

    /// The same for a result that `step` describes by what it denotes.
    pub open spec fn took_view<T: View>(
        &self,
        after: &Self,
        r: Result<T, Error>,
        step: Step<T::V>,
    ) -> bool {
        &&& self.advanced_to(after, step.next)
        &&& match r {
            Ok(v) => step.result == Ok::<T::V, ErrorContent>(v@),
            Err(e) => step.result == Err::<T::V, ErrorContent>(e@),
        }
    }

    /// A cursor at the start of `input`.
    pub fn new(input: &'de [u8]) -> (r: Self)
        ensures
            r.input() == input@,
            r.offset() == 0,
    {
        Deserializer { input, index: 0 }
    }

    /// Succeeds where the whole input has been consumed; what is left over
    /// is reported at the offset of its first byte.
    pub fn end(&mut self) -> (r: Result<(), Error>)
        ensures
            old(self).advanced_to(final(self), old(self).offset()),
            agrees(
                r,
                if old(self).offset() >= old(self).input().len() {
                    Ok(())
                } else {
                    Err(fault(ErrorKind::TrailingCharacters, old(self).offset()))
                },
            ),
    {
        proof {
            use_type_invariant(&*self);
        }
        if self.index >= self.input.len() {
            Ok(())
        } else {
            Err(Error::syntax(ErrorKind::TrailingCharacters, self.index))
        }
    }

    /// The next byte, left in place.
    pub fn peek_byte(&self) -> (r: Result<u8, Error>)
        ensures
            0 <= self.offset() <= self.input().len(),
            agrees(
                r,
                if self.offset() < self.input().len() {
                    Ok(self.input()[self.offset()])
                } else {
                    Err(fault(ErrorKind::Eof, self.offset()))
                },
            ),
    {
        proof {
            use_type_invariant(self);
        }
        if self.index < self.input.len() {
            Ok(self.input[self.index])
        } else {
            Err(Error::eof(self.index))
        }
    }

    /// The next byte, consumed.
    pub fn next_byte(&mut self) -> (r: Result<u8, Error>)
        ensures
            old(self).advanced_to(
                final(self),
                if old(self).offset() < old(self).input().len() {
                    old(self).offset() + 1
                } else {
                    old(self).offset()
                },
            ),
            agrees(
                r,
                if old(self).offset() < old(self).input().len() {
                    Ok(old(self).input()[old(self).offset()])
                } else {
                    Err(fault(ErrorKind::Eof, old(self).offset()))
                },
            ),
    {
        proof {
            use_type_invariant(&*self);
        }
        if self.index < self.input.len() {
            let b = self.input[self.index];
            self.index += 1;
            Ok(b)
        } else {
            Err(Error::eof(self.index))
        }
    }

    /// The fault `reason`, reported at the byte consumed last.
    pub fn error(&self, reason: ErrorKind) -> (r: Error)
        ensures
            r@ == fault(reason, before(self.offset())),
    {
        Error::syntax(reason, self.index.wrapping_sub(1))
    }

    /// The fault `reason`, reported at `index`.
    pub fn error_with_index(&self, reason: ErrorKind, index: usize) -> (r: Error)
        ensures
            r@ == fault(reason, index as int),
    {
        Error::syntax(reason, index)
    }

    /// Reads the digits after a first one, already consumed, up to the
    /// terminator.
    fn scan_digits(&mut self, first: u8, positive: bool, parsing_str: bool) -> (r: Result<
        Scanned,
        Error,
    >)
        requires
            0 < old(self).offset() <= old(self).input().len(),
            is_digit(first),
            old(self).input()[old(self).offset() - 1] == first,
        ensures
            old(self).took(
                final(self),
                r,
                scan_digits(old(self).input(), old(self).offset() - 1, positive, parsing_str),
            ),
    {
        let end: u8 = if parsing_str { COLON } else { END };
        let ghost from = self.index - 1;
        let mut n: u64 = (first - ZERO) as u64;
        proof {
            use_type_invariant(&*self);
            let one = self.input@.subrange(from, from + 1);
            assert(one.drop_last() =~= Seq::<u8>::empty());
            assert(decimal_value(one.drop_last()) == 0);
        }
        loop
            invariant
                self.input() == old(self).input(),
                from == old(self).offset() - 1,
                end == terminator(parsing_str),
                0 <= from < self.index <= self.input@.len(),
                forall|i: int| from <= i < self.index ==> is_digit(#[trigger] self.input@[i]),
                digits_end(self.input@, from) == digits_end(self.input@, self.index as int),
                n == accumulated(self.input@.subrange(from, self.index as int)),
            decreases self.input@.len() - self.index,
        {
            let ghost at = self.index as int;
            let c = self.next_byte()?;
            if ZERO <= c && c <= NINE {
                proof {
                    lemma_accumulated_push(self.input@, from, at);
                }
                n = n.wrapping_mul(10).wrapping_add((c - ZERO) as u64);
            } else if c == end {
                return Ok(Scanned { positive, digits: n });
            } else {
                return Err(self.error(expected_end_of(parsing_str)));
            }
        }
    }

    /// Scans one integer of the canonical grammar: an optional `-` (numbers
    /// only), then `0` alone or digits without a leading zero, then the
    /// terminator.
    pub fn scan_integer(&mut self, parsing_str: bool) -> (r: Result<Scanned, Error>)
        ensures
            old(self).took(
                final(self),
                r,
                scan_integer(old(self).input(), old(self).offset(), parsing_str),
            ),
    {
        proof {
            use_type_invariant(&*self);
        }
        let start_index = if parsing_str {
            self.index
        } else {
            self.index.wrapping_sub(1)
        };
        let end: u8 = if parsing_str { COLON } else { END };
        let first = self.next_byte()?;
        if first == MINUS {
            let c = self.peek_byte()?;
            if c == ZERO {
                self.next_byte()?;
                let d = self.peek_byte()?;
                if d == end {
                    Err(self.error_with_index(ErrorKind::MinusZero, start_index))
                } else if ZERO <= d && d <= NINE {
                    Err(self.error(ErrorKind::LeadingZero))
                } else {
                    Err(self.error_with_index(expected_of(parsing_str), start_index))
                }
            } else if parsing_str || c == MINUS {
                Err(self.error_with_index(expected_of(parsing_str), start_index))
            } else {
                let c = self.next_byte()?;
                if ZERO <= c && c <= NINE {
                    self.scan_digits(c, false, parsing_str)
                } else {
                    Err(self.error_with_index(expected_of(parsing_str), start_index))
                }
            }
        } else if first == ZERO {
            let c = self.peek_byte()?;
            if c == end {
                self.next_byte()?;
                Ok(Scanned { positive: true, digits: 0 })
            } else if ZERO <= c && c <= NINE {
                Err(self.error(ErrorKind::LeadingZero))
            } else {
                self.next_byte()?;
                Err(self.error(expected_end_of(parsing_str)))
            }
        } else if ZERO <= first && first <= NINE {
            self.scan_digits(first, true, parsing_str)
        } else {
            Err(self.error_with_index(expected_of(parsing_str), start_index))
        }
    }

    /// Reads one integer of the canonical grammar and fits it into `T`.
    pub fn parse_integer<T: Integer>(&mut self, parsing_str: bool) -> (r: Result<T, Error>)
        ensures
            old(self).took(
                final(self),
                r,
                integer::<T>(old(self).input(), old(self).offset(), parsing_str),
            ),
    {
        let start_index = if parsing_str {
            self.index
        } else {
            self.index.wrapping_sub(1)
        };
        let token = self.scan_integer(parsing_str)?;
        let fitted = if token.positive {
            T::from_u64(token.digits)
        } else {
            T::from_i64(token.negation())
        };
        match fitted {
            Some(v) => Ok(v),
            None => Err(self.error_with_index(ErrorKind::IntegerOutOfRange, start_index)),
        }
    }

    /// Scans a number token, `i` to `e`, without fitting it into a type.
    pub fn scan_number(&mut self) -> (r: Result<Scanned, Error>)
        ensures
            old(self).took(final(self), r, scan_number(old(self).input(), old(self).offset())),
    {
        if self.next_byte()? != INT {
            return Err(self.error(ErrorKind::ExpectedInteger));
        }
        self.scan_integer(false)
    }

    /// Reads a number token, `i` to `e`, as a `T`.
    pub fn parse_number<T: Integer>(&mut self) -> (r: Result<T, Error>)
        ensures
            old(self).took(final(self), r, number::<T>(old(self).input(), old(self).offset())),
    {
        if self.next_byte()? != INT {
            return Err(self.error(ErrorKind::ExpectedInteger));
        }
        self.parse_integer(false)
    }

    /// Reads a byte string and hands out its bytes, which stay in the input.
    pub fn parse_bytes(&mut self) -> (r: Result<&'de [u8], Error>)
        ensures
            old(self).took_view(
                final(self),
                r,
                byte_string(old(self).input(), old(self).offset()),
            ),
    {
        let length: usize = self.parse_integer(true)?;
        proof {
            use_type_invariant(&*self);
        }
        if length > self.input.len() - self.index {
            return Err(Error::eof(self.input.len()));
        }
        let s = slice_subrange(self.input, self.index, self.index + length);
        self.index += length;
        Ok(s)
    }

    /// Reads a boolean, which is spelled `i1e` or `i0e` and nothing else.
    pub fn parse_bool(&mut self) -> (r: Result<bool, Error>)
        ensures
            old(self).took(final(self), r, boolean(old(self).input(), old(self).offset())),
    {
        proof {
            use_type_invariant(&*self);
        }
        let tag = self.next_byte()?;
        let digit = self.next_byte()?;
        let end = self.next_byte()?;
        if tag == INT && digit == ONE && end == END {
            Ok(true)
        } else if tag == INT && digit == ZERO && end == END {
            Ok(false)
        } else {
            Err(self.error(ErrorKind::ExpectedBoolean))
        }
    }

    /// Reads a string and hands it out; it stays in the input.
    pub fn parse_str(&mut self) -> (r: Result<&'de str, Error>)
        ensures
            old(self).took_view(final(self), r, string(old(self).input(), old(self).offset())),
    {
        let bytes = self.parse_bytes()?;
        match utf8_str(bytes) {
            Some(text) => {
                proof {
                    encode_utf8_decode_utf8(text@);
                }
                Ok(text)
            },
            None => Err(self.error(ErrorKind::StringNotUtf8)),
        }
    }

    /// Reads a character, which is spelled as a byte string of one byte.
    pub fn parse_char(&mut self) -> (r: Result<char, Error>)
        ensures
            old(self).took(final(self), r, character(old(self).input(), old(self).offset())),
    {
        let ch = self.parse_bytes()?;
        if ch.len() == 1 {
            Ok(ch[0] as char)
        } else {
            Err(self.error(ErrorKind::ExpectedChar))
        }
    }

    /// The kind of the value that comes next, by its first byte.
    pub fn peek_token(&self) -> (r: Result<Token, Error>)
        ensures
            0 <= self.offset() <= self.input().len(),
            agrees(r, token_at(self.input(), self.offset())),
    {
        let b = self.peek_byte()?;
        if b == INT {
            Ok(Token::Integer)
        } else if ZERO <= b && b <= NINE {
            Ok(Token::ByteString)
        } else if b == LIST {
            Ok(Token::List)
        } else if b == DICT {
            Ok(Token::Dict)
        } else {
            Err(self.error(ErrorKind::ExpectedSomeValue))
        }
    }

    /// Reads the unit value, which takes no bytes: this always succeeds and
    /// consumes nothing.
    pub fn parse_unit(&mut self) -> (r: Result<(), Error>)
        ensures
            *final(self) == *old(self),
            r is Ok,
    {
        Ok(())
    }

    /// Whether an optional value is there: it is wherever input is left.
    pub fn is_present(&self) -> (r: bool)
        ensures
            0 <= self.offset() <= self.input().len(),
            r == (self.offset() < self.input().len()),
    {
        self.peek_byte().is_ok()
    }

    /// Consumes the `l` that opens a list.
    pub fn begin_seq(&mut self) -> (r: Result<(), Error>)
        ensures
            old(self).took(
                final(self),
                r,
                opening(old(self).input(), old(self).offset(), LIST, ErrorKind::ExpectedList),
            ),
    {
        if self.next_byte()? == LIST {
            Ok(())
        } else {
            Err(self.error(ErrorKind::ExpectedList))
        }
    }

    /// Consumes the `d` that opens a dictionary.
    pub fn begin_map(&mut self) -> (r: Result<(), Error>)
        ensures
            old(self).took(
                final(self),
                r,
                opening(old(self).input(), old(self).offset(), DICT, ErrorKind::ExpectedDict),
            ),
    {
        if self.next_byte()? == DICT {
            Ok(())
        } else {
            Err(self.error(ErrorKind::ExpectedDict))
        }
    }

    /// Consumes the `e` that closes a list, a dictionary or the dictionary
    /// form of an enum.
    pub fn expect_end(&mut self) -> (r: Result<(), Error>)
        ensures
            old(self).took(final(self), r, closing(old(self).input(), old(self).offset())),
    {
        if self.next_byte()? != END {
            Err(self.error(ErrorKind::ExpectedEnd))
        } else {
            Ok(())
        }
    }

    /// Whether the list that is open here has one more element.
    pub fn has_next_element(&self) -> (r: Result<bool, Error>)
        ensures
            0 <= self.offset() <= self.input().len(),
            agrees(r, element_follows(self.input(), self.offset())),
    {
        let b = self.peek_byte()?;
        if b == END {
            Ok(false)
        } else if b == LIST || b == DICT || b == INT || (ZERO <= b && b <= NINE) {
            Ok(true)
        } else {
            Err(self.error_with_index(ErrorKind::ExpectedEnd, self.index))
        }
    }

    /// Whether the dictionary that is open here has one more key.
    pub fn has_next_key(&self) -> (r: Result<bool, Error>)
        ensures
            0 <= self.offset() <= self.input().len(),
            agrees(r, key_follows(self.input(), self.offset())),
    {
        let b = self.peek_byte()?;
        if b == END {
            Ok(false)
        } else if ZERO <= b && b <= NINE {
            Ok(true)
        } else {
            Err(self.error(ErrorKind::KeyMustBeAString))
        }
    }

    /// Opens an enum. A string names a variant without data and is handed
    /// out; a `d` is consumed, and the variant's name, its data and the
    /// closing `e` follow.
    pub fn begin_enum(&mut self) -> (r: Result<Option<&'de str>, Error>)
        ensures
            old(self).advanced_to(
                final(self),
                enum_opening(old(self).input(), old(self).offset()).next,
            ),
            match r {
                Ok(Some(name)) => enum_opening(old(self).input(), old(self).offset()).result
                    == Ok::<Option<Seq<char>>, ErrorContent>(Some(name@)),
                Ok(None) => enum_opening(old(self).input(), old(self).offset()).result == Ok::<
                    Option<Seq<char>>,
                    ErrorContent,
                >(None),
                Err(e) => enum_opening(old(self).input(), old(self).offset()).result == Err::<
                    Option<Seq<char>>,
                    ErrorContent,
                >(e@),
            },
    {
        let b = self.peek_byte()?;
        if ZERO <= b && b <= NINE {
            let name = self.parse_str()?;
            Ok(Some(name))
        } else if b == DICT {
            self.next_byte()?;
            Ok(None)
        } else {
            Err(self.error(ErrorKind::ExpectedEnum))
        }
    }

    /// Reads one value of whatever kind comes next.
    pub fn parse_value(&mut self) -> (r: Result<Value, Error>)
        ensures
            old(self).took_view(final(self), r, value_at(old(self).input(), old(self).offset())),
        decreases old(self).input().len() - old(self).offset(), 0nat,
    {
        match self.peek_token()? {
            Token::Integer => {
                let i = self.parse_number::<i64>()?;
                Ok(Value::Integer(i))
            },
            Token::ByteString => {
                let bytes = self.parse_bytes()?;
                Ok(Value::Bytes(slice_to_vec(bytes)))
            },
            Token::List => {
                let ghost s = self.input();
                self.begin_seq()?;
                proof {
                    lemma_items_bounds(s, self.offset());
                }
                let items = self.parse_items()?;
                self.expect_end()?;
                proof {
                    lemma_view_list(items);
                }
                Ok(Value::List(items))
            },
            Token::Dict => {
                let ghost s = self.input();
                self.begin_map()?;
                proof {
                    lemma_entries_bounds(s, self.offset());
                }
                let entries = self.parse_entries()?;
                self.expect_end()?;
                proof {
                    lemma_view_dict(entries);
                }
                Ok(Value::Dict(entries))
            },
        }
    }

    /// Reads an optional value: it is absent where the input has ended.
    pub fn parse_option(&mut self) -> (r: Result<Option<Value>, Error>)
        ensures
            old(self).advanced_to(
                final(self),
                option_at(old(self).input(), old(self).offset()).next,
            ),
            match r {
                Ok(Some(value)) => option_at(old(self).input(), old(self).offset()).result
                    == Ok::<Option<Tree>, ErrorContent>(Some(value@)),
                Ok(None) => option_at(old(self).input(), old(self).offset()).result == Ok::<
                    Option<Tree>,
                    ErrorContent,
                >(None),
                Err(e) => option_at(old(self).input(), old(self).offset()).result == Err::<
                    Option<Tree>,
                    ErrorContent,
                >(e@),
            },
    {
        if self.is_present() {
            let value = self.parse_value()?;
            Ok(Some(value))
        } else {
            Ok(None)
        }
    }

    /// Reads the items of the list that is open here, up to the `e` that
    /// closes it.
    #[verifier::loop_isolation(false)]
    fn parse_items(&mut self) -> (r: Result<Vec<Value>, Error>)
        ensures
            old(self).advanced_to(
                final(self),
                items_at(old(self).input(), old(self).offset()).next,
            ),
            match r {
                Ok(items) => items_at(old(self).input(), old(self).offset()).result == Ok::<
                    Seq<Tree>,
                    ErrorContent,
                >(trees(items@)),
                Err(e) => items_at(old(self).input(), old(self).offset()).result == Err::<
                    Seq<Tree>,
                    ErrorContent,
                >(e@),
            },
        decreases old(self).input().len() - old(self).offset(), 1nat,
    {
        proof {
            use_type_invariant(&*self);
        }
        let ghost s = self.input();
        let ghost start = self.offset();
        let mut items: Vec<Value> = Vec::new();
        assert(trees(items@) =~= Seq::<Tree>::empty());
        loop
            invariant
                self.input() == s,
                0 <= start <= self.offset() <= s.len(),
                items_at(s, start).next == items_at(s, self.offset()).next,
                items_at(s, start).result == after(
                    trees(items@),
                    items_at(s, self.offset()).result,
                ),
            decreases s.len() - self.offset(),
        {
            let ghost here = self.offset();
            let ghost found = trees(items@);
            if !self.has_next_element()? {
                assert(found + Seq::<Tree>::empty() =~= found);
                return Ok(items);
            }
            let item = self.parse_value()?;
            items.push(item);
            proof {
                lemma_value_bounds(s, here);
                assert(trees(items@) =~= found + seq![item@]);
                let rest = items_at(s, self.offset()).result;
                if rest is Ok {
                    assert(found + (seq![item@] + rest->Ok_0) =~= (found + seq![item@])
                        + rest->Ok_0);
                }
            }
        }
    }

    /// Reads the entries of the dictionary that is open here, up to the `e`
    /// that closes it.
    #[verifier::loop_isolation(false)]
    fn parse_entries(&mut self) -> (r: Result<Vec<(Vec<u8>, Value)>, Error>)
        ensures
            old(self).advanced_to(
                final(self),
                entries_at(old(self).input(), old(self).offset()).next,
            ),
            match r {
                Ok(entries) => entries_at(old(self).input(), old(self).offset()).result == Ok::<
                    Seq<(Seq<u8>, Tree)>,
                    ErrorContent,
                >(pairs(entries@)),
                Err(e) => entries_at(old(self).input(), old(self).offset()).result == Err::<
                    Seq<(Seq<u8>, Tree)>,
                    ErrorContent,
                >(e@),
            },
        decreases old(self).input().len() - old(self).offset(), 1nat,
    {
        proof {
            use_type_invariant(&*self);
        }
        let ghost s = self.input();
        let ghost start = self.offset();
        let mut entries: Vec<(Vec<u8>, Value)> = Vec::new();
        assert(pairs(entries@) =~= Seq::<(Seq<u8>, Tree)>::empty());
        loop
            invariant
                self.input() == s,
                0 <= start <= self.offset() <= s.len(),
                entries_at(s, start).next == entries_at(s, self.offset()).next,
                entries_at(s, start).result == after(
                    pairs(entries@),
                    entries_at(s, self.offset()).result,
                ),
            decreases s.len() - self.offset(),
        {
            let ghost here = self.offset();
            let ghost found = pairs(entries@);
            if !self.has_next_key()? {
                assert(found + Seq::<(Seq<u8>, Tree)>::empty() =~= found);
                return Ok(entries);
            }
            proof {
                lemma_byte_string_bounds(s, here);
            }
            let key = self.parse_bytes()?;
            let ghost there = self.offset();
            proof {
                lemma_value_bounds(s, there);
            }
            let value = self.parse_value()?;
            let name = slice_to_vec(key);
            let ghost entry = (name@, value@);
            entries.push((name, value));
            proof {
                assert(pairs(entries@) =~= found + seq![entry]);
                let rest = entries_at(s, self.offset()).result;
                if rest is Ok {
                    assert(found + (seq![entry] + rest->Ok_0) =~= (found + seq![entry])
                        + rest->Ok_0);
                }
            }
        }
    }
}

/// `std::str::from_utf8`, which gives the string that `bytes` spell where
/// they are valid UTF-8 and nothing where they are not.
#[verifier::external_body]
fn utf8_str<'a>(bytes: &'a [u8]) -> (r: Option<&'a str>)
    ensures
        r is Some <==> valid_utf8(bytes@),
        r is Some ==> r->Some_0.spec_bytes() == bytes@,
{
    std::str::from_utf8(bytes).ok()
}

/// The fault for a token that does not start as it should.
fn expected_of(parsing_str: bool) -> (r: ErrorKind)
    ensures
        r == expected(parsing_str),
{
    if parsing_str {
        ErrorKind::ExpectedString
    } else {
        ErrorKind::ExpectedInteger
    }
}

/// The fault for a byte that is neither a digit nor the terminator.
fn expected_end_of(parsing_str: bool) -> (r: ErrorKind)
    ensures
        r == expected_end(parsing_str),
{
    if parsing_str {
        ErrorKind::ExpectedStringDelim
    } else {
        ErrorKind::ExpectedEnd
    }
}

} // verus!
