//! The wire grammar as mathematics: what each token spells and what reading
//! one from a given offset yields.
//!
//! ```text
//! integer    := 'i' ('-' digit1-9 digit* | '0' | digit1-9 digit*) 'e'
//! bytestring := length ':' raw-bytes
//! list       := 'l' value* 'e'
//! dict       := 'd' (bytestring value)* 'e'
//! ```

use vstd::prelude::*;
use vstd::utf8::{decode_utf8, valid_utf8};
use crate::error::{ErrorContent, ErrorKind, fault};
use crate::number::Integer;

verus! {

/// What one step of decoding does: the value read or the fault found, and the
/// offset at which the cursor is left.
pub struct Step<T> {
    pub result: Result<T, ErrorContent>,
    pub next: int,
}

/// A step that reads `value` and leaves the cursor at `next`.
pub open spec fn done<T>(value: T, next: int) -> Step<T> {
    Step { result: Ok(value), next }
}

/// A step that fails with `kind`, reported at `index`, and leaves the cursor
/// at `next`.
pub open spec fn failed<T>(kind: ErrorKind, index: int, next: int) -> Step<T> {
    Step { result: Err(fault(kind, index)), next }
}

/// `-`, the sign of a negative number.
pub const MINUS: u8 = 0x2d;

/// `0`, the first of the digits.
pub const ZERO: u8 = 0x30;

/// `1`, the digit of the boolean `true`.
pub const ONE: u8 = 0x31;

/// `9`, the last of the digits.
pub const NINE: u8 = 0x39;

/// `:`, which closes a length prefix.
pub const COLON: u8 = 0x3a;

/// `d`, which opens a dictionary.
pub const DICT: u8 = 0x64;

/// `e`, which closes a number, a list and a dictionary.
pub const END: u8 = 0x65;

/// `i`, which opens a number.
pub const INT: u8 = 0x69;

/// `l`, which opens a list.
pub const LIST: u8 = 0x6c;

/// Whether `b` is one of the digits `0` to `9`.
pub open spec fn is_digit(b: u8) -> bool {
    ZERO <= b <= NINE
}

/// The decimal digits of `n`, the most significant first, with no leading
/// zero but for zero itself.
pub open spec fn digits(n: nat) -> Seq<u8>
    decreases n,
{
    if n < 10 {
        seq![(ZERO + n) as u8]
    } else {
        digits(n / 10).push((ZERO + n % 10) as u8)
    }
}

/// The decimal text of `i`: its digits, after a `-` where it is negative.
pub open spec fn decimal(i: int) -> Seq<u8> {
    if i < 0 {
        seq![MINUS] + digits((-i) as nat)
    } else {
        digits(i as nat)
    }
}

/// The number token of `i`: its decimal text between `i` and `e`.
pub open spec fn integer_token(i: int) -> Seq<u8> {
    seq![INT] + decimal(i) + seq![END]
}

/// The byte string token of `bytes`: their count in decimal, a `:`, and
/// the bytes themselves.
pub open spec fn string_token(bytes: Seq<u8>) -> Seq<u8> {
    decimal(bytes.len() as int) + seq![COLON] + bytes
}

/// The offset that errors about the byte consumed last are reported at: the
/// one before `at`. With nothing consumed the subtraction wraps.
pub open spec fn before(at: int) -> int {
    if at > 0 {
        at - 1
    } else {
        usize::MAX as int
    }
}

/// The first offset from `from` on whose byte is not a digit; the length of
/// `s` where digits run to its end.
pub open spec fn digits_end(s: Seq<u8>, from: int) -> int
    decreases s.len() - from,
{
    if 0 <= from < s.len() && is_digit(s[from]) {
        digits_end(s, from + 1)
    } else {
        from
    }
}

/// The number that the decimal digits `s` spell; 0 for none.
pub open spec fn decimal_value(s: Seq<u8>) -> nat
    decreases s.len(),
{
    if s.len() == 0 {
        0
    } else {
        decimal_value(s.drop_last()) * 10 + (s.last() - ZERO) as nat
    }
}

/// What a 64-bit accumulator holds after the digits `s`: their number, less
/// the multiples of 2^64 that did not fit.
pub open spec fn accumulated(s: Seq<u8>) -> u64 {
    (decimal_value(s) % 0x1_0000_0000_0000_0000) as u64
}

/// The accumulator `n` read as a signed 64-bit number and negated in two's
/// complement: the number from -2^63 up to 2^63 - 1 that differs from `-n` by
/// a multiple of 2^64.
pub open spec fn negated(n: u64) -> int {
    let r = (0x1_0000_0000_0000_0000 - n) % 0x1_0000_0000_0000_0000;
    if r >= 0x8000_0000_0000_0000 {
        r - 0x1_0000_0000_0000_0000
    } else {
        r
    }
}

/// An integer as scanned, before it is fitted into a type: whether it had no
/// sign, and what the accumulator held at the terminator.
#[derive(Debug, Clone, Copy, PartialEq, Eq)]
pub struct Scanned {
    pub positive: bool,
    pub digits: u64,
}

impl Scanned {
    /// The integer that the token is taken for.
    pub open spec fn value(self) -> int {
        if self.positive {
            self.digits as int
        } else {
            negated(self.digits)
        }
    }

    /// The digits of a token with a sign, read as a signed number and
    /// negated, wrapping.
    pub fn negation(&self) -> (r: i64)
        ensures
            r == negated(self.digits),
    {
        let n = self.digits;
        let signed: i64 = #[verifier::truncate] (n as i64);
        assert(n < 0x8000_0000_0000_0000u64 ==> signed == n) by (bit_vector)
            requires
                signed == n as i64,
        ;
        assert(n >= 0x8000_0000_0000_0000u64 ==> signed < 0 && (signed
            + 0x7fff_ffff_ffff_ffffi64 + 1i64) as u64 == n - 0x8000_0000_0000_0000u64)
            by (bit_vector)
            requires
                signed == n as i64,
        ;
        0i64.wrapping_sub(signed)
    }
}

/// The byte that closes a number (`e`) or a length prefix (`:`).
pub open spec fn terminator(parsing_str: bool) -> u8 {
    if parsing_str {
        COLON
    } else {
        END
    }
}

/// The fault for a token that does not start as it should.
pub open spec fn expected(parsing_str: bool) -> ErrorKind {
    if parsing_str {
        ErrorKind::ExpectedString
    } else {
        ErrorKind::ExpectedInteger
    }
}

/// The fault for a byte that is neither a digit nor the terminator.
pub open spec fn expected_end(parsing_str: bool) -> ErrorKind {
    if parsing_str {
        ErrorKind::ExpectedStringDelim
    } else {
        ErrorKind::ExpectedEnd
    }
}

/// Where faults about a token as a whole are reported: a length prefix's
/// first byte, a number's leading `i`.
pub open spec fn token_start(at: int, parsing_str: bool) -> int {
    if parsing_str {
        at
    } else {
        before(at)
    }
}

/// Scanning the digits that start at `from` (the first of them not `0`) up to
/// the terminator.
pub open spec fn scan_digits(s: Seq<u8>, from: int, positive: bool, parsing_str: bool) -> Step<
    Scanned,
> {
    let stop = digits_end(s, from);
    if stop >= s.len() {
        failed(ErrorKind::Eof, s.len() as int, s.len() as int)
    } else if s[stop] == terminator(parsing_str) {
        done(Scanned { positive, digits: accumulated(s.subrange(from, stop)) }, stop + 1)
    } else {
        failed(expected_end(parsing_str), stop, stop + 1)
    }
}

/// Scanning what follows a leading `-` at `at`.
pub open spec fn scan_negative(s: Seq<u8>, at: int, parsing_str: bool) -> Step<Scanned> {
    let start = token_start(at, parsing_str);
    if at + 1 >= s.len() {
        failed(ErrorKind::Eof, s.len() as int, s.len() as int)
    } else if s[at + 1] == ZERO {
        if at + 2 >= s.len() {
            failed(ErrorKind::Eof, s.len() as int, s.len() as int)
        } else if s[at + 2] == terminator(parsing_str) {
            failed(ErrorKind::MinusZero, start, at + 2)
        } else if is_digit(s[at + 2]) {
            failed(ErrorKind::LeadingZero, at + 1, at + 2)
        } else {
            failed(expected(parsing_str), start, at + 2)
        }
    } else if parsing_str || s[at + 1] == MINUS {
        failed(expected(parsing_str), start, at + 1)
    } else if is_digit(s[at + 1]) {
        scan_digits(s, at + 1, false, parsing_str)
    } else {
        failed(expected(parsing_str), start, at + 2)
    }
}

/// Scanning one integer of the canonical grammar from `at`: the body of a
/// number (its `i` consumed, closed by `e`), or a length prefix (closed by
/// `:`, and never signed).
pub open spec fn scan_integer(s: Seq<u8>, at: int, parsing_str: bool) -> Step<Scanned> {
    let start = token_start(at, parsing_str);
    if at >= s.len() {
        failed(ErrorKind::Eof, s.len() as int, s.len() as int)
    } else if s[at] == MINUS {
        scan_negative(s, at, parsing_str)
    } else if s[at] == ZERO {
        if at + 1 >= s.len() {
            failed(ErrorKind::Eof, s.len() as int, s.len() as int)
        } else if s[at + 1] == terminator(parsing_str) {
            done(Scanned { positive: true, digits: 0 }, at + 2)
        } else if is_digit(s[at + 1]) {
            failed(ErrorKind::LeadingZero, at, at + 1)
        } else {
            failed(expected_end(parsing_str), at + 1, at + 2)
        }
    } else if is_digit(s[at]) {
        scan_digits(s, at, true, parsing_str)
    } else {
        failed(expected(parsing_str), start, at + 1)
    }
}

/// Reading one integer as a `T`: the scan, then the fit into `T`'s range. A
/// number that does not fit is reported at the start of its token.
pub open spec fn integer<T: Integer>(s: Seq<u8>, at: int, parsing_str: bool) -> Step<T> {
    let scan = scan_integer(s, at, parsing_str);
    match scan.result {
        Ok(token) => match T::of(token.value()) {
            Some(v) => done(v, scan.next),
            None => failed(
                ErrorKind::IntegerOutOfRange,
                token_start(at, parsing_str),
                scan.next,
            ),
        },
        Err(e) => Step { result: Err(e), next: scan.next },
    }
}

/// Scanning a number token, `i` to `e`.
pub open spec fn scan_number(s: Seq<u8>, at: int) -> Step<Scanned> {
    if at >= s.len() {
        failed(ErrorKind::Eof, s.len() as int, s.len() as int)
    } else if s[at] != INT {
        failed(ErrorKind::ExpectedInteger, at, at + 1)
    } else {
        scan_integer(s, at + 1, false)
    }
}

/// Reading a number token, `i` to `e`, as a `T`.
pub open spec fn number<T: Integer>(s: Seq<u8>, at: int) -> Step<T> {
    if at >= s.len() {
        failed(ErrorKind::Eof, s.len() as int, s.len() as int)
    } else if s[at] != INT {
        failed(ErrorKind::ExpectedInteger, at, at + 1)
    } else {
        integer::<T>(s, at + 1, false)
    }
}

/// Reading a byte string: the length prefix, then as many raw bytes. A
/// length that the rest of the input cannot supply is reported at the end of
/// the input.
pub open spec fn byte_string(s: Seq<u8>, at: int) -> Step<Seq<u8>> {
    let prefix = integer::<usize>(s, at, true);
    match prefix.result {
        Ok(length) => if length > s.len() - prefix.next {
            failed(ErrorKind::Eof, s.len() as int, prefix.next)
        } else {
            done(s.subrange(prefix.next, prefix.next + length), prefix.next + length)
        },
        Err(e) => Step { result: Err(e), next: prefix.next },
    }
}

/// Reading a boolean: exactly `i1e` or `i0e`. Any other three bytes are
/// reported at the last of them.
pub open spec fn boolean(s: Seq<u8>, at: int) -> Step<bool> {
    if at + 3 > s.len() {
        failed(ErrorKind::Eof, s.len() as int, s.len() as int)
    } else if s[at] == INT && s[at + 1] == ONE && s[at + 2] == END {
        done(true, at + 3)
    } else if s[at] == INT && s[at + 1] == ZERO && s[at + 2] == END {
        done(false, at + 3)
    } else {
        failed(ErrorKind::ExpectedBoolean, at + 2, at + 3)
    }
}

/// Reading a string: a byte string whose bytes are valid UTF-8. One that is
/// not is reported at its last byte.
pub open spec fn string(s: Seq<u8>, at: int) -> Step<Seq<char>> {
    let raw = byte_string(s, at);
    match raw.result {
        Ok(bytes) => if valid_utf8(bytes) {
            done(decode_utf8(bytes), raw.next)
        } else {
            failed(ErrorKind::StringNotUtf8, before(raw.next), raw.next)
        },
        Err(e) => Step { result: Err(e), next: raw.next },
    }
}

/// Reading a character: a byte string of exactly one byte, taken as the
/// character with that code. Any other length is reported at the string's
/// last byte.
pub open spec fn character(s: Seq<u8>, at: int) -> Step<char> {
    let raw = byte_string(s, at);
    match raw.result {
        Ok(bytes) => if bytes.len() == 1 {
            done(bytes[0] as char, raw.next)
        } else {
            failed(ErrorKind::ExpectedChar, before(raw.next), raw.next)
        },
        Err(e) => Step { result: Err(e), next: raw.next },
    }
}

/// The kinds of value, each known by its first byte.
#[derive(Debug, Clone, Copy, PartialEq, Eq)]
pub enum Token {
    /// `i`: a number.
    Integer,
    /// A digit: a byte string.
    ByteString,
    /// `l`: a list.
    List,
    /// `d`: a dictionary.
    Dict,
}

/// The kind of value that starts with the byte `b`, if any does.
pub open spec fn token_of(b: u8) -> Option<Token> {
    if b == INT {
        Some(Token::Integer)
    } else if is_digit(b) {
        Some(Token::ByteString)
    } else if b == LIST {
        Some(Token::List)
    } else if b == DICT {
        Some(Token::Dict)
    } else {
        None
    }
}

/// The kind of the value that starts at `at`. A byte that starts none is
/// reported at the byte before it.
pub open spec fn token_at(s: Seq<u8>, at: int) -> Result<Token, ErrorContent> {
    if at >= s.len() {
        Err(fault(ErrorKind::Eof, s.len() as int))
    } else {
        match token_of(s[at]) {
            Some(token) => Ok(token),
            None => Err(fault(ErrorKind::ExpectedSomeValue, before(at))),
        }
    }
}

/// Consuming the byte `tag` that opens a composite. Any other byte is
/// consumed too, and reported as `otherwise` at its own offset.
pub open spec fn opening(s: Seq<u8>, at: int, tag: u8, otherwise: ErrorKind) -> Step<()> {
    if at >= s.len() {
        failed(ErrorKind::Eof, s.len() as int, s.len() as int)
    } else if s[at] == tag {
        done((), at + 1)
    } else {
        failed(otherwise, at, at + 1)
    }
}

/// Consuming the `e` that closes a composite.
pub open spec fn closing(s: Seq<u8>, at: int) -> Step<()> {
    opening(s, at, END, ErrorKind::ExpectedEnd)
}

/// Whether a list that is open at `at` has one more element: it has none at
/// `e`, and one where a value starts. Any other byte is reported at its own
/// offset.
pub open spec fn element_follows(s: Seq<u8>, at: int) -> Result<bool, ErrorContent> {
    if at >= s.len() {
        Err(fault(ErrorKind::Eof, s.len() as int))
    } else if s[at] == END {
        Ok(false)
    } else if token_of(s[at]) is Some {
        Ok(true)
    } else {
        Err(fault(ErrorKind::ExpectedEnd, at))
    }
}

/// Whether a dictionary that is open at `at` has one more key: it has none
/// at `e`, and one where a byte string starts. Any other byte is reported at
/// the byte before it: a key is never anything but a string.
pub open spec fn key_follows(s: Seq<u8>, at: int) -> Result<bool, ErrorContent> {
    if at >= s.len() {
        Err(fault(ErrorKind::Eof, s.len() as int))
    } else if s[at] == END {
        Ok(false)
    } else if is_digit(s[at]) {
        Ok(true)
    } else {
        Err(fault(ErrorKind::KeyMustBeAString, before(at)))
    }
}

/// Opening an enum: a string names a variant without data, and a `d` opens
/// the one-entry dictionary of a variant with data. Any other byte is
/// reported at the byte before it.
pub open spec fn enum_opening(s: Seq<u8>, at: int) -> Step<Option<Seq<char>>> {
    if at >= s.len() {
        failed(ErrorKind::Eof, s.len() as int, s.len() as int)
    } else if is_digit(s[at]) {
        let name = string(s, at);
        match name.result {
            Ok(chars) => done(Some(chars), name.next),
            Err(e) => Step { result: Err(e), next: name.next },
        }
    } else if s[at] == DICT {
        done(None, at + 1)
    } else {
        failed(ErrorKind::ExpectedEnum, before(at), at)
    }
}

/// A run of digits ends at or after its start, and within the input.
pub proof fn lemma_digits_end_bounds(s: Seq<u8>, from: int)
    requires
        0 <= from <= s.len(),
    ensures
        from <= digits_end(s, from) <= s.len(),
    decreases s.len() - from,
{
    if from < s.len() && is_digit(s[from]) {
        lemma_digits_end_bounds(s, from + 1);
    }
}

/// Scanning an integer moves the cursor forward within the input, and past
/// two bytes at least where it succeeds.
pub proof fn lemma_scan_integer_bounds(s: Seq<u8>, at: int, parsing_str: bool)
    requires
        0 <= at <= s.len(),
    ensures
        at <= scan_integer(s, at, parsing_str).next <= s.len(),
        scan_integer(s, at, parsing_str).result is Ok ==> at + 2 <= scan_integer(
            s,
            at,
            parsing_str,
        ).next,
{
    if at < s.len() {
        lemma_digits_end_bounds(s, at + 1);
        if at + 1 < s.len() {
            lemma_digits_end_bounds(s, at + 2);
        }
    }
}

/// Reading a number moves the cursor forward within the input, and past the
/// token where it succeeds.
pub proof fn lemma_number_bounds<T: Integer>(s: Seq<u8>, at: int)
    requires
        0 <= at <= s.len(),
    ensures
        at <= number::<T>(s, at).next <= s.len(),
        number::<T>(s, at).result is Ok ==> at + 3 <= number::<T>(s, at).next,
{
    if at < s.len() {
        lemma_scan_integer_bounds(s, at + 1, false);
    }
}

/// Reading a byte string moves the cursor forward within the input, and
/// past the token where it succeeds.
pub proof fn lemma_byte_string_bounds(s: Seq<u8>, at: int)
    requires
        0 <= at <= s.len(),
    ensures
        at <= byte_string(s, at).next <= s.len(),
        byte_string(s, at).result is Ok ==> at + 2 <= byte_string(s, at).next,
{
    lemma_scan_integer_bounds(s, at, true);
}

} // verus!
