//! Values that describe themselves: whatever the wire grammar can spell,
//! held as a tree.

use vstd::prelude::*;
use crate::de::Deserializer;
use crate::error::{Error, ErrorContent, ErrorKind, fault};
use crate::grammar::{
    DICT, END, LIST, Step, Token, byte_string, done, element_follows, integer_token,
    key_follows, lemma_byte_string_bounds, lemma_number_bounds, number, string_token, token_at,
};
use crate::ser::Serializer;

verus! {

/// A value as it stands on the wire.
#[derive(Debug, PartialEq, Eq)]
pub enum Value {
    /// A number.
    Integer(i64),
    /// A byte string.
    Bytes(Vec<u8>),
    /// A list of values.
    List(Vec<Value>),
    /// A dictionary: its keys with their values, in the order in which they
    /// stand on the wire.
    Dict(Vec<(Vec<u8>, Value)>),
}

/// What a [`Value`] denotes.
pub enum Tree {
    Integer(i64),
    Bytes(Seq<u8>),
    List(Seq<Tree>),
    Dict(Seq<(Seq<u8>, Tree)>),
}

impl View for Value {
    type V = Tree;

    /// The tree of the same shape, with sequences for vectors: see
    /// [`lemma_view_list`] and [`lemma_view_dict`].
    open spec fn view(&self) -> Tree
        decreases self,
    {
        match self {
            Value::Integer(i) => Tree::Integer(*i),
            Value::Bytes(bytes) => Tree::Bytes(bytes@),
            Value::List(items) => Tree::List(
                Seq::new(
                    items@.len(),
                    |i: int|
                        if 0 <= i < items@.len() {
                            items@[i]@
                        } else {
                            Tree::Integer(0)
                        },
                ),
            ),
            Value::Dict(entries) => Tree::Dict(
                Seq::new(
                    entries@.len(),
                    |i: int|
                        if 0 <= i < entries@.len() {
                            (entries@[i].0@, entries@[i].1@)
                        } else {
                            (Seq::empty(), Tree::Integer(0))
                        },
                ),
            ),
        }
    }
}

/// What the items of a list denote.
pub open spec fn trees(items: Seq<Value>) -> Seq<Tree> {
    Seq::new(items.len(), |i: int| items[i]@)
}

/// What the entries of a dictionary denote.
pub open spec fn pairs(entries: Seq<(Vec<u8>, Value)>) -> Seq<(Seq<u8>, Tree)> {
    Seq::new(entries.len(), |i: int| (entries[i].0@, entries[i].1@))
}

/// A list denotes the list of what its items denote.
pub proof fn lemma_view_list(items: Vec<Value>)
    ensures
        Value::List(items)@ == Tree::List(trees(items@)),
{
    reveal_with_fuel(<Value as View>::view, 2);
    assert(Value::List(items)@->List_0 =~= trees(items@));
}

/// A dictionary denotes the entries that its entries denote, in their order.
pub proof fn lemma_view_dict(entries: Vec<(Vec<u8>, Value)>)
    ensures
        Value::Dict(entries)@ == Tree::Dict(pairs(entries@)),
{
    reveal_with_fuel(<Value as View>::view, 2);
    assert(Value::Dict(entries)@->Dict_0 =~= pairs(entries@));
}

impl Tree {
    /// Whether every byte string in this value has a length that a `usize`
    /// holds, as every byte string in memory has.
    pub open spec fn fits(self) -> bool
        decreases self,
    {
        match self {
            Tree::Integer(_) => true,
            Tree::Bytes(bytes) => bytes.len() <= usize::MAX,
            Tree::List(items) => forall|i: int|
                0 <= i < items.len() ==> (#[trigger] items[i]).fits(),
            Tree::Dict(entries) => forall|i: int|
                0 <= i < entries.len() ==> (#[trigger] entries[i]).0.len() <= usize::MAX
                    && entries[i].1.fits(),
        }
    }

    /// The bytes that spell this value.
    pub open spec fn wire(self) -> Seq<u8>
        decreases self, 0nat,
    {
        match self {
            Tree::Integer(i) => integer_token(i as int),
            Tree::Bytes(bytes) => string_token(bytes),
            Tree::List(items) => seq![LIST] + wire_items(items, 0) + seq![END],
            Tree::Dict(entries) => seq![DICT] + wire_entries(entries, 0) + seq![END],
        }
    }
}

/// The bytes that spell the items of a list from the `from`th on, one after
/// the other.
pub open spec fn wire_items(items: Seq<Tree>, from: int) -> Seq<u8>
    decreases items, items.len() - from,
{
    if 0 <= from < items.len() {
        items[from].wire() + wire_items(items, from + 1)
    } else {
        Seq::empty()
    }
}

/// The bytes that spell the entries of a dictionary from the `from`th on:
/// each key as a byte string, then its value, in the order given.
pub open spec fn wire_entries(entries: Seq<(Seq<u8>, Tree)>, from: int) -> Seq<u8>
    decreases entries, entries.len() - from,
{
    if 0 <= from < entries.len() {
        string_token(entries[from].0) + entries[from].1.wire() + wire_entries(entries, from + 1)
    } else {
        Seq::empty()
    }
}

/// The outcome `r` with `found` put in front of what it read.
pub open spec fn after<T>(found: Seq<T>, r: Result<Seq<T>, ErrorContent>) -> Result<
    Seq<T>,
    ErrorContent,
> {
    match r {
        Ok(rest) => Ok(found + rest),
        Err(e) => Err(e),
    }
}

/// Reading one value of whatever kind from `at`.
pub open spec fn value_at(s: Seq<u8>, at: int) -> Step<Tree>
    decreases s.len() - at, 0nat,
{
    match token_at(s, at) {
        Err(e) => Step { result: Err(e), next: at },
        Ok(Token::Integer) => {
            let read = number::<i64>(s, at);
            match read.result {
                Ok(i) => done(Tree::Integer(i), read.next),
                Err(e) => Step { result: Err(e), next: read.next },
            }
        },
        Ok(Token::ByteString) => {
            let read = byte_string(s, at);
            match read.result {
                Ok(bytes) => done(Tree::Bytes(bytes), read.next),
                Err(e) => Step { result: Err(e), next: read.next },
            }
        },
        Ok(Token::List) => {
            let read = items_at(s, at + 1);
            match read.result {
                Ok(items) => done(Tree::List(items), read.next + 1),
                Err(e) => Step { result: Err(e), next: read.next },
            }
        },
        Ok(Token::Dict) => {
            let read = entries_at(s, at + 1);
            match read.result {
                Ok(entries) => done(Tree::Dict(entries), read.next + 1),
                Err(e) => Step { result: Err(e), next: read.next },
            }
        },
    }
}

/// Reading the items of a list that is open at `at`, up to the `e` that
/// closes it, which is left in place. (A value takes at least one byte, so
/// the comparison of offsets always holds: it shows that the reading ends.)
pub open spec fn items_at(s: Seq<u8>, at: int) -> Step<Seq<Tree>>
    decreases s.len() - at, 1nat,
{
    match element_follows(s, at) {
        Err(e) => Step { result: Err(e), next: at },
        Ok(false) => done(Seq::empty(), at),
        Ok(true) => {
            let first = value_at(s, at);
            match first.result {
                Err(e) => Step { result: Err(e), next: first.next },
                Ok(item) => if at < first.next <= s.len() {
                    let rest = items_at(s, first.next);
                    Step { result: after(seq![item], rest.result), next: rest.next }
                } else {
                    done(seq![item], first.next)
                },
            }
        },
    }
}

/// Reading the entries of a dictionary that is open at `at`, up to the `e`
/// that closes it, which is left in place. (A key and a value take at least
/// one byte each, so the comparisons of offsets always hold: they show that
/// the reading ends.)
pub open spec fn entries_at(s: Seq<u8>, at: int) -> Step<Seq<(Seq<u8>, Tree)>>
    decreases s.len() - at, 1nat,
{
    match key_follows(s, at) {
        Err(e) => Step { result: Err(e), next: at },
        Ok(false) => done(Seq::empty(), at),
        Ok(true) => {
            let key = byte_string(s, at);
            match key.result {
                Err(e) => Step { result: Err(e), next: key.next },
                Ok(name) => if at < key.next <= s.len() {
                    let value = value_at(s, key.next);
                    match value.result {
                        Err(e) => Step { result: Err(e), next: value.next },
                        Ok(item) => if key.next < value.next <= s.len() {
                            let rest = entries_at(s, value.next);
                            Step {
                                result: after(seq![(name, item)], rest.result),
                                next: rest.next,
                            }
                        } else {
                            done(seq![(name, item)], value.next)
                        },
                    }
                } else {
                    done(Seq::empty(), key.next)
                },
            }
        },
    }
}

/// Reading an optional value: it is absent where the input has ended, and
/// is read like any value where it has not.
pub open spec fn option_at(s: Seq<u8>, at: int) -> Step<Option<Tree>> {
    if at >= s.len() {
        done(None, at)
    } else {
        let read = value_at(s, at);
        match read.result {
            Ok(tree) => done(Some(tree), read.next),
            Err(e) => Step { result: Err(e), next: read.next },
        }
    }
}

/// The bytes that spell an optional value: none where it is absent, those of
/// the value where it is there.
pub open spec fn wire_option(value: Option<Tree>) -> Seq<u8> {
    match value {
        Some(tree) => tree.wire(),
        None => Seq::empty(),
    }
}

/// Reading a whole message: one value, with nothing behind it. What is left
/// over is reported at the offset of its first byte.
pub open spec fn message(s: Seq<u8>) -> Result<Tree, ErrorContent> {
    let read = value_at(s, 0);
    match read.result {
        Ok(tree) => if read.next >= s.len() {
            Ok(tree)
        } else {
            Err(fault(ErrorKind::TrailingCharacters, read.next))
        },
        Err(e) => Err(e),
    }
}

/// Reading a value moves the cursor forward within the input, and past at
/// least one byte where it succeeds.
pub proof fn lemma_value_bounds(s: Seq<u8>, at: int)
    requires
        0 <= at <= s.len(),
    ensures
        at <= value_at(s, at).next <= s.len(),
        value_at(s, at).result is Ok ==> at < value_at(s, at).next,
    decreases s.len() - at, 0nat,
{
    match token_at(s, at) {
        Err(_) => {},
        Ok(Token::Integer) => {
            lemma_number_bounds::<i64>(s, at);
        },
        Ok(Token::ByteString) => {
            lemma_byte_string_bounds(s, at);
        },
        Ok(Token::List) => {
            lemma_items_bounds(s, at + 1);
        },
        Ok(Token::Dict) => {
            lemma_entries_bounds(s, at + 1);
        },
    }
}

/// Reading the items of a list moves the cursor forward within the input,
/// and stops at an `e` where it succeeds.
pub proof fn lemma_items_bounds(s: Seq<u8>, at: int)
    requires
        0 <= at <= s.len(),
    ensures
        at <= items_at(s, at).next <= s.len(),
        items_at(s, at).result is Ok ==> items_at(s, at).next < s.len() && s[items_at(
            s,
            at,
        ).next] == END,
    decreases s.len() - at, 1nat,
{
    if element_follows(s, at) == Ok::<bool, ErrorContent>(true) {
        lemma_value_bounds(s, at);
        let first = value_at(s, at);
        if first.result is Ok {
            lemma_items_bounds(s, first.next);
        }
    }
}

/// Reading the entries of a dictionary moves the cursor forward within the
/// input, and stops at an `e` where it succeeds.
pub proof fn lemma_entries_bounds(s: Seq<u8>, at: int)
    requires
        0 <= at <= s.len(),
    ensures
        at <= entries_at(s, at).next <= s.len(),
        entries_at(s, at).result is Ok ==> entries_at(s, at).next < s.len() && s[entries_at(
            s,
            at,
        ).next] == END,
    decreases s.len() - at, 1nat,
{
    if key_follows(s, at) == Ok::<bool, ErrorContent>(true) {
        lemma_byte_string_bounds(s, at);
        let key = byte_string(s, at);
        if key.result is Ok {
            lemma_value_bounds(s, key.next);
            let value = value_at(s, key.next);
            if value.result is Ok {
                lemma_entries_bounds(s, value.next);
            }
        }
    }
}

/// Decodes a whole message: one value, with nothing behind it.
pub fn from_bytes(bytes: &[u8]) -> (r: Result<Value, Error>)
    ensures
        match r {
            Ok(value) => message(bytes@) == Ok::<Tree, ErrorContent>(value@),
            Err(e) => message(bytes@) == Err::<Tree, ErrorContent>(e@),
        },
{
    let mut de = Deserializer::new(bytes);
    let value = de.parse_value()?;
    de.end()?;
    Ok(value)
}

/// Encodes `value` into a buffer of its own. Writing into memory cannot
/// fail, so the result is always `Ok`.
pub fn to_bytes(value: &Value) -> (r: Result<Vec<u8>, Error>)
    ensures
        r is Ok,
        r->Ok_0@ == value@.wire(),
{
    let vec = Vec::with_capacity(128);
    let mut serializer = Serializer::new(vec);
    serializer.serialize_value(value);
    Ok(serializer.into_inner())
}

/// Encodes `value` behind what `writer` holds. Writing into memory cannot
/// fail, so the result is always `Ok`.
pub fn to_writer(value: &Value, writer: &mut Vec<u8>) -> (r: Result<(), Error>)
    ensures
        r is Ok,
        final(writer)@ == old(writer)@ + value@.wire(),
{
    let mut taken: Vec<u8> = Vec::new();
    std::mem::swap(writer, &mut taken);
    let mut serializer = Serializer::new(taken);
    serializer.serialize_value(value);
    let mut written = serializer.into_inner();
    std::mem::swap(writer, &mut written);
    Ok(())
}

impl Serializer {
    /// An optional value that is there is written as the value itself, with
    /// no token around it.
    pub fn serialize_some(&mut self, value: &Value)
        ensures
            final(self)@ == old(self)@ + wire_option(Some(value@)),
    {
        self.serialize_value(value)
    }

    /// Appends the bytes that spell `value`.
    #[verifier::loop_isolation(false)]
    pub fn serialize_value(&mut self, value: &Value)
        ensures
            final(self)@ == old(self)@ + value@.wire(),
        decreases value,
    {
        match value {
            Value::Integer(i) => self.serialize_i64(*i),
            Value::Bytes(bytes) => self.serialize_bytes(bytes.as_slice()),
            Value::List(items) => {
                let ghost all = trees(items@);
                proof {
                    lemma_view_list(*items);
                }
                self.serialize_seq(Some(items.len()));
                let mut i: usize = 0;
                while i < items.len()
                    invariant
                        i <= items@.len(),
                        all == trees(items@),
                        self@ + wire_items(all, i as int) =~= old(self)@ + seq![LIST] + wire_items(
                            all,
                            0,
                        ),
                    decreases items@.len() - i,
                {
                    let ghost before = self@;
                    self.serialize_value(&items[i]);
                    assert(self@ + wire_items(all, i + 1) =~= before + wire_items(all, i as int));
                    i += 1;
                }
                self.end();
                assert(self@ =~= old(self)@ + value@.wire());
            },
            Value::Dict(entries) => {
                let ghost all = pairs(entries@);
                proof {
                    lemma_view_dict(*entries);
                }
                self.serialize_map(Some(entries.len()));
                let mut i: usize = 0;
                while i < entries.len()
                    invariant
                        i <= entries@.len(),
                        all == pairs(entries@),
                        self@ + wire_entries(all, i as int) =~= old(self)@ + seq![DICT]
                            + wire_entries(all, 0),
                    decreases entries@.len() - i,
                {
                    let ghost before = self@;
                    self.serialize_bytes(entries[i].0.as_slice());
                    self.serialize_value(&entries[i].1);
                    assert(self@ + wire_entries(all, i + 1) =~= before + wire_entries(
                        all,
                        i as int,
                    ));
                    i += 1;
                }
                self.end();
                assert(self@ =~= old(self)@ + value@.wire());
            },
        }
    }
}

} // verus!
