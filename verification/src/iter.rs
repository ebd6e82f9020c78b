//! The values of a byte stream held in memory, one after the other.

use crate::chars::{incomplete, ReadOutcome};
use crate::source::{head, head_len, Decoded, Source};
use crate::limits::whole_numbers;
use crate::splitter::{value_of, Progress, Splitter};
use rustc_serialize::json::Json;
use vstd::prelude::*;

verus! {

/// The next value of a stream that still holds `bytes`, when `text` is
/// gathered already, and the bytes that are left behind it. Scalars are
/// gathered one by one, malformed bytes are passed over, and the first text
/// that gives a value ends the search; with no such text the stream is used
/// up and gives nothing.
pub open spec fn split_next(bytes: Seq<u8>, text: Seq<char>) -> (Option<Json>, Seq<u8>)
    decreases bytes.len(),
{
    let rest = bytes.skip(head_len(bytes) as int);
    match head(bytes) {
        Decoded::End => (None, bytes),
        Decoded::Malformed => split_next(rest, text),
        Decoded::Scalar(c) => match value_of(text.push(c)) {
            Some(json) => (Some(json), rest),
            None => split_next(rest, text.push(c)),
        },
    }
}

/// The text that gives that value: what is gathered when the search ends.
pub open spec fn found_text(bytes: Seq<u8>, text: Seq<char>) -> Seq<char>
    decreases bytes.len(),
{
    let rest = bytes.skip(head_len(bytes) as int);
    match head(bytes) {
        Decoded::End => text,
        Decoded::Malformed => found_text(rest, text),
        Decoded::Scalar(c) => if value_of(text.push(c)) is Some {
            text.push(c)
        } else {
            found_text(rest, text.push(c))
        },
    }
}

/// Whether `got` is the value `named`, as far as a value is fixed: that
/// there is one or none always, and which where every number of its `text`
/// is whole.
pub open spec fn found(got: Option<Json>, named: Option<Json>, text: Seq<char>) -> bool {
    match named {
        Some(json) => got matches Some(j) && (whole_numbers(text) ==> j == json),
        None => got is None,
    }
}

/// A value is found before the bytes run out, and costs at least one byte;
/// where none is found, no byte is left.
pub proof fn lemma_split_next_consumes(bytes: Seq<u8>, text: Seq<char>)
    ensures
        split_next(bytes, text).1.len() <= bytes.len(),
        split_next(bytes, text).0 is Some ==> split_next(bytes, text).1.len() < bytes.len(),
        split_next(bytes, text).0 is None ==> split_next(bytes, text).1.len() == 0,
    decreases bytes.len(),
{
    let rest = bytes.skip(head_len(bytes) as int);
    match head(bytes) {
        Decoded::End => {},
        Decoded::Malformed => {
            lemma_split_next_consumes(rest, text);
        },
        Decoded::Scalar(c) => {
            if value_of(text.push(c)) is None {
                lemma_split_next_consumes(rest, text.push(c));
            }
        },
    }
}

/// All the values of a stream that holds `bytes`, in the order in which they end.
pub open spec fn values(bytes: Seq<u8>) -> Seq<Json>
    decreases bytes.len(),
    via values_decreases
{
    match split_next(bytes, Seq::empty()) {
        (Some(json), rest) => seq![json] + values(rest),
        (None, _) => Seq::empty(),
    }
}

#[via_fn]
proof fn values_decreases(bytes: Seq<u8>) {
    lemma_split_next_consumes(bytes, Seq::empty());
}

/// The texts of all the values of a stream that holds `bytes`.
pub open spec fn texts(bytes: Seq<u8>) -> Seq<Seq<char>>
    decreases bytes.len(),
    via texts_decreases
{
    match split_next(bytes, Seq::empty()) {
        (Some(_), rest) => seq![found_text(bytes, Seq::empty())] + texts(rest),
        (None, _) => Seq::empty(),
    }
}

#[via_fn]
proof fn texts_decreases(bytes: Seq<u8>) {
    lemma_split_next_consumes(bytes, Seq::empty());
}

/// Whether `got` are the values of a stream that holds `bytes`, as far as
/// they are fixed: their number always, and each of them where every number
/// of its text is whole.
pub open spec fn all_found(got: Seq<Json>, bytes: Seq<u8>) -> bool {
    &&& got.len() == values(bytes).len()
    &&& got.len() == texts(bytes).len()
    &&& forall|i: int|
        0 <= i < got.len() && whole_numbers(#[trigger] texts(bytes)[i]) ==> got[i] == values(
            bytes,
        )[i]
}

/// A stream has as many texts of values as values.
pub proof fn lemma_texts_len(bytes: Seq<u8>)
    ensures
        texts(bytes).len() == values(bytes).len(),
    decreases bytes.len(),
{
    lemma_split_next_consumes(bytes, Seq::empty());
    match split_next(bytes, Seq::empty()) {
        (Some(_), rest) => {
            lemma_texts_len(rest);
        },
        (None, _) => {},
    }
}

/// A stream cannot hold more values than bytes.
pub proof fn lemma_values_len(bytes: Seq<u8>)
    ensures
        values(bytes).len() <= bytes.len(),
    decreases bytes.len(),
{
    lemma_split_next_consumes(bytes, Seq::empty());
    match split_next(bytes, Seq::empty()) {
        (Some(_), rest) => {
            lemma_values_len(rest);
        },
        (None, _) => {},
    }
}

/// An iterator over the JSON values of a byte source.
pub struct Iter {
    inner: Source,
}

impl View for Iter {
    type V = Seq<u8>;

    /// The bytes that the source still holds.
    closed spec fn view(&self) -> Seq<u8> {
        self.inner@
    }
}

impl Iter {
    /// An iterator over the values of `inner`.
    pub fn new(inner: Source) -> (iter: Iter)
        ensures
            iter@ == inner@,
    {
        Iter { inner }
    }

    /// The next value of the source, or `None` once the source is used up.
    pub fn next(&mut self) -> (value: Option<Json>)
        ensures
            found(
                value,
                split_next(old(self)@, Seq::empty()).0,
                found_text(old(self)@, Seq::empty()),
            ),
            final(self)@ == split_next(old(self)@, Seq::empty()).1,
    {
        let mut splitter = Splitter::new();
        loop
            invariant
                incomplete(splitter.held()),
                split_next(splitter.held() + self@, splitter.text()) == split_next(
                    old(self)@,
                    Seq::empty(),
                ),
                found_text(splitter.held() + self@, splitter.text()) == found_text(
                    old(self)@,
                    Seq::empty(),
                ),
            decreases self@.len(), splitter.held().len(),
        {
            let want = splitter.wanted();
            let ghost held = splitter.held();
            let ghost ahead = held + self@;
            let got = self.inner.read(want);
            proof {
                assert(held + got@ + self@ == ahead);
                assert(ahead.take((held + got@).len() as int) == held + got@);
                assert(ahead.skip((held + got@).len() as int) == self@);
                if held.len() > 0 || got@.len() > 0 {
                    assert(ahead[0] == (held + got@)[0]);
                }
            }
            match splitter.accept(ReadOutcome::<()>::Bytes(got)) {
                Progress::Value(json) => {
                    return Some(json);
                },
                Progress::Finished => {
                    return None;
                },
                Progress::NeedMore => {},
            }
        }
    }

    /// All the values that the source still holds.
    pub fn collect(self) -> (all: Vec<Json>)
        ensures
            all_found(all@, self@),
    {
        let mut iter = self;
        let mut all: Vec<Json> = Vec::new();
        proof {
            lemma_texts_len(iter@);
        }
        loop
            invariant
                all@.len() + values(iter@).len() == values(self@).len(),
                values(self@).skip(all@.len() as int) == values(iter@),
                texts(self@).len() == values(self@).len(),
                texts(self@).skip(all@.len() as int) == texts(iter@),
                forall|i: int|
                    0 <= i < all@.len() && whole_numbers(#[trigger] texts(self@)[i]) ==> all@[i]
                        == values(self@)[i],
            decreases iter@.len(),
        {
            proof {
                lemma_split_next_consumes(iter@, Seq::empty());
            }
            let ghost done = all@;
            let ghost ahead = iter@;
            match iter.next() {
                Some(json) => {
                    all.push(json);
                    proof {
                        let at = done.len() as int;
                        assert(values(ahead) == seq![values(ahead)[0]] + values(iter@));
                        assert(texts(ahead) == seq![texts(ahead)[0]] + texts(iter@));
                        assert(values(self@)[at] == values(ahead)[0]);
                        assert(texts(self@)[at] == texts(ahead)[0]);
                        assert(values(self@).skip(at + 1) == values(ahead).skip(1));
                        assert(texts(self@).skip(at + 1) == texts(ahead).skip(1));
                        assert(values(ahead).skip(1) == values(iter@));
                        assert(texts(ahead).skip(1) == texts(iter@));
                    }
                },
                None => {
                    return all;
                },
            }
        }
    }

    /// The number of values that the source still holds.
    pub fn count(self) -> (n: usize)
        ensures
            n == values(self@).len(),
    {
        let mut iter = self;
        let bytes = iter.inner.remaining();
        let mut n: usize = 0;
        proof {
            lemma_values_len(iter@);
        }
        loop
            invariant
                n + values(iter@).len() == values(self@).len(),
                values(self@).len() <= bytes,
            decreases iter@.len(),
        {
            proof {
                lemma_split_next_consumes(iter@, Seq::empty());
            }
            match iter.next() {
                Some(_) => {
                    n += 1;
                },
                None => {
                    return n;
                },
            }
        }
    }
}

} // verus!
