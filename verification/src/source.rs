//! A byte source held in memory, and the decoder run over it.

use crate::chars::{bytes_wanted, incomplete, sequence_scalar, Chars, ReadOutcome, Step};
use crate::width::char_width;
use vstd::prelude::*;

verus! {

/// What stands at the head of a stream of bytes.
pub enum Decoded {
    /// Nothing: the stream is at its end.
    End,
    /// A scalar.
    Scalar(char),
    /// Bytes that encode no scalar.
    Malformed,
}

/// The number of bytes that the decoder takes from the head of `bytes` for
/// one request: the width that the first byte announces, one byte where it
/// announces none, and all there is where the stream ends before that width.
pub open spec fn head_len(bytes: Seq<u8>) -> nat {
    if bytes.len() == 0 {
        0
    } else if char_width(bytes[0]) == 0 {
        1
    } else if bytes.len() < char_width(bytes[0]) {
        bytes.len()
    } else {
        char_width(bytes[0])
    }
}

/// What the decoder makes of the head of `bytes`.
pub open spec fn head(bytes: Seq<u8>) -> Decoded {
    if bytes.len() == 0 {
        Decoded::End
    } else if char_width(bytes[0]) == 0 || bytes.len() < char_width(bytes[0]) {
        Decoded::Malformed
    } else {
        match sequence_scalar(bytes.take(char_width(bytes[0]) as int)) {
            Some(c) => Decoded::Scalar(c),
            None => Decoded::Malformed,
        }
    }
}

/// Bytes in memory, read from front to back.
pub struct Source {
    bytes: Vec<u8>,
    at: usize,
}

impl View for Source {
    type V = Seq<u8>;

    /// The bytes not yet read.
    closed spec fn view(&self) -> Seq<u8> {
        self.bytes@.skip(self.at as int)
    }
}

impl Source {
    #[verifier::type_invariant]
    spec fn well_formed(&self) -> bool {
        self.at <= self.bytes@.len()
    }

    /// A source that will hand out `bytes`.
    pub fn new(bytes: Vec<u8>) -> (source: Source)
        ensures
            source@ == bytes@,
    {
        Source { bytes, at: 0 }
    }

    /// The number of bytes not yet read.
    pub fn remaining(&self) -> (n: usize)
        ensures
            n == self@.len(),
    {
        proof {
            use_type_invariant(self);
        }
        self.bytes.len() - self.at
    }

    /// Reads up to `want` bytes: fewer only where the source ends.
    pub fn read(&mut self, want: usize) -> (got: Vec<u8>)
        ensures
            got@.len() == if want <= old(self)@.len() {
                want as nat
            } else {
                old(self)@.len()
            },
            got@ == old(self)@.take(got@.len() as int),
            final(self)@ == old(self)@.skip(got@.len() as int),
    {
        proof {
            use_type_invariant(&*self);
        }
        let ghost before = self@;
        let start = self.at;
        let mut got: Vec<u8> = Vec::new();
        let mut at = start;
        while at < self.bytes.len() && got.len() < want
            invariant
                start <= at <= self.bytes.len(),
                self.at == start,
                before == self.bytes@.skip(start as int),
                got.len() == at - start,
                got.len() <= want,
                got@ == before.take(got.len() as int),
            decreases self.bytes.len() - at,
        {
            got.push(self.bytes[at]);
            at += 1;
        }
        self.at = at;
        got
    }

    /// Decodes what stands at the head of the source and moves past it.
    pub fn next_scalar(&mut self) -> (decoded: Decoded)
        ensures
            decoded == head(old(self)@),
            final(self)@ == old(self)@.skip(head_len(old(self)@) as int),
    {
        let ghost all = self@;
        let mut chars = Chars::new();
        loop
            invariant
                all == old(self)@,
                chars@ + self@ == all,
                chars@.len() <= head_len(all),
                chars@.len() > 0 ==> chars@.len() < char_width(all[0]),
            decreases self@.len(),
        {
            let want = chars.wanted();
            let ghost held = chars@;
            let got = self.read(want);
            let ghost taken = got@;
            proof {
                assert(held + taken + self@ == all);
                assert(all.take((held + taken).len() as int) == held + taken);
            }
            match chars.accept(ReadOutcome::<()>::Bytes(got)) {
                Step::Pending => {},
                Step::Ready(None) => {
                    return Decoded::End;
                },
                Step::Ready(Some(Ok(c))) => {
                    return Decoded::Scalar(c);
                },
                Step::Ready(Some(Err(_))) => {
                    return Decoded::Malformed;
                },
            }
        }
    }
}

} // verus!
