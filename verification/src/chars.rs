//! The scalar decoder: turns the bytes that a source hands over, read by read,
//! into Unicode scalar values.
//!
//! The decoder does no reading of its own. It says how many bytes it wants
//! next ([`Chars::wanted`]), is told what the read gave ([`Chars::accept`]),
//! and answers with a scalar, an error, the end of the stream, or a request
//! for more.

use crate::width::{char_width, utf8_char_width};
use vstd::prelude::*;
use vstd::string::{StrSliceExecFns, StringExecFns};
use vstd::utf8::*;

verus! {

/// Why no scalar could be decoded.
pub enum CharsError<E> {
    /// The bytes are not the UTF-8 encoding of a scalar.
    NotUtf8,
    /// The source failed; the cause is kept as it came.
    Other(E),
}

impl<E> CharsError<E> {
    /// The error in a few words, where the library has words for it: of a
    /// failed read the cause speaks for itself.
    pub fn description(&self) -> (text: Option<String>)
        ensures
            self is NotUtf8 ==> text is Some && text->0@ == "invalid utf8 encoding"@,
            self is Other ==> text is None,
    {
        match self {
            CharsError::NotUtf8 => Some(String::from_str("invalid utf8 encoding")),
            CharsError::Other(_) => None,
        }
    }

    /// The message to show for the error, where the library has one.
    pub fn message(&self) -> (text: Option<String>)
        ensures
            self is NotUtf8 ==> text is Some && text->0@
                == "byte stream did not contain valid utf8"@,
            self is Other ==> text is None,
    {
        match self {
            CharsError::NotUtf8 => Some(String::from_str("byte stream did not contain valid utf8")),
            CharsError::Other(_) => None,
        }
    }
}

/// What one read of the byte source gave.
pub enum ReadOutcome<E> {
    /// The bytes that were read; none at all means that the source is exhausted.
    Bytes(Vec<u8>),
    /// The source failed.
    Failed(E),
}

/// The decoder's answer to one read.
pub enum Step<E> {
    /// The sequence is not complete: read [`Chars::wanted`] more bytes.
    Pending,
    /// One request is served: a scalar, an error, or `None` at the end of the stream.
    Ready(Option<Result<char, CharsError<E>>>),
}

/// The bytes of a sequence that is still short of the width its first byte announces.
pub open spec fn incomplete(held: Seq<u8>) -> bool {
    held.len() == 0 || held.len() < char_width(held[0])
}

/// How many bytes the decoder asks for when it holds `held`: one to start a
/// sequence, else what the sequence still lacks.
pub open spec fn bytes_wanted(held: Seq<u8>) -> nat {
    if held.len() == 0 {
        1
    } else {
        (char_width(held[0]) - held.len()) as nat
    }
}

/// The bytes held once the first `bytes_wanted(held)` bytes of `got` have joined `held`.
pub open spec fn joined(held: Seq<u8>, got: Seq<u8>) -> Seq<u8> {
    if got.len() <= bytes_wanted(held) {
        held + got
    } else {
        held + got.take(bytes_wanted(held) as int)
    }
}

/// The first scalar of `bytes`, if they are well-formed UTF-8 and not empty.
/// The decoder asks this of a sequence of full width, which then holds that
/// one scalar.
pub open spec fn sequence_scalar(bytes: Seq<u8>) -> Option<char> {
    if bytes.len() > 0 && valid_utf8(bytes) {
        Some(decode_first_scalar(bytes) as char)
    } else {
        None
    }
}

/// The decoder's answer when it holds `held` and a read gives `outcome`.
pub open spec fn step_of<E>(held: Seq<u8>, outcome: ReadOutcome<E>) -> Step<E> {
    match outcome {
        ReadOutcome::Failed(e) => Step::Ready(Some(Err(CharsError::Other(e)))),
        ReadOutcome::Bytes(got) => {
            let all = joined(held, got@);
            if got@.len() == 0 {
                if held.len() == 0 {
                    Step::Ready(None)
                } else {
                    Step::Ready(Some(Err(CharsError::NotUtf8)))
                }
            } else if char_width(all[0]) == 0 {
                Step::Ready(Some(Err(CharsError::NotUtf8)))
            } else if all.len() < char_width(all[0]) {
                Step::Pending
            } else {
                match sequence_scalar(all) {
                    Some(c) => Step::Ready(Some(Ok(c))),
                    None => Step::Ready(Some(Err(CharsError::NotUtf8))),
                }
            }
        },
    }
}

/// The bytes that the decoder holds after that step: the grown sequence while
/// it is pending, nothing once the request is served.
pub open spec fn held_after<E>(held: Seq<u8>, outcome: ReadOutcome<E>) -> Seq<u8> {
    if step_of(held, outcome) is Pending {
        joined(held, outcome->Bytes_0@)
    } else {
        Seq::empty()
    }
}

/// `core::str::Utf8Error`, the error of `core::str::from_utf8`; nothing is
/// said of what it holds.
#[verifier::external_type_specification]
#[verifier::external_body]
pub struct ExUtf8Error(core::str::Utf8Error);

/// `core::str::from_utf8`: succeeds exactly on well-formed UTF-8, and the
/// string slice it then gives holds the characters that the bytes encode.
#[verifier::external_body]
fn str_from_utf8(bytes: &[u8]) -> (r: Result<&str, core::str::Utf8Error>)
    ensures
        r is Ok <==> valid_utf8(bytes@),
        r matches Ok(s) ==> s@ == decode_utf8(bytes@),
{
    core::str::from_utf8(bytes)
}

/// Decodes the first scalar of `bytes`; there is none unless the bytes are
/// well-formed UTF-8 throughout and not empty.
pub fn decode_sequence(bytes: &[u8]) -> (r: Option<char>)
    ensures
        r == sequence_scalar(bytes@),
{
    if bytes.len() == 0 {
        return None;
    }
    match str_from_utf8(bytes) {
        Ok(s) => {
            assert(s@.len() > 0 && s@[0] == decode_first_scalar(bytes@) as char);
            Some(s.get_char(0))
        },
        Err(_) => None,
    }
}

/// The state of the decoder: the bytes read so far of a sequence that is not
/// yet complete.
pub struct Chars {
    held: Vec<u8>,
}

impl View for Chars {
    type V = Seq<u8>;

    closed spec fn view(&self) -> Seq<u8> {
        self.held@
    }
}

impl Chars {
    #[verifier::type_invariant]
    spec fn well_formed(&self) -> bool {
        incomplete(self.held@)
    }

    /// A decoder that holds nothing.
    pub fn new() -> (chars: Chars)
        ensures
            chars@ == Seq::<u8>::empty(),
    {
        Chars { held: Vec::new() }
    }

    /// The number of bytes to ask the source for next: at least 1, at most 3
    /// while a sequence is under way.
    pub fn wanted(&self) -> (n: usize)
        ensures
            n == bytes_wanted(self@),
            incomplete(self@),
            1 <= n <= 3,
    {
        proof {
            use_type_invariant(self);
        }
        if self.held.len() == 0 {
            1
        } else {
            utf8_char_width(self.held[0]) - self.held.len()
        }
    }

    /// Takes in what a read gave and says what follows from it.
    ///
    /// Of the bytes read, only as many as were wanted are taken.
    pub fn accept<E>(&mut self, outcome: ReadOutcome<E>) -> (step: Step<E>)
        ensures
            step == step_of(old(self)@, outcome),
            final(self)@ == held_after(old(self)@, outcome),
    {
        proof {
            use_type_invariant(&*self);
        }
        match outcome {
            ReadOutcome::Failed(e) => {
                self.held = Vec::new();
                Step::Ready(Some(Err(CharsError::Other(e))))
            },
            ReadOutcome::Bytes(got) => {
                if got.len() == 0 {
                    let fresh = self.held.len() == 0;
                    self.held = Vec::new();
                    if fresh {
                        Step::Ready(None)
                    } else {
                        Step::Ready(Some(Err(CharsError::NotUtf8)))
                    }
                } else {
                    let want = self.wanted();
                    let ghost before = self.held@;
                    let mut all: Vec<u8> = Vec::new();
                    let mut i: usize = 0;
                    while i < self.held.len()
                        invariant
                            i <= self.held.len(),
                            self.held@ == before,
                            all@ == before.take(i as int),
                        decreases self.held.len() - i,
                    {
                        all.push(self.held[i]);
                        i += 1;
                    }
                    let mut j: usize = 0;
                    while j < got.len() && j < want
                        invariant
                            j <= got.len(),
                            j <= want,
                            all@ == before + got@.take(j as int),
                        decreases got.len() - j,
                    {
                        all.push(got[j]);
                        j += 1;
                    }
                    assert(all@ == joined(before, got@));
                    let width = utf8_char_width(all[0]);
                    if width == 1 {
                        self.held = Vec::new();
                        let c = all[0] as char;
                        proof {
                            lemma_single_byte(all@);
                        }
                        Step::Ready(Some(Ok(c)))
                    } else if width == 0 {
                        self.held = Vec::new();
                        Step::Ready(Some(Err(CharsError::NotUtf8)))
                    } else if all.len() < width {
                        self.held = all;
                        Step::Pending
                    } else {
                        self.held = Vec::new();
                        match decode_sequence(all.as_slice()) {
                            Some(c) => Step::Ready(Some(Ok(c))),
                            None => Step::Ready(Some(Err(CharsError::NotUtf8))),
                        }
                    }
                }
            },
        }
    }
}

/// A single ASCII byte is a well-formed sequence, and encodes the scalar of
/// its own value.
pub proof fn lemma_single_byte(bytes: Seq<u8>)
    requires
        bytes.len() == 1,
        bytes[0] <= 0x7f,
    ensures
        sequence_scalar(bytes) == Some(bytes[0] as char),
{
    let b = bytes[0];
    assert(b & 0x7f == b) by (bit_vector)
        requires
            b <= 0x7f,
    ;
    assert(pop_first_scalar(bytes).len() == 0);
    assert(valid_utf8(pop_first_scalar(bytes)));
    assert(valid_utf8(bytes));
}

} // verus!
