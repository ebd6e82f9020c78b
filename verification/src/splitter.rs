//! The value splitter: gathers decoded scalars and, at each closing bracket
//! or brace, tries the text gathered so far as one whole JSON value.
//!
//! Like the decoder it reads nothing itself: it is told what each read gave
//! and answers with a value, the end of the values, or a request for more.

use crate::chars::{
    held_after, incomplete, step_of, Chars, CharsError, ReadOutcome, Step, bytes_wanted,
};
use crate::json::{build, built};
use crate::limits::{check_limits, whole_numbers, within_limits};
use rustc_serialize::json::{Json, ParserError};
use vstd::prelude::*;

verus! {

/// Whether `c` may end a JSON array or object.
pub open spec fn is_closer(c: char) -> bool {
    c == '}' || c == ']'
}

/// Whether `text` is tried as a value: it ends in a closer, and nothing in
/// it brings the builder to overflow.
pub open spec fn is_candidate(text: Seq<char>) -> bool {
    text.len() > 0 && is_closer(text.last()) && within_limits(text)
}

/// The value that `text` gives, if it is a candidate that the builder accepts.
pub open spec fn value_of(text: Seq<char>) -> Option<Json> {
    if is_candidate(text) {
        match built(text) {
            Ok(json) => Some(json),
            Err(_) => None,
        }
    } else {
        None
    }
}

/// The splitter's answer to one read.
pub enum Progress {
    /// No value is complete yet: read [`Splitter::wanted`] more bytes.
    NeedMore,
    /// The next value of the stream.
    Value(Json),
    /// The source is exhausted, or has failed: there are no more values.
    Finished,
}

/// The state of the splitter: the decoder, and the text gathered since the
/// last value.
pub struct Splitter {
    chars: Chars,
    text: Vec<char>,
}

/// The answer once the builder has said `outcome` of the gathered text.
pub open spec fn settled(outcome: Result<Json, ParserError>) -> Progress {
    match outcome {
        Ok(json) => Progress::Value(json),
        Err(_) => Progress::NeedMore,
    }
}

/// The answer when `c` joins the gathered `text`.
pub open spec fn progress_on(text: Seq<char>, c: char) -> Progress {
    match value_of(text.push(c)) {
        Some(json) => Progress::Value(json),
        None => Progress::NeedMore,
    }
}

/// The text that stays gathered when `c` joins `text`: none after a value.
pub open spec fn text_on(text: Seq<char>, c: char) -> Seq<char> {
    if value_of(text.push(c)) is Some {
        Seq::empty()
    } else {
        text.push(c)
    }
}

/// The answer when the splitter holds `held` and `text` and a read gives
/// `outcome`. Bytes that encode no scalar are passed over and the search goes
/// on. A read that failed ends the values as the end of the stream does:
/// asking a source that fails again could go on without end, so the cause is
/// left with whoever made the read, and no value follows.
pub open spec fn progress_of<E>(held: Seq<u8>, text: Seq<char>, outcome: ReadOutcome<E>) -> Progress {
    match step_of(held, outcome) {
        Step::Pending => Progress::NeedMore,
        Step::Ready(None) => Progress::Finished,
        Step::Ready(Some(Err(CharsError::Other(_)))) => Progress::Finished,
        Step::Ready(Some(Err(CharsError::NotUtf8))) => Progress::NeedMore,
        Step::Ready(Some(Ok(c))) => progress_on(text, c),
    }
}

/// The text that stays gathered after that read: dropped at the end of the
/// stream and at a failed read, untouched by malformed bytes or an unfinished
/// sequence.
pub open spec fn text_after<E>(held: Seq<u8>, text: Seq<char>, outcome: ReadOutcome<E>) -> Seq<
    char,
> {
    match step_of(held, outcome) {
        Step::Pending => text,
        Step::Ready(None) => Seq::empty(),
        Step::Ready(Some(Err(CharsError::Other(_)))) => Seq::empty(),
        Step::Ready(Some(Err(CharsError::NotUtf8))) => text,
        Step::Ready(Some(Ok(c))) => text_on(text, c),
    }
}

/// The text that is tried as a value at that read, if one is: the gathered
/// text with the scalar that the read completed.
pub open spec fn text_tried<E>(held: Seq<u8>, text: Seq<char>, outcome: ReadOutcome<E>) -> Seq<
    char,
> {
    match step_of(held, outcome) {
        Step::Ready(Some(Ok(c))) => text.push(c),
        _ => text,
    }
}

/// Whether `got` is the answer `named`, as far as an answer is fixed. It is
/// fixed whether there is a value, and which, where every number of its
/// `text` is whole; of a value with a fraction or an exponent only that
/// there is one.
pub open spec fn answers(got: Progress, named: Progress, text: Seq<char>) -> bool {
    match named {
        Progress::Value(json) => got matches Progress::Value(j) && (whole_numbers(text) ==> j
            == json),
        _ => got == named,
    }
}

impl Splitter {
    /// The bytes that the decoder holds of an unfinished sequence.
    pub closed spec fn held(&self) -> Seq<u8> {
        self.chars@
    }

    /// The text gathered since the last value.
    pub closed spec fn text(&self) -> Seq<char> {
        self.text@
    }

    /// A splitter that has gathered nothing.
    pub fn new() -> (splitter: Splitter)
        ensures
            splitter.held() == Seq::<u8>::empty(),
            splitter.text() == Seq::<char>::empty(),
    {
        Splitter { chars: Chars::new(), text: Vec::new() }
    }

    /// The number of bytes to ask the source for next.
    pub fn wanted(&self) -> (n: usize)
        ensures
            n == bytes_wanted(self.held()),
            incomplete(self.held()),
            1 <= n <= 3,
    {
        self.chars.wanted()
    }

    /// Concludes a trial: on success the value is handed out and the text
    /// dropped, on failure the text stays for a later closer.
    pub fn settle(&mut self, outcome: Result<Json, ParserError>) -> (progress: Progress)
        ensures
            progress == settled(outcome),
            final(self).held() == old(self).held(),
            final(self).text() == if outcome is Ok {
                Seq::empty()
            } else {
                old(self).text()
            },
    {
        match outcome {
            Ok(json) => {
                self.text = Vec::new();
                Progress::Value(json)
            },
            Err(_) => Progress::NeedMore,
        }
    }

    /// Gathers one scalar and, if it is a closer, tries the text as a value.
    pub fn take_scalar(&mut self, c: char) -> (progress: Progress)
        ensures
            answers(progress, progress_on(old(self).text(), c), old(self).text().push(c)),
            final(self).text() == text_on(old(self).text(), c),
            final(self).held() == old(self).held(),
    {
        self.text.push(c);
        if (c == '}' || c == ']') && check_limits(&self.text) {
            let outcome = build(&self.text);
            self.settle(outcome)
        } else {
            Progress::NeedMore
        }
    }

    /// Takes in what a read gave and says what follows from it.
    pub fn accept<E>(&mut self, outcome: ReadOutcome<E>) -> (progress: Progress)
        ensures
            answers(
                progress,
                progress_of(old(self).held(), old(self).text(), outcome),
                text_tried(old(self).held(), old(self).text(), outcome),
            ),
            final(self).held() == held_after(old(self).held(), outcome),
            final(self).text() == text_after(old(self).held(), old(self).text(), outcome),
    {
        match self.chars.accept(outcome) {
            Step::Pending => Progress::NeedMore,
            Step::Ready(None) => {
                self.text = Vec::new();
                Progress::Finished
            },
            Step::Ready(Some(Err(CharsError::Other(_)))) => {
                self.text = Vec::new();
                Progress::Finished
            },
            Step::Ready(Some(Err(CharsError::NotUtf8))) => Progress::NeedMore,
            Step::Ready(Some(Ok(c))) => self.take_scalar(c),
        }
    }
}

} // verus!
