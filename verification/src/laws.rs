//! What holds of the decoder and of the splitter on every input.

use crate::chars::{
    bytes_wanted, held_after, incomplete, step_of, CharsError, ReadOutcome, Step,
};
use crate::iter::{lemma_split_next_consumes, split_next, values};
use crate::json::built;
use crate::limits::{
    is_mark, lemma_beyond_stays_beyond, lemma_without_marks_within, whole_numbers, within_limits,
    MAX_DEPTH,
};
use crate::source::{head, head_len, Decoded};
use crate::splitter::{is_candidate, is_closer, value_of};
use crate::width::char_width;
use rustc_serialize::json::{Json, ParserError};
use vstd::prelude::*;
use vstd::utf8::*;

verus! {

/// The width table agrees with the encoding: the first byte of a well-formed
/// sequence announces the length of that sequence.
pub proof fn lemma_width_of_well_formed(bytes: Seq<u8>)
    requires
        valid_first_scalar(bytes),
    ensures
        char_width(bytes[0]) == length_of_first_scalar(bytes),
{
    let b0 = bytes[0];
    if is_leading_byte_width_1(b0) {
    } else if is_leading_byte_width_2(b0) {
        let b1 = bytes[1];
        assert(b0 >= 0xc2) by (bit_vector)
            requires
                0xc0 <= b0 <= 0xdf,
                0x80 <= (((b0 & 0x1f) as u32) << 6) | ((b1 & 0x3f) as u32),
        ;
    } else if is_leading_byte_width_3(b0) {
    } else {
        let b1 = bytes[1];
        let b2 = bytes[2];
        let b3 = bytes[3];
        assert(b0 <= 0xf4) by (bit_vector)
            requires
                0xf0 <= b0 <= 0xf7,
                (((b0 & 0x07) as u32) << 18) | (((b1 & 0x3f) as u32) << 12) | (((b2 & 0x3f) as u32)
                    << 6) | ((b3 & 0x3f) as u32) <= 0x10ffff,
        ;
    }
}

/// Where the bytes begin with a well-formed sequence, the decoder gives its
/// scalar and takes the bytes of that sequence, whatever follows.
pub proof fn lemma_head_of_well_formed(bytes: Seq<u8>)
    requires
        valid_first_scalar(bytes),
    ensures
        head(bytes) == Decoded::Scalar(decode_first_scalar(bytes) as char),
        head_len(bytes) == length_of_first_scalar(bytes),
{
    lemma_width_of_well_formed(bytes);
    let width = length_of_first_scalar(bytes);
    let sequence = bytes.take(width);
    assert(valid_first_scalar(sequence));
    assert(pop_first_scalar(sequence).len() == 0);
    assert(valid_utf8(pop_first_scalar(sequence)));
    assert(valid_utf8(sequence));
    assert(decode_first_scalar(sequence) == decode_first_scalar(bytes));
}

/// Decoding undoes encoding: for every scalar `c`, the decoder run on the
/// UTF-8 encoding of `c`, followed by any bytes `rest`, gives `c` and takes
/// exactly the bytes of the encoding.
pub proof fn law_decoding(c: char, rest: Seq<u8>)
    ensures
        head(encode_scalar(c as u32) + rest) == Decoded::Scalar(c),
        head_len(encode_scalar(c as u32) + rest) == encode_scalar(c as u32).len(),
        1 <= encode_scalar(c as u32).len() <= 4,
        (encode_scalar(c as u32) + rest).skip(encode_scalar(c as u32).len() as int) == rest,
{
    let encoding = encode_scalar(c as u32);
    let bytes = encoding + rest;
    let alone = seq![c];
    assert(encode_utf8(alone.drop_first()) == Seq::<u8>::empty());
    assert(encode_utf8(alone) == encoding);
    encode_utf8_first_scalar(alone);
    assert(valid_first_scalar(encoding));
    assert(valid_first_scalar(bytes));
    assert(decode_first_scalar(bytes) == decode_first_scalar(encoding));
    assert(length_of_first_scalar(bytes) == length_of_first_scalar(encoding));
    lemma_head_of_well_formed(bytes);
    char_u32_cast(c, c as u32);
}

/// A byte that the width table gives no width, and a sequence that the end
/// of the stream cuts short, come out as malformed; neither passes for a
/// scalar.
pub proof fn law_malformed(bytes: Seq<u8>)
    requires
        bytes.len() > 0,
        char_width(bytes[0]) == 0 || bytes.len() < char_width(bytes[0]),
    ensures
        head(bytes) == Decoded::Malformed,
        head_len(bytes) == if char_width(bytes[0]) == 0 {
            1
        } else {
            bytes.len()
        },
{
}

/// The same of the decoder as it is told of each read: a first byte without
/// a width, and the end of the stream inside a sequence, give the error for
/// bytes that are not UTF-8.
pub proof fn law_malformed_reads<E>(held: Seq<u8>, got: Vec<u8>)
    requires
        held.len() == 0 && got@.len() == 1 && char_width(got@[0]) == 0 || held.len() > 0
            && got@.len() == 0,
    ensures
        step_of(held, ReadOutcome::<E>::Bytes(got)) == Step::<E>::Ready(
            Some(Err(CharsError::NotUtf8)),
        ),
{
    if held.len() == 0 {
        assert((held + got@)[0] == got@[0]);
    }
}

/// It makes no difference in how many reads the bytes of a sequence arrive:
/// after a read that brings part of what was wanted the decoder waits, and a
/// second read that brings more leaves it where one read of both would have.
pub proof fn law_partial_reads<E>(held: Seq<u8>, first: Vec<u8>, second: Vec<u8>, both: Vec<u8>)
    requires
        incomplete(held),
        first@.len() > 0,
        second@.len() > 0,
        both@ == first@ + second@,
        both@.len() <= bytes_wanted(held),
    ensures
        step_of(held, ReadOutcome::<E>::Bytes(first)) is Pending,
        step_of(held_after(held, ReadOutcome::<E>::Bytes(first)), ReadOutcome::<E>::Bytes(second))
            == step_of(held, ReadOutcome::<E>::Bytes(both)),
        held_after(held_after(held, ReadOutcome::<E>::Bytes(first)), ReadOutcome::<E>::Bytes(second))
            == held_after(held, ReadOutcome::<E>::Bytes(both)),
{
    let part = held + first@;
    assert(part[0] == held[0]);
    assert(part + second@ == held + both@);
    assert((held + both@)[0] == held[0]);
}

/// Whether `b` is the byte of a closing bracket or brace.
pub open spec fn is_closer_byte(b: u8) -> bool {
    b == 0x5d || b == 0x7d
}

/// Whether no byte of `bytes` is a closer.
pub open spec fn no_closer(bytes: Seq<u8>) -> bool {
    forall|i: int| 0 <= i < bytes.len() ==> !is_closer_byte(#[trigger] bytes[i])
}

/// A closer is decoded from its own byte only: no longer sequence gives one.
pub proof fn lemma_closer_from_closer_byte(bytes: Seq<u8>)
    requires
        head(bytes) matches Decoded::Scalar(c) && is_closer(c),
    ensures
        bytes.len() > 0,
        is_closer_byte(bytes[0]),
{
    let width = char_width(bytes[0]);
    let sequence = bytes.take(width as int);
    let point = decode_first_scalar(sequence);
    assert(sequence[0] == bytes[0]);
    if width == 1 {
        let b = bytes[0];
        assert(b & 0x7f == b) by (bit_vector)
            requires
                b <= 0x7f,
        ;
    } else {
        assert(valid_first_scalar(sequence));
        assert(0x80 <= point <= 0x10ffff) by {
            let b0 = sequence[0];
            let b1 = sequence[1];
            if is_leading_byte_width_2(b0) {
                assert((((b0 & 0x1f) as u32) << 6) | ((b1 & 0x3f) as u32) <= 0x7ff)
                    by (bit_vector);
            } else if is_leading_byte_width_3(b0) {
                let b2 = sequence[2];
                assert((((b0 & 0x0f) as u32) << 12) | (((b1 & 0x3f) as u32) << 6) | ((b2
                    & 0x3f) as u32) <= 0xffff) by (bit_vector);
            }
        }
        assert(('}' as u32) == 0x7d && (']' as u32) == 0x5d);
    }
}

/// A stream without bytes holds no value.
pub proof fn law_empty()
    ensures
        values(Seq::<u8>::empty()) == Seq::<Json>::empty(),
{
}

/// The search for a value in a stream without a closer ends with nothing,
/// whatever is gathered already.
pub proof fn lemma_no_closer_no_next(bytes: Seq<u8>, text: Seq<char>)
    requires
        no_closer(bytes),
    ensures
        split_next(bytes, text).0 is None,
    decreases bytes.len(),
{
    let rest = bytes.skip(head_len(bytes) as int);
    match head(bytes) {
        Decoded::End => {},
        Decoded::Malformed => {
            lemma_no_closer_no_next(rest, text);
        },
        Decoded::Scalar(c) => {
            if is_closer(c) {
                lemma_closer_from_closer_byte(bytes);
            }
            lemma_no_closer_no_next(rest, text.push(c));
        },
    }
}

/// A stream in which no closing bracket or brace occurs holds no value.
pub proof fn law_no_closer(bytes: Seq<u8>)
    requires
        no_closer(bytes),
    ensures
        values(bytes) == Seq::<Json>::empty(),
{
    lemma_no_closer_no_next(bytes, Seq::empty());
}

/// A value that is found in `bytes` is found in the same place when more
/// bytes follow: what follows a value takes no part in it.
pub proof fn lemma_split_next_extends(bytes: Seq<u8>, text: Seq<char>, more: Seq<u8>)
    requires
        split_next(bytes, text).0 is Some,
    ensures
        split_next(bytes + more, text).0 == split_next(bytes, text).0,
        split_next(bytes + more, text).1 == split_next(bytes, text).1 + more,
    decreases bytes.len(),
{
    let rest = bytes.skip(head_len(bytes) as int);
    let longer = bytes + more;
    if bytes.len() > 0 {
        assert(longer[0] == bytes[0]);
        let width = char_width(bytes[0]);
        if width > 0 && bytes.len() < width {
            assert(rest.len() == 0);
            assert(split_next(rest, text).0 is None);
        } else {
            if width > 0 {
                assert(longer.take(width as int) == bytes.take(width as int));
            }
            assert(head(longer) == head(bytes));
            assert(head_len(longer) == head_len(bytes));
            assert(longer.skip(head_len(bytes) as int) == rest + more);
            match head(bytes) {
                Decoded::End => {},
                Decoded::Malformed => {
                    lemma_split_next_extends(rest, text, more);
                },
                Decoded::Scalar(c) => {
                    if value_of(text.push(c)) is None {
                        lemma_split_next_extends(rest, text.push(c), more);
                    }
                },
            }
        }
    }
}

/// The values of a stream are its first value and the values of what lies
/// behind it.
pub proof fn lemma_values_unfold(bytes: Seq<u8>)
    ensures
        values(bytes) == match split_next(bytes, Seq::empty()) {
            (Some(json), rest) => seq![json] + values(rest),
            (None, _) => Seq::empty(),
        },
{
    lemma_split_next_consumes(bytes, Seq::empty());
}

/// Where `bytes` hold a first value, the values of `bytes` followed by
/// `more` are that value and the values of what lay behind it followed by
/// `more`.
pub proof fn law_first_value_stands(bytes: Seq<u8>, more: Seq<u8>)
    requires
        split_next(bytes, Seq::empty()).0 is Some,
    ensures
        values(bytes + more) == seq![split_next(bytes, Seq::empty()).0->0] + values(
            split_next(bytes, Seq::empty()).1 + more,
        ),
{
    lemma_split_next_extends(bytes, Seq::empty(), more);
    lemma_values_unfold(bytes + more);
}

/// Whether `bytes` are the text of one value and no more: the first value
/// ends with the last byte.
pub open spec fn holds_one_value(bytes: Seq<u8>) -> bool {
    split_next(bytes, Seq::empty()).0 is Some && split_next(bytes, Seq::empty()).1.len() == 0
}

/// The value that such bytes hold.
pub open spec fn the_value(bytes: Seq<u8>) -> Json {
    split_next(bytes, Seq::empty()).0->0
}

/// A value followed by bytes without a closer comes out alone: what follows
/// is dropped.
pub proof fn law_trailing_garbage(bytes: Seq<u8>, garbage: Seq<u8>)
    requires
        holds_one_value(bytes),
        no_closer(garbage),
    ensures
        values(bytes + garbage) == seq![the_value(bytes)],
{
    law_first_value_stands(bytes, garbage);
    assert(split_next(bytes, Seq::empty()).1 + garbage == garbage);
    law_no_closer(garbage);
}

/// `bytes` written `n` times in a row.
pub open spec fn repeated(bytes: Seq<u8>, n: nat) -> Seq<u8>
    decreases n,
{
    if n == 0 {
        Seq::empty()
    } else {
        bytes + repeated(bytes, (n - 1) as nat)
    }
}

/// The text of one value, written `n` times in a row, holds `n` values, each
/// of them that value.
pub proof fn law_repeated(bytes: Seq<u8>, n: nat)
    requires
        holds_one_value(bytes),
    ensures
        values(repeated(bytes, n)) == Seq::new(n, |i: int| the_value(bytes)),
    decreases n,
{
    if n == 0 {
        law_empty();
    } else {
        let behind = repeated(bytes, (n - 1) as nat);
        law_repeated(bytes, (n - 1) as nat);
        law_first_value_stands(bytes, behind);
        assert(split_next(bytes, Seq::empty()).1 + behind == behind);
        assert(seq![the_value(bytes)] + Seq::new((n - 1) as nat, |i: int| the_value(bytes))
            == Seq::new(n, |i: int| the_value(bytes)));
    }
}

/// The bytes of a text begin with the encoding of its first character: the
/// decoder gives that character and leaves the bytes of the others.
pub proof fn lemma_head_of_text(chars: Seq<char>)
    requires
        chars.len() > 0,
    ensures
        head(encode_utf8(chars)) == Decoded::Scalar(chars[0]),
        encode_utf8(chars).skip(head_len(encode_utf8(chars)) as int) == encode_utf8(
            chars.drop_first(),
        ),
{
    law_decoding(chars[0], encode_utf8(chars.drop_first()));
}

/// Whether `end` is the first place in `chars` at which the text gathered,
/// `text` and then the characters up to `end`, gives a value.
pub open spec fn first_value_ends(text: Seq<char>, chars: Seq<char>, end: int) -> bool {
    &&& 1 <= end <= chars.len()
    &&& value_of(text + chars.take(end)) is Some
    &&& forall|i: int| 1 <= i < end ==> value_of(text + #[trigger] chars.take(i)) is None
}

/// On the bytes of a text, the value found is that of the first prefix which
/// gives one, and the bytes left are those of the characters behind that
/// prefix: nothing is read past the closer, and no character is passed over
/// or taken twice.
pub proof fn law_next_of_text(text: Seq<char>, chars: Seq<char>, end: int)
    requires
        first_value_ends(text, chars, end),
    ensures
        split_next(encode_utf8(chars), text).0 == value_of(text + chars.take(end)),
        split_next(encode_utf8(chars), text).1 == encode_utf8(chars.skip(end)),
    decreases chars.len(),
{
    lemma_head_of_text(chars);
    let first = chars[0];
    let behind = chars.drop_first();
    assert(text + chars.take(1) == text.push(first));
    if end == 1 {
        assert(chars.skip(1) == behind);
    } else {
        assert(value_of(text + chars.take(1)) is None);
        assert(text.push(first) + behind.take(end - 1) == text + chars.take(end));
        assert forall|i: int| 1 <= i < end - 1 implies value_of(
            text.push(first) + #[trigger] behind.take(i),
        ) is None by {
            assert(text.push(first) + behind.take(i) == text + chars.take(i + 1));
        }
        assert(behind.skip(end - 1) == chars.skip(end));
        law_next_of_text(text.push(first), behind, end - 1);
    }
}

/// On the bytes of a text of which no prefix gives a value, nothing is found
/// and the bytes are used up.
pub proof fn law_none_of_text(text: Seq<char>, chars: Seq<char>)
    requires
        forall|i: int| 1 <= i <= chars.len() ==> value_of(text + #[trigger] chars.take(i)) is None,
    ensures
        split_next(encode_utf8(chars), text).0 is None,
        split_next(encode_utf8(chars), text).1.len() == 0,
    decreases chars.len(),
{
    if chars.len() > 0 {
        lemma_head_of_text(chars);
        let first = chars[0];
        let behind = chars.drop_first();
        assert(text + chars.take(1) == text.push(first));
        assert forall|i: int| 1 <= i <= behind.len() implies value_of(
            text.push(first) + #[trigger] behind.take(i),
        ) is None by {
            assert(text.push(first) + behind.take(i) == text + chars.take(i + 1));
        }
        law_none_of_text(text.push(first), behind);
    } else {
        assert(encode_utf8(chars).len() == 0);
    }
}

/// A text that ends in a closer, that the builder takes for the value `json`
/// while it refuses each shorter prefix that ends in a closer, and in which
/// nothing overflows, is the text of one value: its bytes hold `json` and no
/// more.
pub proof fn law_one_value_text(chars: Seq<char>, json: Json)
    requires
        chars.len() > 0,
        is_closer(chars.last()),
        within_limits(chars),
        built(chars) == Ok::<Json, ParserError>(json),
        forall|i: int|
            1 <= i < chars.len() && is_closer(chars[i - 1]) ==> built(#[trigger] chars.take(i))
                is Err,
    ensures
        holds_one_value(encode_utf8(chars)),
        the_value(encode_utf8(chars)) == json,
{
    let whole = chars.len() as int;
    let text = Seq::<char>::empty();
    assert(chars.take(whole) == chars);
    assert(text + chars == chars);
    assert forall|i: int| 1 <= i < whole implies value_of(text + #[trigger] chars.take(i))
        is None by {
        assert(text + chars.take(i) == chars.take(i));
        assert(chars.take(i).last() == chars[i - 1]);
    }
    law_next_of_text(text, chars, whole);
    assert(chars.skip(whole).len() == 0);
    assert(encode_utf8(chars.skip(whole)).len() == 0);
}

/// Such a text, written `n` times in a row, comes back as `n` values, each
/// of them `json`.
pub proof fn law_repeated_text(chars: Seq<char>, json: Json, n: nat)
    requires
        chars.len() > 0,
        is_closer(chars.last()),
        within_limits(chars),
        built(chars) == Ok::<Json, ParserError>(json),
        forall|i: int|
            1 <= i < chars.len() && is_closer(chars[i - 1]) ==> built(#[trigger] chars.take(i))
                is Err,
    ensures
        values(repeated(encode_utf8(chars), n)) == Seq::new(n, |i: int| json),
{
    law_one_value_text(chars, json);
    law_repeated(encode_utf8(chars), n);
    assert(Seq::new(n, |i: int| the_value(encode_utf8(chars))) == Seq::new(n, |i: int| json));
}

/// Once the text gathered is beyond the limits, the request it belongs to
/// gives no value any more, whatever bytes follow.
pub proof fn law_beyond_gives_nothing(bytes: Seq<u8>, text: Seq<char>)
    requires
        !within_limits(text),
    ensures
        split_next(bytes, text).0 is None,
    decreases bytes.len(),
{
    let rest = bytes.skip(head_len(bytes) as int);
    match head(bytes) {
        Decoded::End => {},
        Decoded::Malformed => {
            law_beyond_gives_nothing(rest, text);
        },
        Decoded::Scalar(c) => {
            lemma_beyond_stays_beyond(text, seq![c]);
            assert(text + seq![c] == text.push(c));
            law_beyond_gives_nothing(rest, text.push(c));
        },
    }
}

/// A text of brackets, braces and the like, without quotes, colons, commas
/// and the letter `e`, that ends in a closer and is no longer than
/// [`MAX_DEPTH`], is tried, and its value is what the builder makes of it.
pub proof fn law_brackets_are_tried(text: Seq<char>)
    requires
        text.len() > 0,
        text.len() <= MAX_DEPTH,
        is_closer(text.last()),
        forall|i: int| 0 <= i < text.len() ==> !is_mark(#[trigger] text[i]) && text[i] != '.',
    ensures
        is_candidate(text),
        whole_numbers(text),
        value_of(text) is Some <==> built(text) is Ok,
{
    lemma_without_marks_within(text);
}

} // verus!
