use jed::chars::decode_sequence;
use jed::width::UTF8_CHAR_WIDTH;
use jed::{utf8_char_width, Chars, CharsError, Decoded, ReadOutcome, Source, Step};

fn scalar(step: Step<&'static str>) -> Option<char> {
    match step {
        Step::Ready(Some(Ok(c))) => Some(c),
        _ => None,
    }
}

fn is_not_utf8(step: &Step<&'static str>) -> bool {
    matches!(step, Step::Ready(Some(Err(CharsError::NotUtf8))))
}

fn is_pending(step: &Step<&'static str>) -> bool {
    matches!(step, Step::Pending)
}

fn is_end(step: &Step<&'static str>) -> bool {
    matches!(step, Step::Ready(None))
}

fn kind(decoded: Decoded) -> Result<Option<char>, ()> {
    match decoded {
        Decoded::End => Ok(None),
        Decoded::Scalar(c) => Ok(Some(c)),
        Decoded::Malformed => Err(()),
    }
}

#[test]
fn width_of_each_range() {
    assert_eq!(utf8_char_width(0x00), 1);
    assert_eq!(utf8_char_width(b'a'), 1);
    assert_eq!(utf8_char_width(0x7f), 1);
    assert_eq!(utf8_char_width(0x80), 0);
    assert_eq!(utf8_char_width(0xbf), 0);
    assert_eq!(utf8_char_width(0xc0), 0);
    assert_eq!(utf8_char_width(0xc1), 0);
    assert_eq!(utf8_char_width(0xc2), 2);
    assert_eq!(utf8_char_width(0xdf), 2);
    assert_eq!(utf8_char_width(0xe0), 3);
    assert_eq!(utf8_char_width(0xef), 3);
    assert_eq!(utf8_char_width(0xf0), 4);
    assert_eq!(utf8_char_width(0xf4), 4);
    assert_eq!(utf8_char_width(0xf5), 0);
    assert_eq!(utf8_char_width(0xff), 0);
}

#[test]
fn width_table_agrees_with_lookup() {
    assert_eq!(UTF8_CHAR_WIDTH.len(), 256);
    for b in 0..=255u8 {
        assert_eq!(utf8_char_width(b), UTF8_CHAR_WIDTH[b as usize] as usize);
        let through_std = std::str::from_utf8(&[b]).is_ok();
        assert_eq!(utf8_char_width(b) == 1, through_std);
    }
}

#[test]
fn decode_sequence_of_each_width() {
    assert_eq!(decode_sequence("a".as_bytes()), Some('a'));
    assert_eq!(decode_sequence("\u{e9}".as_bytes()), Some('\u{e9}'));
    assert_eq!(decode_sequence("\u{20ac}".as_bytes()), Some('\u{20ac}'));
    assert_eq!(decode_sequence("\u{1f600}".as_bytes()), Some('\u{1f600}'));
}

#[test]
fn decode_sequence_refuses_what_is_not_utf8() {
    assert_eq!(decode_sequence(&[]), None);
    assert_eq!(decode_sequence(&[0xc3, 0x28]), None);
    assert_eq!(decode_sequence(&[0xe0, 0x80, 0x80]), None);
    assert_eq!(decode_sequence(&[0xed, 0xa0, 0x80]), None);
    assert_eq!(decode_sequence(&[0xf4, 0x90, 0x80, 0x80]), None);
}

#[test]
fn one_scalar_of_each_width_and_no_byte_more() {
    for (c, width) in [('}', 1usize), ('\u{e9}', 2), ('\u{20ac}', 3), ('\u{1f600}', 4)] {
        let mut bytes = c.to_string().into_bytes();
        assert_eq!(bytes.len(), width);
        bytes.extend_from_slice(b"rest");
        let mut source = Source::new(bytes);
        assert_eq!(kind(source.next_scalar()), Ok(Some(c)));
        assert_eq!(source.remaining(), 4);
    }
}

#[test]
fn every_scalar_of_a_text_in_turn() {
    let text = "a\u{e9}\u{20ac}\u{1f600}]";
    let mut source = Source::new(text.as_bytes().to_vec());
    for c in text.chars() {
        assert_eq!(kind(source.next_scalar()), Ok(Some(c)));
    }
    assert_eq!(kind(source.next_scalar()), Ok(None));
    assert_eq!(kind(source.next_scalar()), Ok(None));
    assert_eq!(source.remaining(), 0);
}

#[test]
fn byte_without_width_costs_one_byte() {
    let mut source = Source::new(vec![0x80, b'a']);
    assert_eq!(kind(source.next_scalar()), Err(()));
    assert_eq!(source.remaining(), 1);
    assert_eq!(kind(source.next_scalar()), Ok(Some('a')));
}

#[test]
fn sequence_cut_short_is_malformed_not_the_end() {
    let mut source = Source::new(vec![0xe2, 0x82]);
    assert_eq!(kind(source.next_scalar()), Err(()));
    assert_eq!(source.remaining(), 0);
    assert_eq!(kind(source.next_scalar()), Ok(None));
}

#[test]
fn ill_formed_sequence_costs_its_full_width() {
    let mut source = Source::new(vec![0xe2, b'a', b'b', b'c']);
    assert_eq!(kind(source.next_scalar()), Err(()));
    assert_eq!(source.remaining(), 1);
    assert_eq!(kind(source.next_scalar()), Ok(Some('c')));
}

#[test]
fn source_reads_no_more_than_it_has() {
    let mut source = Source::new(vec![1, 2, 3]);
    assert_eq!(source.read(2), vec![1, 2]);
    assert_eq!(source.remaining(), 1);
    assert_eq!(source.read(2), vec![3]);
    assert_eq!(source.read(2), Vec::<u8>::new());
    assert_eq!(source.remaining(), 0);
}

#[test]
fn decoder_asks_for_what_the_sequence_lacks() {
    let mut chars = Chars::new();
    assert_eq!(chars.wanted(), 1);
    assert!(is_pending(&chars.accept(ReadOutcome::Bytes(vec![0xf0]))));
    assert_eq!(chars.wanted(), 3);
    assert!(is_pending(&chars.accept(ReadOutcome::Bytes(vec![0x9f]))));
    assert_eq!(chars.wanted(), 2);
    assert!(is_pending(&chars.accept(ReadOutcome::Bytes(vec![0x98]))));
    assert_eq!(chars.wanted(), 1);
    assert_eq!(scalar(chars.accept(ReadOutcome::Bytes(vec![0x80]))), Some('\u{1f600}'));
    assert_eq!(chars.wanted(), 1);
}

#[test]
fn decoder_takes_a_full_read_at_once() {
    let mut chars = Chars::new();
    assert!(is_pending(&chars.accept(ReadOutcome::Bytes(vec![0xe2]))));
    assert_eq!(chars.wanted(), 2);
    assert_eq!(scalar(chars.accept(ReadOutcome::Bytes(vec![0x82, 0xac]))), Some('\u{20ac}'));
}

#[test]
fn decoder_takes_only_what_it_asked_for() {
    let mut chars = Chars::new();
    assert_eq!(scalar(chars.accept(ReadOutcome::Bytes(vec![b'a', b'b']))), Some('a'));
    assert!(is_pending(&chars.accept(ReadOutcome::Bytes(vec![0xc3]))));
    assert_eq!(scalar(chars.accept(ReadOutcome::Bytes(vec![0xa9, b'x']))), Some('\u{e9}'));
}

#[test]
fn decoder_ends_only_between_sequences() {
    let mut chars = Chars::new();
    assert!(is_end(&chars.accept(ReadOutcome::Bytes(Vec::new()))));
    assert!(is_end(&chars.accept(ReadOutcome::Bytes(Vec::new()))));
    assert!(is_pending(&chars.accept(ReadOutcome::Bytes(vec![0xc3]))));
    assert!(is_not_utf8(&chars.accept(ReadOutcome::Bytes(Vec::new()))));
    assert_eq!(chars.wanted(), 1);
    assert!(is_end(&chars.accept(ReadOutcome::Bytes(Vec::new()))));
}

#[test]
fn decoder_refuses_bytes_that_are_not_utf8() {
    let mut chars = Chars::new();
    assert!(is_not_utf8(&chars.accept(ReadOutcome::Bytes(vec![0xff]))));
    assert!(is_not_utf8(&chars.accept(ReadOutcome::Bytes(vec![0xc0]))));
    assert!(is_pending(&chars.accept(ReadOutcome::Bytes(vec![0xc3]))));
    assert!(is_not_utf8(&chars.accept(ReadOutcome::Bytes(vec![0x28]))));
    assert_eq!(scalar(chars.accept(ReadOutcome::Bytes(vec![b'z']))), Some('z'));
}

#[test]
fn decoder_hands_the_cause_of_a_failure_on() {
    let mut chars = Chars::new();
    match chars.accept(ReadOutcome::Failed("broken pipe")) {
        Step::Ready(Some(Err(CharsError::Other(cause)))) => assert_eq!(cause, "broken pipe"),
        _ => panic!("the failure was not handed on"),
    }
    assert!(is_pending(&chars.accept(ReadOutcome::Bytes(vec![0xe2]))));
    match chars.accept(ReadOutcome::Failed("reset")) {
        Step::Ready(Some(Err(CharsError::Other(cause)))) => assert_eq!(cause, "reset"),
        _ => panic!("the failure was not handed on"),
    }
    assert_eq!(chars.wanted(), 1);
    assert_eq!(scalar(chars.accept(ReadOutcome::Bytes(vec![b'a']))), Some('a'));
}

#[test]
fn error_has_words_for_bytes_that_are_not_utf8() {
    let not_utf8: CharsError<&'static str> = CharsError::NotUtf8;
    assert_eq!(not_utf8.description(), Some("invalid utf8 encoding".to_string()));
    assert_eq!(
        not_utf8.message(),
        Some("byte stream did not contain valid utf8".to_string())
    );
    let other = CharsError::Other("broken pipe");
    assert_eq!(other.description(), None);
    assert_eq!(other.message(), None);
}
