//! The texts that are handed to the JSON builder.
//!
//! The builder keeps the keys of the objects it is inside of in one buffer
//! that it addresses with 16 bits, numbers the elements of an array with 32
//! bits, and adds up the digits of an exponent in a machine word. A text that
//! brings one of these to overflow is not handed on. The builder also calls
//! itself once for each array or object inside another, so that a text which
//! nests too deep uses up the stack; and it loses its place among the keys
//! when a comma stands directly before a closing brace inside another value,
//! and may then stop the program. No JSON value has a comma before a closer,
//! so such a text is not handed on either.
//!
//! The check is one pass over the characters. It does not parse: it tells
//! string literals from what stands between them, follows the escapes inside
//! a literal far enough to know how many bytes the literal stands for, and
//! keeps count of the arrays and objects that are open.

use vstd::prelude::*;

verus! {

/// The most arrays and objects that may be open at once. The builder needs
/// some hundred bytes of stack for each; this many stay well below 2 MiB,
/// the stack of a thread that the standard library starts.
pub const MAX_DEPTH: usize = 512;

/// The most bytes that the keys of all open objects may have together.
pub const MAX_KEY_BYTES: u64 = 0xffff;

/// The highest number that an element of an array may have.
pub const MAX_INDEX: u64 = 0xffff_ffff;

/// The highest value that an exponent may have.
pub const MAX_EXPONENT: u64 = 0xffff_ffff;

/// An array or object that is open.
#[derive(Clone, Copy)]
pub struct Frame {
    /// An object, not an array.
    pub object: bool,
    /// Of an object, the bytes of the key whose value is under way; of an
    /// array, the number of the element under way.
    pub count: u64,
}

/// Where the pass is with respect to string literals.
#[derive(Clone, Copy)]
pub enum Quote {
    /// Outside string literals.
    Outside,
    /// Inside a literal.
    Plain,
    /// Inside a literal, right after a backslash.
    Escape,
    /// Inside the four digits of a `\u` escape: `seen` digits gave `value`;
    /// `paired` where the escape is the second half of a surrogate pair.
    Hex { seen: u8, value: u32, paired: bool },
    /// After the first half of a surrogate pair, where a backslash is due.
    PairSlash,
    /// After that backslash, where a `u` is due.
    PairU,
}

/// What the pass keeps besides the open arrays and objects.
#[derive(Clone, Copy)]
pub struct Flat {
    /// Where the pass is with respect to string literals.
    pub quote: Quote,
    /// The bytes that the literal under way, or the last one, stands for;
    /// counted up to one past [`MAX_KEY_BYTES`].
    pub literal: u64,
    /// A string literal has ended, and only white space came since.
    pub after_literal: bool,
    /// A comma was seen, and only white space came since.
    pub after_comma: bool,
    /// Inside what may be an exponent: the value of the digits since the `e`.
    pub exponent: Option<u64>,
    /// The bytes of the keys of all open objects together.
    pub keys: u64,
    /// Nothing has overflowed so far, and no comma stood before a closer.
    pub within: bool,
}

/// What the pass knows after a prefix of the text.
pub struct Pass {
    /// The arrays and objects that are open, the innermost last.
    pub open: Seq<Frame>,
    /// The rest.
    pub flat: Flat,
}

/// The number of bytes that `c` takes in UTF-8.
pub open spec fn utf8_len(c: char) -> nat {
    code_len(c as u32)
}

/// The number of bytes that the scalar of value `v` takes in UTF-8.
pub open spec fn code_len(v: u32) -> nat {
    if v < 0x80 {
        1
    } else if v < 0x800 {
        2
    } else if v < 0x10000 {
        3
    } else {
        4
    }
}

/// The value of `c` as a hexadecimal digit; 0 where it is none.
pub open spec fn hex_value(c: char) -> u32 {
    if '0' <= c <= '9' {
        (c as u32 - 0x30) as u32
    } else if 'a' <= c <= 'f' {
        (c as u32 - 0x61 + 10) as u32
    } else if 'A' <= c <= 'F' {
        (c as u32 - 0x41 + 10) as u32
    } else {
        0
    }
}

/// A count of literal bytes grown by `n`, kept at one past the limit.
pub open spec fn grown(literal: u64, n: nat) -> u64 {
    if literal + n > MAX_KEY_BYTES {
        (MAX_KEY_BYTES + 1) as u64
    } else {
        (literal + n) as u64
    }
}

/// `a - b`, or 0 where `b` is the greater.
pub open spec fn less(a: u64, b: u64) -> u64 {
    if a >= b {
        (a - b) as u64
    } else {
        0
    }
}

/// Whether `c` is white space to the builder.
pub open spec fn is_blank(c: char) -> bool {
    c == ' ' || c == '\n' || c == '\t' || c == '\r'
}

/// The state before the first character.
pub open spec fn pass_start() -> Pass {
    Pass {
        open: Seq::empty(),
        flat: Flat {
            quote: Quote::Outside,
            literal: 0,
            after_literal: false,
            after_comma: false,
            exponent: None,
            keys: 0,
            within: true,
        },
    }
}

/// The state after a character inside a string literal. An escape stands for
/// one byte, a `\u` escape for the bytes of its scalar, and a surrogate
/// pair of two such escapes for four.
pub open spec fn step_quoted(f: Flat, c: char) -> Flat {
    match f.quote {
        Quote::Outside => f,
        Quote::Plain => if c == '\\' {
            Flat { quote: Quote::Escape, ..f }
        } else if c == '"' {
            Flat { quote: Quote::Outside, after_literal: true, ..f }
        } else {
            Flat { literal: grown(f.literal, utf8_len(c)), ..f }
        },
        Quote::Escape => if c == 'u' {
            Flat { quote: Quote::Hex { seen: 0, value: 0, paired: false }, ..f }
        } else {
            Flat { quote: Quote::Plain, literal: grown(f.literal, 1), ..f }
        },
        Quote::Hex { seen, value, paired } => {
            let v = if value < 0x1000 {
                (value * 16 + hex_value(c)) as u32
            } else {
                0u32
            };
            if seen < 3 {
                Flat { quote: Quote::Hex { seen: (seen + 1) as u8, value: v, paired }, ..f }
            } else if paired {
                Flat { quote: Quote::Plain, literal: grown(f.literal, 4), ..f }
            } else if 0xd800 <= v <= 0xdbff {
                Flat { quote: Quote::PairSlash, ..f }
            } else {
                Flat { quote: Quote::Plain, literal: grown(f.literal, code_len(v)), ..f }
            }
        },
        Quote::PairSlash => Flat { quote: Quote::PairU, ..f },
        Quote::PairU => Flat { quote: Quote::Hex { seen: 0, value: 0, paired: true }, ..f },
    }
}

/// The exponent under way after `c`, outside string literals.
pub open spec fn exponent_after(exponent: Option<u64>, c: char) -> Option<u64> {
    if c == 'e' || c == 'E' {
        Some(0u64)
    } else if exponent is Some && '0' <= c <= '9' {
        if exponent_fits(exponent, c) {
            Some((exponent->0 * 10 + hex_value(c)) as u64)
        } else {
            exponent
        }
    } else if exponent is Some && (c == '+' || c == '-') {
        exponent
    } else {
        None
    }
}

/// Whether the exponent stays within [`MAX_EXPONENT`] when `c` joins it.
pub open spec fn exponent_fits(exponent: Option<u64>, c: char) -> bool {
    exponent is Some && '0' <= c <= '9' ==> exponent->0 * 10 + hex_value(c) <= MAX_EXPONENT
}

/// The open arrays and objects after `c`, outside string literals, where
/// nothing overflows.
pub open spec fn open_after(p: Pass, c: char) -> Seq<Frame> {
    if c == '[' {
        p.open.push(Frame { object: false, count: 0 })
    } else if c == '{' {
        p.open.push(Frame { object: true, count: 0 })
    } else if p.open.len() == 0 {
        p.open
    } else if c == ']' || c == '}' {
        p.open.drop_last()
    } else if c == ',' {
        if p.open.last().object {
            p.open.drop_last().push(Frame { object: true, count: 0 })
        } else if p.open.last().count < MAX_INDEX {
            p.open.drop_last().push(
                Frame { object: false, count: (p.open.last().count + 1) as u64 },
            )
        } else {
            p.open
        }
    } else if c == ':' && p.flat.after_literal && p.open.last().object && key_fits(p, c) {
        p.open.drop_last().push(Frame { object: true, count: p.flat.literal })
    } else {
        p.open
    }
}

/// The bytes of the keys of all open objects after `c`, outside string
/// literals: a closing brace and a comma let go of the key of the object
/// they stand in, a colon takes the literal before it for the key.
pub open spec fn keys_after(p: Pass, c: char) -> u64 {
    if p.open.len() == 0 || !p.open.last().object {
        p.flat.keys
    } else if c == ']' || c == '}' || c == ',' {
        less(p.flat.keys, p.open.last().count)
    } else if c == ':' && p.flat.after_literal && key_fits(p, c) {
        (less(p.flat.keys, p.open.last().count) + p.flat.literal) as u64
    } else {
        p.flat.keys
    }
}

/// Whether the keys of all open objects stay within [`MAX_KEY_BYTES`] when
/// `c` makes the literal before it a key.
pub open spec fn key_fits(p: Pass, c: char) -> bool {
    c == ':' && p.flat.after_literal && p.open.len() > 0 && p.open.last().object ==> less(
        p.flat.keys,
        p.open.last().count,
    ) + p.flat.literal <= MAX_KEY_BYTES
}

/// Whether the number of the element stays within [`MAX_INDEX`] when `c`
/// begins the next element.
pub open spec fn index_fits(p: Pass, c: char) -> bool {
    c == ',' && p.open.len() > 0 && !p.open.last().object ==> p.open.last().count < MAX_INDEX
}

/// Whether no more than [`MAX_DEPTH`] arrays and objects are open when `c`
/// opens one.
pub open spec fn depth_fits(p: Pass, c: char) -> bool {
    c == '[' || c == '{' ==> p.open.len() < MAX_DEPTH
}

/// Whether `c` is no closer right after a comma.
pub open spec fn comma_fits(f: Flat, c: char) -> bool {
    !((c == ']' || c == '}') && f.after_comma)
}

/// The state after a character outside string literals.
pub open spec fn step_outside(p: Pass, c: char) -> Pass {
    Pass {
        open: open_after(p, c),
        flat: Flat {
            quote: if c == '"' {
                Quote::Plain
            } else {
                Quote::Outside
            },
            literal: if c == '"' {
                0
            } else {
                p.flat.literal
            },
            after_literal: p.flat.after_literal && is_blank(c),
            after_comma: c == ',' || (p.flat.after_comma && is_blank(c)),
            exponent: exponent_after(p.flat.exponent, c),
            keys: keys_after(p, c),
            within: p.flat.within && exponent_fits(p.flat.exponent, c) && key_fits(p, c)
                && index_fits(p, c) && comma_fits(p.flat, c) && depth_fits(p, c),
        },
    }
}

/// The state after one more character.
pub open spec fn pass_step(p: Pass, c: char) -> Pass {
    if p.flat.quote is Outside {
        step_outside(p, c)
    } else {
        Pass { open: p.open, flat: step_quoted(p.flat, c) }
    }
}

/// The state after the whole of `text`.
pub open spec fn pass(text: Seq<char>) -> Pass
    decreases text.len(),
{
    if text.len() == 0 {
        pass_start()
    } else {
        pass_step(pass(text.drop_last()), text.last())
    }
}

/// Whether `text` is handed to the builder: no more than [`MAX_DEPTH`] arrays
/// and objects are open at once; wherever a colon makes a string literal a
/// key, the keys of all open objects together have no more than
/// [`MAX_KEY_BYTES`] bytes; no array has an element numbered above
/// [`MAX_INDEX`]; no `e` outside string literals is followed by digits of a
/// value above [`MAX_EXPONENT`]; and no comma stands directly before a
/// closing bracket or brace.
pub open spec fn within_limits(text: Seq<char>) -> bool {
    pass(text).flat.within
}

/// Counts the bytes that the scalar of value `v` takes in UTF-8.
pub fn code_bytes(v: u32) -> (n: u64)
    ensures
        n == code_len(v),
{
    if v < 0x80 {
        1
    } else if v < 0x800 {
        2
    } else if v < 0x10000 {
        3
    } else {
        4
    }
}

/// Reads `c` as a hexadecimal digit.
pub fn hex_digit(c: char) -> (v: u32)
    ensures
        v == hex_value(c),
        v <= 15,
{
    let code: u32 = c as u32;
    if '0' <= c && c <= '9' {
        code - 0x30
    } else if 'a' <= c && c <= 'f' {
        code - 0x61 + 10
    } else if 'A' <= c && c <= 'F' {
        code - 0x41 + 10
    } else {
        0
    }
}

/// Grows a count of literal bytes by `n`.
fn grow(literal: u64, n: u64) -> (sum: u64)
    requires
        n <= 4,
    ensures
        sum == grown(literal, n as nat),
{
    if literal > MAX_KEY_BYTES || n > MAX_KEY_BYTES - literal {
        MAX_KEY_BYTES + 1
    } else {
        literal + n
    }
}

impl Flat {
    /// Moves the state over one character inside a string literal.
    pub fn quoted(self, c: char) -> (next: Flat)
        ensures
            next == step_quoted(self, c),
    {
        match self.quote {
            Quote::Outside => self,
            Quote::Plain => {
                if c == '\\' {
                    Flat { quote: Quote::Escape, ..self }
                } else if c == '"' {
                    Flat { quote: Quote::Outside, after_literal: true, ..self }
                } else {
                    Flat { literal: grow(self.literal, code_bytes(c as u32)), ..self }
                }
            },
            Quote::Escape => {
                if c == 'u' {
                    Flat { quote: Quote::Hex { seen: 0, value: 0, paired: false }, ..self }
                } else {
                    Flat { quote: Quote::Plain, literal: grow(self.literal, 1), ..self }
                }
            },
            Quote::Hex { seen, value, paired } => {
                let v: u32 = if value < 0x1000 {
                    value * 16 + hex_digit(c)
                } else {
                    0
                };
                if seen < 3 {
                    Flat { quote: Quote::Hex { seen: seen + 1, value: v, paired }, ..self }
                } else if paired {
                    Flat { quote: Quote::Plain, literal: grow(self.literal, 4), ..self }
                } else if 0xd800 <= v && v <= 0xdbff {
                    Flat { quote: Quote::PairSlash, ..self }
                } else {
                    Flat { quote: Quote::Plain, literal: grow(self.literal, code_bytes(v)), ..self }
                }
            },
            Quote::PairSlash => Flat { quote: Quote::PairU, ..self },
            Quote::PairU => Flat {
                quote: Quote::Hex { seen: 0, value: 0, paired: true },
                ..self
            },
        }
    }
}

/// The pass over a text, as far as it has come.
pub struct Scan {
    open: Vec<Frame>,
    flat: Flat,
}

impl View for Scan {
    type V = Pass;

    closed spec fn view(&self) -> Pass {
        Pass { open: self.open@, flat: self.flat }
    }
}

impl Scan {
    /// The pass before the first character.
    pub fn start() -> (scan: Scan)
        ensures
            scan@ == pass_start(),
    {
        Scan {
            open: Vec::new(),
            flat: Flat {
                quote: Quote::Outside,
                literal: 0,
                after_literal: false,
                after_comma: false,
                exponent: None,
                keys: 0,
                within: true,
            },
        }
    }

    /// Whether nothing has overflowed so far.
    pub fn within(&self) -> (ok: bool)
        ensures
            ok == self@.flat.within,
    {
        self.flat.within
    }

    /// Moves the pass over one character.
    pub fn step(&mut self, c: char)
        ensures
            final(self)@ == pass_step(old(self)@, c),
    {
        let f = self.flat;
        match f.quote {
            Quote::Outside => {},
            _ => {
                self.flat = f.quoted(c);
                return ;
            },
        }
        let ghost before = self@;
        let digit = '0' <= c && c <= '9';
        let closes = c == ']' || c == '}';
        let blank = c == ' ' || c == '\n' || c == '\t' || c == '\r';
        let mut fits = !(closes && f.after_comma);
        let exponent: Option<u64> = if c == 'e' || c == 'E' {
            Some(0)
        } else {
            match f.exponent {
                Some(value) => {
                    if digit {
                        let d = hex_digit(c) as u64;
                        if value <= MAX_EXPONENT && value * 10 + d <= MAX_EXPONENT {
                            Some(value * 10 + d)
                        } else {
                            fits = false;
                            Some(value)
                        }
                    } else if c == '+' || c == '-' {
                        Some(value)
                    } else {
                        None
                    }
                },
                None => None,
            }
        };
        let mut keys = f.keys;
        if c == '[' || c == '{' {
            if self.open.len() >= MAX_DEPTH {
                fits = false;
            }
            self.open.push(Frame { object: c == '{', count: 0 });
        } else if self.open.len() > 0 {
            let top = self.open[self.open.len() - 1];
            let freed: u64 = if keys >= top.count {
                keys - top.count
            } else {
                0
            };
            if closes {
                self.open.pop();
                if top.object {
                    keys = freed;
                }
            } else if c == ',' {
                if top.object {
                    self.open.pop();
                    self.open.push(Frame { object: true, count: 0 });
                    keys = freed;
                } else if top.count < MAX_INDEX {
                    self.open.pop();
                    self.open.push(Frame { object: false, count: top.count + 1 });
                } else {
                    fits = false;
                }
            } else if c == ':' && f.after_literal && top.object {
                if f.literal <= MAX_KEY_BYTES && freed <= MAX_KEY_BYTES - f.literal {
                    self.open.pop();
                    self.open.push(Frame { object: true, count: f.literal });
                    keys = freed + f.literal;
                } else {
                    fits = false;
                }
            }
        }
        self.flat = Flat {
            quote: if c == '"' {
                Quote::Plain
            } else {
                Quote::Outside
            },
            literal: if c == '"' {
                0
            } else {
                f.literal
            },
            after_literal: f.after_literal && blank,
            after_comma: c == ',' || (f.after_comma && blank),
            exponent,
            keys,
            within: f.within && fits,
        };
        assert(self@.open =~= pass_step(before, c).open);
    }
}

/// Says whether `text` is handed to the builder.
pub fn check_limits(text: &Vec<char>) -> (ok: bool)
    ensures
        ok == within_limits(text@),
{
    let mut scan = Scan::start();
    let mut i: usize = 0;
    while i < text.len()
        invariant
            i <= text.len(),
            scan@ == pass(text@.take(i as int)),
        decreases text.len() - i,
    {
        proof {
            let upto = text@.take(i + 1);
            assert(upto.drop_last() == text@.take(i as int));
            assert(upto.last() == text@[i as int]);
        }
        scan.step(text[i]);
        i += 1;
    }
    assert(text@.take(i as int) == text@);
    scan.within()
}

/// A text that is not handed on is not handed on with more characters
/// behind it either: what has overflowed stays so.
pub proof fn lemma_beyond_stays_beyond(text: Seq<char>, more: Seq<char>)
    requires
        !within_limits(text),
    ensures
        !within_limits(text + more),
    decreases more.len(),
{
    if more.len() == 0 {
        assert(text + more == text);
    } else {
        let longer = text + more;
        assert(longer.drop_last() == text + more.drop_last());
        lemma_beyond_stays_beyond(text, more.drop_last());
    }
}

/// Whether `c` is one of the characters at which the pass counts: a quote, a
/// colon, a comma, or the `e` of an exponent.
pub open spec fn is_mark(c: char) -> bool {
    c == '"' || c == ':' || c == ',' || c == 'e' || c == 'E'
}

/// A text without quotes, colons, commas and the letter `e` that is no longer
/// than [`MAX_DEPTH`] is within the limits: brackets and braces alone, as
/// far as they can nest in it, are handed on.
pub proof fn lemma_without_marks_within(text: Seq<char>)
    requires
        forall|i: int| 0 <= i < text.len() ==> !is_mark(#[trigger] text[i]),
        text.len() <= MAX_DEPTH,
    ensures
        within_limits(text),
        pass(text).flat.quote is Outside,
        pass(text).flat.exponent is None,
        !pass(text).flat.after_comma,
        pass(text).open.len() <= text.len(),
    decreases text.len(),
{
    if text.len() > 0 {
        let shorter = text.drop_last();
        assert forall|i: int| 0 <= i < shorter.len() implies !is_mark(#[trigger] shorter[i]) by {
            assert(shorter[i] == text[i]);
        }
        lemma_without_marks_within(shorter);
        assert(!is_mark(text[text.len() - 1]));
    }
}

/// Whether `c` is a decimal digit.
pub open spec fn is_digit(c: char) -> bool {
    '0' <= c <= '9'
}

/// Whether the character at `at` makes a number of `text` one with a
/// fraction or an exponent: a point outside string literals, or an `e` there
/// that follows a digit.
pub open spec fn is_float_mark(text: Seq<char>, at: int) -> bool {
    &&& 0 <= at < text.len()
    &&& pass(text.take(at)).flat.quote is Outside
    &&& (text[at] == '.' || ((text[at] == 'e' || text[at] == 'E') && at > 0 && is_digit(
        text[at - 1],
    )))
}

/// Whether every number of `text` outside string literals is whole: none has
/// a fraction or an exponent.
pub open spec fn whole_numbers(text: Seq<char>) -> bool {
    forall|at: int| !is_float_mark(text, at)
}

} // verus!
