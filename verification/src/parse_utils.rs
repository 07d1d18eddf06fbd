//! Byte-slice primitives aiding parsing.
//!
//! All primitives operate on a cursor: an immutable `&[u8]` view of the
//! remaining input.  A primitive either fails (`None`) or returns the
//! cursor advanced past what it consumed.  Each executable primitive is
//! specified against a spec-level twin over `Seq<u8>`.
use vstd::prelude::*;
use vstd::slice::slice_subrange;

verus! {

pub const LBRACKET: u8 = 60;

pub const RBRACKET: u8 = 62;

pub const FSLASH: u8 = 47;

pub const BSLASH: u8 = 92;

pub const EQUAL: u8 = 61;

pub const DQUOTE: u8 = 34;

pub const SQUOTE: u8 = 39;

pub const BTICK: u8 = 96;

pub const DASH: u8 = 45;

pub const SPACE: u8 = 32;

pub const TAB: u8 = 9;

pub const NL: u8 = 10;

pub const CR: u8 = 13;

pub const EXCLAMATION: u8 = 33;

pub const N1: u8 = 49;

pub const N2: u8 = 50;

pub const N3: u8 = 51;

pub const N4: u8 = 52;

pub const N5: u8 = 53;

pub const N6: u8 = 54;

pub const N7: u8 = 55;

pub const N8: u8 = 56;

pub const N9: u8 = 57;

pub const N0: u8 = 48;

pub const A: u8 = 97;

pub const B: u8 = 98;

pub const C: u8 = 99;

pub const D: u8 = 100;

pub const E: u8 = 101;

pub const F: u8 = 102;

pub const G: u8 = 103;

pub const H: u8 = 104;

pub const I: u8 = 105;

pub const J: u8 = 106;

pub const K: u8 = 107;

pub const L: u8 = 108;

pub const M: u8 = 109;

pub const N: u8 = 110;

pub const O: u8 = 111;

pub const P: u8 = 112;

pub const Q: u8 = 113;

pub const R: u8 = 114;

pub const S: u8 = 115;

pub const T: u8 = 116;

pub const U: u8 = 117;

pub const V: u8 = 118;

pub const W: u8 = 119;

pub const X: u8 = 120;

pub const Y: u8 = 121;

pub const Z: u8 = 122;

// ---------------------------------------------------------------------
// Character class predicates
// ---------------------------------------------------------------------
/// Whitespace bytes recognized by the grammar: space, tab, newline, CR.
pub open spec fn spec_is_space(c: u8) -> bool {
    c == SPACE || c == TAB || c == NL || c == CR
}

#[verifier::when_used_as_spec(spec_is_space)]
pub fn is_space(c: u8) -> (r: bool)
    ensures
        r == spec_is_space(c),
{
    c == SPACE || c == TAB || c == NL || c == CR
}

/// Whether a byte lies in the inclusive range `min ..= max`.
pub open spec fn spec_in_range(s: u8, min: u8, max: u8) -> bool {
    s >= min && s <= max
}

#[verifier::when_used_as_spec(spec_in_range)]
pub fn in_range(s: u8, min: u8, max: u8) -> (r: bool)
    ensures
        r == spec_in_range(s, min, max),
{
    s >= min && s <= max
}

/// ASCII letter, lower or upper case.
pub open spec fn spec_is_alpha(s: u8) -> bool {
    spec_in_range(s, 97, 122) || spec_in_range(s, 65, 90)
}

#[verifier::when_used_as_spec(spec_is_alpha)]
pub fn is_alpha(s: u8) -> (r: bool)
    ensures
        r == spec_is_alpha(s),
{
    in_range(s, 97, 122) || in_range(s, 65, 90)
}

/// ASCII digit.
pub open spec fn spec_is_numeric(s: u8) -> bool {
    spec_in_range(s, 48, 57)
}

#[verifier::when_used_as_spec(spec_is_numeric)]
pub fn is_numeric(s: u8) -> (r: bool)
    ensures
        r == spec_is_numeric(s),
{
    in_range(s, 48, 57)
}

/// ASCII letter or digit.
pub open spec fn spec_is_alphanum(s: u8) -> bool {
    spec_in_range(s, 97, 122) || spec_in_range(s, 48, 57) || spec_in_range(s, 65, 90)
}

#[verifier::when_used_as_spec(spec_is_alphanum)]
pub fn is_alphanum(s: u8) -> (r: bool)
    ensures
        r == spec_is_alphanum(s),
{
    in_range(s, 97, 122) || in_range(s, 48, 57) || in_range(s, 65, 90)
}

/// Identifier byte: ASCII alphanumeric or dash.
pub open spec fn spec_is_ident_char(c: u8) -> bool {
    spec_is_alphanum(c) || c == DASH
}

#[verifier::when_used_as_spec(spec_is_ident_char)]
pub fn is_ident_char(c: u8) -> (r: bool)
    ensures
        r == spec_is_ident_char(c),
{
    is_alphanum(c) || c == DASH
}

/// Lower-case image of a byte: upper-case ASCII letters are shifted down,
/// every other byte is unchanged.
pub open spec fn spec_lc_char(c: u8) -> u8 {
    if c >= 65 && c <= 90 {
        (c + 32) as u8
    } else {
        c
    }
}

/// When uppercase char, converts to lower case.
#[verifier::when_used_as_spec(spec_lc_char)]
pub fn lc_char(c: u8) -> (r: u8)
    ensures
        r == spec_lc_char(c),
{
    if c >= 65 && c <= 90 {
        c + 32
    } else {
        c
    }
}

// ---------------------------------------------------------------------
// Whitespace stripping
// ---------------------------------------------------------------------
/// The cursor with every leading whitespace byte removed.
pub open spec fn spec_strip_space(s: Seq<u8>) -> Seq<u8>
    decreases s.len(),
{
    if s.len() == 0 || !spec_is_space(s[0]) {
        s
    } else {
        spec_strip_space(s.skip(1))
    }
}

/// The stripped cursor is a suffix of the input, no longer than it, and
/// starts with a non-space byte (unless empty).
pub proof fn lemma_strip_space_len(s: Seq<u8>)
    ensures
        spec_strip_space(s).len() <= s.len(),
        spec_strip_space(s) == s.skip(s.len() - spec_strip_space(s).len()),
        spec_strip_space(s).len() > 0 ==> !spec_is_space(spec_strip_space(s)[0]),
    decreases s.len(),
{
    if s.len() == 0 || !spec_is_space(s[0]) {
        assert(spec_strip_space(s) == s.skip(0));
    } else {
        lemma_strip_space_len(s.skip(1));
        let r = spec_strip_space(s);
        assert(s.skip(1).skip(s.skip(1).len() - r.len()) =~= s.skip(s.len() - r.len()));
    }
}

/// Consumes zero or more whitespace bytes.
pub fn strip_space(s: &[u8]) -> (r: &[u8])
    ensures
        r@ == spec_strip_space(s@),
{
    let len: usize = s.len();
    if len == 0 || !is_space(s[0]) {
        s
    } else {
        let mut i: usize = 1;
        loop
            invariant
                1 <= i <= len,
                len == s@.len(),
                spec_is_space(s@[0]),
                forall|j: int| 0 <= j < i ==> spec_is_space(s@[j]),
                spec_strip_space(s@) == spec_strip_space(s@.skip(i as int)),
            decreases len - i,
        {
            if i < len {
                if is_space(s[i]) {
                    proof {
                        assert(s@.skip(i as int).skip(1) =~= s@.skip(i + 1));
                    }
                    i += 1;
                } else {
                    proof {
                        assert(spec_strip_space(s@.skip(i as int)) == s@.skip(i as int));
                        assert(s@.subrange(i as int, len as int) =~= s@.skip(i as int));
                    }
                    return slice_subrange(s, i, len);
                }
            } else {
                proof {
                    assert(s@.skip(len as int) =~= Seq::<u8>::empty());
                    assert(s@.subrange(len as int, len as int) =~= s@.skip(len as int));
                }
                return slice_subrange(s, len, len);
            }
        }
    }
}

// ---------------------------------------------------------------------
// UTF-8 decoding of one codepoint
// ---------------------------------------------------------------------
/// The replacement character, produced when a decoded value is not a
/// valid Unicode scalar.
pub const REPLACEMENT: char = '\u{FFFD}';

/// How many bytes the decoder consumes for the codepoint at the head of
/// the cursor: the width announced by the leading byte, clipped to the
/// bytes that remain.
pub open spec fn spec_utf8_len(s: Seq<u8>) -> usize
    recommends
        s.len() > 0,
{
    if s[0] < 128 {
        1
    } else if s[0] < 0xE0 {
        if s.len() > 1 {
            2
        } else {
            1
        }
    } else if s[0] < 0xF0 {
        if s.len() > 2 {
            3
        } else if s.len() > 1 {
            2
        } else {
            1
        }
    } else {
        if s.len() > 3 {
            4
        } else if s.len() > 2 {
            3
        } else if s.len() > 1 {
            2
        } else {
            1
        }
    }
}

/// Folds one continuation byte's six data bits into an accumulator.
pub open spec fn spec_utf8_acc(ch: u32, byte: u8) -> u32 {
    (ch << 6) | ((byte & 0x3F) as u32)
}

/// The numeric value read by the decoder for the codepoint at the head of
/// the cursor.  Missing continuation bytes are read as zero; continuation
/// bytes are masked and combined without validation.
pub open spec fn spec_utf8_code(s: Seq<u8>) -> u32
    recommends
        s.len() > 0,
{
    let x = s[0];
    if x < 128 {
        x as u32
    } else {
        let init = (x & 0x1F) as u32;
        let y: u8 = if s.len() > 1 {
            s[1]
        } else {
            0
        };
        if x < 0xE0 {
            spec_utf8_acc(init, y)
        } else {
            let z: u8 = if s.len() > 2 {
                s[2]
            } else {
                0
            };
            let y_z = spec_utf8_acc((y & 0x3F) as u32, z);
            if x < 0xF0 {
                (init << 12) | y_z
            } else {
                let w: u8 = if s.len() > 3 {
                    s[3]
                } else {
                    0
                };
                ((init & 7) << 18) | spec_utf8_acc(y_z, w)
            }
        }
    }
}

/// Whether a numeric value is a valid Unicode scalar value.
pub open spec fn spec_is_scalar(v: u32) -> bool {
    v < 0xD800 || (v >= 0xE000 && v <= 0x10FFFF)
}

/// The character a decoded value denotes: the scalar itself when valid,
/// the replacement character otherwise.
pub open spec fn spec_code_char(v: u32) -> char {
    if spec_is_scalar(v) {
        v as char
    } else {
        REPLACEMENT
    }
}

/// The character at the head of the cursor.
pub open spec fn spec_utf8_char(s: Seq<u8>) -> char
    recommends
        s.len() > 0,
{
    spec_code_char(spec_utf8_code(s))
}

/// What `next_utf8` returns: the consumed byte count and the decoded
/// character, or `None` on an empty cursor.
pub open spec fn spec_next_utf8(s: Seq<u8>) -> Option<(usize, char)> {
    if s.len() == 0 {
        None
    } else {
        Some((spec_utf8_len(s), spec_utf8_char(s)))
    }
}

/// Relies on char::from_u32: returns `Some` exactly on valid Unicode
/// scalar values (below the surrogate range, or between 0xE000 and
/// 0x10FFFF), and then the character with that value.
#[verifier::external_body]
fn char_from_u32(v: u32) -> (r: Option<char>)
    ensures
        r == (if spec_is_scalar(v) {
            Some(v as char)
        } else {
            None::<char>
        }),
{
    char::from_u32(v)
}

/// Next utf8 char from byte array.
///
/// Decodes exactly one codepoint from the front of the cursor, reading 1
/// to 4 bytes as the leading byte announces (clipped at the end of the
/// input).  A value that is not a valid Unicode scalar decodes to the
/// replacement character.
pub fn next_utf8(s: &[u8]) -> (r: Option<(usize, char)>)
    ensures
        r == spec_next_utf8(s@),
        r matches Some((n, _)) ==> 1 <= n <= s@.len(),
{
    let len: usize = s.len();
    if len == 0 {
        return None;
    }
    let x: u8 = s[0];
    if x < 128 {
        return Some((1, x as char));
    }
    let mut num_bytes: usize = 1;
    let init: u32 = (x & 0x1F) as u32;
    let y: u8 = if len > 1 {
        num_bytes = 2;
        s[1]
    } else {
        0
    };
    let mut ch: u32 = (init << 6u32) | ((y & 0x3F) as u32);
    if x >= 0xE0 {
        let z: u8 = if len > 2 {
            num_bytes = 3;
            s[2]
        } else {
            0
        };
        let y_z: u32 = ((((y & 0x3F) as u32) << 6u32) | ((z & 0x3F) as u32));
        ch = (init << 12u32) | y_z;
        if x >= 0xF0 {
            let w: u8 = if len > 3 {
                num_bytes = 4;
                s[3]
            } else {
                0
            };
            ch = ((init & 7) << 18u32) | ((y_z << 6u32) | ((w & 0x3F) as u32));
        }
    }
    let c: char = match char_from_u32(ch) {
        Some(c) => c,
        None => REPLACEMENT,
    };
    Some((num_bytes, c))
}

// ---------------------------------------------------------------------
// Owned string building
// ---------------------------------------------------------------------
/// Relies on String::push: appends the given char to the end of the
/// string.
#[verifier::external_body]
pub(crate) fn push_char(b: &mut String, c: char)
    ensures
        final(b)@ == old(b)@.push(c),
{
    b.push(c);
}

/// Small helper to create a string with some initial content with a given
/// capacity.  The capacity is an allocation hint only.
pub fn sbuf(from: &str, capacity: usize) -> (r: String)
    ensures
        r@ == from@,
{
    let _ = capacity;
    let mut b = String::new();
    b.append(from);
    b
}

/// Small helper to create a string holding one character with a given
/// capacity.  The capacity is an allocation hint only.
pub fn sbuf_chr(from: char, capacity: usize) -> (r: String)
    ensures
        r@ == seq![from],
{
    let _ = capacity;
    let mut b = String::new();
    push_char(&mut b, from);
    proof {
        assert(b@ =~= seq![from]);
    }
    b
}

/// Builds the string that a vector of characters spells.
pub fn chars_to_string(v: &Vec<char>) -> (r: String)
    ensures
        r@ == v@,
{
    let mut b = String::new();
    let mut i: usize = 0;
    while i < v.len()
        invariant
            0 <= i <= v@.len(),
            b@ == v@.take(i as int),
        decreases v@.len() - i,
    {
        push_char(&mut b, v[i]);
        proof {
            assert(v@.take(i as int).push(v@[i as int]) =~= v@.take(i + 1));
        }
        i += 1;
    }
    proof {
        assert(v@.take(v@.len() as int) =~= v@);
    }
    b
}

// ---------------------------------------------------------------------
// Parse errors
// ---------------------------------------------------------------------
/// How many bytes of the remaining input an error snippet keeps.
pub const AROUND_MAX: usize = 100;

/// Whether a byte has the continuation-byte form `10xxxxxx`.
pub open spec fn spec_is_cont(b: u8) -> bool {
    0x80 <= b && b <= 0xBF
}

/// Whether a byte may follow the given leading byte of a three-byte
/// sequence: the ranges that exclude overlong encodings (after 0xE0) and
/// surrogates (after 0xED).
pub open spec fn spec_second_of3(b0: u8, b1: u8) -> bool {
    if b0 == 0xE0 {
        0xA0 <= b1 && b1 <= 0xBF
    } else if b0 == 0xED {
        0x80 <= b1 && b1 <= 0x9F
    } else {
        spec_is_cont(b1)
    }
}

/// Whether a byte may follow the given leading byte of a four-byte
/// sequence: the ranges that exclude overlong encodings (after 0xF0) and
/// values beyond the last scalar (after 0xF4).
pub open spec fn spec_second_of4(b0: u8, b1: u8) -> bool {
    if b0 == 0xF0 {
        0x90 <= b1 && b1 <= 0xBF
    } else if b0 == 0xF4 {
        0x80 <= b1 && b1 <= 0x8F
    } else {
        spec_is_cont(b1)
    }
}

/// The scalar value of a well-formed two-byte sequence.
pub open spec fn spec_scalar2(b0: u8, b1: u8) -> u32 {
    (((b0 & 0x1F) as u32) << 6) | ((b1 & 0x3F) as u32)
}

/// The scalar value of a well-formed three-byte sequence.
pub open spec fn spec_scalar3(b0: u8, b1: u8, b2: u8) -> u32 {
    (((b0 & 0x0F) as u32) << 12) | (((b1 & 0x3F) as u32) << 6) | ((b2 & 0x3F) as u32)
}

/// The scalar value of a well-formed four-byte sequence.
pub open spec fn spec_scalar4(b0: u8, b1: u8, b2: u8, b3: u8) -> u32 {
    (((b0 & 0x07) as u32) << 18) | (((b1 & 0x3F) as u32) << 12) | (((b2 & 0x3F) as u32) << 6) | ((
    b3 & 0x3F) as u32)
}

/// One unit of a lossy decode: how many bytes the maximal prefix of a
/// well-formed sequence spans at the head of the cursor, and the decoded
/// character when the sequence is complete (`None` stands for one
/// replacement character).  This is the substitution of maximal subparts,
/// as `String::from_utf8_lossy` performs it.
pub open spec fn spec_lossy_step(s: Seq<u8>) -> (int, Option<char>)
    recommends
        s.len() > 0,
{
    let b0 = s[0];
    if b0 < 0x80 {
        (1, Some(b0 as char))
    } else if 0xC2 <= b0 && b0 <= 0xDF {
        if s.len() >= 2 && spec_is_cont(s[1]) {
            (2, Some(spec_scalar2(b0, s[1]) as char))
        } else {
            (1, None)
        }
    } else if 0xE0 <= b0 && b0 <= 0xEF {
        if !(s.len() >= 2 && spec_second_of3(b0, s[1])) {
            (1, None)
        } else if s.len() >= 3 && spec_is_cont(s[2]) {
            (3, Some(spec_scalar3(b0, s[1], s[2]) as char))
        } else {
            (2, None)
        }
    } else if 0xF0 <= b0 && b0 <= 0xF4 {
        if !(s.len() >= 2 && spec_second_of4(b0, s[1])) {
            (1, None)
        } else if !(s.len() >= 3 && spec_is_cont(s[2])) {
            (2, None)
        } else if s.len() >= 4 && spec_is_cont(s[3]) {
            (4, Some(spec_scalar4(b0, s[1], s[2], s[3]) as char))
        } else {
            (3, None)
        }
    } else {
        // A continuation byte out of place, an overlong leading byte
        // (0xC0, 0xC1), or a byte past the last scalar (0xF5 and up).
        (1, None)
    }
}

/// The character one lossy-decode unit contributes.
pub open spec fn spec_lossy_char(s: Seq<u8>) -> char
    recommends
        s.len() > 0,
{
    match spec_lossy_step(s).1 {
        Option::Some(c) => c,
        Option::None => REPLACEMENT,
    }
}

/// The lossy decoding of a whole byte sequence: well-formed sequences
/// become their characters, and every maximal subpart of an ill-formed
/// sequence becomes one replacement character.
pub open spec fn spec_lossy_decode(s: Seq<u8>) -> Seq<char>
    decreases s.len(),
{
    if s.len() == 0 {
        Seq::empty()
    } else {
        seq![spec_lossy_char(s)] + spec_lossy_decode(s.skip(spec_lossy_step(s).0))
    }
}

/// The snippet of the remaining input that a parse error carries: the
/// first `AROUND_MAX` bytes (or all of them), lossily decoded.
pub open spec fn spec_around(s: Seq<u8>) -> Seq<char> {
    if s.len() >= AROUND_MAX {
        spec_lossy_decode(s.take(AROUND_MAX as int))
    } else {
        spec_lossy_decode(s)
    }
}

/// The mathematical content of a parse error: its message and the decoded
/// snippet of the input where it arose.
pub struct ParseErrorView {
    pub msg: Seq<char>,
    pub around: Seq<char>,
}

/// A parse failure: a message and a bounded snippet of the remaining
/// unparsed input at the failure point.
#[derive(Debug, PartialEq)]
pub enum ParseError {
    Msg(String, String),
}

impl View for ParseError {
    type V = ParseErrorView;

    open spec fn view(&self) -> ParseErrorView {
        match self {
            ParseError::Msg(m, a) => ParseErrorView { msg: m@, around: a@ },
        }
    }
}

/// The error value `err` builds from a message and the remaining input.
pub open spec fn spec_err(msg: Seq<char>, s: Seq<u8>) -> ParseErrorView {
    ParseErrorView { msg, around: spec_around(s) }
}

/// Whether an executable result is the error that the grammar prescribes.
pub open spec fn err_matches<T>(r: Result<T, ParseError>, m: ParseErrorView) -> bool {
    match r {
        Result::Ok(_) => false,
        Result::Err(e) => e@ == m,
    }
}

/// One unit of a lossy decode: the bytes the maximal well-formed prefix
/// spans, and its character — the replacement character for every
/// ill-formed maximal subpart.
fn lossy_step(s: &[u8]) -> (r: (usize, char))
    requires
        s@.len() > 0,
    ensures
        r.0 == spec_lossy_step(s@).0,
        1 <= r.0 <= s@.len(),
        r.1 == spec_lossy_char(s@),
{
    let b0: u8 = s[0];
    if b0 < 0x80 {
        (1, b0 as char)
    } else if 0xC2 <= b0 && b0 <= 0xDF {
        if s.len() >= 2 && 0x80 <= s[1] && s[1] <= 0xBF {
            let b1: u8 = s[1];
            let code: u32 = (((b0 & 0x1F) as u32) << 6u32) | ((b1 & 0x3F) as u32);
            proof {
                assert(code < 0xD800) by (bit_vector)
                    requires
                        code == (((b0 & 0x1F) as u32) << 6u32) | ((b1 & 0x3F) as u32),
                ;
            }
            match char_from_u32(code) {
                Some(c) => (2, c),
                None => (2, REPLACEMENT),
            }
        } else {
            (1, REPLACEMENT)
        }
    } else if 0xE0 <= b0 && b0 <= 0xEF {
        let second_ok: bool = s.len() >= 2 && (if b0 == 0xE0 {
            0xA0 <= s[1] && s[1] <= 0xBF
        } else if b0 == 0xED {
            0x80 <= s[1] && s[1] <= 0x9F
        } else {
            0x80 <= s[1] && s[1] <= 0xBF
        });
        if !second_ok {
            (1, REPLACEMENT)
        } else if s.len() >= 3 && 0x80 <= s[2] && s[2] <= 0xBF {
            let b1: u8 = s[1];
            let b2: u8 = s[2];
            let code: u32 = (((b0 & 0x0F) as u32) << 12u32) | (((b1 & 0x3F) as u32) << 6u32) | ((b2
                & 0x3F) as u32);
            proof {
                assert(code < 0xD800 || (code >= 0xE000 && code <= 0x10FFFF)) by (bit_vector)
                    requires
                        code == (((b0 & 0x0F) as u32) << 12u32) | (((b1 & 0x3F) as u32) << 6u32) | (
                        (b2 & 0x3F) as u32),
                        0xE0 <= b0 && b0 <= 0xEF,
                        b0 == 0xE0 ==> 0xA0 <= b1 && b1 <= 0xBF,
                        b0 == 0xED ==> 0x80 <= b1 && b1 <= 0x9F,
                        0x80 <= b1 && b1 <= 0xBF || b0 == 0xE0,
                ;
            }
            match char_from_u32(code) {
                Some(c) => (3, c),
                None => (3, REPLACEMENT),
            }
        } else {
            (2, REPLACEMENT)
        }
    } else if 0xF0 <= b0 && b0 <= 0xF4 {
        let second_ok: bool = s.len() >= 2 && (if b0 == 0xF0 {
            0x90 <= s[1] && s[1] <= 0xBF
        } else if b0 == 0xF4 {
            0x80 <= s[1] && s[1] <= 0x8F
        } else {
            0x80 <= s[1] && s[1] <= 0xBF
        });
        if !second_ok {
            (1, REPLACEMENT)
        } else if !(s.len() >= 3 && 0x80 <= s[2] && s[2] <= 0xBF) {
            (2, REPLACEMENT)
        } else if s.len() >= 4 && 0x80 <= s[3] && s[3] <= 0xBF {
            let b1: u8 = s[1];
            let b2: u8 = s[2];
            let b3: u8 = s[3];
            let code: u32 = (((b0 & 0x07) as u32) << 18u32) | (((b1 & 0x3F) as u32) << 12u32) | (((
            b2 & 0x3F) as u32) << 6u32) | ((b3 & 0x3F) as u32);
            proof {
                assert(code >= 0xE000 && code <= 0x10FFFF) by (bit_vector)
                    requires
                        code == (((b0 & 0x07) as u32) << 18u32) | (((b1 & 0x3F) as u32) << 12u32)
                            | (((b2 & 0x3F) as u32) << 6u32) | ((b3 & 0x3F) as u32),
                        0xF0 <= b0 && b0 <= 0xF4,
                        b0 == 0xF0 ==> 0x90 <= b1 && b1 <= 0xBF,
                        b0 == 0xF4 ==> 0x80 <= b1 && b1 <= 0x8F,
                        0x80 <= b1 && b1 <= 0xBF,
                ;
            }
            match char_from_u32(code) {
                Some(c) => (4, c),
                None => (4, REPLACEMENT),
            }
        } else {
            (3, REPLACEMENT)
        }
    } else {
        (1, REPLACEMENT)
    }
}

impl ParseError {
    /// Lossily decodes the leading snippet of the remaining input for
    /// diagnostics.
    fn around(s: &[u8]) -> (r: String)
        ensures
            r@ == spec_around(s@),
    {
        let len: usize = s.len();
        let upto: usize = if len >= AROUND_MAX {
            AROUND_MAX
        } else {
            len
        };
        let clipped: &[u8] = slice_subrange(s, 0, upto);
        proof {
            if len >= AROUND_MAX {
                assert(s@.subrange(0, upto as int) =~= s@.take(AROUND_MAX as int));
            } else {
                assert(s@.subrange(0, upto as int) =~= s@);
            }
        }
        let mut b = String::new();
        let mut i: usize = 0;
        proof {
            assert(clipped@.skip(0) =~= clipped@);
        }
        while i < clipped.len()
            invariant
                0 <= i <= clipped@.len(),
                spec_lossy_decode(clipped@) == b@ + spec_lossy_decode(clipped@.skip(i as int)),
            decreases clipped@.len() - i,
        {
            let rest: &[u8] = slice_subrange(clipped, i, clipped.len());
            proof {
                assert(rest@ =~= clipped@.skip(i as int));
            }
            let (n, c) = lossy_step(rest);
            push_char(&mut b, c);
            proof {
                assert(rest@.skip(n as int) =~= clipped@.skip(i + n));
                assert(b@ + spec_lossy_decode(clipped@.skip(i + n)) =~= spec_lossy_decode(
                    clipped@,
                ));
            }
            i += n;
        }
        proof {
            assert(clipped@.skip(i as int) =~= Seq::<u8>::empty());
            assert(b@ =~= spec_lossy_decode(clipped@));
        }
        b
    }
}

/// Builds the failing result every parser reports: the message paired
/// with a decoded snippet of the input at the failure point.
pub fn err<T>(msg: &str, s: &[u8]) -> (r: Result<T, ParseError>)
    ensures
        err_matches(r, spec_err(msg@, s@)),
{
    Err(ParseError::Msg(msg.to_owned(), ParseError::around(s)))
}

// ---------------------------------------------------------------------
// Decimal rendering (for the length-guard message)
// ---------------------------------------------------------------------
/// The decimal digit character for a value below ten.
pub open spec fn spec_digit_char(d: nat) -> char
    recommends
        d < 10,
{
    ((48 + d) as u8) as char
}

/// The decimal rendering of a natural number, most significant digit
/// first.
pub open spec fn spec_dec_str(n: nat) -> Seq<char>
    decreases n,
{
    if n < 10 {
        seq![spec_digit_char(n)]
    } else {
        spec_dec_str(n / 10) + seq![spec_digit_char(n % 10)]
    }
}

/// Renders a number in decimal.
pub fn usize_dec_str(n: usize) -> (r: String)
    ensures
        r@ == spec_dec_str(n as nat),
    decreases n,
{
    if n < 10 {
        let d: u8 = 48 + (n as u8);
        sbuf_chr(d as char, 1)
    } else {
        let mut b = usize_dec_str(n / 10);
        let d: u8 = 48 + ((n % 10) as u8);
        push_char(&mut b, d as char);
        proof {
            assert(b@ =~= spec_dec_str((n / 10) as nat) + seq![spec_digit_char((n % 10) as nat)]);
        }
        b
    }
}

// ---------------------------------------------------------------------
// Cursor primitives: spec twins
// ---------------------------------------------------------------------
/// Whether an optional advanced cursor is the one the grammar prescribes.
pub open spec fn opt_matches(r: Option<&[u8]>, m: Option<Seq<u8>>) -> bool {
    match (r, m) {
        (Option::Some(t), Option::Some(u)) => t@ == u,
        (Option::None, Option::None) => true,
        _ => false,
    }
}

/// Advance past one expected byte.
pub open spec fn spec_parse_chr(s: Seq<u8>, c: u8) -> Option<Seq<u8>> {
    if s.len() > 0 && s[0] == c {
        Some(s.skip(1))
    } else {
        None
    }
}

/// Advance past one expected byte, tolerating one leading whitespace run:
/// when the immediate byte does not match, whitespace is stripped once and
/// the match retried.
pub open spec fn spec_parse_chr_opt_space(s: Seq<u8>, c: u8) -> Option<Seq<u8>> {
    if s.len() > 0 && s[0] == c {
        Some(s.skip(1))
    } else {
        let t = spec_strip_space(s);
        if t.len() > 0 && t[0] == c {
            Some(t.skip(1))
        } else {
            None
        }
    }
}

/// Advance past an expected literal byte string, case-sensitive, no skip.
pub open spec fn spec_parse_bstr(s: Seq<u8>, b: Seq<u8>) -> Option<Seq<u8>> {
    if s.len() < b.len() {
        None
    } else if s.take(b.len() as int) == b {
        Some(s.skip(b.len() as int))
    } else {
        None
    }
}

/// Advance past an expected literal byte string, tolerating one leading
/// whitespace run before its first byte.
pub open spec fn spec_parse_bstr_opt_space(s: Seq<u8>, b: Seq<u8>) -> Option<Seq<u8>> {
    if s.len() < b.len() {
        None
    } else if b.len() > 0 && s[0] != b[0] {
        if spec_is_space(s[0]) {
            spec_parse_bstr(spec_strip_space(s.skip(1)), b)
        } else {
            None
        }
    } else {
        spec_parse_bstr(s, b)
    }
}

/// Advance past an expected identifier: the literal bytes followed by a
/// byte that is not an identifier character.  The terminating byte is not
/// consumed, and must exist.
pub open spec fn spec_match_ident(s: Seq<u8>, rest: Seq<u8>) -> Option<Seq<u8>> {
    if s.len() < rest.len() + 1 {
        None
    } else if s.take(rest.len() as int) == rest && !spec_is_ident_char(s[rest.len() as int]) {
        Some(s.skip(rest.len() as int))
    } else {
        None
    }
}

/// Advance past a closing tag body, from right after `</`: the name's
/// first byte (one whitespace run tolerated before it), the remaining
/// name bytes immediately after, then `>` (one whitespace run tolerated).
/// The remaining name bytes are only compared when a byte beyond the name
/// also remains.
pub open spec fn spec_close_tag(s: Seq<u8>, name: Seq<u8>) -> Option<Seq<u8>>
    recommends
        name.len() >= 1,
{
    match spec_parse_chr_opt_space(s, name[0]) {
        None => None,
        Some(t) => {
            if name.len() == 1 {
                spec_parse_chr_opt_space(t, RBRACKET)
            } else if t.len() < name.len() {
                None
            } else if t.take(name.len() - 1) == name.skip(1) {
                spec_parse_chr_opt_space(t.skip(name.len() - 1), RBRACKET)
            } else {
                None
            }
        },
    }
}

/// The message of the guard that requires more input to remain.
pub open spec fn spec_len_gt_msg(l: nat) -> Seq<char> {
    "Required length to be greater than "@ + spec_dec_str(l)
}

/// What the length guard returns: success exactly when more than `l`
/// bytes remain.
pub open spec fn len_gt_matches(r: Result<(), ParseError>, s: Seq<u8>, l: nat) -> bool {
    if s.len() > l {
        r is Ok
    } else {
        err_matches(r, spec_err(spec_len_gt_msg(l), s))
    }
}

// ---------------------------------------------------------------------
// Cursor primitives: the byte-slice extension trait
// ---------------------------------------------------------------------
/// Extension to byte arrays aiding parsing.
///
/// Every method consumes a cursor and either fails, leaving the caller to
/// decide, or returns the cursor advanced past what it matched.
pub trait ByteArrayExt<'a>: Sized + View<V = Seq<u8>> {
    /// The first byte of the cursor.
    fn chr(self) -> (r: u8)
        requires
            self@.len() > 0,
        ensures
            r == self@[0],
    ;

    /// Advance past `c` when it is the first byte.
    fn parse_chr(self, c: u8) -> (r: Option<&'a [u8]>)
        ensures
            opt_matches(r, spec_parse_chr(self@, c)),
    ;

    /// Advance past `c`, tolerating one leading whitespace run.
    fn parse_chr_opt_space(self, c: u8) -> (r: Option<&'a [u8]>)
        ensures
            opt_matches(r, spec_parse_chr_opt_space(self@, c)),
    ;

    /// The byte at the given offset.
    fn raw(self, idx: usize) -> (r: u8)
        requires
            idx < self@.len(),
        ensures
            r == self@[idx as int],
    ;

    /// Whether the first byte equals the given one.
    fn is(self, other: u8) -> (r: bool)
        requires
            self@.len() > 0,
        ensures
            r == (self@[0] == other),
    ;

    /// Whether the first byte is an upper-case ASCII letter.
    fn is_uc(self) -> (r: bool)
        requires
            self@.len() > 0,
        ensures
            r == (self@[0] >= 65 && self@[0] <= 90),
    ;

    /// Whether the first byte is an identifier character.
    fn is_ident(self) -> (r: bool)
        requires
            self@.len() > 0,
        ensures
            r == spec_is_ident_char(self@[0]),
    ;

    /// Advance past the given literal, byte for byte.
    fn parse_bstr(self, bstr: &[u8]) -> (r: Option<&'a [u8]>)
        ensures
            opt_matches(r, spec_parse_bstr(self@, bstr@)),
    ;

    /// Advance past the given literal, tolerating one leading whitespace
    /// run before its first byte.
    fn parse_bstr_opt_space(self, bstr: &[u8]) -> (r: Option<&'a [u8]>)
        ensures
            opt_matches(r, spec_parse_bstr_opt_space(self@, bstr@)),
    ;

    /// Advance past the given literal when a non-identifier byte follows.
    fn parse_ident(self, bstr: &[u8]) -> (r: Option<&'a [u8]>)
        ensures
            opt_matches(r, spec_match_ident(self@, bstr@)),
    ;

    /// `parse_ident` special-cased to one literal byte.
    fn parse_ident1(self, chr: u8) -> (r: Option<&'a [u8]>)
        ensures
            opt_matches(r, spec_match_ident(self@, seq![chr])),
    ;

    /// `parse_ident` special-cased to two literal bytes.
    fn parse_ident2(self, rest: [u8; 2]) -> (r: Option<&'a [u8]>)
        ensures
            opt_matches(r, spec_match_ident(self@, rest@)),
    ;

    /// `parse_ident` special-cased to three literal bytes.
    fn parse_ident3(self, rest: [u8; 3]) -> (r: Option<&'a [u8]>)
        ensures
            opt_matches(r, spec_match_ident(self@, rest@)),
    ;

    /// `parse_ident` special-cased to four literal bytes.
    fn parse_ident4(self, rest: [u8; 4]) -> (r: Option<&'a [u8]>)
        ensures
            opt_matches(r, spec_match_ident(self@, rest@)),
    ;

    /// `parse_ident` special-cased to five literal bytes.
    fn parse_ident5(self, rest: [u8; 5]) -> (r: Option<&'a [u8]>)
        ensures
            opt_matches(r, spec_match_ident(self@, rest@)),
    ;

    /// `parse_ident` special-cased to six literal bytes.
    fn parse_ident6(self, rest: [u8; 6]) -> (r: Option<&'a [u8]>)
        ensures
            opt_matches(r, spec_match_ident(self@, rest@)),
    ;

    /// Close tag of a one-byte name, from after `</`.
    fn close_tag1(self, a: u8) -> (r: Option<&'a [u8]>)
        ensures
            opt_matches(r, spec_close_tag(self@, seq![a])),
    ;

    /// Close tag of a two-byte name, from after `</`.
    fn close_tag2(self, a: u8, b: u8) -> (r: Option<&'a [u8]>)
        ensures
            opt_matches(r, spec_close_tag(self@, seq![a, b])),
    ;

    /// Close tag of a three-byte name, from after `</`.
    fn close_tag3(self, a: u8, b: u8, c: u8) -> (r: Option<&'a [u8]>)
        ensures
            opt_matches(r, spec_close_tag(self@, seq![a, b, c])),
    ;

    /// Close tag of a four-byte name, from after `</`.
    fn close_tag4(self, a: u8, b: u8, c: u8, d: u8) -> (r: Option<&'a [u8]>)
        ensures
            opt_matches(r, spec_close_tag(self@, seq![a, b, c, d])),
    ;

    /// Close tag of a five-byte name, from after `</`.
    fn close_tag5(self, a: u8, b: u8, c: u8, d: u8, e: u8) -> (r: Option<&'a [u8]>)
        ensures
            opt_matches(r, spec_close_tag(self@, seq![a, b, c, d, e])),
    ;

    /// Close tag of a six-byte name, from after `</`.
    fn close_tag6(self, a: u8, b: u8, c: u8, d: u8, e: u8, f: u8) -> (r: Option<&'a [u8]>)
        ensures
            opt_matches(r, spec_close_tag(self@, seq![a, b, c, d, e, f])),
    ;

    /// Close tag of a seven-byte name, from after `</`.
    fn close_tag7(self, a: u8, b: u8, c: u8, d: u8, e: u8, f: u8, g: u8) -> (r: Option<&'a [u8]>)
        ensures
            opt_matches(r, spec_close_tag(self@, seq![a, b, c, d, e, f, g])),
    ;

    /// Requires len to be greater than given usize.
    fn len_gt(self, l: usize) -> (r: Result<(), ParseError>)
        ensures
            len_gt_matches(r, self@, l as nat),
    ;
}

impl<'a> ByteArrayExt<'a> for &'a [u8] {
    #[inline]
    fn chr(self) -> (r: u8) {
        self[0]
    }

    #[inline]
    fn parse_chr(self, c: u8) -> (r: Option<&'a [u8]>) {
        if self.len() > 0 && self[0] == c {
            proof {
                assert(self@.subrange(1, self@.len() as int) =~= self@.skip(1));
            }
            Some(slice_subrange(self, 1, self.len()))
        } else {
            None
        }
    }

    #[inline]
    fn parse_chr_opt_space(self, c: u8) -> (r: Option<&'a [u8]>) {
        if self.len() > 0 && self.chr() == c {
            proof {
                assert(self@.subrange(1, self@.len() as int) =~= self@.skip(1));
            }
            Some(slice_subrange(self, 1, self.len()))
        } else {
            let s = strip_space(self);
            if s.len() > 0 && s.chr() == c {
                proof {
                    assert(s@.subrange(1, s@.len() as int) =~= s@.skip(1));
                }
                Some(slice_subrange(s, 1, s.len()))
            } else {
                None
            }
        }
    }

    #[inline]
    fn raw(self, idx: usize) -> (r: u8) {
        self[idx]
    }

    #[inline]
    fn is(self, other: u8) -> (r: bool) {
        self.raw(0) == other
    }

    #[inline]
    fn is_uc(self) -> (r: bool) {
        let v = self.raw(0);
        v >= 65 && v <= 90
    }

    #[inline]
    fn is_ident(self) -> (r: bool) {
        is_ident_char(self.chr())
    }

    #[inline]
    fn parse_bstr(self, bstr: &[u8]) -> (r: Option<&'a [u8]>) {
        let len: usize = self.len();
        let blen: usize = bstr.len();
        if len < blen {
            None
        } else {
            let mut i: usize = 0;
            while i < blen
                invariant
                    0 <= i <= blen <= len,
                    len == self@.len(),
                    blen == bstr@.len(),
                    forall|j: int| 0 <= j < i ==> self@[j] == bstr@[j],
                decreases blen - i,
            {
                if self[i] != bstr[i] {
                    proof {
                        assert(self@.take(blen as int)[i as int] != bstr@[i as int]);
                    }
                    return None;
                }
                i += 1;
            }
            proof {
                assert(self@.take(blen as int) =~= bstr@);
                assert(self@.subrange(blen as int, len as int) =~= self@.skip(blen as int));
            }
            Some(slice_subrange(self, blen, len))
        }
    }

    /// Parse bstr when string is likely, space allowed.
    #[inline]
    fn parse_bstr_opt_space(self, bstr: &[u8]) -> (r: Option<&'a [u8]>) {
        let len: usize = self.len();
        let blen: usize = bstr.len();
        if len < blen {
            None
        } else {
            let mut i: usize = 0;
            while i < blen
                invariant
                    0 <= i <= blen <= len,
                    len == self@.len(),
                    blen == bstr@.len(),
                    forall|j: int| 0 <= j < i ==> self@[j] == bstr@[j],
                decreases blen - i,
            {
                if self[i] != bstr[i] {
                    if i == 0 && is_space(self.chr()) {
                        proof {
                            assert(self@.subrange(1, len as int) =~= self@.skip(1));
                        }
                        let s = strip_space(slice_subrange(self, 1, len));
                        return s.parse_bstr(bstr);
                    } else {
                        proof {
                            assert(self@.take(blen as int)[i as int] != bstr@[i as int]);
                        }
                        return None;
                    }
                }
                i += 1;
            }
            proof {
                assert(self@.take(blen as int) =~= bstr@);
                assert(self@.subrange(blen as int, len as int) =~= self@.skip(blen as int));
                if blen > 0 {
                    assert(self@[0] == bstr@[0]);
                }
            }
            Some(slice_subrange(self, blen, len))
        }
    }

    /// Attempts to parse given bstr, and then a non-ident char.
    #[inline]
    fn parse_ident(self, bstr: &[u8]) -> (r: Option<&'a [u8]>) {
        let len: usize = self.len();
        let blen: usize = bstr.len();
        if len <= blen {
            None
        } else {
            let mut i: usize = 0;
            while i < blen
                invariant
                    0 <= i <= blen < len,
                    len == self@.len(),
                    blen == bstr@.len(),
                    forall|j: int| 0 <= j < i ==> self@[j] == bstr@[j],
                decreases blen - i,
            {
                if self[i] != bstr[i] {
                    proof {
                        assert(self@.take(blen as int)[i as int] != bstr@[i as int]);
                    }
                    return None;
                }
                i += 1;
            }
            proof {
                assert(self@.take(blen as int) =~= bstr@);
            }
            if is_ident_char(self.raw(blen)) {
                // Ident not ended
                None
            } else {
                proof {
                    assert(self@.subrange(blen as int, len as int) =~= self@.skip(blen as int));
                }
                Some(slice_subrange(self, blen, len))
            }
        }
    }

    // Special case for when the ident is only one more char
    #[inline]
    fn parse_ident1(self, chr: u8) -> (r: Option<&'a [u8]>) {
        if self.len() < 2 {
            None
        } else if self.chr() == chr && !is_ident_char(self.raw(1)) {
            proof {
                assert(self@.take(1) =~= seq![chr]);
                assert(self@.subrange(1, self@.len() as int) =~= self@.skip(1));
            }
            Some(slice_subrange(self, 1, self.len()))
        } else {
            proof {
                if self@[0] != chr {
                    assert(self@.take(1)[0] != seq![chr][0]);
                }
            }
            None
        }
    }

    #[inline]
    fn parse_ident2(self, rest: [u8; 2]) -> (r: Option<&'a [u8]>) {
        if self.len() < 3 {
            None
        } else if self.chr() == rest[0] && self.raw(1) == rest[1] && !is_ident_char(self.raw(2)) {
            proof {
                assert(self@.take(2) =~= rest@);
                assert(self@.subrange(2, self@.len() as int) =~= self@.skip(2));
            }
            Some(slice_subrange(self, 2, self.len()))
        } else {
            proof {
                if self@.take(2) == rest@ {
                    assert(self@[0] == rest@[0] && self@[1] == rest@[1]);
                }
            }
            None
        }
    }

    #[inline]
    fn parse_ident3(self, rest: [u8; 3]) -> (r: Option<&'a [u8]>) {
        if self.len() < 4 {
            None
        } else if self.chr() == rest[0] && self.raw(1) == rest[1] && self.raw(2) == rest[2]
            && !is_ident_char(self.raw(3)) {
            proof {
                assert(self@.take(3) =~= rest@);
                assert(self@.subrange(3, self@.len() as int) =~= self@.skip(3));
            }
            Some(slice_subrange(self, 3, self.len()))
        } else {
            proof {
                if self@.take(3) == rest@ {
                    assert(forall|j: int| 0 <= j < 3 ==> self@[j] == rest@[j]);
                }
            }
            None
        }
    }

    #[inline]
    fn parse_ident4(self, rest: [u8; 4]) -> (r: Option<&'a [u8]>) {
        if self.len() < 5 {
            None
        } else if self.chr() == rest[0] && self.raw(1) == rest[1] && self.raw(2) == rest[2]
            && self.raw(3) == rest[3] && !is_ident_char(self.raw(4)) {
            proof {
                assert(self@.take(4) =~= rest@);
                assert(self@.subrange(4, self@.len() as int) =~= self@.skip(4));
            }
            Some(slice_subrange(self, 4, self.len()))
        } else {
            proof {
                if self@.take(4) == rest@ {
                    assert(forall|j: int| 0 <= j < 4 ==> self@[j] == rest@[j]);
                }
            }
            None
        }
    }

    #[inline]
    fn parse_ident5(self, rest: [u8; 5]) -> (r: Option<&'a [u8]>) {
        if self.len() < 6 {
            None
        } else if self.chr() == rest[0] && self.raw(1) == rest[1] && self.raw(2) == rest[2]
            && self.raw(3) == rest[3] && self.raw(4) == rest[4] && !is_ident_char(self.raw(5)) {
            proof {
                assert(self@.take(5) =~= rest@);
                assert(self@.subrange(5, self@.len() as int) =~= self@.skip(5));
            }
            Some(slice_subrange(self, 5, self.len()))
        } else {
            proof {
                if self@.take(5) == rest@ {
                    assert(forall|j: int| 0 <= j < 5 ==> self@[j] == rest@[j]);
                }
            }
            None
        }
    }

    #[inline]
    fn parse_ident6(self, rest: [u8; 6]) -> (r: Option<&'a [u8]>) {
        if self.len() < 7 {
            None
        } else if self.chr() == rest[0] && self.raw(1) == rest[1] && self.raw(2) == rest[2]
            && self.raw(3) == rest[3] && self.raw(4) == rest[4] && self.raw(5) == rest[5]
            && !is_ident_char(self.raw(6)) {
            proof {
                assert(self@.take(6) =~= rest@);
                assert(self@.subrange(6, self@.len() as int) =~= self@.skip(6));
            }
            Some(slice_subrange(self, 6, self.len()))
        } else {
            proof {
                if self@.take(6) == rest@ {
                    assert(forall|j: int| 0 <= j < 6 ==> self@[j] == rest@[j]);
                }
            }
            None
        }
    }

    /// These parse close tag from after `</`.
    #[inline]
    fn close_tag1(self, a: u8) -> (r: Option<&'a [u8]>) {
        if let Some(s) = self.parse_chr_opt_space(a) {
            s.parse_chr_opt_space(RBRACKET)
        } else {
            None
        }
    }

    fn close_tag2(self, a: u8, b: u8) -> (r: Option<&'a [u8]>) {
        if let Some(s) = self.parse_chr_opt_space(a) {
            if s.len() < 2 {
                None
            } else if s.chr() == b {
                proof {
                    assert(s@.take(1) =~= seq![a, b].skip(1));
                    assert(s@.subrange(1, s@.len() as int) =~= s@.skip(1));
                }
                slice_subrange(s, 1, s.len()).parse_chr_opt_space(RBRACKET)
            } else {
                proof {
                    assert(s@.take(1)[0] != seq![a, b].skip(1)[0]);
                }
                None
            }
        } else {
            None
        }
    }

    fn close_tag3(self, a: u8, b: u8, c: u8) -> (r: Option<&'a [u8]>) {
        if let Some(s) = self.parse_chr_opt_space(a) {
            if s.len() < 3 {
                None
            } else if s.chr() == b && s.raw(1) == c {
                proof {
                    assert(s@.take(2) =~= seq![a, b, c].skip(1));
                    assert(s@.subrange(2, s@.len() as int) =~= s@.skip(2));
                }
                slice_subrange(s, 2, s.len()).parse_chr_opt_space(RBRACKET)
            } else {
                proof {
                    let tail = seq![a, b, c].skip(1);
                    if s@.take(2) == tail {
                        assert(s@[0] == tail[0] && s@[1] == tail[1]);
                    }
                }
                None
            }
        } else {
            None
        }
    }

    fn close_tag4(self, a: u8, b: u8, c: u8, d: u8) -> (r: Option<&'a [u8]>) {
        if let Some(s) = self.parse_chr_opt_space(a) {
            if s.len() < 4 {
                None
            } else if s.chr() == b && s.raw(1) == c && s.raw(2) == d {
                proof {
                    assert(s@.take(3) =~= seq![a, b, c, d].skip(1));
                    assert(s@.subrange(3, s@.len() as int) =~= s@.skip(3));
                }
                slice_subrange(s, 3, s.len()).parse_chr_opt_space(RBRACKET)
            } else {
                proof {
                    let tail = seq![a, b, c, d].skip(1);
                    if s@.take(3) == tail {
                        assert(s@.take(3)[0] == tail[0]);
                        assert(s@.take(3)[1] == tail[1]);
                        assert(s@.take(3)[2] == tail[2]);
                    }
                }
                None
            }
        } else {
            None
        }
    }

    fn close_tag5(self, a: u8, b: u8, c: u8, d: u8, e: u8) -> (r: Option<&'a [u8]>) {
        if let Some(s) = self.parse_chr_opt_space(a) {
            if s.len() < 5 {
                None
            } else if s.chr() == b && s.raw(1) == c && s.raw(2) == d && s.raw(3) == e {
                proof {
                    assert(s@.take(4) =~= seq![a, b, c, d, e].skip(1));
                    assert(s@.subrange(4, s@.len() as int) =~= s@.skip(4));
                }
                slice_subrange(s, 4, s.len()).parse_chr_opt_space(RBRACKET)
            } else {
                proof {
                    let tail = seq![a, b, c, d, e].skip(1);
                    if s@.take(4) == tail {
                        assert(s@.take(4)[0] == tail[0]);
                        assert(s@.take(4)[1] == tail[1]);
                        assert(s@.take(4)[2] == tail[2]);
                        assert(s@.take(4)[3] == tail[3]);
                    }
                }
                None
            }
        } else {
            None
        }
    }

    fn close_tag6(self, a: u8, b: u8, c: u8, d: u8, e: u8, f: u8) -> (r: Option<&'a [u8]>) {
        if let Some(s) = self.parse_chr_opt_space(a) {
            if s.len() < 6 {
                None
            } else if s.chr() == b && s.raw(1) == c && s.raw(2) == d && s.raw(3) == e && s.raw(4)
                == f {
                proof {
                    assert(s@.take(5) =~= seq![a, b, c, d, e, f].skip(1));
                    assert(s@.subrange(5, s@.len() as int) =~= s@.skip(5));
                }
                slice_subrange(s, 5, s.len()).parse_chr_opt_space(RBRACKET)
            } else {
                proof {
                    let tail = seq![a, b, c, d, e, f].skip(1);
                    if s@.take(5) == tail {
                        assert(s@.take(5)[0] == tail[0]);
                        assert(s@.take(5)[1] == tail[1]);
                        assert(s@.take(5)[2] == tail[2]);
                        assert(s@.take(5)[3] == tail[3]);
                        assert(s@.take(5)[4] == tail[4]);
                    }
                }
                None
            }
        } else {
            None
        }
    }

    fn close_tag7(self, a: u8, b: u8, c: u8, d: u8, e: u8, f: u8, g: u8) -> (r: Option<&'a [u8]>) {
        if let Some(s) = self.parse_chr_opt_space(a) {
            if s.len() < 7 {
                None
            } else if s.chr() == b && s.raw(1) == c && s.raw(2) == d && s.raw(3) == e && s.raw(4)
                == f && s.raw(5) == g {
                proof {
                    assert(s@.take(6) =~= seq![a, b, c, d, e, f, g].skip(1));
                    assert(s@.subrange(6, s@.len() as int) =~= s@.skip(6));
                }
                slice_subrange(s, 6, s.len()).parse_chr_opt_space(RBRACKET)
            } else {
                proof {
                    let tail = seq![a, b, c, d, e, f, g].skip(1);
                    if s@.take(6) == tail {
                        assert(s@.take(6)[0] == tail[0]);
                        assert(s@.take(6)[1] == tail[1]);
                        assert(s@.take(6)[2] == tail[2]);
                        assert(s@.take(6)[3] == tail[3]);
                        assert(s@.take(6)[4] == tail[4]);
                        assert(s@.take(6)[5] == tail[5]);
                    }
                }
                None
            }
        } else {
            None
        }
    }

    /// Requires len to be greater than given usize.
    #[inline]
    fn len_gt(self, l: usize) -> (r: Result<(), ParseError>) {
        if self.len() > l {
            Ok(())
        } else {
            let mut m = String::new();
            m.append("Required length to be greater than ");
            let digits = usize_dec_str(l);
            m.append(digits.as_str());
            err(m.as_str(), self)
        }
    }
}

} // verus!
