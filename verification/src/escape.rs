//! String escaping for serialized output.
//!
//! Two escapers share a shape: each input character maps to a small,
//! exactly specified character sequence, appended onto a caller-supplied
//! buffer between double quotes.  The JSON escaper also renders
//! non-printable characters as `\u` hex escapes.
use vstd::prelude::*;

use crate::parse_utils::push_char;
use vstd::string::StrSliceExecFns;

verus! {

/// A key of a decoded PHP array: integer or string.
#[derive(Clone, Debug, PartialEq, Eq, Hash)]
pub enum ArrKey {
    Str(String),
    Int(i64),
}

// ---------------------------------------------------------------------
// Hex rendering of a scalar value
// ---------------------------------------------------------------------
/// The lower-case hex digit character for a value below sixteen.
pub open spec fn spec_hex_char(d: u32) -> char
    recommends
        d < 16,
{
    if d < 10 {
        ((48 + d) as u8) as char
    } else {
        ((87 + d) as u8) as char
    }
}

/// The index of the most significant hex digit of a value.
pub open spec fn spec_ms_hex(c: u32) -> u32 {
    if c < 0x10 {
        0
    } else if c < 0x100 {
        1
    } else if c < 0x1000 {
        2
    } else if c < 0x10000 {
        3
    } else if c < 0x100000 {
        4
    } else if c < 0x1000000 {
        5
    } else if c < 0x10000000 {
        6
    } else {
        7
    }
}

/// The hex digits of a value from digit index `j` down to 0, most
/// significant first.
pub open spec fn spec_hex_seq(c: u32, j: int) -> Seq<char>
    decreases j + 1,
{
    if j < 0 {
        Seq::empty()
    } else {
        seq![spec_hex_char((c >> ((j * 4) as u32)) & 0xf)] + spec_hex_seq(c, j - 1)
    }
}

/// The `\u`-escape of a character: `\u`, zeros padding to at least four
/// digits, then its hex digits.
pub open spec fn spec_unicode_escape(ch: char) -> Seq<char> {
    let c = ch as u32;
    let d = spec_ms_hex(c);
    let pad: Seq<char> = if d < 3 {
        Seq::new((3 - d) as nat, |i: int| '0')
    } else {
        Seq::empty()
    };
    seq!['\\', 'u'] + pad + spec_hex_seq(c, d as int)
}

/// How the JSON escaper renders one character: the common escapes, CR
/// dropped (an LF is expected beside it), printable ASCII verbatim, and
/// everything else as a `\u` escape.
pub open spec fn spec_json_escape_char(ch: char) -> Seq<char> {
    if ch == '"' {
        seq!['\\', '"']
    } else if ch == '\n' {
        seq!['\\', 'n']
    } else if ch == '\t' {
        seq!['\\', 't']
    } else if ch == '\r' {
        Seq::empty()
    } else if ch == '\\' {
        seq!['\\', '\\']
    } else if 0x20 <= (ch as u32) && (ch as u32) <= 0x7e {
        seq![ch]
    } else {
        spec_unicode_escape(ch)
    }
}

/// The JSON escaping of a whole character sequence.
pub open spec fn spec_json_escaped(s: Seq<char>) -> Seq<char>
    decreases s.len(),
{
    if s.len() == 0 {
        Seq::empty()
    } else {
        spec_json_escape_char(s[0]) + spec_json_escaped(s.skip(1))
    }
}

/// Escaping distributes over appending one character.
pub proof fn lemma_json_escaped_push(s: Seq<char>, c: char)
    ensures
        spec_json_escaped(s.push(c)) =~= spec_json_escaped(s) + spec_json_escape_char(c),
    decreases s.len(),
{
    reveal_with_fuel(spec_json_escaped, 3);
    if s.len() == 0 {
        assert(s.push(c).skip(1) =~= Seq::<char>::empty());
        assert(s.push(c)[0] == c);
    } else {
        lemma_json_escaped_push(s.skip(1), c);
        assert(s.push(c).skip(1) =~= s.skip(1).push(c));
        assert(s.push(c)[0] == s[0]);
        assert(spec_json_escaped(s.push(c)) == spec_json_escape_char(s[0]) + spec_json_escaped(
            s.skip(1).push(c),
        ));
    }
}

/// How the plain escaper renders one character: `"` and `\` escaped, CR
/// dropped, everything else verbatim.
pub open spec fn spec_plain_escape_char(ch: char) -> Seq<char> {
    if ch == '"' {
        seq!['\\', '"']
    } else if ch == '\r' {
        Seq::empty()
    } else if ch == '\\' {
        seq!['\\', '\\']
    } else {
        seq![ch]
    }
}

/// The plain escaping of a whole character sequence.
pub open spec fn spec_plain_escaped(s: Seq<char>) -> Seq<char>
    decreases s.len(),
{
    if s.len() == 0 {
        Seq::empty()
    } else {
        spec_plain_escape_char(s[0]) + spec_plain_escaped(s.skip(1))
    }
}

/// Escaping distributes over appending one character.
pub proof fn lemma_plain_escaped_push(s: Seq<char>, c: char)
    ensures
        spec_plain_escaped(s.push(c)) =~= spec_plain_escaped(s) + spec_plain_escape_char(c),
    decreases s.len(),
{
    reveal_with_fuel(spec_plain_escaped, 3);
    if s.len() == 0 {
        assert(s.push(c).skip(1) =~= Seq::<char>::empty());
        assert(s.push(c)[0] == c);
    } else {
        lemma_plain_escaped_push(s.skip(1), c);
        assert(s.push(c).skip(1) =~= s.skip(1).push(c));
        assert(s.push(c)[0] == s[0]);
        assert(spec_plain_escaped(s.push(c)) == spec_plain_escape_char(s[0]) + spec_plain_escaped(
            s.skip(1).push(c),
        ));
    }
}

/// Appends the `\u` escape of a character.
fn push_unicode_escape(b: &mut String, ch: char)
    ensures
        final(b)@ == old(b)@ + spec_unicode_escape(ch),
{
    let c: u32 = ch as u32;
    let d: u32 = if c < 0x10 {
        0
    } else if c < 0x100 {
        1
    } else if c < 0x1000 {
        2
    } else if c < 0x10000 {
        3
    } else if c < 0x100000 {
        4
    } else if c < 0x1000000 {
        5
    } else if c < 0x10000000 {
        6
    } else {
        7
    };
    push_char(b, '\\');
    push_char(b, 'u');
    let ghost b0 = b@;
    // Fill with zeros up to four digits.
    let mut p: u32 = d;
    while p < 3
        invariant
            d <= p <= 3 || p == d,
            d < 3 ==> d <= p <= 3,
            d >= 3 ==> p == d,
            b@ == b0 + Seq::new((if p >= d {
                p - d
            } else {
                0
            }) as nat, |i: int| '0'),
        decreases 3 - p,
    {
        push_char(b, '0');
        proof {
            assert(b@ =~= b0 + Seq::new((p + 1 - d) as nat, |i: int| '0'));
        }
        p += 1;
    }
    proof {
        if d < 3 {
            assert(b@ =~= b0 + Seq::new((3 - d) as nat, |i: int| '0'));
        } else {
            assert(b@ =~= b0 + Seq::<char>::empty());
        }
    }
    let ghost b1 = b@;
    // Hex digits, most significant first.
    let mut j: u32 = d + 1;
    while j > 0
        invariant
            0 <= j <= d + 1,
            d <= 7,
            b@ == b1 + (spec_hex_seq(c, d as int).take((d + 1 - j) as int)),
        decreases j,
    {
        j -= 1;
        let dig: u32 = (c >> (j * 4)) & 0xf;
        proof {
            assert(dig < 16) by (bit_vector)
                requires
                    dig == (c >> (j * 4)) & 0xf,
            ;
        }
        let hc: char = if dig < 10 {
            ((48 + dig) as u8) as char
        } else {
            ((87 + dig) as u8) as char
        };
        push_char(b, hc);
        proof {
            lemma_hex_seq_index(c, d as int, (d - j) as int);
            assert(b@ =~= b1 + (spec_hex_seq(c, d as int).take((d - j + 1) as int)));
        }
    }
    proof {
        assert(spec_hex_seq(c, d as int).take((d + 1) as int) =~= spec_hex_seq(c, d as int)) by {
            lemma_hex_seq_len(c, d as int);
        }
    }
}

/// The hex rendering of a value has one character per digit index.
pub proof fn lemma_hex_seq_len(c: u32, j: int)
    ensures
        spec_hex_seq(c, j).len() == (if j < 0 {
            0
        } else {
            j + 1
        }),
    decreases j + 1,
{
    if j >= 0 {
        lemma_hex_seq_len(c, j - 1);
    }
}

/// The character at offset `k` of the hex rendering is the digit at
/// index `j - k`.
pub proof fn lemma_hex_seq_index(c: u32, j: int, k: int)
    requires
        0 <= k <= j,
    ensures
        spec_hex_seq(c, j).len() == j + 1,
        spec_hex_seq(c, j)[k] == spec_hex_char((c >> (((j - k) * 4) as u32)) & 0xf),
    decreases k,
{
    lemma_hex_seq_len(c, j);
    lemma_hex_seq_len(c, j - 1);
    if k > 0 {
        lemma_hex_seq_index(c, j - 1, k - 1);
    }
}

/// Appends one JSON-escaped character.
fn push_json_escape_char(b: &mut String, ch: char)
    ensures
        final(b)@ == old(b)@ + spec_json_escape_char(ch),
{
    let code: u32 = ch as u32;
    if ch == '"' {
        push_char(b, '\\');
        push_char(b, '"');
        proof {
            assert(b@ =~= old(b)@ + seq!['\\', '"']);
        }
    } else if ch == '\n' {
        push_char(b, '\\');
        push_char(b, 'n');
        proof {
            assert(b@ =~= old(b)@ + seq!['\\', 'n']);
        }
    } else if ch == '\t' {
        push_char(b, '\\');
        push_char(b, 't');
        proof {
            assert(b@ =~= old(b)@ + seq!['\\', 't']);
        }
    } else if ch == '\r' {
        // Dropped: an LF is expected to be present as well.
        proof {
            assert(b@ =~= old(b)@ + Seq::<char>::empty());
        }
    } else if ch == '\\' {
        push_char(b, '\\');
        push_char(b, '\\');
        proof {
            assert(b@ =~= old(b)@ + seq!['\\', '\\']);
        }
    } else if 0x20 <= code && code <= 0x7e {
        push_char(b, ch);
        proof {
            assert(b@ =~= old(b)@ + seq![ch]);
        }
    } else {
        push_unicode_escape(b, ch);
    }
}

/// Escapes a string for a JSON document: appends it onto `b` between
/// double quotes, with `"`, `\`, newlines and tabs escaped, CR dropped,
/// printable ASCII verbatim, and every other character as a `\u` escape.
pub fn json_escape_string(s: &str, b: String) -> (r: String)
    ensures
        r@ == b@ + seq!['"'] + spec_json_escaped(s@) + seq!['"'],
{
    let mut out = b;
    push_char(&mut out, '"');
    let ghost b1 = out@;
    let n: usize = s.unicode_len();
    let mut i: usize = 0;
    proof {
        assert(s@.take(0) =~= Seq::<char>::empty());
    }
    while i < n
        invariant
            0 <= i <= n,
            n == s@.len(),
            out@ == b1 + spec_json_escaped(s@.take(i as int)),
        decreases n - i,
    {
        let ch: char = s.get_char(i);
        push_json_escape_char(&mut out, ch);
        proof {
            lemma_json_escaped_push(s@.take(i as int), ch);
            assert(s@.take(i as int).push(ch) =~= s@.take(i + 1));
            assert(out@ =~= b1 + spec_json_escaped(s@.take(i + 1)));
        }
        i += 1;
    }
    proof {
        assert(s@.take(n as int) =~= s@);
    }
    push_char(&mut out, '"');
    proof {
        assert(out@ =~= b@ + seq!['"'] + spec_json_escaped(s@) + seq!['"']);
    }
    out
}

/// Escapes a string for the s-expression format: appends it onto `b`
/// between double quotes, with `"` and `\` escaped and CR dropped;
/// multiline strings and non-ASCII text stay verbatim.
pub fn escape_string(s: &str, b: String) -> (r: String)
    ensures
        r@ == b@ + seq!['"'] + spec_plain_escaped(s@) + seq!['"'],
{
    let mut out = b;
    push_char(&mut out, '"');
    let ghost b1 = out@;
    let n: usize = s.unicode_len();
    let mut i: usize = 0;
    proof {
        assert(s@.take(0) =~= Seq::<char>::empty());
    }
    while i < n
        invariant
            0 <= i <= n,
            n == s@.len(),
            out@ == b1 + spec_plain_escaped(s@.take(i as int)),
        decreases n - i,
    {
        let ch: char = s.get_char(i);
        if ch == '"' {
            push_char(&mut out, '\\');
            push_char(&mut out, '"');
        } else if ch == '\r' {
            // Dropped: an LF is expected to be present as well.
        } else if ch == '\\' {
            push_char(&mut out, '\\');
            push_char(&mut out, '\\');
        } else {
            push_char(&mut out, ch);
        }
        proof {
            lemma_plain_escaped_push(s@.take(i as int), ch);
            assert(s@.take(i as int).push(ch) =~= s@.take(i + 1));
            assert(out@ =~= b1 + spec_plain_escaped(s@.take(i + 1)));
        }
        i += 1;
    }
    proof {
        assert(s@.take(n as int) =~= s@);
    }
    push_char(&mut out, '"');
    proof {
        assert(out@ =~= b@ + seq!['"'] + spec_plain_escaped(s@) + seq!['"']);
    }
    out
}

} // verus!
