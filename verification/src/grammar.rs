//! The grammar: a mathematical model of the whole parse, as spec
//! functions over `Seq<u8>`.
//!
//! Every executable parsing function is proved to return exactly what the
//! corresponding function here prescribes, both on success (the advanced
//! cursor and the parsed value) and on failure (the error message and
//! input snippet).  The model mirrors the grammar's deliberate quirks —
//! the skip-once whitespace tolerance, the fixed-arity ident-terminated
//! matching, the permissive one-codepoint decoder — because those are the
//! documented behaviour.
use vstd::prelude::*;

use crate::ast::AttribView;
use crate::ast::El;
use crate::ast::NodeView;
use crate::ast::TagView;
use crate::ast::Void;
use crate::ast::bytes_chars;
use vstd::utf8::encode_utf8;
use crate::ast::el_name_bytes;
use crate::parse_utils::A;
use crate::parse_utils::B;
use crate::parse_utils::C;
use crate::parse_utils::D;
use crate::parse_utils::DASH;
use crate::parse_utils::DQUOTE;
use crate::parse_utils::E;
use crate::parse_utils::EQUAL;
use crate::parse_utils::EXCLAMATION;
use crate::parse_utils::F;
use crate::parse_utils::FSLASH;
use crate::parse_utils::G;
use crate::parse_utils::H;
use crate::parse_utils::I;
use crate::parse_utils::K;
use crate::parse_utils::L;
use crate::parse_utils::LBRACKET;
use crate::parse_utils::M;
use crate::parse_utils::N;
use crate::parse_utils::N1;
use crate::parse_utils::N2;
use crate::parse_utils::N3;
use crate::parse_utils::N4;
use crate::parse_utils::N5;
use crate::parse_utils::N6;
use crate::parse_utils::O;
use crate::parse_utils::P;
use crate::parse_utils::R;
use crate::parse_utils::S;
use crate::parse_utils::T;
use crate::parse_utils::U;
use crate::parse_utils::V;
use crate::parse_utils::W;
use crate::parse_utils::Y;
use crate::parse_utils::spec_close_tag;
use crate::parse_utils::spec_match_ident;
use crate::parse_utils::spec_parse_bstr;
use crate::parse_utils::ParseErrorView;
use crate::parse_utils::RBRACKET;
use crate::parse_utils::SQUOTE;
use crate::parse_utils::lemma_strip_space_len;
use crate::parse_utils::spec_err;
use crate::parse_utils::spec_is_alpha;
use crate::parse_utils::spec_is_ident_char;
use crate::parse_utils::spec_is_space;
use crate::parse_utils::spec_len_gt_msg;
use crate::parse_utils::spec_parse_chr_opt_space;
use crate::parse_utils::spec_parse_bstr_opt_space;
use crate::parse_utils::spec_strip_space;
use crate::parse_utils::spec_utf8_char;
use crate::parse_utils::spec_utf8_len;

verus! {

// ---------------------------------------------------------------------
// Identifier accumulation
// ---------------------------------------------------------------------
/// Accumulates identifier characters onto `b` until a non-identifier byte
/// or the end of input, returning the advanced cursor and the name.
pub open spec fn spec_ident_rest(s: Seq<u8>, b: Seq<char>) -> (Seq<u8>, Seq<char>)
    decreases s.len(),
{
    if s.len() == 0 || !spec_is_ident_char(s[0]) {
        (s, b)
    } else {
        spec_ident_rest(s.skip(1), b.push(s[0] as char))
    }
}

/// The identifier scan never lengthens the cursor.
pub proof fn lemma_ident_rest_len(s: Seq<u8>, b: Seq<char>)
    ensures
        spec_ident_rest(s, b).0.len() <= s.len(),
    decreases s.len(),
{
    if s.len() > 0 && spec_is_ident_char(s[0]) {
        lemma_ident_rest_len(s.skip(1), b.push(s[0] as char));
    }
}

/// What `parse_ident` returns: an identifier at the cursor head — an
/// alphabetic character, then any identifier characters — or an error on
/// an empty cursor or a non-alphabetic first byte.
pub open spec fn spec_parse_ident(s: Seq<u8>) -> Result<(Seq<u8>, Seq<char>), ParseErrorView> {
    if s.len() == 0 {
        Err(spec_err(spec_len_gt_msg(0), s))
    } else if !spec_is_alpha(s[0]) {
        Err(spec_err("Expected alpha char as first in identifier"@, s))
    } else {
        Ok(spec_ident_rest(s.skip(1), seq![s[0] as char]))
    }
}

// ---------------------------------------------------------------------
// Text nodes
// ---------------------------------------------------------------------
/// Decodes characters until one decodes as `<` (left at the cursor) or
/// the input ends.
pub open spec fn spec_text_scan(s: Seq<u8>) -> (Seq<u8>, Seq<char>)
    decreases s.len(),
{
    if s.len() == 0 {
        (s, Seq::empty())
    } else {
        let n = spec_utf8_len(s);
        let c = spec_utf8_char(s);
        if c == '<' {
            (s, Seq::empty())
        } else {
            let rec = spec_text_scan(s.skip(n as int));
            (rec.0, seq![c] + rec.1)
        }
    }
}

/// The text scan never lengthens the cursor.
pub proof fn lemma_text_scan_len(s: Seq<u8>)
    ensures
        spec_text_scan(s).0.len() <= s.len(),
    decreases s.len(),
{
    if s.len() > 0 && spec_utf8_char(s) != '<' {
        lemma_text_scan_len(s.skip(spec_utf8_len(s) as int));
    }
}

/// Trailing grammar whitespace removed from accumulated text.
pub open spec fn spec_trim_end(cs: Seq<char>) -> Seq<char>
    decreases cs.len(),
{
    if cs.len() > 0 && (cs.last() == ' ' || cs.last() == '\t' || cs.last() == '\n' || cs.last()
        == '\r') {
        spec_trim_end(cs.drop_last())
    } else {
        cs
    }
}

/// What `parse_text` produces: the decoded run up to the next `<`, with
/// trailing whitespace trimmed.
pub open spec fn spec_parse_text(s: Seq<u8>) -> (Seq<u8>, NodeView) {
    let scan = spec_text_scan(s);
    (scan.0, NodeView::Text(spec_trim_end(scan.1)))
}

// ---------------------------------------------------------------------
// Quoted and unquoted attribute values
// ---------------------------------------------------------------------
/// Decodes characters until the closing quote `q` (consumed, excluded
/// from the value); `None` when the input ends first.
pub open spec fn spec_quoted_value(u: Seq<u8>, q: char) -> Option<(Seq<u8>, Seq<char>)>
    decreases u.len(),
{
    if u.len() == 0 {
        None
    } else {
        let n = spec_utf8_len(u);
        let c = spec_utf8_char(u);
        if c == q {
            Some((u.skip(n as int), Seq::empty()))
        } else {
            match spec_quoted_value(u.skip(n as int), q) {
                None => None,
                Some((r, cs)) => Some((r, seq![c] + cs)),
            }
        }
    }
}

/// The quoted-value scan never lengthens the cursor.
pub proof fn lemma_quoted_value_len(u: Seq<u8>, q: char)
    ensures
        spec_quoted_value(u, q) matches Some((r, _)) ==> r.len() <= u.len(),
    decreases u.len(),
{
    if u.len() > 0 && spec_utf8_char(u) != q {
        lemma_quoted_value_len(u.skip(spec_utf8_len(u) as int), q);
    }
}

/// Decodes characters of an unquoted value until a terminator (space,
/// `>`, `/`, tab, CR or LF — consumed, excluded from the value); `None`
/// when the input ends first.
pub open spec fn spec_unquoted_value(u: Seq<u8>) -> Option<(Seq<u8>, Seq<char>)>
    decreases u.len(),
{
    if u.len() == 0 {
        None
    } else {
        let n = spec_utf8_len(u);
        let c = spec_utf8_char(u);
        if c == ' ' || c == '>' || c == '/' || c == '\t' || c == '\n' || c == '\r' {
            Some((u.skip(n as int), Seq::empty()))
        } else {
            match spec_unquoted_value(u.skip(n as int)) {
                None => None,
                Some((r, cs)) => Some((r, seq![c] + cs)),
            }
        }
    }
}

/// The unquoted-value scan never lengthens the cursor.
pub proof fn lemma_unquoted_value_len(u: Seq<u8>)
    ensures
        spec_unquoted_value(u) matches Some((r, _)) ==> r.len() <= u.len(),
    decreases u.len(),
{
    if u.len() > 0 {
        let c = spec_utf8_char(u);
        if !(c == ' ' || c == '>' || c == '/' || c == '\t' || c == '\n' || c == '\r') {
            lemma_unquoted_value_len(u.skip(spec_utf8_len(u) as int));
        }
    }
}

/// What `parse_attr_value` returns after the `=` and any whitespace run
/// around it: the cursor past the value and the value itself, or the
/// error for an unterminated value.
pub open spec fn spec_attr_value_body(t: Seq<u8>) -> Result<
    (Seq<u8>, Option<Seq<char>>),
    ParseErrorView,
>
    decreases t.len(),
{
    if t.len() == 0 {
        // Whitespace after `=` ran to the end of input: an empty value.
        Ok((t, Some(Seq::empty())))
    } else if t[0] == DQUOTE {
        match spec_quoted_value(t.skip(1), '"') {
            Some((r, cs)) => Ok((r, Some(cs))),
            None => Err(spec_err("Expected ending double quote"@, t)),
        }
    } else if t[0] == SQUOTE {
        match spec_quoted_value(t.skip(1), '\'') {
            Some((r, cs)) => Ok((r, Some(cs))),
            None => Err(spec_err("Expected ending single quote"@, t)),
        }
    } else if spec_is_space(t[0]) {
        {
            proof {
                lemma_strip_space_len(t.skip(1));
            }
            let u = spec_strip_space(t.skip(1));
            if u.len() == 0 {
                // Equal char with no attrib value: interpreted as empty.
                Ok((u, Some(Seq::empty())))
            } else {
                spec_attr_value_body(u)
            }
        }
    } else {
        match spec_unquoted_value(t) {
            Some((r, cs)) => Ok((r, Some(cs))),
            None => Err(spec_err("Expected end of unquoted attribute"@, t)),
        }
    }
}

/// What `parse_attr_value` returns: `None` without consuming anything
/// when no `=` follows (a valueless attribute), the parsed value after an
/// `=`, or an error when the value is missing or unterminated.
pub open spec fn spec_attr_value(s: Seq<u8>) -> Result<
    (Seq<u8>, Option<Seq<char>>),
    ParseErrorView,
> {
    if s.len() == 0 {
        Ok((s, None))
    } else {
        match spec_parse_chr_opt_space(s, EQUAL) {
            None => Ok((s, None)),
            Some(t) => {
                if t.len() == 0 {
                    Err(spec_err(spec_len_gt_msg(0), t))
                } else {
                    spec_attr_value_body(t)
                }
            },
        }
    }
}

/// A whitespace-tolerant single-byte match never lengthens the cursor.
pub proof fn lemma_parse_chr_opt_space_len(s: Seq<u8>, c: u8)
    ensures
        spec_parse_chr_opt_space(s, c) matches Some(t) ==> t.len() < s.len(),
{
    lemma_strip_space_len(s);
}

/// A whitespace-tolerant literal match never lengthens the cursor, and
/// consumes the literal.
pub proof fn lemma_parse_bstr_opt_space_len(s: Seq<u8>, b: Seq<u8>)
    ensures
        spec_parse_bstr_opt_space(s, b) matches Some(t) ==> t.len() + b.len() <= s.len(),
{
    if s.len() >= b.len() && b.len() > 0 && s[0] != b[0] && spec_is_space(s[0]) {
        lemma_strip_space_len(s.skip(1));
    }
}

/// The attribute-value parser never lengthens the cursor.
pub proof fn lemma_attr_value_body_len(t: Seq<u8>)
    ensures
        spec_attr_value_body(t) matches Ok((r, _)) ==> r.len() <= t.len(),
    decreases t.len(),
{
    if t.len() == 0 {
    } else if t[0] == DQUOTE {
        lemma_quoted_value_len(t.skip(1), '"');
    } else if t[0] == SQUOTE {
        lemma_quoted_value_len(t.skip(1), '\'');
    } else if spec_is_space(t[0]) {
        lemma_strip_space_len(t.skip(1));
        let u = spec_strip_space(t.skip(1));
        if u.len() != 0 {
            lemma_attr_value_body_len(u);
        }
    } else {
        lemma_unquoted_value_len(t);
    }
}

/// The attribute-value parser never lengthens the cursor.
pub proof fn lemma_attr_value_len(s: Seq<u8>)
    ensures
        spec_attr_value(s) matches Ok((r, _)) ==> r.len() <= s.len(),
{
    if s.len() > 0 {
        lemma_parse_chr_opt_space_len(s, EQUAL);
        match spec_parse_chr_opt_space(s, EQUAL) {
            None => {},
            Some(t) => {
                if t.len() != 0 {
                    lemma_attr_value_body_len(t);
                }
            },
        }
    }
}

// ---------------------------------------------------------------------
// Quotable content (script and style bodies)
// ---------------------------------------------------------------------
/// Whether a `<` at the cursor head opens a closing tag: after it,
/// whitespace-tolerantly, a `/` that is not immediately followed by
/// another `/`.
pub open spec fn spec_end_tag_ahead(v: Seq<u8>) -> bool {
    match spec_parse_chr_opt_space(v, FSLASH) {
        Some(w) => w.len() > 0 && w[0] != FSLASH,
        None => false,
    }
}

/// Copies a quoted section verbatim until its unescaped closing quote
/// (included), consuming and copying the codepoint after each backslash.
pub open spec fn spec_quoted_section(v: Seq<u8>, q: char) -> (Seq<u8>, Seq<char>)
    decreases v.len(),
{
    if v.len() == 0 {
        (v, Seq::empty())
    } else {
        let n = spec_utf8_len(v);
        let c = spec_utf8_char(v);
        let w = v.skip(n as int);
        if c == q {
            (w, seq![c])
        } else if c == '\\' {
            if w.len() == 0 {
                (w, seq![c])
            } else {
                let n2 = spec_utf8_len(w);
                let c2 = spec_utf8_char(w);
                let rec = spec_quoted_section(w.skip(n2 as int), q);
                (rec.0, seq![c, c2] + rec.1)
            }
        } else {
            let rec = spec_quoted_section(w, q);
            (rec.0, seq![c] + rec.1)
        }
    }
}

/// The quoted-section scan never lengthens the cursor.
pub proof fn lemma_quoted_section_len(v: Seq<u8>, q: char)
    ensures
        spec_quoted_section(v, q).0.len() <= v.len(),
    decreases v.len(),
{
    if v.len() > 0 {
        let n = spec_utf8_len(v);
        let c = spec_utf8_char(v);
        let w = v.skip(n as int);
        if c == q {
        } else if c == '\\' {
            if w.len() != 0 {
                lemma_quoted_section_len(w.skip(spec_utf8_len(w) as int), q);
            }
        } else {
            lemma_quoted_section_len(w, q);
        }
    }
}

/// Captures script or style content: characters verbatim, except that a
/// `<` opening a closing tag stops the scan (left at the cursor), and
/// quoted sections (double, single or backtick) are copied whole so an
/// embedded `</...` inside them does not end the content.
pub open spec fn spec_quotable(s: Seq<u8>) -> (Seq<u8>, Seq<char>)
    decreases s.len(),
{
    if s.len() == 0 {
        (s, Seq::empty())
    } else {
        let n = spec_utf8_len(s);
        let c = spec_utf8_char(s);
        let w = s.skip(n as int);
        if c == '<' {
            if spec_end_tag_ahead(w) {
                (s, Seq::empty())
            } else {
                let rec = spec_quotable(w);
                (rec.0, seq!['<'] + rec.1)
            }
        } else if c == '"' || c == '\'' || c == '`' {
            {
                proof {
                    lemma_quoted_section_len(w, c);
                }
                let section = spec_quoted_section(w, c);
                if section.0.len() < s.len() {
                    let rec = spec_quotable(section.0);
                    (rec.0, seq![c] + section.1 + rec.1)
                } else {
                    // unreachable: the section starts past the quote
                    (section.0, seq![c] + section.1)
                }
            }
        } else {
            let rec = spec_quotable(w);
            (rec.0, seq![c] + rec.1)
        }
    }
}

/// The quotable-content scan never lengthens the cursor.
pub proof fn lemma_quotable_len(s: Seq<u8>)
    ensures
        spec_quotable(s).0.len() <= s.len(),
    decreases s.len(),
{
    if s.len() > 0 {
        let n = spec_utf8_len(s);
        let c = spec_utf8_char(s);
        let w = s.skip(n as int);
        if c == '<' {
            if !spec_end_tag_ahead(w) {
                lemma_quotable_len(w);
            }
        } else if c == '"' || c == '\'' || c == '`' {
            lemma_quoted_section_len(w, c);
            let section = spec_quoted_section(w, c);
            if section.0.len() < s.len() {
                lemma_quotable_len(section.0);
            }
        } else {
            lemma_quotable_len(w);
        }
    }
}

// ---------------------------------------------------------------------
// Comments
// ---------------------------------------------------------------------
/// Scans a comment body after `<!--`.  `p2` and `p1` carry the last two
/// raw bytes already consumed.  The scan stops after a `>` whose two
/// preceding bytes are dashes, dropping the two dash characters from the
/// accumulated text; with no such `>` it consumes the whole input and
/// keeps everything.
pub open spec fn spec_comment_scan(
    u: Seq<u8>,
    p2: Option<u8>,
    p1: Option<u8>,
    acc: Seq<char>,
) -> (Seq<u8>, Seq<char>)
    decreases u.len(),
{
    if u.len() == 0 {
        (u, acc)
    } else {
        let n = spec_utf8_len(u);
        let c = spec_utf8_char(u);
        let w = u.skip(n as int);
        // The two bytes before the last byte just consumed.
        let b2: Option<u8> = if n >= 2 {
            Some(u[n - 2])
        } else {
            p1
        };
        let b3: Option<u8> = if n >= 3 {
            Some(u[n - 3])
        } else if n >= 2 {
            p1
        } else {
            p2
        };
        if c == '>' && b2 == Some(DASH) && b3 == Some(DASH) {
            (w, if acc.len() >= 2 {
                acc.take(acc.len() - 2)
            } else {
                Seq::empty()
            })
        } else {
            spec_comment_scan(w, b2, Some(u[n - 1]), acc.push(c))
        }
    }
}

/// The comment scan never lengthens the cursor.
pub proof fn lemma_comment_scan_len(u: Seq<u8>, p2: Option<u8>, p1: Option<u8>, acc: Seq<char>)
    ensures
        spec_comment_scan(u, p2, p1, acc).0.len() <= u.len(),
    decreases u.len(),
{
    if u.len() > 0 {
        let n = spec_utf8_len(u);
        let c = spec_utf8_char(u);
        let b2: Option<u8> = if n >= 2 {
            Some(u[n - 2])
        } else {
            p1
        };
        let b3: Option<u8> = if n >= 3 {
            Some(u[n - 3])
        } else if n >= 2 {
            p1
        } else {
            p2
        };
        if !(c == '>' && b2 == Some(DASH) && b3 == Some(DASH)) {
            lemma_comment_scan_len(u.skip(n as int), b2, Some(u[n - 1]), acc.push(c));
        }
    }
}

// ---------------------------------------------------------------------
// Doctype
// ---------------------------------------------------------------------
/// The doctype body: everything up to and including the first `>`.
pub open spec fn spec_find_rbracket(s: Seq<u8>) -> Option<int>
    decreases s.len(),
{
    if s.len() == 0 {
        None
    } else if s[0] == RBRACKET {
        Some(0)
    } else {
        match spec_find_rbracket(s.skip(1)) {
            Some(j) => Some(j + 1),
            None => None,
        }
    }
}

/// The found `>` is in range and is the first one.
pub proof fn lemma_find_rbracket(s: Seq<u8>)
    ensures
        spec_find_rbracket(s) matches Some(i) ==> 0 <= i < s.len() && s[i] == RBRACKET,
    decreases s.len(),
{
    if s.len() > 0 && s[0] != RBRACKET {
        lemma_find_rbracket(s.skip(1));
    }
}

/// What `parse_doctype` returns, from right after `<!`: a doctype void
/// node and the cursor after the closing `>`, or an error when no `>`
/// remains.
pub open spec fn spec_parse_doctype(s: Seq<u8>) -> Result<(Seq<u8>, NodeView), ParseErrorView> {
    match spec_find_rbracket(s) {
        Some(i) => Ok(
            (
                s.skip(i + 1),
                NodeView::Tag(TagView::Void { ident: Void::Doctype, attribs: Seq::empty() }),
            ),
        ),
        None => Err(spec_err("Failed to parse doctype"@, s)),
    }
}

// ---------------------------------------------------------------------
// Attributes
// ---------------------------------------------------------------------
/// What `parse_attributes` returns with `acc` already collected: the
/// cursor past the tag's `>` or `/>`, whether it was self-closed, and the
/// attributes in source order.  The names `id`, `class`, `onclick` and
/// `href` are specialized and must carry a value; every other name
/// accumulates as a generic attribute, with or without a value.
pub open spec fn spec_parse_attributes(s: Seq<u8>, acc: Seq<AttribView>) -> Result<
    (Seq<u8>, bool, Seq<AttribView>),
    ParseErrorView,
>
    decreases s.len(), 1int,
{
    let t = spec_strip_space(s);
    proof {
        lemma_strip_space_len(s);
    }
    if t.len() == 0 {
        Err(spec_err(spec_len_gt_msg(0), t))
    } else {
        let next = t[0];
        let u = t.skip(1);
        if next == RBRACKET {
            Ok((u, false, acc))
        } else if next == FSLASH {
            match spec_parse_chr_opt_space(u, RBRACKET) {
                Some(w) => Ok((w, true, acc)),
                None => Err(spec_err("Expected '>' after '/'"@, u)),
            }
        } else if next == I {
            match spec_match_ident(u, seq![D]) {
                Some(v) => match spec_attr_value(v) {
                    Err(e) => Err(e),
                    Ok((w, Some(val))) => {
                        proof {
                            lemma_attr_value_len(v);
                        }
                        spec_parse_attributes(w, acc.push(AttribView::Id(val)))
                    },
                    Ok((w, None)) => Err(spec_err("Id attribute requires value"@, u)),
                },
                None => spec_attributes_other(s, u, seq!['i'], acc),
            }
        } else if next == C {
            match spec_match_ident(u, seq![L, A, S, S]) {
                Some(v) => match spec_attr_value(v) {
                    Err(e) => Err(e),
                    Ok((w, Some(val))) => {
                        proof {
                            lemma_attr_value_len(v);
                        }
                        spec_parse_attributes(w, acc.push(AttribView::Cls(val)))
                    },
                    Ok((w, None)) => Err(spec_err("Class attribute requires value"@, u)),
                },
                None => spec_attributes_other(s, u, seq!['c'], acc),
            }
        } else if next == O {
            match spec_match_ident(u, seq![N, C, L, I, C, K]) {
                Some(v) => match spec_attr_value(v) {
                    Err(e) => Err(e),
                    Ok((w, Some(val))) => {
                        proof {
                            lemma_attr_value_len(v);
                        }
                        spec_parse_attributes(w, acc.push(AttribView::OnClick(val)))
                    },
                    Ok((w, None)) => Err(spec_err("Onclick attribute requires value"@, u)),
                },
                None => spec_attributes_other(s, u, seq!['o'], acc),
            }
        } else if next == H {
            match spec_match_ident(u, seq![R, E, F]) {
                Some(v) => match spec_attr_value(v) {
                    Err(e) => Err(e),
                    Ok((w, Some(val))) => {
                        proof {
                            lemma_attr_value_len(v);
                        }
                        spec_parse_attributes(w, acc.push(AttribView::Href(val)))
                    },
                    Ok((w, None)) => Err(spec_err("Href attribute requires value"@, u)),
                },
                None => spec_attributes_other(s, u, seq!['h'], acc),
            }
        } else {
            spec_attributes_other(s, u, seq![next as char], acc)
        }
    }
}

/// The generic attribute path: an identifier starting with the byte
/// already consumed, then an optional value.
pub open spec fn spec_attributes_other(
    s: Seq<u8>,
    u: Seq<u8>,
    b: Seq<char>,
    acc: Seq<AttribView>,
) -> Result<(Seq<u8>, bool, Seq<AttribView>), ParseErrorView>
    recommends
        u.len() < s.len(),
    decreases s.len(), 0int,
{
    if u.len() >= s.len() {
        // unreachable: one byte was consumed before this path
        Err(spec_err(Seq::empty(), u))
    } else {
        let rest = spec_ident_rest(u, b);
        proof {
            lemma_ident_rest_len(u, b);
        }
        match spec_attr_value(rest.0) {
            Err(e) => Err(e),
            Ok((w, val)) => {
                proof {
                    lemma_attr_value_len(rest.0);
                }
                spec_parse_attributes(w, acc.push(AttribView::Other(rest.1, val)))
            },
        }
    }
}

/// The attribute parser consumes at least the closing `>`.
pub proof fn lemma_attributes_len(s: Seq<u8>, acc: Seq<AttribView>)
    ensures
        spec_parse_attributes(s, acc) matches Ok((r, _, _)) ==> r.len() < s.len(),
    decreases s.len(), 2int,
{
    let t = spec_strip_space(s);
    lemma_strip_space_len(s);
    if t.len() != 0 {
        let next = t[0];
        let u = t.skip(1);
        if next == RBRACKET {
        } else if next == FSLASH {
            lemma_parse_chr_opt_space_len(u, RBRACKET);
        } else if next == I {
            match spec_match_ident(u, seq![D]) {
                Some(v) => {
                    lemma_attr_value_len(v);
                    match spec_attr_value(v) {
                        Ok((w, Some(val))) => {
                            lemma_attributes_len(w, acc.push(AttribView::Id(val)));
                        },
                        _ => {},
                    }
                },
                None => lemma_attributes_other_len(s, u, seq!['i'], acc),
            }
        } else if next == C {
            match spec_match_ident(u, seq![L, A, S, S]) {
                Some(v) => {
                    lemma_attr_value_len(v);
                    match spec_attr_value(v) {
                        Ok((w, Some(val))) => {
                            lemma_attributes_len(w, acc.push(AttribView::Cls(val)));
                        },
                        _ => {},
                    }
                },
                None => lemma_attributes_other_len(s, u, seq!['c'], acc),
            }
        } else if next == O {
            match spec_match_ident(u, seq![N, C, L, I, C, K]) {
                Some(v) => {
                    lemma_attr_value_len(v);
                    match spec_attr_value(v) {
                        Ok((w, Some(val))) => {
                            lemma_attributes_len(w, acc.push(AttribView::OnClick(val)));
                        },
                        _ => {},
                    }
                },
                None => lemma_attributes_other_len(s, u, seq!['o'], acc),
            }
        } else if next == H {
            match spec_match_ident(u, seq![R, E, F]) {
                Some(v) => {
                    lemma_attr_value_len(v);
                    match spec_attr_value(v) {
                        Ok((w, Some(val))) => {
                            lemma_attributes_len(w, acc.push(AttribView::Href(val)));
                        },
                        _ => {},
                    }
                },
                None => lemma_attributes_other_len(s, u, seq!['h'], acc),
            }
        } else {
            lemma_attributes_other_len(s, u, seq![next as char], acc);
        }
    }
}

/// Length bound for the generic attribute arm.
proof fn lemma_attributes_other_len(s: Seq<u8>, u: Seq<u8>, b: Seq<char>, acc: Seq<AttribView>)
    requires
        u.len() < s.len(),
    ensures
        spec_attributes_other(s, u, b, acc) matches Ok((r, _, _)) ==> r.len() < s.len(),
    decreases s.len(), 1int,
{
    let rest = spec_ident_rest(u, b);
    lemma_ident_rest_len(u, b);
    lemma_attr_value_len(rest.0);
    match spec_attr_value(rest.0) {
        Ok((w, val)) => {
            lemma_attributes_len(w, acc.push(AttribView::Other(rest.1, val)));
        },
        Err(_) => {},
    }
}

// ---------------------------------------------------------------------
// Tag identity dispatch
// ---------------------------------------------------------------------
/// The identity a tag name denotes: a recognized element, a recognized
/// void element, or an unrecognized name kept as text.
pub enum ParsedTagView {
    El(El),
    Void(Void),
    Other(Seq<char>),
}

/// The fallback of the dispatch: accumulate the rest of the identifier
/// and keep the name as an unrecognized tag.
pub open spec fn spec_el_ident_rest(s: Seq<u8>, b: Seq<char>) -> (Seq<u8>, ParsedTagView) {
    let rest = spec_ident_rest(s, b);
    (rest.0, ParsedTagView::Other(rest.1))
}

/// What `parse_tag_ident` returns: the tag identity at the head of the
/// cursor and the cursor past the identifier.  Dispatch branches on the
/// first byte, tries the known element and void spellings that start with
/// it (each terminated by a non-identifier byte), and falls back to
/// accumulating a generic identifier.  `h` followed by a single digit or
/// `r` is special-cased.
pub open spec fn spec_tag_ident(s: Seq<u8>) -> (Seq<u8>, ParsedTagView)
    recommends
        s.len() > 0,
{
    let first = s[0];
    let u = s.skip(1);
    let len = u.len();
    if first == D {
        match spec_match_ident(u, seq![I, V]) {
            Some(t) => (t, ParsedTagView::El(El::Div)),
            None => spec_el_ident_rest(u, seq!['d']),
        }
    } else if first == I {
        match spec_match_ident(u, seq![M, G]) {
            Some(t) => (t, ParsedTagView::Void(Void::Img)),
            None => match spec_match_ident(u, seq![N, P, U, T]) {
                Some(t) => (t, ParsedTagView::Void(Void::Input)),
                None => if len > 0 && spec_is_ident_char(u[0]) {
                    spec_el_ident_rest(u, seq!['i'])
                } else {
                    (u, ParsedTagView::El(El::I))
                },
            },
        }
    } else if first == A {
        if len > 0 && spec_is_ident_char(u[0]) {
            match spec_match_ident(u, seq![R, E, A]) {
                Some(t) => (t, ParsedTagView::Void(Void::Area)),
                None => match spec_match_ident(u, seq![R, T, I, C, L, E]) {
                    Some(t) => (t, ParsedTagView::El(El::Article)),
                    None => match spec_match_ident(u, seq![S, I, D, E]) {
                        Some(t) => (t, ParsedTagView::El(El::Aside)),
                        None => spec_el_ident_rest(u, seq!['a']),
                    },
                },
            }
        } else {
            (u, ParsedTagView::El(El::A))
        }
    } else if first == B {
        if len > 0 && spec_is_ident_char(u[0]) {
            match spec_match_ident(u, seq![R]) {
                Some(t) => (t, ParsedTagView::Void(Void::Br)),
                None => match spec_match_ident(u, seq![O, D, Y]) {
                    Some(t) => (t, ParsedTagView::El(El::Body)),
                    None => match spec_match_ident(u, seq![A, S, E]) {
                        Some(t) => (t, ParsedTagView::Void(Void::Base)),
                        None => spec_el_ident_rest(u, seq!['b']),
                    },
                },
            }
        } else {
            (u, ParsedTagView::El(El::B))
        }
    } else if first == H {
        if len > 1 && !spec_is_ident_char(u[1]) {
            if u[0] == N1 {
                (u.skip(1), ParsedTagView::El(El::H1))
            } else if u[0] == N2 {
                (u.skip(1), ParsedTagView::El(El::H2))
            } else if u[0] == N3 {
                (u.skip(1), ParsedTagView::El(El::H3))
            } else if u[0] == N4 {
                (u.skip(1), ParsedTagView::El(El::H4))
            } else if u[0] == R {
                (u.skip(1), ParsedTagView::Void(Void::Hr))
            } else if u[0] == N5 {
                (u.skip(1), ParsedTagView::El(El::H5))
            } else if u[0] == N6 {
                (u.skip(1), ParsedTagView::El(El::H6))
            } else {
                (u.skip(1), ParsedTagView::Other(seq!['h', u[0] as char]))
            }
        } else {
            match spec_match_ident(u, seq![T, M, L]) {
                Some(t) => (t, ParsedTagView::El(El::Html)),
                None => match spec_match_ident(u, seq![E, A, D]) {
                    Some(t) => (t, ParsedTagView::El(El::Head)),
                    None => match spec_match_ident(u, seq![E, A, D, E, R]) {
                        Some(t) => (t, ParsedTagView::El(El::Header)),
                        None => spec_el_ident_rest(u, seq!['h']),
                    },
                },
            }
        }
    } else if first == S {
        match spec_match_ident(u, seq![E, L, E, C, T]) {
            Some(t) => (t, ParsedTagView::El(El::Select)),
            None => match spec_match_ident(u, seq![M, A, L, L]) {
                Some(t) => (t, ParsedTagView::El(El::Small)),
                None => match spec_match_ident(u, seq![O, U, R, C, E]) {
                    Some(t) => (t, ParsedTagView::Void(Void::Source)),
                    None => spec_el_ident_rest(u, seq!['s']),
                },
            },
        }
    } else if first == T {
        match spec_match_ident(u, seq![D]) {
            Some(t) => (t, ParsedTagView::El(El::Td)),
            None => match spec_match_ident(u, seq![R]) {
                Some(t) => (t, ParsedTagView::El(El::Tr)),
                None => match spec_match_ident(u, seq![H]) {
                    Some(t) => (t, ParsedTagView::El(El::Th)),
                    None => match spec_match_ident(u, seq![A, B, L, E]) {
                        Some(t) => (t, ParsedTagView::El(El::Table)),
                        None => match spec_match_ident(u, seq![I, T, L, E]) {
                            Some(t) => (t, ParsedTagView::El(El::Title)),
                            None => match spec_match_ident(u, seq![R, A, C, K]) {
                                Some(t) => (t, ParsedTagView::Void(Void::Track)),
                                None => spec_el_ident_rest(u, seq!['t']),
                            },
                        },
                    },
                },
            },
        }
    } else if first == O {
        match spec_match_ident(u, seq![P, T, I, O, N]) {
            Some(t) => (t, ParsedTagView::El(El::Opt)),
            None => match spec_match_ident(u, seq![L]) {
                Some(t) => (t, ParsedTagView::El(El::Ol)),
                None => spec_el_ident_rest(u, seq!['o']),
            },
        }
    } else if first == P {
        if len > 0 && spec_is_ident_char(u[0]) {
            match spec_match_ident(u, seq![A, R, A, M]) {
                Some(t) => (t, ParsedTagView::Void(Void::Param)),
                None => spec_el_ident_rest(u, seq!['p']),
            }
        } else {
            (u, ParsedTagView::El(El::P))
        }
    } else if first == L {
        match spec_match_ident(u, seq![I]) {
            Some(t) => (t, ParsedTagView::El(El::Li)),
            None => match spec_match_ident(u, seq![I, N, K]) {
                Some(t) => (t, ParsedTagView::Void(Void::Link)),
                None => spec_el_ident_rest(u, seq!['l']),
            },
        }
    } else if first == F {
        match spec_match_ident(u, seq![O, R, M]) {
            Some(t) => (t, ParsedTagView::El(El::Form)),
            None => match spec_match_ident(u, seq![O, O, T, E, R]) {
                Some(t) => (t, ParsedTagView::El(El::Footer)),
                None => spec_el_ident_rest(u, seq!['f']),
            },
        }
    } else if first == M {
        match spec_match_ident(u, seq![E, T, A]) {
            Some(t) => (t, ParsedTagView::Void(Void::Meta)),
            None => match spec_match_ident(u, seq![A, I, N]) {
                Some(t) => (t, ParsedTagView::El(El::Main)),
                None => spec_el_ident_rest(u, seq!['m']),
            },
        }
    } else if first == U {
        match spec_match_ident(u, seq![L]) {
            Some(t) => (t, ParsedTagView::El(El::Ul)),
            None => if len > 0 && spec_is_ident_char(u[0]) {
                spec_el_ident_rest(u, seq!['u'])
            } else {
                (u, ParsedTagView::El(El::U))
            },
        }
    } else if first == N {
        match spec_match_ident(u, seq![A, V]) {
            Some(t) => (t, ParsedTagView::El(El::Nav)),
            None => spec_el_ident_rest(u, seq!['n']),
        }
    } else if first == E {
        match spec_match_ident(u, seq![M]) {
            Some(t) => (t, ParsedTagView::El(El::Em)),
            None => match spec_match_ident(u, seq![M, B, E, D]) {
                Some(t) => (t, ParsedTagView::Void(Void::Embed)),
                None => spec_el_ident_rest(u, seq!['e']),
            },
        }
    } else if first == C {
        match spec_match_ident(u, seq![O, M, M, A, N, D]) {
            Some(t) => (t, ParsedTagView::Void(Void::Command)),
            None => match spec_match_ident(u, seq![O, L]) {
                Some(t) => (t, ParsedTagView::Void(Void::Col)),
                None => spec_el_ident_rest(u, seq!['c']),
            },
        }
    } else if first == K {
        match spec_match_ident(u, seq![E, Y, G, E, N]) {
            Some(t) => (t, ParsedTagView::Void(Void::Keygen)),
            None => spec_el_ident_rest(u, seq!['k']),
        }
    } else if first == W {
        match spec_match_ident(u, seq![B, R]) {
            Some(t) => (t, ParsedTagView::Void(Void::Wbr)),
            None => spec_el_ident_rest(u, seq!['w']),
        }
    } else {
        spec_el_ident_rest(u, seq![first as char])
    }
}

/// The dispatch consumes at least the first byte.
pub proof fn lemma_tag_ident_len(s: Seq<u8>)
    requires
        s.len() > 0,
    ensures
        spec_tag_ident(s).0.len() < s.len(),
{
    let u = s.skip(1);
    lemma_ident_rest_len(u, seq![s[0] as char]);
    lemma_ident_rest_len(u, seq!['d']);
    lemma_ident_rest_len(u, seq!['i']);
    lemma_ident_rest_len(u, seq!['a']);
    lemma_ident_rest_len(u, seq!['b']);
    lemma_ident_rest_len(u, seq!['h']);
    lemma_ident_rest_len(u, seq!['s']);
    lemma_ident_rest_len(u, seq!['t']);
    lemma_ident_rest_len(u, seq!['o']);
    lemma_ident_rest_len(u, seq!['p']);
    lemma_ident_rest_len(u, seq!['l']);
    lemma_ident_rest_len(u, seq!['f']);
    lemma_ident_rest_len(u, seq!['m']);
    lemma_ident_rest_len(u, seq!['u']);
    lemma_ident_rest_len(u, seq!['n']);
    lemma_ident_rest_len(u, seq!['e']);
    lemma_ident_rest_len(u, seq!['c']);
    lemma_ident_rest_len(u, seq!['k']);
    lemma_ident_rest_len(u, seq!['w']);
}

// ---------------------------------------------------------------------
// Script and style tags
// ---------------------------------------------------------------------
/// The script attribute loop, from after `<script` when the tag did not
/// close immediately.  Recognizes only `src`, `defer`, `async` and `type`;
/// `>` begins either a sourced-script close or an inline body; `/>` closes
/// a sourced script.
pub open spec fn spec_script_attrs(
    s: Seq<u8>,
    src: Option<Seq<char>>,
    defer: bool,
    asyc: bool,
    typ: Option<Seq<char>>,
) -> Result<(Seq<u8>, NodeView), ParseErrorView>
    decreases s.len(),
{
    let t = spec_strip_space(s);
    proof {
        lemma_strip_space_len(s);
    }
    if t.len() == 0 {
        Err(spec_err(spec_len_gt_msg(0), t))
    } else {
        let next = t[0];
        let u = t.skip(1);
        if next == S {
            match spec_match_ident(u, seq![R, C]) {
                Some(v) => match spec_attr_value(v) {
                    Err(e) => Err(e),
                    Ok((w, val)) => {
                        proof {
                            lemma_attr_value_len(v);
                        }
                        spec_script_attrs(w, val, defer, asyc, typ)
                    },
                },
                None => Err(spec_err("Unrecognized script attribute"@, u)),
            }
        } else if next == D {
            match spec_match_ident(u, seq![E, F, E, R]) {
                Some(v) => match spec_attr_value(v) {
                    Err(e) => Err(e),
                    Ok((w, _)) => {
                        proof {
                            lemma_attr_value_len(v);
                        }
                        spec_script_attrs(w, src, true, asyc, typ)
                    },
                },
                None => Err(spec_err("Unrecognized script attribute"@, u)),
            }
        } else if next == A {
            match spec_match_ident(u, seq![S, Y, N, C]) {
                Some(v) => match spec_attr_value(v) {
                    Err(e) => Err(e),
                    Ok((w, _)) => {
                        proof {
                            lemma_attr_value_len(v);
                        }
                        spec_script_attrs(w, src, defer, true, typ)
                    },
                },
                None => Err(spec_err("Unrecognized script attribute"@, u)),
            }
        } else if next == T {
            match spec_match_ident(u, seq![Y, P, E]) {
                Some(v) => match spec_attr_value(v) {
                    Err(e) => Err(e),
                    Ok((w, val)) => {
                        proof {
                            lemma_attr_value_len(v);
                        }
                        spec_script_attrs(w, src, defer, asyc, val)
                    },
                },
                None => Err(spec_err("Unrecognized script attribute"@, u)),
            }
        } else if next == RBRACKET {
            match spec_parse_chr_opt_space(u, LBRACKET) {
                Some(v) => {
                    let closed = match spec_parse_chr_opt_space(v, FSLASH) {
                        Some(w) => spec_close_tag(w, seq![S, C, R, I, P, T]),
                        None => None,
                    };
                    match closed {
                        Some(x) => match src {
                            Some(sv) => Ok(
                                (x, NodeView::ScriptSrc { src: sv, defer, asyc, typ }),
                            ),
                            None => Err(spec_err("Src attribute expected"@, x)),
                        },
                        None => Err(spec_err("Expecting end tag"@, u)),
                    }
                },
                None => {
                    let t2 = spec_strip_space(u);
                    let q = spec_quotable(t2);
                    let closed = match spec_parse_chr_opt_space(q.0, LBRACKET) {
                        Some(v) => match spec_parse_chr_opt_space(v, FSLASH) {
                            Some(w) => spec_close_tag(w, seq![S, C, R, I, P, T]),
                            None => None,
                        },
                        None => None,
                    };
                    match closed {
                        Some(x) => Ok((x, NodeView::Script { script: q.1, typ })),
                        None => Err(spec_err("Expecting end tag"@, t2)),
                    }
                },
            }
        } else if next == FSLASH {
            match spec_parse_chr_opt_space(u, RBRACKET) {
                Some(w) => match src {
                    Some(sv) => Ok((w, NodeView::ScriptSrc { src: sv, defer, asyc, typ })),
                    None => Err(spec_err("Script src required"@, w)),
                },
                None => Err(spec_err("Expecting closing tag"@, u)),
            }
        } else {
            Err(spec_err("Unrecognized script attribute"@, u))
        }
    }
}

/// What `parse_script_tag` returns, from right after `<script`: an inline
/// script node with its raw body, a sourced-script node, or the matching
/// error.
pub open spec fn spec_parse_script_tag(s: Seq<u8>) -> Result<(Seq<u8>, NodeView), ParseErrorView> {
    match spec_parse_chr_opt_space(s, RBRACKET) {
        Some(t) => {
            let q = spec_quotable(t);
            let closed = match spec_parse_chr_opt_space(q.0, LBRACKET) {
                Some(v) => match spec_parse_chr_opt_space(v, FSLASH) {
                    Some(w) => spec_close_tag(w, seq![S, C, R, I, P, T]),
                    None => None,
                },
                None => None,
            };
            match closed {
                Some(x) => Ok((x, NodeView::Script { script: q.1, typ: None })),
                None => Err(spec_err("Expecting end tag"@, q.0)),
            }
        },
        None => spec_script_attrs(s, None, false, false, None),
    }
}

/// The style attribute loop, from after `<style` when the tag did not
/// close immediately.  Tolerates only a `type` attribute before the `>`.
pub open spec fn spec_style_attrs(s: Seq<u8>, typ: Option<Seq<char>>) -> Result<
    (Seq<u8>, NodeView),
    ParseErrorView,
>
    decreases s.len(),
{
    let t = spec_strip_space(s);
    proof {
        lemma_strip_space_len(s);
    }
    if t.len() == 0 {
        Err(spec_err(spec_len_gt_msg(0), t))
    } else {
        let next = t[0];
        let u = t.skip(1);
        if next == T {
            match spec_match_ident(u, seq![Y, P, E]) {
                Some(v) => match spec_attr_value(v) {
                    Err(e) => Err(e),
                    Ok((w, val)) => {
                        proof {
                            lemma_attr_value_len(v);
                        }
                        spec_style_attrs(w, val)
                    },
                },
                None => Err(spec_err("Unrecognized style attribute"@, u)),
            }
        } else if next == RBRACKET {
            let t2 = spec_strip_space(u);
            let q = spec_quotable(t2);
            match spec_parse_chr_opt_space(q.0, LBRACKET) {
                Some(v) => {
                    let closed = match spec_parse_chr_opt_space(v, LBRACKET) {
                        Some(v2) => match spec_parse_chr_opt_space(v2, FSLASH) {
                            Some(w) => spec_close_tag(w, seq![S, T, Y, L, E]),
                            None => None,
                        },
                        None => None,
                    };
                    match closed {
                        Some(x) => Ok((x, NodeView::Style(q.1))),
                        None => Err(spec_err("Expecting style end tag"@, v)),
                    }
                },
                None => Err(spec_err("Expecting end tag"@, q.0)),
            }
        } else if next == FSLASH {
            Err(spec_err("Unexpected / in style tag"@, u))
        } else {
            Err(spec_err("Unrecognized attribute in style tag"@, u))
        }
    }
}

/// What `parse_style_tag` returns, from right after `<style`: a style
/// node with its raw body, or the matching error.
pub open spec fn spec_parse_style_tag(s: Seq<u8>) -> Result<(Seq<u8>, NodeView), ParseErrorView> {
    match spec_parse_chr_opt_space(s, RBRACKET) {
        Some(t) => {
            let t2 = spec_strip_space(t);
            let q = spec_quotable(t2);
            let closed = match spec_parse_chr_opt_space(q.0, LBRACKET) {
                Some(v) => match spec_parse_chr_opt_space(v, FSLASH) {
                    Some(w) => spec_close_tag(w, seq![S, T, Y, L, E]),
                    None => None,
                },
                None => None,
            };
            match closed {
                Some(x) => Ok((x, NodeView::Style(q.1))),
                None => Err(spec_err("Expecting style end tag"@, q.0)),
            }
        },
        None => spec_style_attrs(s, None),
    }
}

/// A successful script tag parse never lengthens the cursor.
pub proof fn lemma_script_tag_len(s: Seq<u8>)
    ensures
        spec_parse_script_tag(s) matches Ok((r, _)) ==> r.len() <= s.len(),
{
    lemma_parse_chr_opt_space_len(s, RBRACKET);
    match spec_parse_chr_opt_space(s, RBRACKET) {
        Some(t) => {
            lemma_quotable_len(t);
            let q = spec_quotable(t);
            lemma_parse_chr_opt_space_len(q.0, LBRACKET);
            match spec_parse_chr_opt_space(q.0, LBRACKET) {
                Some(v) => {
                    lemma_parse_chr_opt_space_len(v, FSLASH);
                    match spec_parse_chr_opt_space(v, FSLASH) {
                        Some(w) => {
                            lemma_close_tag_len(w, seq![S, C, R, I, P, T]);
                        },
                        None => {},
                    }
                },
                None => {},
            }
        },
        None => {
            lemma_script_attrs_len(s, None, false, false, None);
        },
    }
}

/// A successful close-tag match never lengthens the cursor.
pub proof fn lemma_close_tag_len(s: Seq<u8>, name: Seq<u8>)
    requires
        name.len() >= 1,
    ensures
        spec_close_tag(s, name) matches Some(r) ==> r.len() < s.len(),
{
    lemma_parse_chr_opt_space_len(s, name[0]);
    match spec_parse_chr_opt_space(s, name[0]) {
        Some(t) => {
            if name.len() == 1 {
                lemma_parse_chr_opt_space_len(t, RBRACKET);
            } else if t.len() >= name.len() && t.take(name.len() - 1) == name.skip(1) {
                lemma_parse_chr_opt_space_len(t.skip(name.len() - 1), RBRACKET);
            }
        },
        None => {},
    }
}

/// A successful script attribute loop never lengthens the cursor.
pub proof fn lemma_script_attrs_len(
    s: Seq<u8>,
    src: Option<Seq<char>>,
    defer: bool,
    asyc: bool,
    typ: Option<Seq<char>>,
)
    ensures
        spec_script_attrs(s, src, defer, asyc, typ) matches Ok((r, _)) ==> r.len() <= s.len(),
    decreases s.len(),
{
    let t = spec_strip_space(s);
    lemma_strip_space_len(s);
    if t.len() != 0 {
        let next = t[0];
        let u = t.skip(1);
        if next == S || next == D || next == A || next == T {
            let name: Seq<u8> = if next == S {
                seq![R, C]
            } else if next == D {
                seq![E, F, E, R]
            } else if next == A {
                seq![S, Y, N, C]
            } else {
                seq![Y, P, E]
            };
            match spec_match_ident(u, name) {
                Some(v) => {
                    lemma_attr_value_len(v);
                    match spec_attr_value(v) {
                        Ok((w, val)) => {
                            if next == S {
                                lemma_script_attrs_len(w, val, defer, asyc, typ);
                            } else if next == D {
                                lemma_script_attrs_len(w, src, true, asyc, typ);
                            } else if next == A {
                                lemma_script_attrs_len(w, src, defer, true, typ);
                            } else {
                                lemma_script_attrs_len(w, src, defer, asyc, val);
                            }
                        },
                        Err(_) => {},
                    }
                },
                None => {},
            }
        } else if next == RBRACKET {
            lemma_parse_chr_opt_space_len(u, LBRACKET);
            match spec_parse_chr_opt_space(u, LBRACKET) {
                Some(v) => {
                    lemma_parse_chr_opt_space_len(v, FSLASH);
                    match spec_parse_chr_opt_space(v, FSLASH) {
                        Some(w) => {
                            lemma_close_tag_len(w, seq![S, C, R, I, P, T]);
                        },
                        None => {},
                    }
                },
                None => {
                    let t2 = spec_strip_space(u);
                    lemma_strip_space_len(u);
                    lemma_quotable_len(t2);
                    let q = spec_quotable(t2);
                    lemma_parse_chr_opt_space_len(q.0, LBRACKET);
                    match spec_parse_chr_opt_space(q.0, LBRACKET) {
                        Some(v) => {
                            lemma_parse_chr_opt_space_len(v, FSLASH);
                            match spec_parse_chr_opt_space(v, FSLASH) {
                                Some(w) => {
                                    lemma_close_tag_len(w, seq![S, C, R, I, P, T]);
                                },
                                None => {},
                            }
                        },
                        None => {},
                    }
                },
            }
        } else if next == FSLASH {
            lemma_parse_chr_opt_space_len(u, RBRACKET);
        }
    }
}

/// A successful style tag parse never lengthens the cursor.
pub proof fn lemma_style_tag_len(s: Seq<u8>)
    ensures
        spec_parse_style_tag(s) matches Ok((r, _)) ==> r.len() <= s.len(),
{
    lemma_parse_chr_opt_space_len(s, RBRACKET);
    match spec_parse_chr_opt_space(s, RBRACKET) {
        Some(t) => {
            let t2 = spec_strip_space(t);
            lemma_strip_space_len(t);
            lemma_quotable_len(t2);
            let q = spec_quotable(t2);
            lemma_parse_chr_opt_space_len(q.0, LBRACKET);
            match spec_parse_chr_opt_space(q.0, LBRACKET) {
                Some(v) => {
                    lemma_parse_chr_opt_space_len(v, FSLASH);
                    match spec_parse_chr_opt_space(v, FSLASH) {
                        Some(w) => {
                            lemma_close_tag_len(w, seq![S, T, Y, L, E]);
                        },
                        None => {},
                    }
                },
                None => {},
            }
        },
        None => {
            lemma_style_attrs_len(s, None);
        },
    }
}

// ---------------------------------------------------------------------
// The recursive core: children, tags and components
// ---------------------------------------------------------------------
/// What `parse_tag` returns for the opened element at the cursor head:
/// the tag identity is resolved, attributes are parsed, and — unless the
/// tag is void or self-closed — children are collected and the matching
/// closing tag is required.
pub open spec fn spec_parse_tag(s: Seq<u8>) -> Result<(Seq<u8>, NodeView), ParseErrorView>
    recommends
        s.len() > 0,
    decreases s.len(), 0int,
{
    let d = spec_tag_ident(s);
    let t = d.0;
    match d.1 {
        ParsedTagView::El(e) => match spec_parse_attributes(t, Seq::empty()) {
            Err(e2) => Err(e2),
            Ok((u, self_closed, attribs)) => {
                if self_closed {
                    Ok((u, NodeView::Tag(TagView::El { ident: e, attribs, children: Seq::empty() })))
                } else if u.len() < s.len() {
                    match spec_parse_children(u, Seq::empty()) {
                        Err(e2) => Err(e2),
                        Ok((r, children)) => {
                            if r.len() == 0 {
                                Err(
                                    spec_err(
                                        "Eof, expecting close tag for: "@ + bytes_chars(
                                            el_name_bytes(e),
                                        ),
                                        r,
                                    ),
                                )
                            } else {
                                match spec_close_tag(r, el_name_bytes(e)) {
                                    Some(w) => Ok(
                                        (w, NodeView::Tag(TagView::El { ident: e, attribs, children })),
                                    ),
                                    None => Err(
                                        spec_err(
                                            "Expecting close tag for: "@ + bytes_chars(
                                                el_name_bytes(e),
                                            ),
                                            r,
                                        ),
                                    ),
                                }
                            }
                        },
                    }
                } else {
                    // unreachable: the dispatch and the attribute parser consume input
                    Err(spec_err(Seq::empty(), u))
                }
            },
        },
        ParsedTagView::Void(v) => match spec_parse_attributes(t, Seq::empty()) {
            Err(e2) => Err(e2),
            Ok((u, _, attribs)) => Ok((u, NodeView::Tag(TagView::Void { ident: v, attribs }))),
        },
        ParsedTagView::Other(name) => match spec_parse_attributes(t, Seq::empty()) {
            Err(e2) => Err(e2),
            Ok((u, self_closed, attribs)) => {
                if self_closed {
                    Ok(
                        (
                            u,
                            NodeView::Tag(
                                TagView::Other { ident: name, attribs, children: Seq::empty() },
                            ),
                        ),
                    )
                } else if u.len() < s.len() {
                    match spec_parse_children(u, Seq::empty()) {
                        Err(e2) => Err(e2),
                        Ok((r, children)) => {
                            if r.len() == 0 {
                                Err(spec_err("Expected closing tag"@, r))
                            } else {
                                match spec_parse_bstr_opt_space(r, encode_utf8(name)) {
                                    Some(w) => match spec_parse_chr_opt_space(w, RBRACKET) {
                                        Some(x) => Ok(
                                            (
                                                x,
                                                NodeView::Tag(
                                                    TagView::Other { ident: name, attribs, children },
                                                ),
                                            ),
                                        ),
                                        None => Err(spec_err("Closing tag not complete"@, w)),
                                    },
                                    None => Err(spec_err("Expected closing tag: "@ + name, r)),
                                }
                            }
                        },
                    }
                } else {
                    // unreachable: the dispatch and the attribute parser consume input
                    Err(spec_err(Seq::empty(), u))
                }
            },
        },
    }
}

/// What `parse_component` returns for the upper-case-named tag at the
/// cursor head: its name, its props in source order, and its children
/// unless self-closed; the closing tag is matched by literal name.
pub open spec fn spec_parse_component(s: Seq<u8>) -> Result<(Seq<u8>, NodeView), ParseErrorView>
    recommends
        s.len() > 0,
    decreases s.len(), 0int,
{
    let idr = spec_ident_rest(s.skip(1), seq![s[0] as char]);
    proof {
        lemma_ident_rest_len(s.skip(1), seq![s[0] as char]);
    }
    if s.len() > 0 {
        spec_component_props(idr.0, idr.1, Seq::empty())
    } else {
        // unreachable: the caller saw the upper-case first byte
        Err(spec_err(Seq::empty(), s))
    }
}

/// The component prop loop: `name[=value]` pairs in a looser grammar than
/// standard attributes, until `>` (children follow, then a literal-name
/// closing tag) or `/>` (no children).
pub open spec fn spec_component_props(
    s: Seq<u8>,
    ident: Seq<char>,
    props: Seq<(Seq<char>, Option<Seq<char>>)>,
) -> Result<(Seq<u8>, NodeView), ParseErrorView>
    decreases s.len(), 1int,
{
    let t = spec_strip_space(s);
    proof {
        lemma_strip_space_len(s);
    }
    if t.len() == 0 {
        Err(spec_err(spec_len_gt_msg(0), t))
    } else {
        let next = t[0];
        let u = t.skip(1);
        if next == RBRACKET {
            match spec_parse_children(u, Seq::empty()) {
                Err(e) => Err(e),
                Ok((r, children)) => {
                    // The children parser has already consumed the `</` of
                    // the closing tag; the literal name and `>` follow.
                    match spec_parse_bstr_opt_space(r, encode_utf8(ident)) {
                        Some(w) => match spec_parse_chr_opt_space(w, RBRACKET) {
                            Some(x) => Ok(
                                (x, NodeView::Component { name: ident, props, children }),
                            ),
                            None => Err(spec_err("Expecting end tag"@, w)),
                        },
                        None => Err(spec_err("Expecting end tag"@, r)),
                    }
                },
            }
        } else if next == FSLASH {
            match spec_parse_chr_opt_space(u, RBRACKET) {
                Some(w) => Ok(
                    (w, NodeView::Component { name: ident, props, children: Seq::empty() }),
                ),
                None => Err(spec_err("Expecting '>'"@, u)),
            }
        } else if !spec_is_alpha(next) {
            Err(spec_err("Expected alpha char as first in prop"@, u))
        } else {
            let pid = spec_ident_rest(u, seq![next as char]);
            proof {
                lemma_ident_rest_len(u, seq![next as char]);
            }
            match spec_attr_value(pid.0) {
                Err(e) => Err(e),
                Ok((w, val)) => {
                    proof {
                        lemma_attr_value_len(pid.0);
                    }
                    spec_component_props(w, ident, props.push((pid.1, val)))
                },
            }
        }
    }
}

/// One dispatched step of the children loop, after `<` (and one tolerated
/// whitespace run) has been consumed: a component when the first letter is
/// upper case; control returned to the enclosing element on `/`; `script`
/// and `style` special-cased; a comment on `!--`; otherwise a generic tag.
pub open spec fn spec_children_tagged(
    s: Seq<u8>,
    u: Seq<u8>,
    acc: Seq<NodeView>,
) -> Result<(Seq<u8>, Seq<NodeView>), ParseErrorView>
    recommends
        0 < u.len() < s.len(),
    decreases s.len(), 0int,
{
    if u.len() >= s.len() || u.len() == 0 {
        // unreachable: at least `<` was consumed before this step
        Err(spec_err(Seq::empty(), u))
    } else if 65 <= u[0] <= 90 {
        match spec_parse_component(u) {
            Err(e) => Err(e),
            Ok((r, node)) => {
                if r.len() < s.len() {
                    spec_parse_children(r, acc.push(node))
                } else {
                    // unreachable: a parsed component consumes input
                    Err(spec_err(Seq::empty(), r))
                }
            },
        }
    } else if u[0] == FSLASH {
        Ok((u.skip(1), acc))
    } else if u[0] == S {
        match spec_match_ident(u.skip(1), seq![C, R, I, P, T]) {
            Some(v) => match spec_parse_script_tag(v) {
                Err(e) => Err(e),
                Ok((r, node)) => {
                    proof {
                        lemma_script_tag_len(v);
                    }
                    spec_parse_children(r, acc.push(node))
                },
            },
            None => match spec_match_ident(u.skip(1), seq![T, Y, L, E]) {
                Some(v) => match spec_parse_style_tag(v) {
                    Err(e) => Err(e),
                    Ok((r, node)) => {
                        proof {
                            lemma_style_tag_len(v);
                        }
                        spec_parse_children(r, acc.push(node))
                    },
                },
                None => match spec_parse_tag(u) {
                    Err(e) => Err(e),
                    Ok((r, node)) => {
                        if r.len() < s.len() {
                            spec_parse_children(r, acc.push(node))
                        } else {
                            // unreachable: a parsed tag consumes input
                            Err(spec_err(Seq::empty(), r))
                        }
                    },
                },
            },
        }
    } else if u[0] == EXCLAMATION {
        match spec_parse_bstr(u.skip(1), seq![DASH, DASH]) {
            Some(v) => {
                proof {
                    lemma_comment_scan_len(v, None, None, Seq::empty());
                }
                let scan = spec_comment_scan(v, None, None, Seq::empty());
                spec_parse_children(scan.0, acc.push(NodeView::Comment(scan.1)))
            },
            None => Err(spec_err("Unrecognized <!"@, u)),
        }
    } else {
        match spec_parse_tag(u) {
            Err(e) => Err(e),
            Ok((r, node)) => {
                if r.len() < s.len() {
                    spec_parse_children(r, acc.push(node))
                } else {
                    // unreachable: a parsed tag consumes input
                    Err(spec_err(Seq::empty(), r))
                }
            },
        }
    }
}

/// What `parse_children` returns with `acc` already collected: nodes in
/// document order until the input ends or a closing tag returns control
/// to the enclosing element.  A construct shorter than a possible tag
/// (fewer than 3 bytes from `<`) is read as text; text that cannot
/// advance past a bare `<` is an error.
pub open spec fn spec_parse_children(s: Seq<u8>, acc: Seq<NodeView>) -> Result<
    (Seq<u8>, Seq<NodeView>),
    ParseErrorView,
>
    decreases s.len(), 2int,
{
    let t = spec_strip_space(s);
    proof {
        lemma_strip_space_len(s);
    }
    if t.len() == 0 {
        Ok((t, acc))
    } else if t[0] == LBRACKET && t.len() >= 3 {
        let u0 = t.skip(1);
        if spec_is_space(u0[0]) {
            let u = spec_strip_space(u0);
            proof {
                lemma_strip_space_len(u0);
            }
            if u.len() == 0 {
                Err(spec_err(spec_len_gt_msg(0), u))
            } else {
                spec_children_tagged(s, u, acc)
            }
        } else {
            spec_children_tagged(s, u0, acc)
        }
    } else {
        let scan = spec_parse_text(t);
        proof {
            lemma_text_scan_len(t);
        }
        if scan.0.len() >= t.len() {
            Err(spec_err("Unexpected '<'"@, t))
        } else {
            spec_parse_children(scan.0, acc.push(scan.1))
        }
    }
}

/// A successful tag parse consumes input.
#[verifier::rlimit(50)]
pub proof fn lemma_tag_len(s: Seq<u8>)
    requires
        s.len() > 0,
    ensures
        spec_parse_tag(s) matches Ok((r, _)) ==> r.len() < s.len(),
    decreases s.len(), 0int,
{
    lemma_tag_ident_len(s);
    let d = spec_tag_ident(s);
    let t = d.0;
    lemma_attributes_len(t, Seq::empty());
    match spec_parse_attributes(t, Seq::empty()) {
        Err(_) => {},
        Ok((u, self_closed, _)) => {
            if !self_closed && u.len() < s.len() {
                lemma_children_len(u, Seq::empty());
                match spec_parse_children(u, Seq::empty()) {
                    Err(_) => {},
                    Ok((r, _)) => {
                        match d.1 {
                            ParsedTagView::El(e) => {
                                if r.len() > 0 {
                                    lemma_close_tag_len(r, el_name_bytes(e));
                                }
                            },
                            ParsedTagView::Void(_) => {},
                            ParsedTagView::Other(name) => {
                                if r.len() > 0 {
                                    lemma_parse_bstr_opt_space_len(r, encode_utf8(name));
                                    match spec_parse_bstr_opt_space(r, encode_utf8(name)) {
                                        Some(w) => {
                                            lemma_parse_chr_opt_space_len(w, RBRACKET);
                                        },
                                        None => {},
                                    }
                                }
                            },
                        }
                    },
                }
            }
        },
    }
}

/// A successful component parse consumes input.
pub proof fn lemma_component_len(s: Seq<u8>)
    requires
        s.len() > 0,
    ensures
        spec_parse_component(s) matches Ok((r, _)) ==> r.len() < s.len(),
    decreases s.len(), 1int,
{
    lemma_ident_rest_len(s.skip(1), seq![s[0] as char]);
    let idr = spec_ident_rest(s.skip(1), seq![s[0] as char]);
    lemma_component_props_len(idr.0, idr.1, Seq::empty());
}

/// A successful component prop loop consumes input.
pub proof fn lemma_component_props_len(
    s: Seq<u8>,
    ident: Seq<char>,
    props: Seq<(Seq<char>, Option<Seq<char>>)>,
)
    ensures
        spec_component_props(s, ident, props) matches Ok((r, _)) ==> r.len() < s.len(),
    decreases s.len(), 0int,
{
    let t = spec_strip_space(s);
    lemma_strip_space_len(s);
    if t.len() != 0 {
        let next = t[0];
        let u = t.skip(1);
        if next == RBRACKET {
            lemma_children_len(u, Seq::empty());
            match spec_parse_children(u, Seq::empty()) {
                Err(_) => {},
                Ok((r, _)) => {
                    lemma_parse_bstr_opt_space_len(r, encode_utf8(ident));
                    match spec_parse_bstr_opt_space(r, encode_utf8(ident)) {
                        Some(w) => {
                            lemma_parse_chr_opt_space_len(w, RBRACKET);
                        },
                        None => {},
                    }
                },
            }
        } else if next == FSLASH {
            lemma_parse_chr_opt_space_len(u, RBRACKET);
        } else if spec_is_alpha(next) {
            let pid = spec_ident_rest(u, seq![next as char]);
            lemma_ident_rest_len(u, seq![next as char]);
            lemma_attr_value_len(pid.0);
            match spec_attr_value(pid.0) {
                Err(_) => {},
                Ok((w, val)) => {
                    lemma_component_props_len(w, ident, props.push((pid.1, val)));
                },
            }
        }
    }
}

/// One dispatched children step never lengthens the cursor.
pub proof fn lemma_children_tagged_len(s: Seq<u8>, u: Seq<u8>, acc: Seq<NodeView>)
    requires
        0 < u.len() < s.len(),
    ensures
        spec_children_tagged(s, u, acc) matches Ok((r, _)) ==> r.len() <= s.len(),
    decreases s.len(), 1int,
{
    if 65 <= u[0] <= 90 {
        lemma_component_len(u);
        match spec_parse_component(u) {
            Err(_) => {},
            Ok((r, node)) => {
                if r.len() < s.len() {
                    lemma_children_len(r, acc.push(node));
                }
            },
        }
    } else if u[0] == FSLASH {
    } else if u[0] == S {
        match spec_match_ident(u.skip(1), seq![C, R, I, P, T]) {
            Some(v) => {
                lemma_script_tag_len(v);
                match spec_parse_script_tag(v) {
                    Err(_) => {},
                    Ok((r, node)) => {
                        lemma_children_len(r, acc.push(node));
                    },
                }
            },
            None => {
                match spec_match_ident(u.skip(1), seq![T, Y, L, E]) {
                    Some(v) => {
                        lemma_style_tag_len(v);
                        match spec_parse_style_tag(v) {
                            Err(_) => {},
                            Ok((r, node)) => {
                                lemma_children_len(r, acc.push(node));
                            },
                        }
                    },
                    None => {
                        lemma_tag_len(u);
                        match spec_parse_tag(u) {
                            Err(_) => {},
                            Ok((r, node)) => {
                                if r.len() < s.len() {
                                    lemma_children_len(r, acc.push(node));
                                }
                            },
                        }
                    },
                }
            },
        }
    } else if u[0] == EXCLAMATION {
        match spec_parse_bstr(u.skip(1), seq![DASH, DASH]) {
            Some(v) => {
                lemma_comment_scan_len(v, None, None, Seq::empty());
                let scan = spec_comment_scan(v, None, None, Seq::empty());
                lemma_children_len(scan.0, acc.push(NodeView::Comment(scan.1)));
            },
            None => {},
        }
    } else {
        lemma_tag_len(u);
        match spec_parse_tag(u) {
            Err(_) => {},
            Ok((r, node)) => {
                if r.len() < s.len() {
                    lemma_children_len(r, acc.push(node));
                }
            },
        }
    }
}

/// The children parser never lengthens the cursor.
pub proof fn lemma_children_len(s: Seq<u8>, acc: Seq<NodeView>)
    ensures
        spec_parse_children(s, acc) matches Ok((r, _)) ==> r.len() <= s.len(),
    decreases s.len(), 2int,
{
    let t = spec_strip_space(s);
    lemma_strip_space_len(s);
    if t.len() == 0 {
    } else if t[0] == LBRACKET && t.len() >= 3 {
        let u0 = t.skip(1);
        if spec_is_space(u0[0]) {
            let u = spec_strip_space(u0);
            lemma_strip_space_len(u0);
            if u.len() != 0 {
                lemma_children_tagged_len(s, u, acc);
            }
        } else {
            lemma_children_tagged_len(s, u0, acc);
        }
    } else {
        let scan = spec_parse_text(t);
        lemma_text_scan_len(t);
        if scan.0.len() < t.len() {
            lemma_children_len(scan.0, acc.push(scan.1));
        }
    }
}

/// What `parse_doc` returns: leading whitespace stripped, one optional
/// doctype declaration consumed, children parsed to the end of input; a
/// non-empty remainder (an unmatched closing tag) is an error.
pub open spec fn spec_parse_doc(s: Seq<u8>) -> Result<Seq<NodeView>, ParseErrorView> {
    let t = spec_strip_space(s);
    if t.len() == 0 {
        Ok(Seq::empty())
    } else {
        let started: Result<(Seq<u8>, Seq<NodeView>), ParseErrorView> = if t[0] == LBRACKET
            && t.len() > 3 && t[1] == EXCLAMATION {
            match spec_parse_doctype(t.skip(2)) {
                Err(e) => Err(e),
                Ok((t2, dt)) => Ok((t2, seq![dt])),
            }
        } else {
            Ok((t, Seq::empty()))
        };
        match started {
            Err(e) => Err(e),
            Ok((t2, acc)) => match spec_parse_children(t2, acc) {
                Err(e) => Err(e),
                Ok((r, nodes)) => {
                    if r.len() > 0 {
                        Err(spec_err("Unexpected closing tag"@, r))
                    } else {
                        Ok(nodes)
                    }
                },
            },
        }
    }
}

/// A successful style attribute loop never lengthens the cursor.
pub proof fn lemma_style_attrs_len(s: Seq<u8>, typ: Option<Seq<char>>)
    ensures
        spec_style_attrs(s, typ) matches Ok((r, _)) ==> r.len() <= s.len(),
    decreases s.len(),
{
    let t = spec_strip_space(s);
    lemma_strip_space_len(s);
    if t.len() != 0 {
        let next = t[0];
        let u = t.skip(1);
        if next == T {
            match spec_match_ident(u, seq![Y, P, E]) {
                Some(v) => {
                    lemma_attr_value_len(v);
                    match spec_attr_value(v) {
                        Ok((w, val)) => {
                            lemma_style_attrs_len(w, val);
                        },
                        Err(_) => {},
                    }
                },
                None => {},
            }
        } else if next == RBRACKET {
            let t2 = spec_strip_space(u);
            lemma_strip_space_len(u);
            lemma_quotable_len(t2);
            let q = spec_quotable(t2);
            lemma_parse_chr_opt_space_len(q.0, LBRACKET);
            match spec_parse_chr_opt_space(q.0, LBRACKET) {
                Some(v) => {
                    lemma_parse_chr_opt_space_len(v, LBRACKET);
                    match spec_parse_chr_opt_space(v, LBRACKET) {
                        Some(v2) => {
                            lemma_parse_chr_opt_space_len(v2, FSLASH);
                            match spec_parse_chr_opt_space(v2, FSLASH) {
                                Some(w) => {
                                    lemma_close_tag_len(w, seq![S, T, Y, L, E]);
                                },
                                None => {},
                            }
                        },
                        None => {},
                    }
                },
                None => {},
            }
        }
    }
}

} // verus!
