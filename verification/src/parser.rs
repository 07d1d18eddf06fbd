//! The recursive-descent parser.
//!
//! Every function here consumes a `&[u8]` cursor and returns the advanced
//! cursor together with what it parsed, or a `ParseError`.  Each contract
//! states that the result is exactly what the grammar model in
//! [`crate::grammar`] prescribes for the input — the advanced cursor, the
//! parsed tree and the error alike.
use vstd::prelude::*;

use crate::ast::Attrib;
use crate::ast::AttribView;
use crate::ast::El;
use crate::ast::Node;
use crate::ast::NodeView;
use crate::ast::Tag;
use crate::ast::Void;
use crate::ast::attribs_view;
use crate::ast::el_str;
use crate::ast::lemma_attribs_view_push;
use crate::ast::lemma_nodes_view_push;
use crate::ast::lemma_props_view_push;
use crate::ast::nodes_view;
use crate::ast::opt_str_view;
use crate::ast::props_view;
use crate::grammar::ParsedTagView;
use crate::grammar::spec_ident_rest;
use crate::grammar::spec_parse_doctype;
use crate::grammar::spec_parse_ident;
use crate::grammar::spec_attr_value;
use crate::grammar::spec_attr_value_body;
use crate::grammar::spec_end_tag_ahead;
use crate::grammar::spec_parse_text;
use crate::grammar::spec_quotable;
use crate::grammar::spec_quoted_section;
use crate::grammar::spec_quoted_value;
use crate::grammar::spec_unquoted_value;
use crate::grammar::lemma_quoted_section_len;
use crate::grammar::lemma_attr_value_len;
use crate::grammar::lemma_ident_rest_len;
use crate::grammar::spec_parse_attributes;
use crate::grammar::spec_find_rbracket;
use crate::grammar::spec_tag_ident;
use crate::grammar::spec_parse_script_tag;
use crate::grammar::spec_script_attrs;
use crate::grammar::spec_parse_style_tag;
use crate::grammar::spec_style_attrs;
use crate::grammar::spec_parse_tag;
use crate::grammar::spec_parse_component;
use crate::grammar::spec_component_props;
use crate::grammar::spec_children_tagged;
use crate::grammar::spec_parse_children;
use crate::grammar::spec_parse_doc;
use crate::grammar::spec_comment_scan;
use crate::grammar::lemma_tag_ident_len;
use crate::grammar::lemma_attributes_len;
use crate::grammar::lemma_tag_len;
use crate::grammar::lemma_component_len;
use crate::grammar::lemma_script_tag_len;
use crate::grammar::lemma_style_tag_len;
use crate::grammar::lemma_comment_scan_len;
use crate::parse_utils::spec_close_tag;
use crate::ast::el_name_bytes;
use crate::grammar::spec_text_scan;
use crate::grammar::spec_trim_end;
use crate::parse_utils::ByteArrayExt;
use crate::parse_utils::ParseError;
use crate::parse_utils::ParseErrorView;
use crate::parse_utils::A;
use crate::parse_utils::B;
use crate::parse_utils::C;
use crate::parse_utils::D;
use crate::parse_utils::DASH;
use crate::parse_utils::DQUOTE;
use crate::parse_utils::E;
use crate::parse_utils::EXCLAMATION;
use crate::parse_utils::F;
use crate::parse_utils::G;
use crate::parse_utils::H;
use crate::parse_utils::I;
use crate::parse_utils::K;
use crate::parse_utils::L;
use crate::parse_utils::LBRACKET;
use crate::parse_utils::M;
use crate::parse_utils::N;
use crate::parse_utils::N1;
use crate::parse_utils::N2;
use crate::parse_utils::N3;
use crate::parse_utils::N4;
use crate::parse_utils::N5;
use crate::parse_utils::N6;
use crate::parse_utils::O;
use crate::parse_utils::P;
use crate::parse_utils::R;
use crate::parse_utils::S;
use crate::parse_utils::T;
use crate::parse_utils::U;
use crate::parse_utils::V;
use crate::parse_utils::W;
use crate::parse_utils::Y;
use crate::parse_utils::EQUAL;
use crate::parse_utils::FSLASH;
use crate::parse_utils::RBRACKET;
use crate::parse_utils::SQUOTE;
use crate::parse_utils::chars_to_string;
use crate::parse_utils::err;
use crate::parse_utils::is_alpha;
use crate::parse_utils::is_ident_char;
use crate::parse_utils::is_space;
use crate::parse_utils::spec_is_space;
use crate::parse_utils::next_utf8;
use crate::parse_utils::push_char;
use crate::parse_utils::sbuf_chr;
use crate::parse_utils::strip_space;
use vstd::slice::slice_subrange;

verus! {

// ---------------------------------------------------------------------
// Relating executable results to the grammar model
// ---------------------------------------------------------------------
/// Whether a cursor-and-node result is the one the grammar prescribes.
pub open spec fn node_res_matches(
    r: Result<(&[u8], Node), ParseError>,
    m: Result<(Seq<u8>, NodeView), ParseErrorView>,
) -> bool {
    match (r, m) {
        (Result::Ok((rest, node)), Result::Ok((mrest, mnode))) => rest@ == mrest && node@ == mnode,
        (Result::Err(e), Result::Err(me)) => e@ == me,
        _ => false,
    }
}

/// Whether a cursor-and-name result is the one the grammar prescribes.
pub open spec fn ident_res_matches(
    r: Result<(&[u8], String), ParseError>,
    m: Result<(Seq<u8>, Seq<char>), ParseErrorView>,
) -> bool {
    match (r, m) {
        (Result::Ok((rest, id)), Result::Ok((mrest, mid))) => rest@ == mrest && id@ == mid,
        (Result::Err(e), Result::Err(me)) => e@ == me,
        _ => false,
    }
}

/// Whether a cursor-and-value result is the one the grammar prescribes.
pub open spec fn value_res_matches(
    r: Result<(&[u8], Option<String>), ParseError>,
    m: Result<(Seq<u8>, Option<Seq<char>>), ParseErrorView>,
) -> bool {
    match (r, m) {
        (Result::Ok((rest, v)), Result::Ok((mrest, mv))) => rest@ == mrest && opt_str_view(v)
            == mv,
        (Result::Err(e), Result::Err(me)) => e@ == me,
        _ => false,
    }
}

/// Whether an attribute-list result is the one the grammar prescribes.
pub open spec fn attrs_res_matches(
    r: Result<(&[u8], bool, Vec<Attrib>), ParseError>,
    m: Result<(Seq<u8>, bool, Seq<crate::ast::AttribView>), ParseErrorView>,
) -> bool {
    match (r, m) {
        (Result::Ok((rest, sc, attribs)), Result::Ok((mrest, msc, mattribs))) => rest@ == mrest
            && sc == msc && attribs_view(attribs@) == mattribs,
        (Result::Err(e), Result::Err(me)) => e@ == me,
        _ => false,
    }
}

/// Whether a node-list result is the one the grammar prescribes.
pub open spec fn children_res_matches(
    r: Result<(&[u8], Vec<Node>), ParseError>,
    m: Result<(Seq<u8>, Seq<NodeView>), ParseErrorView>,
) -> bool {
    match (r, m) {
        (Result::Ok((rest, nodes)), Result::Ok((mrest, mnodes))) => rest@ == mrest && nodes_view(
            nodes@,
        ) == mnodes,
        (Result::Err(e), Result::Err(me)) => e@ == me,
        _ => false,
    }
}

/// Whether a whole-document result is the one the grammar prescribes.
pub open spec fn doc_res_matches(
    r: Result<Vec<Node>, ParseError>,
    m: Result<Seq<NodeView>, ParseErrorView>,
) -> bool {
    match (r, m) {
        (Result::Ok(nodes), Result::Ok(mnodes)) => nodes_view(nodes@) == mnodes,
        (Result::Err(e), Result::Err(me)) => e@ == me,
        _ => false,
    }
}

// ---------------------------------------------------------------------
// Identifier accumulation
// ---------------------------------------------------------------------
/// Helper to add rest of ident valid characters.
fn push_ident_rest<'a>(s: &'a [u8], b: String) -> (r: (&'a [u8], String))
    ensures
        r.0@ == spec_ident_rest(s@, b@).0,
        r.1@ == spec_ident_rest(s@, b@).1,
{
    let mut cur: &[u8] = s;
    let mut acc: String = b;
    loop
        invariant
            spec_ident_rest(s@, b@) == spec_ident_rest(cur@, acc@),
        ensures
            spec_ident_rest(s@, b@) == (cur@, acc@),
        decreases cur@.len(),
    {
        if cur.len() > 0 && is_ident_char(cur[0]) {
            let c: u8 = cur[0];
            push_char(&mut acc, c as char);
            proof {
                assert(cur@.subrange(1, cur@.len() as int) =~= cur@.skip(1));
            }
            cur = slice_subrange(cur, 1, cur.len());
        } else {
            proof {
                assert(spec_ident_rest(cur@, acc@) == (cur@, acc@));
            }
            break ;
        }
    }
    (cur, acc)
}

// ---------------------------------------------------------------------
// Text nodes
// ---------------------------------------------------------------------
/// Parses a text node: decoded codepoints up to the next `<`, with
/// trailing whitespace trimmed.
pub fn parse_text<'a>(s: &'a [u8]) -> (r: ((&'a [u8]), Node))
    ensures
        r.0@ == spec_parse_text(s@).0,
        r.1@ == spec_parse_text(s@).1,
{
    let mut cur: &[u8] = s;
    let mut cs: Vec<char> = Vec::new();
    proof {
        assert(Seq::<char>::empty() + spec_text_scan(s@).1 =~= spec_text_scan(s@).1);
    }
    loop
        invariant
            spec_text_scan(s@).0 == spec_text_scan(cur@).0,
            spec_text_scan(s@).1 == cs@ + spec_text_scan(cur@).1,
        ensures
            spec_text_scan(s@).0 == cur@,
            spec_text_scan(s@).1 == cs@,
        decreases cur@.len(),
    {
        match next_utf8(cur) {
            Some((size, chr)) => {
                if chr == '<' {
                    proof {
                        assert(spec_text_scan(cur@) == (cur@, Seq::<char>::empty()));
                        assert(cs@ + Seq::<char>::empty() =~= cs@);
                    }
                    break ;
                }
                let ghost cs0 = cs@;
                cs.push(chr);
                proof {
                    let rest = cur@.skip(size as int);
                    assert(cur@.subrange(size as int, cur@.len() as int) =~= rest);
                    assert(spec_text_scan(cur@).1 == seq![chr] + spec_text_scan(rest).1);
                    assert(cs@ =~= cs0 + seq![chr]);
                    assert(cs0 + (seq![chr] + spec_text_scan(rest).1) =~= (cs0 + seq![chr])
                        + spec_text_scan(rest).1);
                }
                cur = slice_subrange(cur, size, cur.len());
            },
            None => {
                proof {
                    assert(spec_text_scan(cur@) == (cur@, Seq::<char>::empty()));
                    assert(cs@ + Seq::<char>::empty() =~= cs@);
                }
                break ;
            },
        }
    }
    // Trim trailing whitespace from the accumulated text.
    loop
        invariant
            spec_trim_end(spec_text_scan(s@).1) == spec_trim_end(cs@),
        ensures
            spec_trim_end(spec_text_scan(s@).1) == cs@,
        decreases cs@.len(),
    {
        let n: usize = cs.len();
        if n == 0 {
            proof {
                assert(spec_trim_end(cs@) == cs@);
            }
            break ;
        }
        let c: char = cs[n - 1];
        if c == ' ' || c == '\t' || c == '\n' || c == '\r' {
            proof {
                assert(c == cs@.last());
                assert(spec_trim_end(cs@) == spec_trim_end(cs@.drop_last()));
            }
            cs.pop();
        } else {
            proof {
                assert(c == cs@.last());
                assert(spec_trim_end(cs@) == cs@);
            }
            break ;
        }
    }
    (cur, Node::Text(chars_to_string(&cs)))
}

// ---------------------------------------------------------------------
// Doctype
// ---------------------------------------------------------------------
/// Parses a doctype declaration body.  The `<!` has been detected; the
/// cursor stands right after it.
fn parse_doctype<'a>(s: &'a [u8]) -> (r: Result<(&'a [u8], Node), ParseError>)
    ensures
        node_res_matches(r, spec_parse_doctype(s@)),
{
    let len: usize = s.len();
    let mut i: usize = 0;
    proof {
        assert(s@.skip(0) =~= s@);
    }
    while i < len
        invariant
            0 <= i <= len,
            len == s@.len(),
            spec_find_rbracket(s@) == (match spec_find_rbracket(s@.skip(i as int)) {
                Some(j) => Some(i + j),
                None => None,
            }),
        decreases len - i,
    {
        if s[i] == RBRACKET {
            proof {
                assert(s@.skip(i as int)[0] == RBRACKET);
                assert(spec_find_rbracket(s@) == Some(i as int));
                assert(s@.subrange(i + 1, len as int) =~= s@.skip(i + 1));
                assert(attribs_view(Seq::<Attrib>::empty()) =~= Seq::<
                    crate::ast::AttribView,
                >::empty());
            }
            return Ok(
                (
                    slice_subrange(s, i + 1, len),
                    Node::Tag(Tag::Void { ident: Void::Doctype, attribs: Vec::new() }),
                ),
            );
        }
        proof {
            let rest = s@.skip(i as int);
            assert(rest[0] != RBRACKET);
            assert(rest.skip(1) =~= s@.skip(i + 1));
        }
        i += 1;
    }
    proof {
        assert(s@.skip(len as int) =~= Seq::<u8>::empty());
    }
    err("Failed to parse doctype", s)
}

// ---------------------------------------------------------------------
// Identifiers
// ---------------------------------------------------------------------
/// Parses an identifier: an alphabetic character, then any run of
/// alphanumeric or dash characters.  Intended for tag and attribute
/// names.
pub fn parse_ident<'a>(s: &'a [u8]) -> (r: Result<(&'a [u8], String), ParseError>)
    ensures
        ident_res_matches(r, spec_parse_ident(s@)),
{
    if let Err(e) = s.len_gt(0) {
        return Err(e);
    }
    let c: u8 = s.chr();
    if !is_alpha(c) {
        return err("Expected alpha char as first in identifier", s);
    }
    proof {
        assert(s@.subrange(1, s@.len() as int) =~= s@.skip(1));
    }
    Ok(push_ident_rest(slice_subrange(s, 1, s.len()), sbuf_chr(c as char, 3)))
}

// ---------------------------------------------------------------------
// Attribute values
// ---------------------------------------------------------------------
/// One accumulation step of a scan that may fail: the prefix gathered so
/// far is prepended to whatever the rest of the scan yields.
pub open spec fn scan_step(
    m: Option<(Seq<u8>, Seq<char>)>,
    prefix: Seq<char>,
) -> Option<(Seq<u8>, Seq<char>)> {
    match m {
        Option::None => None,
        Option::Some((r, cs)) => Some((r, prefix + cs)),
    }
}

/// Parse potential attrib value from `="val"`.  Will not strip trailing
/// space.  Returns `None` when no `=` follows: a valueless attribute.
pub fn parse_attr_value<'a>(s: &'a [u8]) -> (r: Result<(&'a [u8], Option<String>), ParseError>)
    ensures
        value_res_matches(r, spec_attr_value(s@)),
{
    let len: usize = s.len();
    if len == 0 {
        return Ok((s, None));
    }
    match s.parse_chr_opt_space(EQUAL) {
        None => Ok((s, None)),
        Some(t0) => {
            if let Err(e) = t0.len_gt(0) {
                return Err(e);
            }
            let mut t: &[u8] = t0;
            proof {
                assert(spec_attr_value(s@) == spec_attr_value_body(t0@));
            }
            loop
                invariant
                    t@.len() > 0,
                    spec_attr_value(s@) == spec_attr_value_body(t@),
                decreases t@.len(),
            {
                let c: u8 = t.chr();
                if c == DQUOTE || c == SQUOTE {
                    let q: char = if c == DQUOTE {
                        '"'
                    } else {
                        '\''
                    };
                    proof {
                        assert(t@.subrange(1, t@.len() as int) =~= t@.skip(1));
                    }
                    let ghost w0 = t@.skip(1);
                    let mut v: &[u8] = slice_subrange(t, 1, t.len());
                    let mut cs: Vec<char> = Vec::new();
                    proof {
                        assert(scan_step(spec_quoted_value(v@, q), cs@) == spec_quoted_value(
                            w0,
                            q,
                        ) || true);
                    }
                    loop
                        invariant
                            spec_quoted_value(w0, q) == scan_step(spec_quoted_value(v@, q), cs@),
                            spec_attr_value(s@) == spec_attr_value_body(t@),
                            t@.len() > 0,
                            t@[0] == c,
                            (c == DQUOTE || c == SQUOTE),
                            q == (if c == DQUOTE {
                                '"'
                            } else {
                                '\''
                            }),
                            w0 == t@.skip(1),
                        decreases v@.len(),
                    {
                        match next_utf8(v) {
                            Some((n2, c2)) => {
                                proof {
                                    assert(v@.subrange(n2 as int, v@.len() as int) =~= v@.skip(
                                        n2 as int,
                                    ));
                                }
                                if c2 == q {
                                    proof {
                                        assert(spec_quoted_value(v@, q) == Some(
                                            (v@.skip(n2 as int), Seq::<char>::empty()),
                                        ));
                                        assert(cs@ + Seq::<char>::empty() =~= cs@);
                                    }
                                    return Ok(
                                        (slice_subrange(v, n2, v.len()), Some(chars_to_string(&cs))),
                                    );
                                }
                                let ghost cs0 = cs@;
                                cs.push(c2);
                                proof {
                                    let rest = v@.skip(n2 as int);
                                    match spec_quoted_value(rest, q) {
                                        Option::None => {},
                                        Option::Some((r2, cs2)) => {
                                            assert(spec_quoted_value(v@, q) == Some(
                                                (r2, seq![c2] + cs2),
                                            ));
                                            assert(cs@ =~= cs0 + seq![c2]);
                                            assert(cs0 + (seq![c2] + cs2) =~= (cs0 + seq![c2])
                                                + cs2);
                                        },
                                    }
                                }
                                v = slice_subrange(v, n2, v.len());
                            },
                            None => {
                                if c == DQUOTE {
                                    return err("Expected ending double quote", t);
                                } else {
                                    return err("Expected ending single quote", t);
                                }
                            },
                        }
                    }
                } else if is_space(c) {
                    proof {
                        assert(t@.subrange(1, t@.len() as int) =~= t@.skip(1));
                    }
                    proof {
                        crate::parse_utils::lemma_strip_space_len(t@.skip(1));
                    }
                    let t2 = strip_space(slice_subrange(t, 1, t.len()));
                    if t2.len() == 0 {
                        // Equal char with no attrib value: interpreting as empty.
                        let empty_value = String::new();
                        return Ok((t2, Some(empty_value)));
                    }
                    t = t2;
                } else {
                    // Unquoted attribute: consume until whitespace, `>` or `/`.
                    let ghost w0 = t@;
                    let mut v: &[u8] = t;
                    let mut cs: Vec<char> = Vec::new();
                    loop
                        invariant
                            spec_unquoted_value(w0) == scan_step(spec_unquoted_value(v@), cs@),
                            spec_attr_value(s@) == spec_attr_value_body(t@),
                            t@.len() > 0,
                            t@[0] == c,
                            !(c == DQUOTE || c == SQUOTE || spec_is_space(c)),
                            w0 == t@,
                        decreases v@.len(),
                    {
                        match next_utf8(v) {
                            Some((n2, c2)) => {
                                proof {
                                    assert(v@.subrange(n2 as int, v@.len() as int) =~= v@.skip(
                                        n2 as int,
                                    ));
                                }
                                if c2 == ' ' || c2 == '>' || c2 == '/' || c2 == '\t' || c2 == '\n'
                                    || c2 == '\r' {
                                    proof {
                                        assert(spec_unquoted_value(v@) == Some(
                                            (v@.skip(n2 as int), Seq::<char>::empty()),
                                        ));
                                        assert(cs@ + Seq::<char>::empty() =~= cs@);
                                    }
                                    return Ok(
                                        (slice_subrange(v, n2, v.len()), Some(chars_to_string(&cs))),
                                    );
                                }
                                let ghost cs0 = cs@;
                                cs.push(c2);
                                proof {
                                    let rest = v@.skip(n2 as int);
                                    match spec_unquoted_value(rest) {
                                        Option::None => {},
                                        Option::Some((r2, cs2)) => {
                                            assert(spec_unquoted_value(v@) == Some(
                                                (r2, seq![c2] + cs2),
                                            ));
                                            assert(cs@ =~= cs0 + seq![c2]);
                                            assert(cs0 + (seq![c2] + cs2) =~= (cs0 + seq![c2])
                                                + cs2);
                                        },
                                    }
                                }
                                v = slice_subrange(v, n2, v.len());
                            },
                            None => {
                                return err("Expected end of unquoted attribute", t);
                            },
                        }
                    }
                }
            }
        },
    }
}

// ---------------------------------------------------------------------
// Quotable content
// ---------------------------------------------------------------------
/// Captures script/style content to a string.  Will capture until
/// encountering a `<` that opens a closing tag, unless this is within a
/// quoted string.
pub fn parse_quotable_content<'a>(s: &'a [u8]) -> (r: (&'a [u8], String))
    ensures
        r.0@ == spec_quotable(s@).0,
        r.1@ == spec_quotable(s@).1,
{
    let mut cur: &[u8] = s;
    let mut cs: Vec<char> = Vec::new();
    proof {
        assert(Seq::<char>::empty() + spec_quotable(s@).1 =~= spec_quotable(s@).1);
    }
    loop
        invariant
            spec_quotable(s@).0 == spec_quotable(cur@).0,
            spec_quotable(s@).1 == cs@ + spec_quotable(cur@).1,
        ensures
            spec_quotable(s@).0 == cur@,
            spec_quotable(s@).1 == cs@,
        decreases cur@.len(),
    {
        match next_utf8(cur) {
            None => {
                proof {
                    assert(spec_quotable(cur@) == (cur@, Seq::<char>::empty()));
                    assert(cs@ + Seq::<char>::empty() =~= cs@);
                }
                break ;
            },
            Some((n, c)) => {
                proof {
                    assert(cur@.subrange(n as int, cur@.len() as int) =~= cur@.skip(n as int));
                }
                if c == '<' {
                    // This may also be a less-than operator: check for an
                    // end tag ahead.
                    let w = slice_subrange(cur, n, cur.len());
                    let mut at_end: bool = false;
                    if let Some(x) = w.parse_chr_opt_space(FSLASH) {
                        if x.len() > 0 && x.chr() != FSLASH {
                            at_end = true;
                        }
                    }
                    proof {
                        assert(at_end == spec_end_tag_ahead(w@));
                    }
                    if at_end {
                        proof {
                            assert(spec_quotable(cur@) == (cur@, Seq::<char>::empty()));
                            assert(cs@ + Seq::<char>::empty() =~= cs@);
                        }
                        break ;
                    }
                    let ghost cs0 = cs@;
                    cs.push('<');
                    proof {
                        let rec = spec_quotable(cur@.skip(n as int));
                        assert(spec_quotable(cur@).1 == seq!['<'] + rec.1);
                        assert(cs@ =~= cs0 + seq!['<']);
                        assert(cs0 + (seq!['<'] + rec.1) =~= (cs0 + seq!['<']) + rec.1);
                    }
                    cur = w;
                } else if c == '"' || c == '\'' || c == '`' {
                    let q: char = c;
                    let ghost cs_pre = cs@;
                    let ghost cur_pre = cur@;
                    cs.push(c);
                    let ghost w0 = cur@.skip(n as int);
                    let mut v: &[u8] = slice_subrange(cur, n, cur.len());
                    proof {
                        lemma_quoted_section_len(w0, q);
                    }
                    // Loop until unescaped quote.
                    loop
                        invariant_except_break
                            spec_quoted_section(w0, q).0 == spec_quoted_section(v@, q).0,
                            cs_pre + seq![q] + spec_quoted_section(w0, q).1 == cs@
                                + spec_quoted_section(v@, q).1,
                        ensures
                            spec_quoted_section(w0, q).0 == v@,
                            cs_pre + seq![q] + spec_quoted_section(w0, q).1 == cs@,
                        decreases v@.len(),
                    {
                        match next_utf8(v) {
                            None => {
                                proof {
                                    assert(spec_quoted_section(v@, q) == (
                                        v@,
                                        Seq::<char>::empty(),
                                    ));
                                    assert(cs@ + Seq::<char>::empty() =~= cs@);
                                }
                                break ;
                            },
                            Some((n2, c2)) => {
                                proof {
                                    assert(v@.subrange(n2 as int, v@.len() as int) =~= v@.skip(
                                        n2 as int,
                                    ));
                                }
                                let ghost csq0 = cs@;
                                cs.push(c2);
                                let w2 = slice_subrange(v, n2, v.len());
                                if c2 == q {
                                    proof {
                                        assert(spec_quoted_section(v@, q) == (
                                            w2@,
                                            seq![c2],
                                        ));
                                        assert(csq0 + seq![c2] =~= cs@);
                                        assert(spec_quoted_section(w0, q).0 == w2@);
                                        assert(cs_pre + seq![q] + spec_quoted_section(w0, q).1
                                            == cs@);
                                    }
                                    v = w2;
                                    break ;
                                } else if c2 == '\\' {
                                    // Consume next.
                                    match next_utf8(w2) {
                                        Some((n3, c3)) => {
                                            cs.push(c3);
                                            proof {
                                                assert(w2@.subrange(n3 as int, w2@.len() as int)
                                                    =~= w2@.skip(n3 as int));
                                                let rec = spec_quoted_section(
                                                    w2@.skip(n3 as int),
                                                    q,
                                                );
                                                assert(spec_quoted_section(v@, q) == (
                                                    rec.0,
                                                    seq![c2, c3] + rec.1,
                                                ));
                                                assert(cs@ =~= csq0 + seq![c2, c3]);
                                                assert(csq0 + (seq![c2, c3] + rec.1) =~= (csq0
                                                    + seq![c2, c3]) + rec.1);
                                            }
                                            v = slice_subrange(w2, n3, w2.len());
                                        },
                                        None => {
                                            proof {
                                                assert(spec_quoted_section(v@, q) == (
                                                    w2@,
                                                    seq![c2],
                                                ));
                                                assert(csq0 + seq![c2] =~= cs@);
                                            }
                                            v = w2;
                                        },
                                    }
                                } else {
                                    proof {
                                        let rec = spec_quoted_section(w2@, q);
                                        assert(spec_quoted_section(v@, q) == (
                                            rec.0,
                                            seq![c2] + rec.1,
                                        ));
                                        assert(cs@ =~= csq0 + seq![c2]);
                                        assert(csq0 + (seq![c2] + rec.1) =~= (csq0 + seq![c2])
                                            + rec.1);
                                    }
                                    v = w2;
                                }
                            },
                        }
                    }
                    proof {
                        let section = spec_quoted_section(w0, q);
                        assert(section.0.len() < cur_pre.len());
                        let rec = spec_quotable(section.0);
                        assert(spec_quotable(cur_pre).1 == seq![q] + section.1 + rec.1);
                        assert(cs_pre + (seq![q] + section.1 + rec.1) =~= (cs_pre + seq![q]
                            + section.1) + rec.1);
                        assert(cs_pre + seq![q] + section.1 =~= cs@);
                    }
                    cur = v;
                } else {
                    let ghost cs0 = cs@;
                    cs.push(c);
                    proof {
                        let rec = spec_quotable(cur@.skip(n as int));
                        assert(spec_quotable(cur@).1 == seq![c] + rec.1);
                        assert(cs@ =~= cs0 + seq![c]);
                        assert(cs0 + (seq![c] + rec.1) =~= (cs0 + seq![c]) + rec.1);
                    }
                    cur = slice_subrange(cur, n, cur.len());
                }
            },
        }
    }
    (cur, chars_to_string(&cs))
}

// ---------------------------------------------------------------------
// Attributes
// ---------------------------------------------------------------------
/// Parses attribs until end of tag.  Detects `>` and `/>`, so passes on.
/// Returns the advanced cursor, whether the tag was self-closed, and the
/// attributes in source order.
pub fn parse_attributes<'a>(s: &'a [u8]) -> (r: Result<(&'a [u8], bool, Vec<Attrib>), ParseError>)
    ensures
        attrs_res_matches(r, spec_parse_attributes(s@, Seq::empty())),
{
    let mut attribs: Vec<Attrib> = Vec::new();
    let mut cur: &[u8] = s;
    proof {
        assert(attribs_view(attribs@) =~= Seq::<AttribView>::empty());
    }
    loop
        invariant
            spec_parse_attributes(s@, Seq::empty()) == spec_parse_attributes(
                cur@,
                attribs_view(attribs@),
            ),
        decreases cur@.len(),
    {
        proof {
            crate::parse_utils::lemma_strip_space_len(cur@);
        }
        let t = strip_space(cur);
        if let Err(e) = t.len_gt(0) {
            return Err(e);
        }
        let ghost acc = attribs_view(attribs@);
        let next: u8 = t.chr();
        proof {
            assert(t@.subrange(1, t@.len() as int) =~= t@.skip(1));
        }
        let u = slice_subrange(t, 1, t.len());
        if next == RBRACKET {
            return Ok((u, false, attribs));
        } else if next == FSLASH {
            match u.parse_chr_opt_space(RBRACKET) {
                Some(w) => {
                    return Ok((w, true, attribs));
                },
                None => {
                    return err("Expected '>' after '/'", u);
                },
            }
        } else if next == I {
            match u.parse_ident1(D) {
                Some(v) => {
                    proof {
                        lemma_attr_value_len(v@);
                    }
                    match parse_attr_value(v) {
                        Err(e) => {
                            return Err(e);
                        },
                        Ok((w, Some(val))) => {
                            proof {
                                lemma_attribs_view_push(attribs@, Attrib::Id(val));
                            }
                            attribs.push(Attrib::Id(val));
                            cur = w;
                        },
                        Ok((_, None)) => {
                            return err("Id attribute requires value", u);
                        },
                    }
                },
                None => {
                    proof {
                        lemma_ident_rest_len(u@, seq!['i']);
                        lemma_attr_value_len(spec_ident_rest(u@, seq!['i']).0);
                    }
                    let (v2, ident) = push_ident_rest(u, sbuf_chr('i', 4));
                    proof {
                        assert(u@.len() < cur@.len());
                        assert(spec_parse_attributes(cur@, acc)
                            == crate::grammar::spec_attributes_other(cur@, u@, seq!['i'], acc));
                        assert(v2@ == spec_ident_rest(u@, seq!['i']).0);
                    }
                    match parse_attr_value(v2) {
                        Err(e) => {
                            return Err(e);
                        },
                        Ok((w, val)) => {
                            proof {
                                lemma_attribs_view_push(attribs@, Attrib::Other(ident, val));
                            }
                            attribs.push(Attrib::Other(ident, val));
                            cur = w;
                        },
                    }
                },
            }
        } else if next == C {
            match u.parse_ident4([L, A, S, S]) {
                Some(v) => {
                    proof {
                        assert([L, A, S, S]@ =~= seq![L, A, S, S]);
                        lemma_attr_value_len(v@);
                    }
                    match parse_attr_value(v) {
                        Err(e) => {
                            return Err(e);
                        },
                        Ok((w, Some(val))) => {
                            proof {
                                lemma_attribs_view_push(attribs@, Attrib::Cls(val));
                            }
                            attribs.push(Attrib::Cls(val));
                            cur = w;
                        },
                        Ok((_, None)) => {
                            return err("Class attribute requires value", u);
                        },
                    }
                },
                None => {
                    proof {
                        assert([L, A, S, S]@ =~= seq![L, A, S, S]);
                        lemma_ident_rest_len(u@, seq!['c']);
                        lemma_attr_value_len(spec_ident_rest(u@, seq!['c']).0);
                    }
                    let (v2, ident) = push_ident_rest(u, sbuf_chr('c', 4));
                    proof {
                        assert(u@.len() < cur@.len());
                        assert(spec_parse_attributes(cur@, acc)
                            == crate::grammar::spec_attributes_other(cur@, u@, seq!['c'], acc));
                        assert(v2@ == spec_ident_rest(u@, seq!['c']).0);
                    }
                    match parse_attr_value(v2) {
                        Err(e) => {
                            return Err(e);
                        },
                        Ok((w, val)) => {
                            proof {
                                lemma_attribs_view_push(attribs@, Attrib::Other(ident, val));
                            }
                            attribs.push(Attrib::Other(ident, val));
                            cur = w;
                        },
                    }
                },
            }
        } else if next == O {
            match u.parse_ident6([N, C, L, I, C, K]) {
                Some(v) => {
                    proof {
                        assert([N, C, L, I, C, K]@ =~= seq![N, C, L, I, C, K]);
                        lemma_attr_value_len(v@);
                    }
                    match parse_attr_value(v) {
                        Err(e) => {
                            return Err(e);
                        },
                        Ok((w, Some(val))) => {
                            proof {
                                lemma_attribs_view_push(attribs@, Attrib::OnClick(val));
                            }
                            attribs.push(Attrib::OnClick(val));
                            cur = w;
                        },
                        Ok((_, None)) => {
                            return err("Onclick attribute requires value", u);
                        },
                    }
                },
                None => {
                    proof {
                        assert([N, C, L, I, C, K]@ =~= seq![N, C, L, I, C, K]);
                        lemma_ident_rest_len(u@, seq!['o']);
                        lemma_attr_value_len(spec_ident_rest(u@, seq!['o']).0);
                    }
                    let (v2, ident) = push_ident_rest(u, sbuf_chr('o', 5));
                    proof {
                        assert(u@.len() < cur@.len());
                        assert(spec_parse_attributes(cur@, acc)
                            == crate::grammar::spec_attributes_other(cur@, u@, seq!['o'], acc));
                        assert(v2@ == spec_ident_rest(u@, seq!['o']).0);
                    }
                    match parse_attr_value(v2) {
                        Err(e) => {
                            return Err(e);
                        },
                        Ok((w, val)) => {
                            proof {
                                lemma_attribs_view_push(attribs@, Attrib::Other(ident, val));
                            }
                            attribs.push(Attrib::Other(ident, val));
                            cur = w;
                        },
                    }
                },
            }
        } else if next == H {
            match u.parse_ident3([R, E, F]) {
                Some(v) => {
                    proof {
                        assert([R, E, F]@ =~= seq![R, E, F]);
                        lemma_attr_value_len(v@);
                    }
                    match parse_attr_value(v) {
                        Err(e) => {
                            return Err(e);
                        },
                        Ok((w, Some(val))) => {
                            proof {
                                lemma_attribs_view_push(attribs@, Attrib::Href(val));
                            }
                            attribs.push(Attrib::Href(val));
                            cur = w;
                        },
                        Ok((_, None)) => {
                            return err("Href attribute requires value", u);
                        },
                    }
                },
                None => {
                    proof {
                        assert([R, E, F]@ =~= seq![R, E, F]);
                        lemma_ident_rest_len(u@, seq!['h']);
                        lemma_attr_value_len(spec_ident_rest(u@, seq!['h']).0);
                    }
                    let (v2, ident) = push_ident_rest(u, sbuf_chr('h', 5));
                    proof {
                        assert(u@.len() < cur@.len());
                        assert(spec_parse_attributes(cur@, acc)
                            == crate::grammar::spec_attributes_other(cur@, u@, seq!['h'], acc));
                        assert(v2@ == spec_ident_rest(u@, seq!['h']).0);
                    }
                    match parse_attr_value(v2) {
                        Err(e) => {
                            return Err(e);
                        },
                        Ok((w, val)) => {
                            proof {
                                lemma_attribs_view_push(attribs@, Attrib::Other(ident, val));
                            }
                            attribs.push(Attrib::Other(ident, val));
                            cur = w;
                        },
                    }
                },
            }
        } else {
            proof {
                lemma_ident_rest_len(u@, seq![next as char]);
                lemma_attr_value_len(spec_ident_rest(u@, seq![next as char]).0);
            }
            let (v2, ident) = push_ident_rest(u, sbuf_chr(next as char, 5));
            proof {
                assert(u@.len() < cur@.len());
                assert(spec_parse_attributes(cur@, acc)
                    == crate::grammar::spec_attributes_other(cur@, u@, seq![next as char], acc));
                assert(v2@ == spec_ident_rest(u@, seq![next as char]).0);
            }
            match parse_attr_value(v2) {
                Err(e) => {
                    return Err(e);
                },
                Ok((w, val)) => {
                    proof {
                        lemma_attribs_view_push(attribs@, Attrib::Other(ident, val));
                    }
                    attribs.push(Attrib::Other(ident, val));
                    cur = w;
                },
            }
        }
    }
}

// ---------------------------------------------------------------------
// Tag identity dispatch
// ---------------------------------------------------------------------
/// The resolved identity of a tag name.
enum ParsedTag {
    El(El),
    Void(Void),
    Other(String),
}

/// The mathematical content of a resolved tag identity.
spec fn parsed_tag_view(p: ParsedTag) -> ParsedTagView {
    match p {
        ParsedTag::El(e) => ParsedTagView::El(e),
        ParsedTag::Void(v) => ParsedTagView::Void(v),
        ParsedTag::Other(name) => ParsedTagView::Other(name@),
    }
}

/// Aiding ident parser: accumulate the rest of an unrecognized name.
fn el_ident_rest<'a>(s: &'a [u8], b: String) -> (r: (&'a [u8], ParsedTag))
    ensures
        r.0@ == crate::grammar::spec_el_ident_rest(s@, b@).0,
        parsed_tag_view(r.1) == crate::grammar::spec_el_ident_rest(s@, b@).1,
{
    let (r0, id) = push_ident_rest(s, b);
    (r0, ParsedTag::Other(id))
}

/// Optimized tag ident parser that detects void elements; components are
/// detected by the caller from the capital first letter, as in JSX.
fn parse_tag_ident<'a>(s: &'a [u8]) -> (r: (&'a [u8], ParsedTag))
    requires
        s@.len() > 0,
    ensures
        r.0@ == spec_tag_ident(s@).0,
        parsed_tag_view(r.1) == spec_tag_ident(s@).1,
{
    let first_chr: u8 = s.chr();
    proof {
        assert(s@.subrange(1, s@.len() as int) =~= s@.skip(1));
    }
    let s1 = slice_subrange(s, 1, s.len());
    let len: usize = s1.len();
    if first_chr == D {
        proof {
            assert([I, V]@ =~= seq![I, V]);
        }
        if let Some(t2) = s1.parse_ident2([I, V]) {
            (t2, ParsedTag::El(El::Div))
        } else {
            el_ident_rest(s1, sbuf_chr('d', 6))
        }
    } else if first_chr == I {
        proof {
            assert([M, G]@ =~= seq![M, G]);
            assert([N, P, U, T]@ =~= seq![N, P, U, T]);
        }
        if let Some(t2) = s1.parse_ident2([M, G]) {
            (t2, ParsedTag::Void(Void::Img))
        } else if let Some(t2) = s1.parse_ident4([N, P, U, T]) {
            (t2, ParsedTag::Void(Void::Input))
        } else if len > 0 && s1.is_ident() {
            el_ident_rest(s1, sbuf_chr('i', 6))
        } else {
            (s1, ParsedTag::El(El::I))
        }
    } else if first_chr == A {
        proof {
            assert([R, E, A]@ =~= seq![R, E, A]);
            assert([R, T, I, C, L, E]@ =~= seq![R, T, I, C, L, E]);
            assert([S, I, D, E]@ =~= seq![S, I, D, E]);
        }
        if len > 0 && s1.is_ident() {
            if let Some(t2) = s1.parse_ident3([R, E, A]) {
                (t2, ParsedTag::Void(Void::Area))
            } else if let Some(t2) = s1.parse_ident6([R, T, I, C, L, E]) {
                (t2, ParsedTag::El(El::Article))
            } else if let Some(t2) = s1.parse_ident4([S, I, D, E]) {
                (t2, ParsedTag::El(El::Aside))
            } else {
                el_ident_rest(s1, sbuf_chr('a', 12))
            }
        } else {
            (s1, ParsedTag::El(El::A))
        }
    } else if first_chr == B {
        proof {
            assert([O, D, Y]@ =~= seq![O, D, Y]);
            assert([A, S, E]@ =~= seq![A, S, E]);
        }
        if len > 0 && s1.is_ident() {
            if let Some(t2) = s1.parse_ident1(R) {
                (t2, ParsedTag::Void(Void::Br))
            } else if let Some(t2) = s1.parse_ident3([O, D, Y]) {
                (t2, ParsedTag::El(El::Body))
            } else if let Some(t2) = s1.parse_ident3([A, S, E]) {
                (t2, ParsedTag::Void(Void::Base))
            } else {
                el_ident_rest(s1, sbuf_chr('b', 7))
            }
        } else {
            (s1, ParsedTag::El(El::B))
        }
    } else if first_chr == H {
        proof {
            assert([T, M, L]@ =~= seq![T, M, L]);
            assert([E, A, D]@ =~= seq![E, A, D]);
            assert([E, A, D, E, R]@ =~= seq![E, A, D, E, R]);
        }
        if len > 1 && !is_ident_char(s1.raw(1)) {
            // Second char is non-ident: h1-h6 and hr.
            let c0: u8 = s1.chr();
            proof {
                assert(s1@.subrange(1, s1@.len() as int) =~= s1@.skip(1));
            }
            let rest1 = slice_subrange(s1, 1, s1.len());
            if c0 == N1 {
                (rest1, ParsedTag::El(El::H1))
            } else if c0 == N2 {
                (rest1, ParsedTag::El(El::H2))
            } else if c0 == N3 {
                (rest1, ParsedTag::El(El::H3))
            } else if c0 == N4 {
                (rest1, ParsedTag::El(El::H4))
            } else if c0 == R {
                (rest1, ParsedTag::Void(Void::Hr))
            } else if c0 == N5 {
                (rest1, ParsedTag::El(El::H5))
            } else if c0 == N6 {
                (rest1, ParsedTag::El(El::H6))
            } else {
                // Some other ident: h + other.
                let mut b = sbuf_chr('h', 2);
                push_char(&mut b, c0 as char);
                proof {
                    assert(b@ =~= seq!['h', c0 as char]);
                }
                (rest1, ParsedTag::Other(b))
            }
        } else if let Some(t2) = s1.parse_ident3([T, M, L]) {
            (t2, ParsedTag::El(El::Html))
        } else if let Some(t2) = s1.parse_ident3([E, A, D]) {
            (t2, ParsedTag::El(El::Head))
        } else if let Some(t2) = s1.parse_ident5([E, A, D, E, R]) {
            (t2, ParsedTag::El(El::Header))
        } else {
            el_ident_rest(s1, sbuf_chr('h', 6))
        }
    } else if first_chr == S {
        proof {
            assert([E, L, E, C, T]@ =~= seq![E, L, E, C, T]);
            assert([M, A, L, L]@ =~= seq![M, A, L, L]);
            assert([O, U, R, C, E]@ =~= seq![O, U, R, C, E]);
        }
        if let Some(t2) = s1.parse_ident5([E, L, E, C, T]) {
            (t2, ParsedTag::El(El::Select))
        } else if let Some(t2) = s1.parse_ident4([M, A, L, L]) {
            (t2, ParsedTag::El(El::Small))
        } else if let Some(t2) = s1.parse_ident5([O, U, R, C, E]) {
            (t2, ParsedTag::Void(Void::Source))
        } else {
            el_ident_rest(s1, sbuf_chr('s', 6))
        }
    } else if first_chr == T {
        proof {
            assert([A, B, L, E]@ =~= seq![A, B, L, E]);
            assert([I, T, L, E]@ =~= seq![I, T, L, E]);
            assert([R, A, C, K]@ =~= seq![R, A, C, K]);
        }
        if let Some(t2) = s1.parse_ident1(D) {
            (t2, ParsedTag::El(El::Td))
        } else if let Some(t2) = s1.parse_ident1(R) {
            (t2, ParsedTag::El(El::Tr))
        } else if let Some(t2) = s1.parse_ident1(H) {
            (t2, ParsedTag::El(El::Th))
        } else if let Some(t2) = s1.parse_ident4([A, B, L, E]) {
            (t2, ParsedTag::El(El::Table))
        } else if let Some(t2) = s1.parse_ident4([I, T, L, E]) {
            (t2, ParsedTag::El(El::Title))
        } else if let Some(t2) = s1.parse_ident4([R, A, C, K]) {
            (t2, ParsedTag::Void(Void::Track))
        } else {
            el_ident_rest(s1, sbuf_chr('t', 6))
        }
    } else if first_chr == O {
        proof {
            assert([P, T, I, O, N]@ =~= seq![P, T, I, O, N]);
        }
        if let Some(t2) = s1.parse_ident5([P, T, I, O, N]) {
            (t2, ParsedTag::El(El::Opt))
        } else if let Some(t2) = s1.parse_ident1(L) {
            (t2, ParsedTag::El(El::Ol))
        } else {
            el_ident_rest(s1, sbuf_chr('o', 6))
        }
    } else if first_chr == P {
        proof {
            assert([A, R, A, M]@ =~= seq![A, R, A, M]);
        }
        if len > 0 && s1.is_ident() {
            if let Some(t2) = s1.parse_ident4([A, R, A, M]) {
                (t2, ParsedTag::Void(Void::Param))
            } else {
                el_ident_rest(s1, sbuf_chr('p', 6))
            }
        } else {
            (s1, ParsedTag::El(El::P))
        }
    } else if first_chr == L {
        proof {
            assert([I, N, K]@ =~= seq![I, N, K]);
        }
        if let Some(t2) = s1.parse_ident1(I) {
            (t2, ParsedTag::El(El::Li))
        } else if let Some(t2) = s1.parse_ident3([I, N, K]) {
            (t2, ParsedTag::Void(Void::Link))
        } else {
            el_ident_rest(s1, sbuf_chr('l', 6))
        }
    } else if first_chr == F {
        proof {
            assert([O, R, M]@ =~= seq![O, R, M]);
            assert([O, O, T, E, R]@ =~= seq![O, O, T, E, R]);
        }
        if let Some(t2) = s1.parse_ident3([O, R, M]) {
            (t2, ParsedTag::El(El::Form))
        } else if let Some(t2) = s1.parse_ident5([O, O, T, E, R]) {
            (t2, ParsedTag::El(El::Footer))
        } else {
            el_ident_rest(s1, sbuf_chr('f', 6))
        }
    } else if first_chr == M {
        proof {
            assert([E, T, A]@ =~= seq![E, T, A]);
            assert([A, I, N]@ =~= seq![A, I, N]);
        }
        if let Some(t2) = s1.parse_ident3([E, T, A]) {
            (t2, ParsedTag::Void(Void::Meta))
        } else if let Some(t2) = s1.parse_ident3([A, I, N]) {
            (t2, ParsedTag::El(El::Main))
        } else {
            el_ident_rest(s1, sbuf_chr('m', 6))
        }
    } else if first_chr == U {
        if let Some(t2) = s1.parse_ident1(L) {
            (t2, ParsedTag::El(El::Ul))
        } else if len > 0 && s1.is_ident() {
            el_ident_rest(s1, sbuf_chr('u', 6))
        } else {
            (s1, ParsedTag::El(El::U))
        }
    } else if first_chr == N {
        proof {
            assert([A, V]@ =~= seq![A, V]);
        }
        if let Some(t2) = s1.parse_ident2([A, V]) {
            (t2, ParsedTag::El(El::Nav))
        } else {
            el_ident_rest(s1, sbuf_chr('n', 6))
        }
    } else if first_chr == E {
        proof {
            assert([M, B, E, D]@ =~= seq![M, B, E, D]);
        }
        if let Some(t2) = s1.parse_ident1(M) {
            (t2, ParsedTag::El(El::Em))
        } else if let Some(t2) = s1.parse_ident4([M, B, E, D]) {
            (t2, ParsedTag::Void(Void::Embed))
        } else {
            el_ident_rest(s1, sbuf_chr('e', 6))
        }
    } else if first_chr == C {
        proof {
            assert([O, M, M, A, N, D]@ =~= seq![O, M, M, A, N, D]);
            assert([O, L]@ =~= seq![O, L]);
        }
        if let Some(t2) = s1.parse_ident6([O, M, M, A, N, D]) {
            (t2, ParsedTag::Void(Void::Command))
        } else if let Some(t2) = s1.parse_ident2([O, L]) {
            (t2, ParsedTag::Void(Void::Col))
        } else {
            el_ident_rest(s1, sbuf_chr('c', 6))
        }
    } else if first_chr == K {
        proof {
            assert([E, Y, G, E, N]@ =~= seq![E, Y, G, E, N]);
        }
        if let Some(t2) = s1.parse_ident5([E, Y, G, E, N]) {
            (t2, ParsedTag::Void(Void::Keygen))
        } else {
            el_ident_rest(s1, sbuf_chr('k', 6))
        }
    } else if first_chr == W {
        proof {
            assert([B, R]@ =~= seq![B, R]);
        }
        if let Some(t2) = s1.parse_ident2([B, R]) {
            (t2, ParsedTag::Void(Void::Wbr))
        } else {
            el_ident_rest(s1, sbuf_chr('w', 6))
        }
    } else {
        // No match for first character.
        el_ident_rest(s1, sbuf_chr(first_chr as char, 6))
    }
}

// ---------------------------------------------------------------------
// Script and style tags
// ---------------------------------------------------------------------
/// Internal, `<script` has already been parsed.
fn parse_script_tag<'a>(s: &'a [u8]) -> (r: Result<(&'a [u8], Node), ParseError>)
    ensures
        node_res_matches(r, spec_parse_script_tag(s@)),
{
    match s.parse_chr_opt_space(RBRACKET) {
        Some(t) => {
            // Script tag with script content.
            let (q0, script) = parse_quotable_content(t);
            if let Some(v) = q0.parse_chr_opt_space(LBRACKET) {
                if let Some(w) = v.parse_chr_opt_space(FSLASH) {
                    if let Some(x) = w.close_tag6(S, C, R, I, P, T) {
                        // Tag complete.
                        return Ok((x, Node::Script { script, typ: None }));
                    }
                }
            }
            err("Expecting end tag", q0)
        },
        None => {
            let mut cur: &[u8] = s;
            let mut src: Option<String> = None;
            let mut defer: bool = false;
            let mut asyc: bool = false;
            let mut typ: Option<String> = None;
            loop
                invariant
                    spec_parse_script_tag(s@) == spec_script_attrs(
                        cur@,
                        opt_str_view(src),
                        defer,
                        asyc,
                        opt_str_view(typ),
                    ),
                decreases cur@.len(),
            {
                proof {
                    crate::parse_utils::lemma_strip_space_len(cur@);
                }
                let t = strip_space(cur);
                if let Err(e) = t.len_gt(0) {
                    return Err(e);
                }
                let next: u8 = t.chr();
                proof {
                    assert(t@.subrange(1, t@.len() as int) =~= t@.skip(1));
                }
                let u = slice_subrange(t, 1, t.len());
                if next == S {
                    proof {
                        assert([R, C]@ =~= seq![R, C]);
                    }
                    match u.parse_ident2([R, C]) {
                        Some(v) => {
                            proof {
                                lemma_attr_value_len(v@);
                            }
                            match parse_attr_value(v) {
                                Err(e) => {
                                    return Err(e);
                                },
                                Ok((w, src_attr)) => {
                                    src = src_attr;
                                    cur = w;
                                },
                            }
                        },
                        None => {
                            return err("Unrecognized script attribute", u);
                        },
                    }
                } else if next == D {
                    proof {
                        assert([E, F, E, R]@ =~= seq![E, F, E, R]);
                    }
                    match u.parse_ident4([E, F, E, R]) {
                        Some(v) => {
                            proof {
                                lemma_attr_value_len(v@);
                            }
                            match parse_attr_value(v) {
                                Err(e) => {
                                    return Err(e);
                                },
                                Ok((w, _attr)) => {
                                    defer = true;
                                    cur = w;
                                },
                            }
                        },
                        None => {
                            return err("Unrecognized script attribute", u);
                        },
                    }
                } else if next == A {
                    proof {
                        assert([S, Y, N, C]@ =~= seq![S, Y, N, C]);
                    }
                    match u.parse_ident4([S, Y, N, C]) {
                        Some(v) => {
                            proof {
                                lemma_attr_value_len(v@);
                            }
                            match parse_attr_value(v) {
                                Err(e) => {
                                    return Err(e);
                                },
                                Ok((w, _attr)) => {
                                    asyc = true;
                                    cur = w;
                                },
                            }
                        },
                        None => {
                            return err("Unrecognized script attribute", u);
                        },
                    }
                } else if next == T {
                    proof {
                        assert([Y, P, E]@ =~= seq![Y, P, E]);
                    }
                    match u.parse_ident3([Y, P, E]) {
                        Some(v) => {
                            proof {
                                lemma_attr_value_len(v@);
                            }
                            match parse_attr_value(v) {
                                Err(e) => {
                                    return Err(e);
                                },
                                Ok((w, attr)) => {
                                    typ = attr;
                                    cur = w;
                                },
                            }
                        },
                        None => {
                            return err("Unrecognized script attribute", u);
                        },
                    }
                } else if next == RBRACKET {
                    match u.parse_chr_opt_space(LBRACKET) {
                        Some(v) => {
                            // `<script src=..>` type tag.
                            let mut closed: Option<&[u8]> = None;
                            if let Some(w) = v.parse_chr_opt_space(FSLASH) {
                                closed = w.close_tag6(S, C, R, I, P, T);
                            }
                            match closed {
                                Some(x) => {
                                    match src {
                                        Some(srcv) => {
                                            // Tag complete.
                                            return Ok(
                                                (
                                                    x,
                                                    Node::ScriptSrc {
                                                        src: srcv,
                                                        defer,
                                                        asyc,
                                                        typ,
                                                    },
                                                ),
                                            );
                                        },
                                        None => {
                                            return err("Src attribute expected", x);
                                        },
                                    }
                                },
                                None => {
                                    return err("Expecting end tag", u);
                                },
                            }
                        },
                        None => {
                            // This could be `<script type=..>..</script>`.
                            let t2 = strip_space(u);
                            let (q0, script) = parse_quotable_content(t2);
                            let mut closed: Option<&[u8]> = None;
                            if let Some(v) = q0.parse_chr_opt_space(LBRACKET) {
                                if let Some(w) = v.parse_chr_opt_space(FSLASH) {
                                    closed = w.close_tag6(S, C, R, I, P, T);
                                }
                            }
                            match closed {
                                Some(x) => {
                                    // Tag complete.
                                    return Ok((x, Node::Script { script, typ }));
                                },
                                None => {
                                    return err("Expecting end tag", t2);
                                },
                            }
                        },
                    }
                } else if next == FSLASH {
                    // This may not be supported in html.
                    match u.parse_chr_opt_space(RBRACKET) {
                        Some(w) => {
                            match src {
                                Some(srcv) => {
                                    // Tag complete.
                                    return Ok(
                                        (w, Node::ScriptSrc { src: srcv, defer, asyc, typ }),
                                    );
                                },
                                None => {
                                    return err("Script src required", w);
                                },
                            }
                        },
                        None => {
                            return err("Expecting closing tag", u);
                        },
                    }
                } else {
                    return err("Unrecognized script attribute", u);
                }
            }
        },
    }
}

/// Internal, `<style` has already been parsed.
fn parse_style_tag<'a>(s: &'a [u8]) -> (r: Result<(&'a [u8], Node), ParseError>)
    ensures
        node_res_matches(r, spec_parse_style_tag(s@)),
{
    match s.parse_chr_opt_space(RBRACKET) {
        Some(t) => {
            let t2 = strip_space(t);
            let (q0, style) = parse_quotable_content(t2);
            // End tag.
            if let Some(v) = q0.parse_chr_opt_space(LBRACKET) {
                if let Some(w) = v.parse_chr_opt_space(FSLASH) {
                    if let Some(x) = w.close_tag5(S, T, Y, L, E) {
                        // Tag complete.
                        return Ok((x, Node::Style(style)));
                    }
                }
            }
            err("Expecting style end tag", q0)
        },
        None => {
            let mut cur: &[u8] = s;
            let mut typ: Option<String> = None;
            loop
                invariant
                    spec_parse_style_tag(s@) == spec_style_attrs(cur@, opt_str_view(typ)),
                decreases cur@.len(),
            {
                proof {
                    crate::parse_utils::lemma_strip_space_len(cur@);
                }
                let t = strip_space(cur);
                if let Err(e) = t.len_gt(0) {
                    return Err(e);
                }
                let next: u8 = t.chr();
                proof {
                    assert(t@.subrange(1, t@.len() as int) =~= t@.skip(1));
                }
                let u = slice_subrange(t, 1, t.len());
                if next == T {
                    proof {
                        assert([Y, P, E]@ =~= seq![Y, P, E]);
                    }
                    match u.parse_ident3([Y, P, E]) {
                        Some(v) => {
                            proof {
                                lemma_attr_value_len(v@);
                            }
                            match parse_attr_value(v) {
                                Err(e) => {
                                    return Err(e);
                                },
                                Ok((w, attr)) => {
                                    typ = attr;
                                    cur = w;
                                },
                            }
                        },
                        None => {
                            return err("Unrecognized style attribute", u);
                        },
                    }
                } else if next == RBRACKET {
                    let t2 = strip_space(u);
                    let (q0, style) = parse_quotable_content(t2);
                    match q0.parse_chr_opt_space(LBRACKET) {
                        Some(v) => {
                            // `<style type=..>` type tag; end tag expected.
                            let mut closed: Option<&[u8]> = None;
                            if let Some(v2) = v.parse_chr_opt_space(LBRACKET) {
                                if let Some(w) = v2.parse_chr_opt_space(FSLASH) {
                                    closed = w.close_tag5(S, T, Y, L, E);
                                }
                            }
                            match closed {
                                Some(x) => {
                                    // Tag complete.
                                    return Ok((x, Node::Style(style)));
                                },
                                None => {
                                    return err("Expecting style end tag", v);
                                },
                            }
                        },
                        None => {
                            return err("Expecting end tag", q0);
                        },
                    }
                } else if next == FSLASH {
                    return err("Unexpected / in style tag", u);
                } else {
                    return err("Unrecognized attribute in style tag", u);
                }
            }
        },
    }
}

// ---------------------------------------------------------------------
// The recursive core
// ---------------------------------------------------------------------
/// Matches the closing tag for a known element by structural identity,
/// without re-deriving or allocating its name.
fn close_el_tag<'a>(r2: &'a [u8], e: &El) -> (close: Option<&'a [u8]>)
    ensures
        crate::parse_utils::opt_matches(close, spec_close_tag(r2@, el_name_bytes(*e))),
{
    match e {
        El::Div => {
            proof {
                assert(seq![D, I, V] =~= el_name_bytes(*e));
            }
            r2.close_tag3(D, I, V)
        },
        El::A => {
            proof {
                assert(seq![A] =~= el_name_bytes(*e));
            }
            r2.close_tag1(A)
        },
        El::H1 => {
            proof {
                assert(seq![H, N1] =~= el_name_bytes(*e));
            }
            r2.close_tag2(H, N1)
        },
        El::H2 => {
            proof {
                assert(seq![H, N2] =~= el_name_bytes(*e));
            }
            r2.close_tag2(H, N2)
        },
        El::P => {
            proof {
                assert(seq![P] =~= el_name_bytes(*e));
            }
            r2.close_tag1(P)
        },
        El::H3 => {
            proof {
                assert(seq![H, N3] =~= el_name_bytes(*e));
            }
            r2.close_tag2(H, N3)
        },
        El::H4 => {
            proof {
                assert(seq![H, N4] =~= el_name_bytes(*e));
            }
            r2.close_tag2(H, N4)
        },
        El::Html => {
            proof {
                assert(seq![H, T, M, L] =~= el_name_bytes(*e));
            }
            r2.close_tag4(H, T, M, L)
        },
        El::Head => {
            proof {
                assert(seq![H, E, A, D] =~= el_name_bytes(*e));
            }
            r2.close_tag4(H, E, A, D)
        },
        El::Title => {
            proof {
                assert(seq![T, I, T, L, E] =~= el_name_bytes(*e));
            }
            r2.close_tag5(T, I, T, L, E)
        },
        El::Body => {
            proof {
                assert(seq![B, O, D, Y] =~= el_name_bytes(*e));
            }
            r2.close_tag4(B, O, D, Y)
        },
        El::Form => {
            proof {
                assert(seq![F, O, R, M] =~= el_name_bytes(*e));
            }
            r2.close_tag4(F, O, R, M)
        },
        El::Select => {
            proof {
                assert(seq![S, E, L, E, C, T] =~= el_name_bytes(*e));
            }
            r2.close_tag6(S, E, L, E, C, T)
        },
        El::Opt => {
            proof {
                assert(seq![O, P, T, I, O, N] =~= el_name_bytes(*e));
            }
            r2.close_tag6(O, P, T, I, O, N)
        },
        El::Ul => {
            proof {
                assert(seq![U, L] =~= el_name_bytes(*e));
            }
            r2.close_tag2(U, L)
        },
        El::Ol => {
            proof {
                assert(seq![O, L] =~= el_name_bytes(*e));
            }
            r2.close_tag2(O, L)
        },
        El::Li => {
            proof {
                assert(seq![L, I] =~= el_name_bytes(*e));
            }
            r2.close_tag2(L, I)
        },
        El::Table => {
            proof {
                assert(seq![T, A, B, L, E] =~= el_name_bytes(*e));
            }
            r2.close_tag5(T, A, B, L, E)
        },
        El::Tr => {
            proof {
                assert(seq![T, R] =~= el_name_bytes(*e));
            }
            r2.close_tag2(T, R)
        },
        El::Td => {
            proof {
                assert(seq![T, D] =~= el_name_bytes(*e));
            }
            r2.close_tag2(T, D)
        },
        El::Th => {
            proof {
                assert(seq![T, H] =~= el_name_bytes(*e));
            }
            r2.close_tag2(T, H)
        },
        El::Em => {
            proof {
                assert(seq![E, M] =~= el_name_bytes(*e));
            }
            r2.close_tag2(E, M)
        },
        El::B => {
            proof {
                assert(seq![B] =~= el_name_bytes(*e));
            }
            r2.close_tag1(B)
        },
        El::I => {
            proof {
                assert(seq![I] =~= el_name_bytes(*e));
            }
            r2.close_tag1(I)
        },
        El::Header => {
            proof {
                assert(seq![H, E, A, D, E, R] =~= el_name_bytes(*e));
            }
            r2.close_tag6(H, E, A, D, E, R)
        },
        El::Footer => {
            proof {
                assert(seq![F, O, O, T, E, R] =~= el_name_bytes(*e));
            }
            r2.close_tag6(F, O, O, T, E, R)
        },
        El::Article => {
            proof {
                assert(seq![A, R, T, I, C, L, E] =~= el_name_bytes(*e));
            }
            r2.close_tag7(A, R, T, I, C, L, E)
        },
        El::Aside => {
            proof {
                assert(seq![A, S, I, D, E] =~= el_name_bytes(*e));
            }
            r2.close_tag5(A, S, I, D, E)
        },
        El::Main => {
            proof {
                assert(seq![M, A, I, N] =~= el_name_bytes(*e));
            }
            r2.close_tag4(M, A, I, N)
        },
        El::Small => {
            proof {
                assert(seq![S, M, A, L, L] =~= el_name_bytes(*e));
            }
            r2.close_tag5(S, M, A, L, L)
        },
        El::U => {
            proof {
                assert(seq![U] =~= el_name_bytes(*e));
            }
            r2.close_tag1(U)
        },
        El::H5 => {
            proof {
                assert(seq![H, N5] =~= el_name_bytes(*e));
            }
            r2.close_tag2(H, N5)
        },
        El::H6 => {
            proof {
                assert(seq![H, N6] =~= el_name_bytes(*e));
            }
            r2.close_tag2(H, N6)
        },
        El::Nav => {
            proof {
                assert(seq![N, A, V] =~= el_name_bytes(*e));
            }
            r2.close_tag3(N, A, V)
        },
    }
}

/// Parses the opened element at the cursor head: resolves the tag
/// identity, parses attributes, and — for a non-void, non-self-closed
/// element — collects children and requires the matching closing tag.
pub fn parse_tag<'a>(s: &'a [u8]) -> (r: Result<(&'a [u8], Node), ParseError>)
    requires
        s@.len() > 0,
    ensures
        node_res_matches(r, spec_parse_tag(s@)),
    decreases s@.len(), 0int,
{
    proof {
        lemma_tag_ident_len(s@);
    }
    let (t, ident) = parse_tag_ident(s);
    proof {
        lemma_attributes_len(t@, Seq::empty());
    }
    match ident {
        ParsedTag::El(e) => {
            match parse_attributes(t) {
                Err(e2) => Err(e2),
                Ok((u, self_closed, attribs)) => {
                    if self_closed {
                        let children: Vec<Node> = Vec::new();
                        proof {
                            assert(crate::ast::nodes_view_from(children, 0) =~= Seq::<
                                NodeView,
                            >::empty());
                        }
                        Ok((u, Node::Tag(Tag::El { ident: e, attribs, children })))
                    } else {
                        let empty_nodes: Vec<Node> = Vec::new();
                        proof {
                            assert(nodes_view(empty_nodes@) =~= Seq::<NodeView>::empty());
                        }
                        match parse_children(u, empty_nodes) {
                            Err(e2) => Err(e2),
                            Ok((r2, children)) => {
                                if r2.len() == 0 {
                                    let mut m = String::new();
                                    m.append("Eof, expecting close tag for: ");
                                    m.append(el_str(&e));
                                    err(m.as_str(), r2)
                                } else {
                                    let close: Option<&[u8]> = close_el_tag(r2, &e);
                                    match close {
                                        Some(w) => {
                                            proof {
                                                crate::ast::lemma_vec_nodes_view(children);
                                            }
                                            Ok(
                                                (
                                                    w,
                                                    Node::Tag(
                                                        Tag::El { ident: e, attribs, children },
                                                    ),
                                                ),
                                            )
                                        },
                                        None => {
                                            let mut m = String::new();
                                            m.append("Expecting close tag for: ");
                                            m.append(el_str(&e));
                                            err(m.as_str(), r2)
                                        },
                                    }
                                }
                            },
                        }
                    }
                },
            }
        },
        ParsedTag::Void(v) => {
            match parse_attributes(t) {
                Err(e2) => Err(e2),
                Ok((u, _, attribs)) => Ok((u, Node::Tag(Tag::Void { ident: v, attribs }))),
            }
        },
        ParsedTag::Other(name) => {
            match parse_attributes(t) {
                Err(e2) => Err(e2),
                Ok((u, self_closed, attribs)) => {
                    if self_closed {
                        let children: Vec<Node> = Vec::new();
                        proof {
                            assert(crate::ast::nodes_view_from(children, 0) =~= Seq::<
                                NodeView,
                            >::empty());
                        }
                        Ok((u, Node::Tag(Tag::Other { ident: name, attribs, children })))
                    } else {
                        let empty_nodes: Vec<Node> = Vec::new();
                        proof {
                            assert(nodes_view(empty_nodes@) =~= Seq::<NodeView>::empty());
                        }
                        match parse_children(u, empty_nodes) {
                            Err(e2) => Err(e2),
                            Ok((r2, children)) => {
                                if r2.len() == 0 {
                                    return err("Expected closing tag", r2);
                                }
                                if let Some(w) = r2.parse_bstr_opt_space(name.as_str().as_bytes()) {
                                    match w.parse_chr_opt_space(RBRACKET) {
                                        Some(x) => {
                                            proof {
                                                crate::ast::lemma_vec_nodes_view(children);
                                            }
                                            Ok(
                                                (
                                                    x,
                                                    Node::Tag(
                                                        Tag::Other { ident: name, attribs, children },
                                                    ),
                                                ),
                                            )
                                        },
                                        None => err("Closing tag not complete", w),
                                    }
                                } else {
                                    let mut m = String::new();
                                    m.append("Expected closing tag: ");
                                    m.append(name.as_str());
                                    err(m.as_str(), r2)
                                }
                            },
                        }
                    }
                },
            }
        },
    }
}

/// Parses a component: a tag whose name begins with an upper-case letter,
/// with a looser `name[=value]` prop grammar and a literal-name closing
/// tag.
fn parse_component<'a>(s: &'a [u8]) -> (r: Result<(&'a [u8], Node), ParseError>)
    requires
        s@.len() > 0,
    ensures
        node_res_matches(r, spec_parse_component(s@)),
    decreases s@.len(), 0int,
{
    let c0: u8 = s.chr();
    proof {
        assert(s@.subrange(1, s@.len() as int) =~= s@.skip(1));
        lemma_ident_rest_len(s@.skip(1), seq![s@[0] as char]);
    }
    let (t, ident) = push_ident_rest(slice_subrange(s, 1, s.len()), sbuf_chr(c0 as char, 6));
    let mut cur: &[u8] = t;
    let mut props: Vec<(String, Option<String>)> = Vec::new();
    proof {
        assert(props_view(props@) =~= Seq::<(Seq<char>, Option<Seq<char>>)>::empty());
    }
    loop
        invariant
            spec_parse_component(s@) == spec_component_props(cur@, ident@, props_view(props@)),
            cur@.len() < s@.len(),
        decreases cur@.len(),
    {
        proof {
            crate::parse_utils::lemma_strip_space_len(cur@);
        }
        let t2 = strip_space(cur);
        if let Err(e) = t2.len_gt(0) {
            return Err(e);
        }
        let next: u8 = t2.chr();
        proof {
            assert(t2@.subrange(1, t2@.len() as int) =~= t2@.skip(1));
        }
        let u = slice_subrange(t2, 1, t2.len());
        if next == RBRACKET {
            let empty_nodes: Vec<Node> = Vec::new();
            proof {
                assert(nodes_view(empty_nodes@) =~= Seq::<NodeView>::empty());
            }
            match parse_children(u, empty_nodes) {
                Err(e) => {
                    return Err(e);
                },
                Ok((r2, children)) => {
                    // The children parser has already consumed the `</` of
                    // the closing tag: the literal name and `>` must follow.
                    match r2.parse_bstr_opt_space(ident.as_str().as_bytes()) {
                        Some(w) => {
                            match w.parse_chr_opt_space(RBRACKET) {
                                Some(x) => {
                                    proof {
                                        crate::ast::lemma_vec_nodes_view(children);
                                    }
                                    return Ok(
                                        (x, Node::Component { name: ident, props, children }),
                                    );
                                },
                                None => {
                                    return err("Expecting end tag", w);
                                },
                            }
                        },
                        None => {
                            return err("Expecting end tag", r2);
                        },
                    }
                },
            }
        } else if next == FSLASH {
            match u.parse_chr_opt_space(RBRACKET) {
                Some(w) => {
                    let children: Vec<Node> = Vec::new();
                    proof {
                        assert(crate::ast::nodes_view_from(children, 0) =~= Seq::<
                            NodeView,
                        >::empty());
                    }
                    return Ok((w, Node::Component { name: ident, props, children }));
                },
                None => {
                    return err("Expecting '>'", u);
                },
            }
        } else {
            // Prop
            if !is_alpha(next) {
                return err("Expected alpha char as first in prop", u);
            }
            proof {
                lemma_ident_rest_len(u@, seq![next as char]);
                lemma_attr_value_len(spec_ident_rest(u@, seq![next as char]).0);
            }
            let (v2, pident) = push_ident_rest(u, sbuf_chr(next as char, 3));
            match parse_attr_value(v2) {
                Err(e) => {
                    return Err(e);
                },
                Ok((w, attr_val)) => {
                    proof {
                        lemma_props_view_push(props@, (pident, attr_val));
                    }
                    props.push((pident, attr_val));
                    cur = w;
                },
            }
        }
    }
}

/// Parses a list of children until a closing tag or the end of the input,
/// detecting each node's kind, and appends them to `nodes` in document
/// order.
pub fn parse_children<'a>(s: &'a [u8], nodes: Vec<Node>) -> (r: Result<
    (&'a [u8], Vec<Node>),
    ParseError,
>)
    ensures
        children_res_matches(r, spec_parse_children(s@, nodes_view(nodes@))),
    decreases s@.len(), 1int,
{
    let mut cur: &[u8] = s;
    let mut acc: Vec<Node> = nodes;
    loop
        invariant
            spec_parse_children(s@, nodes_view(nodes@)) == spec_parse_children(
                cur@,
                nodes_view(acc@),
            ),
            cur@.len() <= s@.len(),
        decreases cur@.len(),
    {
        proof {
            crate::parse_utils::lemma_strip_space_len(cur@);
        }
        let t = strip_space(cur);
        let ghost av = nodes_view(acc@);
        if t.len() == 0 {
            return Ok((t, acc));
        }
        if t.chr() == LBRACKET && t.len() >= 3 {
            proof {
                assert(t@.subrange(1, t@.len() as int) =~= t@.skip(1));
            }
            let mut u = slice_subrange(t, 1, t.len());
            // There may be spaces here, though the likely case is an
            // ident or `/`.
            if is_space(u.chr()) {
                proof {
                    crate::parse_utils::lemma_strip_space_len(u@);
                }
                u = strip_space(u);
                if let Err(e) = u.len_gt(0) {
                    return Err(e);
                }
            }
            proof {
                assert(u@.len() < cur@.len());
                assert(spec_parse_children(cur@, av) == spec_children_tagged(cur@, u@, av));
            }
            if u.is_uc() {
                // Expecting Component
                match parse_component(u) {
                    Err(e) => {
                        return Err(e);
                    },
                    Ok((r2, component)) => {
                        proof {
                            lemma_component_len(u@);
                            lemma_nodes_view_push(acc@, component);
                        }
                        acc.push(component);
                        cur = r2;
                    },
                }
                continue ;
            }
            let next: u8 = u.chr();
            if next == FSLASH {
                // Closing a tag further up the chain: pass control back.
                proof {
                    assert(u@.subrange(1, u@.len() as int) =~= u@.skip(1));
                }
                return Ok((slice_subrange(u, 1, u.len()), acc));
            } else if next == S {
                // Special case script/style
                proof {
                    assert(u@.subrange(1, u@.len() as int) =~= u@.skip(1));
                    assert([C, R, I, P, T]@ =~= seq![C, R, I, P, T]);
                    assert([T, Y, L, E]@ =~= seq![T, Y, L, E]);
                }
                let u1 = slice_subrange(u, 1, u.len());
                if let Some(v) = u1.parse_ident5([C, R, I, P, T]) {
                    match parse_script_tag(v) {
                        Err(e) => {
                            return Err(e);
                        },
                        Ok((r2, script)) => {
                            proof {
                                lemma_script_tag_len(v@);
                                lemma_nodes_view_push(acc@, script);
                            }
                            acc.push(script);
                            cur = r2;
                        },
                    }
                } else if let Some(v) = u1.parse_ident4([T, Y, L, E]) {
                    match parse_style_tag(v) {
                        Err(e) => {
                            return Err(e);
                        },
                        Ok((r2, style)) => {
                            proof {
                                lemma_style_tag_len(v@);
                                lemma_nodes_view_push(acc@, style);
                            }
                            acc.push(style);
                            cur = r2;
                        },
                    }
                } else {
                    match parse_tag(u) {
                        Err(e) => {
                            return Err(e);
                        },
                        Ok((r2, tag)) => {
                            proof {
                                lemma_tag_len(u@);
                                lemma_nodes_view_push(acc@, tag);
                            }
                            acc.push(tag);
                            cur = r2;
                        },
                    }
                }
            } else if next == EXCLAMATION {
                proof {
                    assert(u@.subrange(1, u@.len() as int) =~= u@.skip(1));
                }
                let u1 = slice_subrange(u, 1, u.len());
                let mut dashes: Vec<u8> = Vec::new();
                dashes.push(DASH);
                dashes.push(DASH);
                proof {
                    assert(dashes@ =~= seq![DASH, DASH]);
                }
                match u1.parse_bstr(dashes.as_slice()) {
                    Some(v) => {
                        // Comment: parse until `-->`, or to the end of
                        // input when it never comes.
                        let mut w: &[u8] = v;
                        let mut p2: Option<u8> = None;
                        let mut p1: Option<u8> = None;
                        let mut cs: Vec<char> = Vec::new();
                        proof {
                            assert(cs@ =~= Seq::<char>::empty());
                        }
                        loop
                            invariant_except_break
                                spec_comment_scan(v@, None, None, Seq::empty())
                                    == spec_comment_scan(w@, p2, p1, cs@),
                            ensures
                                spec_comment_scan(v@, None, None, Seq::empty()) == (w@, cs@),
                            decreases w@.len(),
                        {
                            match next_utf8(w) {
                                None => {
                                    proof {
                                        assert(spec_comment_scan(w@, p2, p1, cs@) == (w@, cs@));
                                    }
                                    break ;
                                },
                                Some((n2, c2)) => {
                                    proof {
                                        assert(w@.subrange(n2 as int, w@.len() as int) =~= w@.skip(
                                            n2 as int,
                                        ));
                                    }
                                    let b2: Option<u8> = if n2 >= 2 {
                                        Some(w.raw(n2 - 2))
                                    } else {
                                        p1
                                    };
                                    let b3: Option<u8> = if n2 >= 3 {
                                        Some(w.raw(n2 - 3))
                                    } else if n2 >= 2 {
                                        p1
                                    } else {
                                        p2
                                    };
                                    let b2_dash: bool = match b2 {
                                        Some(x) => x == DASH,
                                        None => false,
                                    };
                                    let b3_dash: bool = match b3 {
                                        Some(x) => x == DASH,
                                        None => false,
                                    };
                                    if c2 == '>' && b2_dash && b3_dash {
                                        // Found the end: drop the two
                                        // trailing dashes.
                                        let ghost cs0 = cs@;
                                        let keep: usize = if cs.len() >= 2 {
                                            cs.len() - 2
                                        } else {
                                            0
                                        };
                                        cs.truncate(keep);
                                        w = slice_subrange(w, n2, w.len());
                                        proof {
                                            if cs0.len() >= 2 {
                                                assert(cs@ =~= cs0.take(cs0.len() - 2));
                                            } else {
                                                assert(cs@ =~= Seq::<char>::empty());
                                            }
                                        }
                                        break ;
                                    }
                                    let ghost cs0 = cs@;
                                    cs.push(c2);
                                    proof {
                                        assert(cs@ =~= cs0.push(c2));
                                    }
                                    p2 = b2;
                                    p1 = Some(w.raw(n2 - 1));
                                    w = slice_subrange(w, n2, w.len());
                                },
                            }
                        }
                        let comment = Node::Comment(chars_to_string(&cs));
                        proof {
                            lemma_comment_scan_len(v@, None, None, Seq::empty());
                            lemma_nodes_view_push(acc@, comment);
                        }
                        acc.push(comment);
                        cur = w;
                    },
                    None => {
                        return err("Unrecognized <!", u);
                    },
                }
            } else {
                match parse_tag(u) {
                    Err(e) => {
                        return Err(e);
                    },
                    Ok((r2, tag)) => {
                        proof {
                            lemma_tag_len(u@);
                            lemma_nodes_view_push(acc@, tag);
                        }
                        acc.push(tag);
                        cur = r2;
                    },
                }
            }
        } else {
            // Text node
            let (r2, text_node) = parse_text(t);
            proof {
                crate::grammar::lemma_text_scan_len(t@);
            }
            if r2.len() >= t.len() {
                return err("Unexpected '<'", t);
            }
            proof {
                lemma_nodes_view_push(acc@, text_node);
            }
            acc.push(text_node);
            cur = r2;
        }
    }
}

/// Parses a whole document: leading whitespace stripped, one optional
/// doctype declaration, then children to the end of the input.  A
/// non-empty remainder is an unmatched closing tag and an error.
pub fn parse_doc(s: &[u8]) -> (r: Result<Vec<Node>, ParseError>)
    ensures
        doc_res_matches(r, spec_parse_doc(s@)),
{
    let t = strip_space(s);
    let len: usize = t.len();
    if len == 0 {
        // No nodes
        let out: Vec<Node> = Vec::new();
        proof {
            assert(nodes_view(out@) =~= Seq::<NodeView>::empty());
        }
        return Ok(out);
    }
    let mut nodes: Vec<Node> = Vec::new();
    let mut cur: &[u8] = t;
    proof {
        assert(nodes_view(nodes@) =~= Seq::<NodeView>::empty());
    }
    // The first tag may be a doctype.
    if let Some(s2) = t.parse_chr(LBRACKET) {
        if len > 3 && s2.chr() == EXCLAMATION {
            proof {
                assert(s2@.subrange(1, s2@.len() as int) =~= s2@.skip(1));
                assert(s2@.skip(1) =~= t@.skip(2));
            }
            match parse_doctype(slice_subrange(s2, 1, s2.len())) {
                Err(e) => {
                    return Err(e);
                },
                Ok((t2, dt)) => {
                    proof {
                        lemma_nodes_view_push(nodes@, dt);
                        assert(nodes_view(nodes@).push(dt@) =~= seq![dt@]);
                    }
                    nodes.push(dt);
                    cur = t2;
                },
            }
        }
    }
    match parse_children(cur, nodes) {
        Err(e) => Err(e),
        Ok((r2, out)) => {
            if r2.len() > 0 {
                return err("Unexpected closing tag", r2);
            }
            Ok(out)
        },
    }
}

} // verus!
