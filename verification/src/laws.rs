//! Laws of the grammar: properties that hold of every parse, proved once
//! and for all against the model in [`crate::grammar`].  Since every
//! executable parser function is proved equal to that model, each law
//! holds of the executable parser as well.
use vstd::prelude::*;

use crate::ast::El;
use crate::ast::NodeView;
use crate::ast::TagView;
use crate::ast::Void;
use crate::ast::bytes_chars;
use crate::ast::el_name_bytes;
use crate::ast::void_name_bytes;
use crate::grammar::ParsedTagView;
use crate::grammar::lemma_component_len;
use crate::grammar::lemma_comment_scan_len;
use crate::grammar::lemma_ident_rest_len;
use crate::grammar::lemma_script_tag_len;
use crate::grammar::lemma_style_tag_len;
use crate::grammar::lemma_tag_len;
use crate::grammar::lemma_text_scan_len;
use crate::grammar::spec_children_tagged;
use crate::grammar::spec_comment_scan;
use crate::grammar::spec_component_props;
use crate::grammar::spec_ident_rest;
use crate::parse_utils::spec_match_ident;
use crate::grammar::spec_parse_children;
use crate::grammar::spec_parse_component;
use crate::grammar::spec_parse_doc;
use crate::grammar::spec_parse_tag;
use crate::grammar::spec_parse_text;
use crate::grammar::spec_tag_ident;
use crate::grammar::spec_text_scan;
use crate::grammar::spec_trim_end;
use crate::parse_utils::A;
use crate::parse_utils::B;
use crate::parse_utils::C;
use crate::parse_utils::D;
use crate::parse_utils::EXCLAMATION;
use crate::parse_utils::F;
use crate::parse_utils::G;
use crate::parse_utils::H;
use crate::parse_utils::K;
use crate::parse_utils::M;
use crate::parse_utils::N;
use crate::parse_utils::N1;
use crate::parse_utils::N2;
use crate::parse_utils::N3;
use crate::parse_utils::N4;
use crate::parse_utils::N5;
use crate::parse_utils::N6;
use crate::parse_utils::O;
use crate::parse_utils::U;
use crate::parse_utils::V;
use crate::parse_utils::W;
use crate::parse_utils::FSLASH;
use crate::parse_utils::I;
use crate::parse_utils::LBRACKET;
use crate::parse_utils::P;
use crate::parse_utils::R;
use crate::parse_utils::RBRACKET;
use crate::parse_utils::S;
use crate::parse_utils::T;
use crate::parse_utils::Y;
use crate::parse_utils::L;
use crate::parse_utils::E;
use crate::parse_utils::spec_close_tag;
use crate::parse_utils::spec_err;
use crate::parse_utils::spec_is_ident_char;
use crate::parse_utils::spec_is_space;
use crate::parse_utils::spec_parse_chr_opt_space;
use crate::parse_utils::spec_strip_space;
use crate::parse_utils::lemma_strip_space_len;

verus! {

// ---------------------------------------------------------------------
// Text trimming
// ---------------------------------------------------------------------
/// Trimming removes exactly the maximal run of trailing whitespace: the
/// kept prefix is unchanged (interior whitespace included), everything
/// dropped is whitespace, and nothing trimmable remains.
pub proof fn lemma_trim_end(cs: Seq<char>)
    ensures
        spec_trim_end(cs).len() <= cs.len(),
        spec_trim_end(cs) == cs.take(spec_trim_end(cs).len() as int),
        forall|i: int|
            spec_trim_end(cs).len() <= i < cs.len() ==> (cs[i] == ' ' || cs[i] == '\t' || cs[i]
                == '\n' || cs[i] == '\r'),
        spec_trim_end(cs).len() > 0 ==> !(spec_trim_end(cs).last() == ' ' || spec_trim_end(
            cs,
        ).last() == '\t' || spec_trim_end(cs).last() == '\n' || spec_trim_end(cs).last() == '\r'),
    decreases cs.len(),
{
    if cs.len() > 0 && (cs.last() == ' ' || cs.last() == '\t' || cs.last() == '\n' || cs.last()
        == '\r') {
        lemma_trim_end(cs.drop_last());
        assert(cs.drop_last().take(spec_trim_end(cs).len() as int) =~= cs.take(
            spec_trim_end(cs).len() as int,
        ));
        assert forall|i: int|
            spec_trim_end(cs).len() <= i < cs.len() implies (cs[i] == ' ' || cs[i] == '\t' || cs[i]
            == '\n' || cs[i] == '\r') by {
            if i < cs.len() - 1 {
                assert(cs.drop_last()[i] == cs[i]);
            }
        }
    } else {
        assert(spec_trim_end(cs) =~= cs.take(cs.len() as int));
    }
}

/// A parsed text node holds the decoded run up to the next `<` with
/// exactly its trailing whitespace removed: a prefix of the scan is kept
/// verbatim — interior and leading whitespace included — and the dropped
/// suffix is whitespace only.
pub proof fn lemma_text_node_trimming(s: Seq<u8>)
    ensures
        spec_parse_text(s).1 == NodeView::Text(spec_trim_end(spec_text_scan(s).1)),
        spec_trim_end(spec_text_scan(s).1) == spec_text_scan(s).1.take(
            spec_trim_end(spec_text_scan(s).1).len() as int,
        ),
        forall|i: int|
            spec_trim_end(spec_text_scan(s).1).len() <= i < spec_text_scan(s).1.len() ==> (
            spec_text_scan(s).1[i] == ' ' || spec_text_scan(s).1[i] == '\t' || spec_text_scan(
                s,
            ).1[i] == '\n' || spec_text_scan(s).1[i] == '\r'),
        spec_trim_end(spec_text_scan(s).1).len() > 0 ==> !(spec_trim_end(
            spec_text_scan(s).1,
        ).last() == ' ' || spec_trim_end(spec_text_scan(s).1).last() == '\t' || spec_trim_end(
            spec_text_scan(s).1,
        ).last() == '\n' || spec_trim_end(spec_text_scan(s).1).last() == '\r'),
{
    lemma_trim_end(spec_text_scan(s).1);
}

// ---------------------------------------------------------------------
// Component dispatch priority
// ---------------------------------------------------------------------
/// A successful component parse yields a component node.
pub proof fn lemma_component_yields_component(s: Seq<u8>)
    ensures
        spec_parse_component(s) matches Ok((_, node)) ==> node is Component,
{
    let idr = spec_ident_rest(s.skip(1), seq![s[0] as char]);
    lemma_component_props_yields_component(idr.0, idr.1, Seq::empty());
}

/// The component prop loop only ever returns a component node.
proof fn lemma_component_props_yields_component(
    s: Seq<u8>,
    ident: Seq<char>,
    props: Seq<(Seq<char>, Option<Seq<char>>)>,
)
    ensures
        spec_component_props(s, ident, props) matches Ok((_, node)) ==> node is Component,
    decreases s.len(),
{
    let t = spec_strip_space(s);
    lemma_strip_space_len(s);
    if t.len() != 0 {
        let next = t[0];
        let u = t.skip(1);
        if next == RBRACKET || next == FSLASH {
        } else if crate::parse_utils::spec_is_alpha(next) {
            let pid = spec_ident_rest(u, seq![next as char]);
            lemma_ident_rest_len(u, seq![next as char]);
            crate::grammar::lemma_attr_value_len(pid.0);
            match crate::grammar::spec_attr_value(pid.0) {
                Ok((w, val)) => {
                    lemma_component_props_yields_component(w, ident, props.push((pid.1, val)));
                },
                Err(_) => {},
            }
        }
    }
}

/// A parse of children extends the nodes already collected: they stay in
/// place, and anything parsed comes after them.
pub proof fn lemma_children_extends(s: Seq<u8>, acc: Seq<NodeView>)
    ensures
        spec_parse_children(s, acc) matches Ok((_, ns)) ==> ns.len() >= acc.len() && ns.take(
            acc.len() as int,
        ) == acc,
    decreases s.len(), 2int,
{
    let t = spec_strip_space(s);
    lemma_strip_space_len(s);
    if t.len() == 0 {
        match spec_parse_children(s, acc) {
            Ok((_, ns)) => {
                assert(ns.take(acc.len() as int) =~= acc);
            },
            Err(_) => {},
        }
    } else if t[0] == LBRACKET && t.len() >= 3 {
        let u0 = t.skip(1);
        if spec_is_space(u0[0]) {
            let u = spec_strip_space(u0);
            lemma_strip_space_len(u0);
            if u.len() != 0 {
                lemma_children_tagged_extends(s, u, acc);
            }
        } else {
            lemma_children_tagged_extends(s, u0, acc);
        }
    } else {
        let scan = spec_parse_text(t);
        lemma_text_scan_len(t);
        if scan.0.len() < t.len() {
            lemma_children_extends(scan.0, acc.push(scan.1));
            lemma_extends_chain(acc, scan.1, spec_parse_children(scan.0, acc.push(scan.1)));
        }
    }
}

/// Pushing one node and then extending still keeps the earlier nodes.
proof fn lemma_extends_chain(
    acc: Seq<NodeView>,
    node: NodeView,
    m: Result<(Seq<u8>, Seq<NodeView>), crate::parse_utils::ParseErrorView>,
)
    requires
        m matches Ok((_, ns)) ==> ns.len() >= acc.push(node).len() && ns.take(
            acc.push(node).len() as int,
        ) == acc.push(node),
    ensures
        m matches Ok((_, ns)) ==> ns.len() >= acc.len() && ns.take(acc.len() as int) == acc,
{
    match m {
        Ok((_, ns)) => {
            assert(ns.take(acc.len() as int) =~= ns.take(acc.push(node).len() as int).take(
                acc.len() as int,
            ));
            assert(acc.push(node).take(acc.len() as int) =~= acc);
        },
        Err(_) => {},
    }
}

/// One dispatched children step extends the nodes already collected.
proof fn lemma_children_tagged_extends(s: Seq<u8>, u: Seq<u8>, acc: Seq<NodeView>)
    requires
        0 < u.len() < s.len(),
    ensures
        spec_children_tagged(s, u, acc) matches Ok((_, ns)) ==> ns.len() >= acc.len() && ns.take(
            acc.len() as int,
        ) == acc,
    decreases s.len(), 1int,
{
    if 65 <= u[0] <= 90 {
        lemma_component_len(u);
        match spec_parse_component(u) {
            Err(_) => {},
            Ok((r, node)) => {
                if r.len() < s.len() {
                    lemma_children_extends(r, acc.push(node));
                    lemma_extends_chain(acc, node, spec_parse_children(r, acc.push(node)));
                }
            },
        }
    } else if u[0] == FSLASH {
        match spec_children_tagged(s, u, acc) {
            Ok((_, ns)) => {
                assert(ns.take(acc.len() as int) =~= acc);
            },
            Err(_) => {},
        }
    } else if u[0] == S {
        match spec_match_ident(u.skip(1), seq![C, R, I, P, T]) {
            Some(v) => {
                lemma_script_tag_len(v);
                match crate::grammar::spec_parse_script_tag(v) {
                    Err(_) => {},
                    Ok((r, node)) => {
                        lemma_children_extends(r, acc.push(node));
                        lemma_extends_chain(acc, node, spec_parse_children(r, acc.push(node)));
                    },
                }
            },
            None => {
                match spec_match_ident(u.skip(1), seq![T, Y, L, E]) {
                    Some(v) => {
                        lemma_style_tag_len(v);
                        match crate::grammar::spec_parse_style_tag(v) {
                            Err(_) => {},
                            Ok((r, node)) => {
                                lemma_children_extends(r, acc.push(node));
                                lemma_extends_chain(
                                    acc,
                                    node,
                                    spec_parse_children(r, acc.push(node)),
                                );
                            },
                        }
                    },
                    None => {
                        lemma_tag_len(u);
                        match spec_parse_tag(u) {
                            Err(_) => {},
                            Ok((r, node)) => {
                                if r.len() < s.len() {
                                    lemma_children_extends(r, acc.push(node));
                                    lemma_extends_chain(
                                        acc,
                                        node,
                                        spec_parse_children(r, acc.push(node)),
                                    );
                                }
                            },
                        }
                    },
                }
            },
        }
    } else if u[0] == EXCLAMATION {
        match crate::parse_utils::spec_parse_bstr(
            u.skip(1),
            seq![crate::parse_utils::DASH, crate::parse_utils::DASH],
        ) {
            Some(v) => {
                lemma_comment_scan_len(v, None, None, Seq::empty());
                let scan = spec_comment_scan(v, None, None, Seq::empty());
                let node = NodeView::Comment(scan.1);
                lemma_children_extends(scan.0, acc.push(node));
                lemma_extends_chain(acc, node, spec_parse_children(scan.0, acc.push(node)));
            },
            None => {},
        }
    } else {
        lemma_tag_len(u);
        match spec_parse_tag(u) {
            Err(_) => {},
            Ok((r, node)) => {
                if r.len() < s.len() {
                    lemma_children_extends(r, acc.push(node));
                    lemma_extends_chain(acc, node, spec_parse_children(r, acc.push(node)));
                }
            },
        }
    }
}

/// Dispatch priority of components: wherever the children parser meets a
/// tag whose name begins with an upper-case ASCII letter, the node it
/// parses there is a component — the capitalization check is absolute,
/// even when the remaining letters spell a recognized element name.
pub proof fn lemma_component_priority(s: Seq<u8>, acc: Seq<NodeView>)
    requires
        ({
            let t = spec_strip_space(s);
            &&& t.len() >= 3
            &&& t[0] == LBRACKET
            &&& ({
                let u0 = t.skip(1);
                let u = if spec_is_space(u0[0]) {
                    spec_strip_space(u0)
                } else {
                    u0
                };
                u.len() > 0 && 65 <= u[0] <= 90
            })
        }),
    ensures
        spec_parse_children(s, acc) matches Ok((_, ns)) ==> ns.len() > acc.len()
            && ns[acc.len() as int] is Component,
{
    let t = spec_strip_space(s);
    lemma_strip_space_len(s);
    let u0 = t.skip(1);
    let u = if spec_is_space(u0[0]) {
        spec_strip_space(u0)
    } else {
        u0
    };
    lemma_strip_space_len(u0);
    assert(spec_parse_children(s, acc) == spec_children_tagged(s, u, acc));
    lemma_component_len(u);
    lemma_component_yields_component(u);
    match spec_parse_component(u) {
        Err(_) => {},
        Ok((r, node)) => {
            if r.len() < s.len() {
                lemma_children_extends(r, acc.push(node));
                match spec_parse_children(r, acc.push(node)) {
                    Ok((_, ns)) => {
                        assert(ns[acc.len() as int] == acc.push(node)[acc.len() as int]);
                    },
                    Err(_) => {},
                }
            }
        },
    }
}

// ---------------------------------------------------------------------
// Whole-document laws
// ---------------------------------------------------------------------
/// Every void element name is at least two lower-case letters, and no
/// name starting with `s` continues like `script` or `style`.
proof fn lemma_void_name_facts(v: Void)
    requires
        v != Void::Doctype,
    ensures
        void_name_bytes(v).len() >= 2,
        97 <= void_name_bytes(v)[0] <= 122,
        void_name_bytes(v)[0] == S ==> void_name_bytes(v)[1] != C && void_name_bytes(v)[1] != T,
{
    match v {
        Void::Img => {},
        Void::Input => {},
        Void::Br => {},
        Void::Link => {},
        Void::Meta => {},
        Void::Doctype => {},
        Void::Source => {},
        Void::Embed => {},
        Void::Param => {},
        Void::Command => {},
        Void::Keygen => {},
        Void::Hr => {},
        Void::Area => {},
        Void::Base => {},
        Void::Col => {},
        Void::Track => {},
        Void::Wbr => {},
    }
}

/// Every regular element name starts with a lower-case letter, and no
/// name starting with `s` continues like `script` or `style`.
proof fn lemma_el_name_facts(e: El)
    ensures
        el_name_bytes(e).len() >= 1,
        97 <= el_name_bytes(e)[0] <= 122,
        el_name_bytes(e)[0] == S ==> el_name_bytes(e).len() >= 2 && el_name_bytes(e)[1] != C
            && el_name_bytes(e)[1] != T,
{
    match e {
        El::Div => {},
        El::A => {},
        El::H1 => {},
        El::H2 => {},
        El::P => {},
        El::H3 => {},
        El::H4 => {},
        El::Html => {},
        El::Head => {},
        El::Title => {},
        El::Body => {},
        El::Form => {},
        El::Select => {},
        El::Opt => {},
        El::Ul => {},
        El::Ol => {},
        El::Li => {},
        El::Table => {},
        El::Tr => {},
        El::Td => {},
        El::Th => {},
        El::Em => {},
        El::B => {},
        El::I => {},
        El::Header => {},
        El::Footer => {},
        El::Article => {},
        El::Aside => {},
        El::Main => {},
        El::Small => {},
        El::U => {},
        El::H5 => {},
        El::H6 => {},
        El::Nav => {},
    }
}

/// A cursor whose first byte is neither `c` nor `t` begins neither the
/// `script` nor the `style` keyword.
proof fn lemma_not_script_style(w: Seq<u8>)
    requires
        w.len() >= 1,
        w[0] != C,
        w[0] != T,
    ensures
        spec_match_ident(w, seq![C, R, I, P, T]) is None,
        spec_match_ident(w, seq![T, Y, L, E]) is None,
{
    if w.len() >= 6 {
        assert(w.take(5)[0] != seq![C, R, I, P, T][0]);
    }
    if w.len() >= 5 {
        assert(w.take(4)[0] != seq![T, Y, L, E][0]);
    }
}

/// Closing a tag body that is exactly the expected name and `>` succeeds
/// and consumes everything.
proof fn lemma_close_exact(name: Seq<u8>)
    requires
        name.len() >= 1,
    ensures
        spec_close_tag(name + seq![RBRACKET], name) == Some(Seq::<u8>::empty()),
{
    let r = name + seq![RBRACKET];
    assert(r[0] == name[0]);
    let t = r.skip(1);
    assert(t =~= name.skip(1) + seq![RBRACKET]);
    if name.len() == 1 {
        assert(t =~= seq![RBRACKET]);
        assert(t.skip(1) =~= Seq::<u8>::empty());
    } else {
        assert(t.take(name.len() - 1) =~= name.skip(1));
        assert(t.skip(name.len() - 1) =~= seq![RBRACKET]);
        assert(seq![RBRACKET].skip(1) =~= Seq::<u8>::empty());
    }
}

/// A document that is one tag: `<` then a lower-case tag body.  The whole
/// document parses to exactly that tag's node when the tag consumes
/// everything, and fails with exactly that tag's error when it fails.
proof fn lemma_doc_single_tag(u: Seq<u8>)
    requires
        u.len() >= 2,
        97 <= u[0] <= 122,
        u[0] == S ==> spec_match_ident(u.skip(1), seq![C, R, I, P, T]) is None && spec_match_ident(
            u.skip(1),
            seq![T, Y, L, E],
        ) is None,
    ensures
        spec_parse_tag(u) matches Err(e2) ==> spec_parse_doc(seq![LBRACKET] + u) == Err::<
            Seq<NodeView>,
            crate::parse_utils::ParseErrorView,
        >(e2),
        spec_parse_tag(u) matches Ok((r, node)) ==> (r.len() == 0 ==> spec_parse_doc(
            seq![LBRACKET] + u,
        ) == Ok::<Seq<NodeView>, crate::parse_utils::ParseErrorView>(seq![node])),
{
    let input = seq![LBRACKET] + u;
    assert(input[0] == LBRACKET);
    assert(spec_strip_space(input) == input);
    assert(input[1] == u[0]);
    assert(input.len() > 3 ==> input[1] != EXCLAMATION);
    // The children step dispatches to the generic tag parser.
    assert(input.skip(1) =~= u);
    assert(!spec_is_space(u[0]));
    assert(!(65 <= u[0] <= 90));
    assert(u[0] != FSLASH && u[0] != EXCLAMATION);
    assert(spec_parse_children(input, Seq::empty()) == spec_children_tagged(
        input,
        u,
        Seq::empty(),
    ));
    lemma_tag_len(u);
    match spec_parse_tag(u) {
        Err(_) => {},
        Ok((r, node)) => {
            if r.len() == 0 {
                assert(spec_strip_space(r) == r);
                assert(spec_parse_children(r, Seq::<NodeView>::empty().push(node)) == Ok::<
                    (Seq<u8>, Seq<NodeView>),
                    crate::parse_utils::ParseErrorView,
                >((r, Seq::<NodeView>::empty().push(node))));
                assert(Seq::<NodeView>::empty().push(node) =~= seq![node]);
            }
        },
    }
}

/// Round-trip identity for void elements: for every void element, parsing
/// `<` + its name + `>` yields exactly one void node with that identity
/// and no attributes.  The doctype pseudo-tag is the one exception: it is
/// never written as a plain tag, only as a `<!` declaration.
pub proof fn lemma_void_roundtrip(v: Void)
    requires
        v != Void::Doctype,
    ensures
        spec_parse_doc(seq![LBRACKET] + void_name_bytes(v) + seq![RBRACKET]) == Ok::<
            Seq<NodeView>,
            crate::parse_utils::ParseErrorView,
        >(seq![NodeView::Tag(TagView::Void { ident: v, attribs: Seq::empty() })]),
{
    lemma_void_name_facts(v);
    let name = void_name_bytes(v);
    let u = name + seq![RBRACKET];
    assert(u.len() >= 3);
    assert(u[0] == name[0]);
    if u[0] == S {
        assert(u.skip(1) =~= name.skip(1) + seq![RBRACKET]);
        assert(u.skip(1)[0] == name[1]);
        lemma_not_script_style(u.skip(1));
    }
    assert(!spec_is_ident_char(RBRACKET));
    lemma_void_dispatch(v, seq![RBRACKET]);
    // Attributes: just the closing bracket.
    assert(spec_strip_space(seq![RBRACKET]) == seq![RBRACKET]);
    assert(seq![RBRACKET].skip(1) =~= Seq::<u8>::empty());
    assert(crate::grammar::spec_parse_attributes(
        seq![RBRACKET],
        Seq::<crate::ast::AttribView>::empty(),
    ) == Ok::<(Seq<u8>, bool, Seq<crate::ast::AttribView>), crate::parse_utils::ParseErrorView>(
        (Seq::<u8>::empty(), false, Seq::<crate::ast::AttribView>::empty()),
    ));
    assert(spec_parse_tag(u) == Ok::<(Seq<u8>, NodeView), crate::parse_utils::ParseErrorView>(
        (Seq::<u8>::empty(), NodeView::Tag(TagView::Void { ident: v, attribs: Seq::empty() })),
    ));
    lemma_doc_single_tag(u);
    assert(seq![LBRACKET] + u =~= seq![LBRACKET] + void_name_bytes(v) + seq![RBRACKET]);
}

/// Self-close / explicit-close equivalence: for every regular element,
/// parsing `<` name `/>` and `<` name `></` name `>` both yield a single
/// element node with that identity, no attributes and no children.
#[verifier::rlimit(100)]
#[verifier::spinoff_prover]
pub proof fn lemma_el_close_equivalence(e: El)
    ensures
        spec_parse_doc(seq![LBRACKET] + el_name_bytes(e) + seq![FSLASH, RBRACKET]) == Ok::<
            Seq<NodeView>,
            crate::parse_utils::ParseErrorView,
        >(
            seq![
                NodeView::Tag(
                    TagView::El { ident: e, attribs: Seq::empty(), children: Seq::empty() },
                ),
            ],
        ),
        spec_parse_doc(
            seq![LBRACKET] + el_name_bytes(e) + seq![RBRACKET, LBRACKET, FSLASH] + el_name_bytes(e)
                + seq![RBRACKET],
        ) == Ok::<Seq<NodeView>, crate::parse_utils::ParseErrorView>(
            seq![
                NodeView::Tag(
                    TagView::El { ident: e, attribs: Seq::empty(), children: Seq::empty() },
                ),
            ],
        ),
{
    lemma_el_name_facts(e);
    let name = el_name_bytes(e);
    // Self-closed form.
    let tail_a = seq![FSLASH, RBRACKET];
    let ua = name + tail_a;
    assert(ua[0] == name[0]);
    if ua[0] == S {
        assert(ua.skip(1) =~= name.skip(1) + tail_a);
        assert(ua.skip(1)[0] == name[1]);
        lemma_not_script_style(ua.skip(1));
    }
    assert(!spec_is_ident_char(FSLASH));
    lemma_el_dispatch(e, tail_a);
    assert(spec_strip_space(tail_a) == tail_a);
    assert(tail_a.skip(1) =~= seq![RBRACKET]);
    assert(seq![RBRACKET].skip(1) =~= Seq::<u8>::empty());
    assert(spec_parse_chr_opt_space(seq![RBRACKET], RBRACKET) == Some(Seq::<u8>::empty()));
    assert(crate::grammar::spec_parse_attributes(
        tail_a,
        Seq::<crate::ast::AttribView>::empty(),
    ) == Ok::<(Seq<u8>, bool, Seq<crate::ast::AttribView>), crate::parse_utils::ParseErrorView>(
        (Seq::<u8>::empty(), true, Seq::<crate::ast::AttribView>::empty()),
    ));
    assert(spec_parse_tag(ua) == Ok::<(Seq<u8>, NodeView), crate::parse_utils::ParseErrorView>(
        (
            Seq::<u8>::empty(),
            NodeView::Tag(TagView::El { ident: e, attribs: Seq::empty(), children: Seq::empty() }),
        ),
    ));
    lemma_doc_single_tag(ua);
    assert(seq![LBRACKET] + ua =~= seq![LBRACKET] + el_name_bytes(e) + seq![FSLASH, RBRACKET]);
    // Explicitly closed form.
    let tail_b = seq![RBRACKET, LBRACKET, FSLASH] + name + seq![RBRACKET];
    let ub = name + tail_b;
    assert(ub[0] == name[0]);
    if ub[0] == S {
        assert(ub.skip(1) =~= name.skip(1) + tail_b);
        assert(ub.skip(1)[0] == name[1]);
        lemma_not_script_style(ub.skip(1));
    }
    assert(!spec_is_ident_char(RBRACKET));
    lemma_el_dispatch(e, tail_b);
    // Attributes: the `>`, leaving `</` name `>`.
    let rest1 = seq![LBRACKET, FSLASH] + name + seq![RBRACKET];
    assert(spec_strip_space(tail_b) == tail_b);
    assert(tail_b.skip(1) =~= rest1);
    assert(crate::grammar::spec_parse_attributes(
        tail_b,
        Seq::<crate::ast::AttribView>::empty(),
    ) == Ok::<(Seq<u8>, bool, Seq<crate::ast::AttribView>), crate::parse_utils::ParseErrorView>(
        (rest1, false, Seq::<crate::ast::AttribView>::empty()),
    ));
    // Children: the `</` immediately returns control.
    let u0 = seq![FSLASH] + name + seq![RBRACKET];
    assert(spec_strip_space(rest1) == rest1);
    assert(rest1[0] == LBRACKET);
    assert(rest1.len() >= 3);
    assert(rest1.skip(1) =~= u0);
    assert(!spec_is_space(u0[0]));
    assert(spec_parse_children(rest1, Seq::empty()) == spec_children_tagged(
        rest1,
        u0,
        Seq::empty(),
    ));
    assert(u0[0] == FSLASH);
    assert(u0.skip(1) =~= name + seq![RBRACKET]);
    assert(spec_parse_children(rest1, Seq::<NodeView>::empty()) == Ok::<
        (Seq<u8>, Seq<NodeView>),
        crate::parse_utils::ParseErrorView,
    >((name + seq![RBRACKET], Seq::<NodeView>::empty())));
    // The closing tag matches exactly.
    lemma_close_exact(name);
    assert(rest1.len() < ub.len());
    assert(spec_parse_tag(ub) == Ok::<(Seq<u8>, NodeView), crate::parse_utils::ParseErrorView>(
        (
            Seq::<u8>::empty(),
            NodeView::Tag(TagView::El { ident: e, attribs: Seq::empty(), children: Seq::empty() }),
        ),
    ));
    lemma_doc_single_tag(ub);
    assert(seq![LBRACKET] + ub =~= seq![LBRACKET] + el_name_bytes(e) + seq![
        RBRACKET,
        LBRACKET,
        FSLASH,
    ] + el_name_bytes(e) + seq![RBRACKET]);
}

/// Error on truncated input: for every regular element, parsing `<` name
/// `>` with no closing construct fails — no panic, no silent partial
/// tree — with the error that names the missing closing tag.
pub proof fn lemma_missing_close_tag(e: El)
    ensures
        spec_parse_doc(seq![LBRACKET] + el_name_bytes(e) + seq![RBRACKET]) == Err::<
            Seq<NodeView>,
            crate::parse_utils::ParseErrorView,
        >(
            spec_err(
                "Eof, expecting close tag for: "@ + bytes_chars(el_name_bytes(e)),
                Seq::empty(),
            ),
        ),
{
    lemma_el_name_facts(e);
    let name = el_name_bytes(e);
    let u = name + seq![RBRACKET];
    assert(u[0] == name[0]);
    if u[0] == S {
        assert(u.skip(1) =~= name.skip(1) + seq![RBRACKET]);
        assert(u.skip(1)[0] == name[1]);
        lemma_not_script_style(u.skip(1));
    }
    assert(!spec_is_ident_char(RBRACKET));
    lemma_el_dispatch(e, seq![RBRACKET]);
    assert(spec_strip_space(seq![RBRACKET]) == seq![RBRACKET]);
    assert(seq![RBRACKET].skip(1) =~= Seq::<u8>::empty());
    assert(crate::grammar::spec_parse_attributes(
        seq![RBRACKET],
        Seq::<crate::ast::AttribView>::empty(),
    ) == Ok::<(Seq<u8>, bool, Seq<crate::ast::AttribView>), crate::parse_utils::ParseErrorView>(
        (Seq::<u8>::empty(), false, Seq::<crate::ast::AttribView>::empty()),
    ));
    // Children of the unclosed element: nothing, and no input remains.
    assert(spec_strip_space(Seq::<u8>::empty()) == Seq::<u8>::empty());
    assert(spec_parse_children(Seq::<u8>::empty(), Seq::<NodeView>::empty()) == Ok::<
        (Seq<u8>, Seq<NodeView>),
        crate::parse_utils::ParseErrorView,
    >((Seq::<u8>::empty(), Seq::<NodeView>::empty())));
    assert(spec_parse_tag(u) == Err::<(Seq<u8>, NodeView), crate::parse_utils::ParseErrorView>(
        spec_err("Eof, expecting close tag for: "@ + bytes_chars(name), Seq::empty()),
    ));
    lemma_doc_single_tag(u);
    assert(seq![LBRACKET] + u =~= seq![LBRACKET] + el_name_bytes(e) + seq![RBRACKET]);
}

/// A document of nothing but whitespace (the empty input included)
/// parses to the empty node list.
pub proof fn lemma_blank_doc(s: Seq<u8>)
    requires
        spec_strip_space(s).len() == 0,
    ensures
        spec_parse_doc(s) == Ok::<Seq<NodeView>, crate::parse_utils::ParseErrorView>(Seq::empty()),
{
}

// ---------------------------------------------------------------------
// Tag identity dispatch, name by name
// ---------------------------------------------------------------------
/// Dispatch identifies every void element: its name followed by a
/// non-identifier byte resolves to its identity, consuming the name.
pub proof fn lemma_void_dispatch(v: Void, tail: Seq<u8>)
    requires
        v != Void::Doctype,
        tail.len() >= 1,
        !spec_is_ident_char(tail[0]),
    ensures
        spec_tag_ident(void_name_bytes(v) + tail) == (tail, ParsedTagView::Void(v)),
{
    let s = void_name_bytes(v) + tail;
    let u = s.skip(1);
    match v {
        Void::Img => {
            assert(s[0] == I);
            assert(u =~= seq![M, G] + tail);
            assert(u.len() >= 3);
            assert(u.take(2) =~= seq![M, G]);
            assert(!spec_is_ident_char(u[2]));
            assert(u.skip(2) =~= tail);
        },
        Void::Input => {
            assert(s[0] == I);
            assert(u =~= seq![N, P, U, T] + tail);
            assert(spec_match_ident(u, seq![M, G]) is None) by {
                if u.len() >= 3 {
                    assert(u.take(2)[0] != seq![M, G][0]);
                }
            }
            assert(u.len() >= 5);
            assert(u.take(4) =~= seq![N, P, U, T]);
            assert(!spec_is_ident_char(u[4]));
            assert(u.skip(4) =~= tail);
        },
        Void::Br => {
            assert(s[0] == B);
            assert(u =~= seq![R] + tail);
            assert(u.len() >= 2);
            assert(u.take(1) =~= seq![R]);
            assert(!spec_is_ident_char(u[1]));
            assert(u.skip(1) =~= tail);
        },
        Void::Link => {
            assert(s[0] == L);
            assert(u =~= seq![I, N, K] + tail);
            assert(spec_is_ident_char(u[1]));
            assert(spec_match_ident(u, seq![I]) is None);
            assert(u.len() >= 4);
            assert(u.take(3) =~= seq![I, N, K]);
            assert(!spec_is_ident_char(u[3]));
            assert(u.skip(3) =~= tail);
        },
        Void::Meta => {
            assert(s[0] == M);
            assert(u =~= seq![E, T, A] + tail);
            assert(u.len() >= 4);
            assert(u.take(3) =~= seq![E, T, A]);
            assert(!spec_is_ident_char(u[3]));
            assert(u.skip(3) =~= tail);
        },
        Void::Source => {
            assert(s[0] == S);
            assert(u =~= seq![O, U, R, C, E] + tail);
            assert(spec_match_ident(u, seq![E, L, E, C, T]) is None) by {
                if u.len() >= 6 {
                    assert(u.take(5)[0] != seq![E, L, E, C, T][0]);
                }
            }
            assert(spec_match_ident(u, seq![M, A, L, L]) is None) by {
                if u.len() >= 5 {
                    assert(u.take(4)[0] != seq![M, A, L, L][0]);
                }
            }
            assert(u.len() >= 6);
            assert(u.take(5) =~= seq![O, U, R, C, E]);
            assert(!spec_is_ident_char(u[5]));
            assert(u.skip(5) =~= tail);
        },
        Void::Embed => {
            assert(s[0] == E);
            assert(u =~= seq![M, B, E, D] + tail);
            assert(spec_is_ident_char(u[1]));
            assert(spec_match_ident(u, seq![M]) is None);
            assert(u.len() >= 5);
            assert(u.take(4) =~= seq![M, B, E, D]);
            assert(!spec_is_ident_char(u[4]));
            assert(u.skip(4) =~= tail);
        },
        Void::Param => {
            assert(s[0] == P);
            assert(u =~= seq![A, R, A, M] + tail);
            assert(u.len() >= 5);
            assert(u.take(4) =~= seq![A, R, A, M]);
            assert(!spec_is_ident_char(u[4]));
            assert(u.skip(4) =~= tail);
        },
        Void::Command => {
            assert(s[0] == C);
            assert(u =~= seq![O, M, M, A, N, D] + tail);
            assert(u.len() >= 7);
            assert(u.take(6) =~= seq![O, M, M, A, N, D]);
            assert(!spec_is_ident_char(u[6]));
            assert(u.skip(6) =~= tail);
        },
        Void::Keygen => {
            assert(s[0] == K);
            assert(u =~= seq![E, Y, G, E, N] + tail);
            assert(u.len() >= 6);
            assert(u.take(5) =~= seq![E, Y, G, E, N]);
            assert(!spec_is_ident_char(u[5]));
            assert(u.skip(5) =~= tail);
        },
        Void::Hr => {
            assert(s[0] == H);
            assert(u =~= seq![R] + tail);
            assert(u[1] == tail[0]);
            assert(u.skip(1) =~= tail);
        },
        Void::Area => {
            assert(s[0] == A);
            assert(u =~= seq![R, E, A] + tail);
            assert(u.len() >= 4);
            assert(u.take(3) =~= seq![R, E, A]);
            assert(!spec_is_ident_char(u[3]));
            assert(u.skip(3) =~= tail);
        },
        Void::Base => {
            assert(s[0] == B);
            assert(u =~= seq![A, S, E] + tail);
            assert(spec_match_ident(u, seq![R]) is None) by {
                if u.len() >= 2 {
                    assert(u.take(1)[0] != seq![R][0]);
                }
            }
            assert(spec_match_ident(u, seq![O, D, Y]) is None) by {
                if u.len() >= 4 {
                    assert(u.take(3)[0] != seq![O, D, Y][0]);
                }
            }
            assert(u.len() >= 4);
            assert(u.take(3) =~= seq![A, S, E]);
            assert(!spec_is_ident_char(u[3]));
            assert(u.skip(3) =~= tail);
        },
        Void::Col => {
            assert(s[0] == C);
            assert(u =~= seq![O, L] + tail);
            assert(spec_match_ident(u, seq![O, M, M, A, N, D]) is None) by {
                if u.len() >= 7 {
                    assert(u.take(6)[1] != seq![O, M, M, A, N, D][1]);
                }
            }
            assert(u.len() >= 3);
            assert(u.take(2) =~= seq![O, L]);
            assert(!spec_is_ident_char(u[2]));
            assert(u.skip(2) =~= tail);
        },
        Void::Track => {
            assert(s[0] == T);
            assert(u =~= seq![R, A, C, K] + tail);
            assert(spec_match_ident(u, seq![D]) is None) by {
                if u.len() >= 2 {
                    assert(u.take(1)[0] != seq![D][0]);
                }
            }
            assert(spec_is_ident_char(u[1]));
            assert(spec_match_ident(u, seq![R]) is None);
            assert(spec_match_ident(u, seq![H]) is None) by {
                if u.len() >= 2 {
                    assert(u.take(1)[0] != seq![H][0]);
                }
            }
            assert(spec_match_ident(u, seq![A, B, L, E]) is None) by {
                if u.len() >= 5 {
                    assert(u.take(4)[0] != seq![A, B, L, E][0]);
                }
            }
            assert(spec_match_ident(u, seq![I, T, L, E]) is None) by {
                if u.len() >= 5 {
                    assert(u.take(4)[0] != seq![I, T, L, E][0]);
                }
            }
            assert(u.len() >= 5);
            assert(u.take(4) =~= seq![R, A, C, K]);
            assert(!spec_is_ident_char(u[4]));
            assert(u.skip(4) =~= tail);
        },
        Void::Wbr => {
            assert(s[0] == W);
            assert(u =~= seq![B, R] + tail);
            assert(u.len() >= 3);
            assert(u.take(2) =~= seq![B, R]);
            assert(!spec_is_ident_char(u[2]));
            assert(u.skip(2) =~= tail);
        },
        Void::Doctype => {},
    }
}

/// Dispatch identifies every regular element: its name followed by a
/// non-identifier byte resolves to its identity, consuming the name.
pub proof fn lemma_el_dispatch(e: El, tail: Seq<u8>)
    requires
        tail.len() >= 1,
        !spec_is_ident_char(tail[0]),
    ensures
        spec_tag_ident(el_name_bytes(e) + tail) == (tail, ParsedTagView::El(e)),
{
    let s = el_name_bytes(e) + tail;
    let u = s.skip(1);
    match e {
        El::Div => {
            assert(s[0] == D);
            assert(u =~= seq![I, V] + tail);
            assert(u.len() >= 3);
            assert(u.take(2) =~= seq![I, V]);
            assert(!spec_is_ident_char(u[2]));
            assert(u.skip(2) =~= tail);
        },
        El::A => {
            assert(s[0] == A);
            assert(u =~= tail);
            assert(spec_match_ident(u, seq![R, E, A]) is None) by {
                if u.len() >= 4 {
                    assert(u[0] == tail[0]);
                    assert(u.take(3)[0] != seq![R, E, A][0]);
                }
            }
            assert(spec_match_ident(u, seq![R, T, I, C, L, E]) is None) by {
                if u.len() >= 7 {
                    assert(u[0] == tail[0]);
                    assert(u.take(6)[0] != seq![R, T, I, C, L, E][0]);
                }
            }
            assert(spec_match_ident(u, seq![S, I, D, E]) is None) by {
                if u.len() >= 5 {
                    assert(u[0] == tail[0]);
                    assert(u.take(4)[0] != seq![S, I, D, E][0]);
                }
            }
        },
        El::H1 => {
            assert(s[0] == H);
            assert(u =~= seq![N1] + tail);
            assert(u[1] == tail[0]);
            assert(u.skip(1) =~= tail);
        },
        El::H2 => {
            assert(s[0] == H);
            assert(u =~= seq![N2] + tail);
            assert(u[1] == tail[0]);
            assert(u.skip(1) =~= tail);
        },
        El::P => {
            assert(s[0] == P);
            assert(u =~= tail);
            assert(spec_match_ident(u, seq![A, R, A, M]) is None) by {
                if u.len() >= 5 {
                    assert(u[0] == tail[0]);
                    assert(u.take(4)[0] != seq![A, R, A, M][0]);
                }
            }
        },
        El::H3 => {
            assert(s[0] == H);
            assert(u =~= seq![N3] + tail);
            assert(u[1] == tail[0]);
            assert(u.skip(1) =~= tail);
        },
        El::H4 => {
            assert(s[0] == H);
            assert(u =~= seq![N4] + tail);
            assert(u[1] == tail[0]);
            assert(u.skip(1) =~= tail);
        },
        El::Html => {
            assert(s[0] == H);
            assert(u =~= seq![T, M, L] + tail);
            assert(spec_is_ident_char(u[1]));
            assert(u.len() >= 4);
            assert(u.take(3) =~= seq![T, M, L]);
            assert(!spec_is_ident_char(u[3]));
            assert(u.skip(3) =~= tail);
        },
        El::Head => {
            assert(s[0] == H);
            assert(u =~= seq![E, A, D] + tail);
            assert(spec_is_ident_char(u[1]));
            assert(spec_match_ident(u, seq![T, M, L]) is None) by {
                if u.len() >= 4 {
                    assert(u.take(3)[0] != seq![T, M, L][0]);
                }
            }
            assert(u.len() >= 4);
            assert(u.take(3) =~= seq![E, A, D]);
            assert(!spec_is_ident_char(u[3]));
            assert(u.skip(3) =~= tail);
        },
        El::Title => {
            assert(s[0] == T);
            assert(u =~= seq![I, T, L, E] + tail);
            assert(spec_match_ident(u, seq![D]) is None) by {
                if u.len() >= 2 {
                    assert(u.take(1)[0] != seq![D][0]);
                }
            }
            assert(spec_match_ident(u, seq![R]) is None) by {
                if u.len() >= 2 {
                    assert(u.take(1)[0] != seq![R][0]);
                }
            }
            assert(spec_match_ident(u, seq![H]) is None) by {
                if u.len() >= 2 {
                    assert(u.take(1)[0] != seq![H][0]);
                }
            }
            assert(spec_match_ident(u, seq![A, B, L, E]) is None) by {
                if u.len() >= 5 {
                    assert(u.take(4)[0] != seq![A, B, L, E][0]);
                }
            }
            assert(u.len() >= 5);
            assert(u.take(4) =~= seq![I, T, L, E]);
            assert(!spec_is_ident_char(u[4]));
            assert(u.skip(4) =~= tail);
        },
        El::Body => {
            assert(s[0] == B);
            assert(u =~= seq![O, D, Y] + tail);
            assert(spec_match_ident(u, seq![R]) is None) by {
                if u.len() >= 2 {
                    assert(u.take(1)[0] != seq![R][0]);
                }
            }
            assert(u.len() >= 4);
            assert(u.take(3) =~= seq![O, D, Y]);
            assert(!spec_is_ident_char(u[3]));
            assert(u.skip(3) =~= tail);
        },
        El::Form => {
            assert(s[0] == F);
            assert(u =~= seq![O, R, M] + tail);
            assert(u.len() >= 4);
            assert(u.take(3) =~= seq![O, R, M]);
            assert(!spec_is_ident_char(u[3]));
            assert(u.skip(3) =~= tail);
        },
        El::Select => {
            assert(s[0] == S);
            assert(u =~= seq![E, L, E, C, T] + tail);
            assert(u.len() >= 6);
            assert(u.take(5) =~= seq![E, L, E, C, T]);
            assert(!spec_is_ident_char(u[5]));
            assert(u.skip(5) =~= tail);
        },
        El::Opt => {
            assert(s[0] == O);
            assert(u =~= seq![P, T, I, O, N] + tail);
            assert(u.len() >= 6);
            assert(u.take(5) =~= seq![P, T, I, O, N]);
            assert(!spec_is_ident_char(u[5]));
            assert(u.skip(5) =~= tail);
        },
        El::Ul => {
            assert(s[0] == U);
            assert(u =~= seq![L] + tail);
            assert(u.len() >= 2);
            assert(u.take(1) =~= seq![L]);
            assert(!spec_is_ident_char(u[1]));
            assert(u.skip(1) =~= tail);
        },
        El::Ol => {
            assert(s[0] == O);
            assert(u =~= seq![L] + tail);
            assert(spec_match_ident(u, seq![P, T, I, O, N]) is None) by {
                if u.len() >= 6 {
                    assert(u.take(5)[0] != seq![P, T, I, O, N][0]);
                }
            }
            assert(u.len() >= 2);
            assert(u.take(1) =~= seq![L]);
            assert(!spec_is_ident_char(u[1]));
            assert(u.skip(1) =~= tail);
        },
        El::Li => {
            assert(s[0] == L);
            assert(u =~= seq![I] + tail);
            assert(u.len() >= 2);
            assert(u.take(1) =~= seq![I]);
            assert(!spec_is_ident_char(u[1]));
            assert(u.skip(1) =~= tail);
        },
        El::Table => {
            assert(s[0] == T);
            assert(u =~= seq![A, B, L, E] + tail);
            assert(spec_match_ident(u, seq![D]) is None) by {
                if u.len() >= 2 {
                    assert(u.take(1)[0] != seq![D][0]);
                }
            }
            assert(spec_match_ident(u, seq![R]) is None) by {
                if u.len() >= 2 {
                    assert(u.take(1)[0] != seq![R][0]);
                }
            }
            assert(spec_match_ident(u, seq![H]) is None) by {
                if u.len() >= 2 {
                    assert(u.take(1)[0] != seq![H][0]);
                }
            }
            assert(u.len() >= 5);
            assert(u.take(4) =~= seq![A, B, L, E]);
            assert(!spec_is_ident_char(u[4]));
            assert(u.skip(4) =~= tail);
        },
        El::Tr => {
            assert(s[0] == T);
            assert(u =~= seq![R] + tail);
            assert(spec_match_ident(u, seq![D]) is None) by {
                if u.len() >= 2 {
                    assert(u.take(1)[0] != seq![D][0]);
                }
            }
            assert(u.len() >= 2);
            assert(u.take(1) =~= seq![R]);
            assert(!spec_is_ident_char(u[1]));
            assert(u.skip(1) =~= tail);
        },
        El::Td => {
            assert(s[0] == T);
            assert(u =~= seq![D] + tail);
            assert(u.len() >= 2);
            assert(u.take(1) =~= seq![D]);
            assert(!spec_is_ident_char(u[1]));
            assert(u.skip(1) =~= tail);
        },
        El::Th => {
            assert(s[0] == T);
            assert(u =~= seq![H] + tail);
            assert(spec_match_ident(u, seq![D]) is None) by {
                if u.len() >= 2 {
                    assert(u.take(1)[0] != seq![D][0]);
                }
            }
            assert(spec_match_ident(u, seq![R]) is None) by {
                if u.len() >= 2 {
                    assert(u.take(1)[0] != seq![R][0]);
                }
            }
            assert(u.len() >= 2);
            assert(u.take(1) =~= seq![H]);
            assert(!spec_is_ident_char(u[1]));
            assert(u.skip(1) =~= tail);
        },
        El::Em => {
            assert(s[0] == E);
            assert(u =~= seq![M] + tail);
            assert(u.len() >= 2);
            assert(u.take(1) =~= seq![M]);
            assert(!spec_is_ident_char(u[1]));
            assert(u.skip(1) =~= tail);
        },
        El::B => {
            assert(s[0] == B);
            assert(u =~= tail);
            assert(spec_match_ident(u, seq![R]) is None) by {
                if u.len() >= 2 {
                    assert(u[0] == tail[0]);
                    assert(u.take(1)[0] != seq![R][0]);
                }
            }
            assert(spec_match_ident(u, seq![O, D, Y]) is None) by {
                if u.len() >= 4 {
                    assert(u[0] == tail[0]);
                    assert(u.take(3)[0] != seq![O, D, Y][0]);
                }
            }
            assert(spec_match_ident(u, seq![A, S, E]) is None) by {
                if u.len() >= 4 {
                    assert(u[0] == tail[0]);
                    assert(u.take(3)[0] != seq![A, S, E][0]);
                }
            }
        },
        El::I => {
            assert(s[0] == I);
            assert(u =~= tail);
            assert(spec_match_ident(u, seq![M, G]) is None) by {
                if u.len() >= 3 {
                    assert(u[0] == tail[0]);
                    assert(u.take(2)[0] != seq![M, G][0]);
                }
            }
            assert(spec_match_ident(u, seq![N, P, U, T]) is None) by {
                if u.len() >= 5 {
                    assert(u[0] == tail[0]);
                    assert(u.take(4)[0] != seq![N, P, U, T][0]);
                }
            }
        },
        El::Header => {
            assert(s[0] == H);
            assert(u =~= seq![E, A, D, E, R] + tail);
            assert(spec_is_ident_char(u[1]));
            assert(spec_match_ident(u, seq![T, M, L]) is None) by {
                if u.len() >= 4 {
                    assert(u.take(3)[0] != seq![T, M, L][0]);
                }
            }
            assert(spec_is_ident_char(u[3]));
            assert(spec_match_ident(u, seq![E, A, D]) is None);
            assert(u.len() >= 6);
            assert(u.take(5) =~= seq![E, A, D, E, R]);
            assert(!spec_is_ident_char(u[5]));
            assert(u.skip(5) =~= tail);
        },
        El::Footer => {
            assert(s[0] == F);
            assert(u =~= seq![O, O, T, E, R] + tail);
            assert(spec_match_ident(u, seq![O, R, M]) is None) by {
                if u.len() >= 4 {
                    assert(u.take(3)[1] != seq![O, R, M][1]);
                }
            }
            assert(u.len() >= 6);
            assert(u.take(5) =~= seq![O, O, T, E, R]);
            assert(!spec_is_ident_char(u[5]));
            assert(u.skip(5) =~= tail);
        },
        El::Article => {
            assert(s[0] == A);
            assert(u =~= seq![R, T, I, C, L, E] + tail);
            assert(spec_match_ident(u, seq![R, E, A]) is None) by {
                if u.len() >= 4 {
                    assert(u.take(3)[1] != seq![R, E, A][1]);
                }
            }
            assert(u.len() >= 7);
            assert(u.take(6) =~= seq![R, T, I, C, L, E]);
            assert(!spec_is_ident_char(u[6]));
            assert(u.skip(6) =~= tail);
        },
        El::Aside => {
            assert(s[0] == A);
            assert(u =~= seq![S, I, D, E] + tail);
            assert(spec_match_ident(u, seq![R, E, A]) is None) by {
                if u.len() >= 4 {
                    assert(u.take(3)[0] != seq![R, E, A][0]);
                }
            }
            assert(spec_match_ident(u, seq![R, T, I, C, L, E]) is None) by {
                if u.len() >= 7 {
                    assert(u.take(6)[0] != seq![R, T, I, C, L, E][0]);
                }
            }
            assert(u.len() >= 5);
            assert(u.take(4) =~= seq![S, I, D, E]);
            assert(!spec_is_ident_char(u[4]));
            assert(u.skip(4) =~= tail);
        },
        El::Main => {
            assert(s[0] == M);
            assert(u =~= seq![A, I, N] + tail);
            assert(spec_match_ident(u, seq![E, T, A]) is None) by {
                if u.len() >= 4 {
                    assert(u.take(3)[0] != seq![E, T, A][0]);
                }
            }
            assert(u.len() >= 4);
            assert(u.take(3) =~= seq![A, I, N]);
            assert(!spec_is_ident_char(u[3]));
            assert(u.skip(3) =~= tail);
        },
        El::Small => {
            assert(s[0] == S);
            assert(u =~= seq![M, A, L, L] + tail);
            assert(spec_match_ident(u, seq![E, L, E, C, T]) is None) by {
                if u.len() >= 6 {
                    assert(u.take(5)[0] != seq![E, L, E, C, T][0]);
                }
            }
            assert(u.len() >= 5);
            assert(u.take(4) =~= seq![M, A, L, L]);
            assert(!spec_is_ident_char(u[4]));
            assert(u.skip(4) =~= tail);
        },
        El::U => {
            assert(s[0] == U);
            assert(u =~= tail);
            assert(spec_match_ident(u, seq![L]) is None) by {
                if u.len() >= 2 {
                    assert(u[0] == tail[0]);
                    assert(u.take(1)[0] != seq![L][0]);
                }
            }
        },
        El::H5 => {
            assert(s[0] == H);
            assert(u =~= seq![N5] + tail);
            assert(u[1] == tail[0]);
            assert(u.skip(1) =~= tail);
        },
        El::H6 => {
            assert(s[0] == H);
            assert(u =~= seq![N6] + tail);
            assert(u[1] == tail[0]);
            assert(u.skip(1) =~= tail);
        },
        El::Nav => {
            assert(s[0] == N);
            assert(u =~= seq![A, V] + tail);
            assert(u.len() >= 3);
            assert(u.take(2) =~= seq![A, V]);
            assert(!spec_is_ident_char(u[2]));
            assert(u.skip(2) =~= tail);
        },
    }
}

} // verus!
