//! The abstract syntax tree a parse produces, and its mathematical view.
//!
//! The tree is built bottom-up in a single pass and is immutable
//! thereafter.  Every node exclusively owns its attributes and children;
//! all string content is copied out of the input buffer, so the tree does
//! not borrow from it.
//!
//! Each tree type has a view: the same shape over `Seq<char>` and
//! `Seq<_>`, which the parser's contracts and the grammar model speak of.
use vstd::prelude::*;

verus! {

broadcast use vstd::std_specs::vec::axiom_vec_index_decreases;

/// One parsed construct.
#[derive(Debug, PartialEq)]
pub enum Node {
    /// Html tag
    Tag(Tag),
    /// Text content, with trailing whitespace trimmed
    Text(String),
    /// A JSX-style embedded component: name, `(key, optional value)`
    /// props, children
    Component { name: String, props: Vec<(String, Option<String>)>, children: Vec<Node> },
    /// Inline script
    Script { script: String, typ: Option<String> },
    /// External script reference
    ScriptSrc { src: String, defer: bool, asyc: bool, typ: Option<String> },
    /// Inline style
    Style(String),
    /// Comment content, without the delimiters
    Comment(String),
}

/// One parsed tag.
#[derive(Debug, PartialEq)]
pub enum Tag {
    /// A recognized element, with children
    El { ident: El, attribs: Vec<Attrib>, children: Vec<Node> },
    /// A recognized self-terminating element: no children permitted
    Void { ident: Void, attribs: Vec<Attrib> },
    /// An unrecognized tag, closed by literal name comparison
    Other { ident: String, attribs: Vec<Attrib>, children: Vec<Node> },
}

/// The closed enumeration of recognized void (self-terminating) elements.
#[derive(Debug, PartialEq, Clone)]
pub enum Void {
    Img,
    Input,
    Br,
    Link,
    Meta,
    Doctype,
    Source,
    Embed,
    Param,
    Command,
    Keygen,
    Hr,
    Area,
    Base,
    Col,
    Track,
    Wbr,
}

/// The closed enumeration of recognized regular elements.
#[derive(Debug, PartialEq, Clone)]
pub enum El {
    Div,
    A,
    H1,
    H2,
    P,
    H3,
    H4,
    Html,
    Head,
    Title,
    Body,
    Form,
    Select,
    Opt,
    Ul,
    Ol,
    Li,
    Table,
    Tr,
    Td,
    Th,
    Em,
    B,
    I,
    Header,
    Footer,
    Article,
    Aside,
    Main,
    Small,
    U,
    H5,
    H6,
    Nav,
}

/// Some attributes especially encoded, common or meaningful.
///
/// The four specialized variants always carry a value: an occurrence of
/// their name without a value is a parse error.  `Other` may carry `None`
/// for a boolean, valueless attribute.
#[derive(Debug, PartialEq)]
pub enum Attrib {
    Id(String),
    Cls(String),
    OnClick(String),
    Href(String),
    Other(String, Option<String>),
}

// ---------------------------------------------------------------------
// Views
// ---------------------------------------------------------------------
/// The mathematical content of an `Attrib`.
pub enum AttribView {
    Id(Seq<char>),
    Cls(Seq<char>),
    OnClick(Seq<char>),
    Href(Seq<char>),
    Other(Seq<char>, Option<Seq<char>>),
}

/// The mathematical content of a `Node`.
pub enum NodeView {
    Tag(TagView),
    Text(Seq<char>),
    Component {
        name: Seq<char>,
        props: Seq<(Seq<char>, Option<Seq<char>>)>,
        children: Seq<NodeView>,
    },
    Script { script: Seq<char>, typ: Option<Seq<char>> },
    ScriptSrc { src: Seq<char>, defer: bool, asyc: bool, typ: Option<Seq<char>> },
    Style(Seq<char>),
    Comment(Seq<char>),
}

/// The mathematical content of a `Tag`.
pub enum TagView {
    El { ident: El, attribs: Seq<AttribView>, children: Seq<NodeView> },
    Void { ident: Void, attribs: Seq<AttribView> },
    Other { ident: Seq<char>, attribs: Seq<AttribView>, children: Seq<NodeView> },
}

/// The view of an optional owned string.
pub open spec fn opt_str_view(o: Option<String>) -> Option<Seq<char>> {
    match o {
        Option::Some(s) => Some(s@),
        Option::None => None,
    }
}

/// The view of one attribute.
pub open spec fn attrib_view(a: Attrib) -> AttribView {
    match a {
        Attrib::Id(v) => AttribView::Id(v@),
        Attrib::Cls(v) => AttribView::Cls(v@),
        Attrib::OnClick(v) => AttribView::OnClick(v@),
        Attrib::Href(v) => AttribView::Href(v@),
        Attrib::Other(n, v) => AttribView::Other(n@, opt_str_view(v)),
    }
}

/// The views of a sequence of attributes, in order.
pub open spec fn attribs_view(v: Seq<Attrib>) -> Seq<AttribView> {
    Seq::new(v.len(), |i: int| attrib_view(v[i]))
}

/// The views of a sequence of component props, in order.
pub open spec fn props_view(v: Seq<(String, Option<String>)>) -> Seq<
    (Seq<char>, Option<Seq<char>>),
> {
    Seq::new(v.len(), |i: int| (v[i].0@, opt_str_view(v[i].1)))
}

/// The views of the nodes of a vector from position `i` on, in order.
/// This index-based form is what the recursion of `node_view` is measured
/// on; `lemma_nodes_view_from` relates it to `nodes_view`.
pub open spec fn nodes_view_from(v: Vec<Node>, i: int) -> Seq<NodeView>
    decreases v, v@.len() - i,
{
    if i < 0 || i >= v@.len() {
        Seq::empty()
    } else {
        seq![node_view(v@[i])] + nodes_view_from(v, i + 1)
    }
}

/// The view of one node.
pub open spec fn node_view(n: Node) -> NodeView
    decreases n, 0int,
{
    match n {
        Node::Tag(t) => NodeView::Tag(tag_view(t)),
        Node::Text(s) => NodeView::Text(s@),
        Node::Component { name, props, children } => NodeView::Component {
            name: name@,
            props: props_view(props@),
            children: nodes_view_from(children, 0),
        },
        Node::Script { script, typ } => NodeView::Script {
            script: script@,
            typ: opt_str_view(typ),
        },
        Node::ScriptSrc { src, defer, asyc, typ } => NodeView::ScriptSrc {
            src: src@,
            defer,
            asyc,
            typ: opt_str_view(typ),
        },
        Node::Style(s) => NodeView::Style(s@),
        Node::Comment(s) => NodeView::Comment(s@),
    }
}

/// The view of one tag.
pub open spec fn tag_view(t: Tag) -> TagView
    decreases t, 0int,
{
    match t {
        Tag::El { ident, attribs, children } => TagView::El {
            ident,
            attribs: attribs_view(attribs@),
            children: nodes_view_from(children, 0),
        },
        Tag::Void { ident, attribs } => TagView::Void { ident, attribs: attribs_view(attribs@) },
        Tag::Other { ident, attribs, children } => TagView::Other {
            ident: ident@,
            attribs: attribs_view(attribs@),
            children: nodes_view_from(children, 0),
        },
    }
}

/// Extending a vector of attributes extends its views.
pub proof fn lemma_attribs_view_push(v: Seq<Attrib>, a: Attrib)
    ensures
        attribs_view(v.push(a)) =~= attribs_view(v).push(attrib_view(a)),
{
}

/// Extending a vector of props extends its views.
pub proof fn lemma_props_view_push(v: Seq<(String, Option<String>)>, p: (String, Option<String>))
    ensures
        props_view(v.push(p)) =~= props_view(v).push((p.0@, opt_str_view(p.1))),
{
}

/// The views of a sequence of nodes, in order.
pub open spec fn nodes_view(v: Seq<Node>) -> Seq<NodeView> {
    Seq::new(v.len(), |i: int| node_view(v[i]))
}

/// Extending a vector of nodes extends its views.
pub proof fn lemma_nodes_view_push(v: Seq<Node>, n: Node)
    ensures
        nodes_view(v.push(n)) =~= nodes_view(v).push(node_view(n)),
{
}

/// The index-based view of a vector's nodes equals the view of its
/// remaining sequence.
pub proof fn lemma_nodes_view_from(v: Vec<Node>, i: int)
    requires
        0 <= i <= v@.len(),
    ensures
        nodes_view_from(v, i) =~= nodes_view(v@.skip(i)),
    decreases v@.len() - i,
{
    if i < v@.len() {
        lemma_nodes_view_from(v, i + 1);
        assert forall|j: int| 0 <= j < v@.len() - i implies nodes_view(v@.skip(i))[j] == nodes_view_from(
            v,
            i,
        )[j] by {
            if j > 0 {
                assert(v@.skip(i + 1)[j - 1] == v@.skip(i)[j]);
            }
        }
    }
}

/// The view of a whole vector of nodes, in its index-based form.
pub proof fn lemma_vec_nodes_view(v: Vec<Node>)
    ensures
        nodes_view_from(v, 0) == nodes_view(v@),
{
    lemma_nodes_view_from(v, 0);
    assert(v@.skip(0) =~= v@);
}

impl View for Node {
    type V = NodeView;

    open spec fn view(&self) -> NodeView {
        node_view(*self)
    }
}

impl View for Tag {
    type V = TagView;

    open spec fn view(&self) -> TagView {
        tag_view(*self)
    }
}

impl View for Attrib {
    type V = AttribView;

    open spec fn view(&self) -> AttribView {
        attrib_view(*self)
    }
}

// ---------------------------------------------------------------------
// Canonical element names
// ---------------------------------------------------------------------
/// The lower-case name of a void element, as the bytes its tags are
/// written with.
pub open spec fn void_name_bytes(v: Void) -> Seq<u8> {
    match v {
        Void::Img => seq![105u8, 109, 103],
        Void::Input => seq![105u8, 110, 112, 117, 116],
        Void::Br => seq![98u8, 114],
        Void::Link => seq![108u8, 105, 110, 107],
        Void::Meta => seq![109u8, 101, 116, 97],
        Void::Doctype => seq![100u8, 111, 99, 116, 121, 112, 101],
        Void::Source => seq![115u8, 111, 117, 114, 99, 101],
        Void::Embed => seq![101u8, 109, 98, 101, 100],
        Void::Param => seq![112u8, 97, 114, 97, 109],
        Void::Command => seq![99u8, 111, 109, 109, 97, 110, 100],
        Void::Keygen => seq![107u8, 101, 121, 103, 101, 110],
        Void::Hr => seq![104u8, 114],
        Void::Area => seq![97u8, 114, 101, 97],
        Void::Base => seq![98u8, 97, 115, 101],
        Void::Col => seq![99u8, 111, 108],
        Void::Track => seq![116u8, 114, 97, 99, 107],
        Void::Wbr => seq![119u8, 98, 114],
    }
}

/// The lower-case name of a regular element, as the bytes its tags are
/// written with.
pub open spec fn el_name_bytes(e: El) -> Seq<u8> {
    match e {
        El::Div => seq![100u8, 105, 118],
        El::A => seq![97u8],
        El::H1 => seq![104u8, 49],
        El::H2 => seq![104u8, 50],
        El::P => seq![112u8],
        El::H3 => seq![104u8, 51],
        El::H4 => seq![104u8, 52],
        El::Html => seq![104u8, 116, 109, 108],
        El::Head => seq![104u8, 101, 97, 100],
        El::Title => seq![116u8, 105, 116, 108, 101],
        El::Body => seq![98u8, 111, 100, 121],
        El::Form => seq![102u8, 111, 114, 109],
        El::Select => seq![115u8, 101, 108, 101, 99, 116],
        El::Opt => seq![111u8, 112, 116, 105, 111, 110],
        El::Ul => seq![117u8, 108],
        El::Ol => seq![111u8, 108],
        El::Li => seq![108u8, 105],
        El::Table => seq![116u8, 97, 98, 108, 101],
        El::Tr => seq![116u8, 114],
        El::Td => seq![116u8, 100],
        El::Th => seq![116u8, 104],
        El::Em => seq![101u8, 109],
        El::B => seq![98u8],
        El::I => seq![105u8],
        El::Header => seq![104u8, 101, 97, 100, 101, 114],
        El::Footer => seq![102u8, 111, 111, 116, 101, 114],
        El::Article => seq![97u8, 114, 116, 105, 99, 108, 101],
        El::Aside => seq![97u8, 115, 105, 100, 101],
        El::Main => seq![109u8, 97, 105, 110],
        El::Small => seq![115u8, 109, 97, 108, 108],
        El::U => seq![117u8],
        El::H5 => seq![104u8, 53],
        El::H6 => seq![104u8, 54],
        El::Nav => seq![110u8, 97, 118],
    }
}

/// The characters that a run of ASCII bytes spells.
pub open spec fn bytes_chars(b: Seq<u8>) -> Seq<char> {
    Seq::new(b.len(), |i: int| b[i] as char)
}

/// The printable name of a void element.
pub fn void_str(el: &Void) -> (r: &'static str)
    ensures
        r@ == bytes_chars(void_name_bytes(*el)),
{
    match el {
        Void::Img => {
            let r = "img";
            proof {
                reveal_strlit("img");
                assert(r@ =~= bytes_chars(void_name_bytes(*el)));
            }
            r
        },
        Void::Input => {
            let r = "input";
            proof {
                reveal_strlit("input");
                assert(r@ =~= bytes_chars(void_name_bytes(*el)));
            }
            r
        },
        Void::Br => {
            let r = "br";
            proof {
                reveal_strlit("br");
                assert(r@ =~= bytes_chars(void_name_bytes(*el)));
            }
            r
        },
        Void::Link => {
            let r = "link";
            proof {
                reveal_strlit("link");
                assert(r@ =~= bytes_chars(void_name_bytes(*el)));
            }
            r
        },
        Void::Meta => {
            let r = "meta";
            proof {
                reveal_strlit("meta");
                assert(r@ =~= bytes_chars(void_name_bytes(*el)));
            }
            r
        },
        Void::Doctype => {
            let r = "doctype";
            proof {
                reveal_strlit("doctype");
                assert(r@ =~= bytes_chars(void_name_bytes(*el)));
            }
            r
        },
        Void::Source => {
            let r = "source";
            proof {
                reveal_strlit("source");
                assert(r@ =~= bytes_chars(void_name_bytes(*el)));
            }
            r
        },
        Void::Embed => {
            let r = "embed";
            proof {
                reveal_strlit("embed");
                assert(r@ =~= bytes_chars(void_name_bytes(*el)));
            }
            r
        },
        Void::Param => {
            let r = "param";
            proof {
                reveal_strlit("param");
                assert(r@ =~= bytes_chars(void_name_bytes(*el)));
            }
            r
        },
        Void::Command => {
            let r = "command";
            proof {
                reveal_strlit("command");
                assert(r@ =~= bytes_chars(void_name_bytes(*el)));
            }
            r
        },
        Void::Keygen => {
            let r = "keygen";
            proof {
                reveal_strlit("keygen");
                assert(r@ =~= bytes_chars(void_name_bytes(*el)));
            }
            r
        },
        Void::Hr => {
            let r = "hr";
            proof {
                reveal_strlit("hr");
                assert(r@ =~= bytes_chars(void_name_bytes(*el)));
            }
            r
        },
        Void::Area => {
            let r = "area";
            proof {
                reveal_strlit("area");
                assert(r@ =~= bytes_chars(void_name_bytes(*el)));
            }
            r
        },
        Void::Base => {
            let r = "base";
            proof {
                reveal_strlit("base");
                assert(r@ =~= bytes_chars(void_name_bytes(*el)));
            }
            r
        },
        Void::Col => {
            let r = "col";
            proof {
                reveal_strlit("col");
                assert(r@ =~= bytes_chars(void_name_bytes(*el)));
            }
            r
        },
        Void::Track => {
            let r = "track";
            proof {
                reveal_strlit("track");
                assert(r@ =~= bytes_chars(void_name_bytes(*el)));
            }
            r
        },
        Void::Wbr => {
            let r = "wbr";
            proof {
                reveal_strlit("wbr");
                assert(r@ =~= bytes_chars(void_name_bytes(*el)));
            }
            r
        },
    }
}

/// The printable name of a regular element.
pub fn el_str(el: &El) -> (r: &'static str)
    ensures
        r@ == bytes_chars(el_name_bytes(*el)),
{
    match el {
        El::Div => {
            let r = "div";
            proof {
                reveal_strlit("div");
                assert(r@ =~= bytes_chars(el_name_bytes(*el)));
            }
            r
        },
        El::A => {
            let r = "a";
            proof {
                reveal_strlit("a");
                assert(r@ =~= bytes_chars(el_name_bytes(*el)));
            }
            r
        },
        El::H1 => {
            let r = "h1";
            proof {
                reveal_strlit("h1");
                assert(r@ =~= bytes_chars(el_name_bytes(*el)));
            }
            r
        },
        El::H2 => {
            let r = "h2";
            proof {
                reveal_strlit("h2");
                assert(r@ =~= bytes_chars(el_name_bytes(*el)));
            }
            r
        },
        El::P => {
            let r = "p";
            proof {
                reveal_strlit("p");
                assert(r@ =~= bytes_chars(el_name_bytes(*el)));
            }
            r
        },
        El::H3 => {
            let r = "h3";
            proof {
                reveal_strlit("h3");
                assert(r@ =~= bytes_chars(el_name_bytes(*el)));
            }
            r
        },
        El::H4 => {
            let r = "h4";
            proof {
                reveal_strlit("h4");
                assert(r@ =~= bytes_chars(el_name_bytes(*el)));
            }
            r
        },
        El::Html => {
            let r = "html";
            proof {
                reveal_strlit("html");
                assert(r@ =~= bytes_chars(el_name_bytes(*el)));
            }
            r
        },
        El::Head => {
            let r = "head";
            proof {
                reveal_strlit("head");
                assert(r@ =~= bytes_chars(el_name_bytes(*el)));
            }
            r
        },
        El::Title => {
            let r = "title";
            proof {
                reveal_strlit("title");
                assert(r@ =~= bytes_chars(el_name_bytes(*el)));
            }
            r
        },
        El::Body => {
            let r = "body";
            proof {
                reveal_strlit("body");
                assert(r@ =~= bytes_chars(el_name_bytes(*el)));
            }
            r
        },
        El::Form => {
            let r = "form";
            proof {
                reveal_strlit("form");
                assert(r@ =~= bytes_chars(el_name_bytes(*el)));
            }
            r
        },
        El::Select => {
            let r = "select";
            proof {
                reveal_strlit("select");
                assert(r@ =~= bytes_chars(el_name_bytes(*el)));
            }
            r
        },
        El::Opt => {
            let r = "option";
            proof {
                reveal_strlit("option");
                assert(r@ =~= bytes_chars(el_name_bytes(*el)));
            }
            r
        },
        El::Ul => {
            let r = "ul";
            proof {
                reveal_strlit("ul");
                assert(r@ =~= bytes_chars(el_name_bytes(*el)));
            }
            r
        },
        El::Ol => {
            let r = "ol";
            proof {
                reveal_strlit("ol");
                assert(r@ =~= bytes_chars(el_name_bytes(*el)));
            }
            r
        },
        El::Li => {
            let r = "li";
            proof {
                reveal_strlit("li");
                assert(r@ =~= bytes_chars(el_name_bytes(*el)));
            }
            r
        },
        El::Table => {
            let r = "table";
            proof {
                reveal_strlit("table");
                assert(r@ =~= bytes_chars(el_name_bytes(*el)));
            }
            r
        },
        El::Tr => {
            let r = "tr";
            proof {
                reveal_strlit("tr");
                assert(r@ =~= bytes_chars(el_name_bytes(*el)));
            }
            r
        },
        El::Td => {
            let r = "td";
            proof {
                reveal_strlit("td");
                assert(r@ =~= bytes_chars(el_name_bytes(*el)));
            }
            r
        },
        El::Th => {
            let r = "th";
            proof {
                reveal_strlit("th");
                assert(r@ =~= bytes_chars(el_name_bytes(*el)));
            }
            r
        },
        El::Em => {
            let r = "em";
            proof {
                reveal_strlit("em");
                assert(r@ =~= bytes_chars(el_name_bytes(*el)));
            }
            r
        },
        El::B => {
            let r = "b";
            proof {
                reveal_strlit("b");
                assert(r@ =~= bytes_chars(el_name_bytes(*el)));
            }
            r
        },
        El::I => {
            let r = "i";
            proof {
                reveal_strlit("i");
                assert(r@ =~= bytes_chars(el_name_bytes(*el)));
            }
            r
        },
        El::Header => {
            let r = "header";
            proof {
                reveal_strlit("header");
                assert(r@ =~= bytes_chars(el_name_bytes(*el)));
            }
            r
        },
        El::Footer => {
            let r = "footer";
            proof {
                reveal_strlit("footer");
                assert(r@ =~= bytes_chars(el_name_bytes(*el)));
            }
            r
        },
        El::Article => {
            let r = "article";
            proof {
                reveal_strlit("article");
                assert(r@ =~= bytes_chars(el_name_bytes(*el)));
            }
            r
        },
        El::Aside => {
            let r = "aside";
            proof {
                reveal_strlit("aside");
                assert(r@ =~= bytes_chars(el_name_bytes(*el)));
            }
            r
        },
        El::Main => {
            let r = "main";
            proof {
                reveal_strlit("main");
                assert(r@ =~= bytes_chars(el_name_bytes(*el)));
            }
            r
        },
        El::Small => {
            let r = "small";
            proof {
                reveal_strlit("small");
                assert(r@ =~= bytes_chars(el_name_bytes(*el)));
            }
            r
        },
        El::U => {
            let r = "u";
            proof {
                reveal_strlit("u");
                assert(r@ =~= bytes_chars(el_name_bytes(*el)));
            }
            r
        },
        El::H5 => {
            let r = "h5";
            proof {
                reveal_strlit("h5");
                assert(r@ =~= bytes_chars(el_name_bytes(*el)));
            }
            r
        },
        El::H6 => {
            let r = "h6";
            proof {
                reveal_strlit("h6");
                assert(r@ =~= bytes_chars(el_name_bytes(*el)));
            }
            r
        },
        El::Nav => {
            let r = "nav";
            proof {
                reveal_strlit("nav");
                assert(r@ =~= bytes_chars(el_name_bytes(*el)));
            }
            r
        },
    }
}

} // verus!
