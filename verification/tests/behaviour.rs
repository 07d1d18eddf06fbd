//! Scenario tests: components, comments, scripts, text trimming, and the
//! exact errors the grammar prescribes.
use htmlparse::ast::{Attrib, El, Node, Tag, Void};
use htmlparse::parse_utils::ParseError;
use htmlparse::parser::parse_doc;

#[test]
fn component_self_closed() {
    let res = parse_doc(b"<Comp/>");
    assert_eq!(
        Ok(vec![Node::Component {
            name: "Comp".into(),
            props: Vec::new(),
            children: Vec::new()
        }]),
        res
    );
}

#[test]
fn component_props() {
    let res = parse_doc(b"<Comp width=\"12\" high/>");
    assert_eq!(
        Ok(vec![Node::Component {
            name: "Comp".into(),
            props: vec![
                ("width".into(), Some("12".into())),
                ("high".into(), None),
            ],
            children: Vec::new()
        }]),
        res
    );
}

#[test]
fn component_with_children() {
    // An explicitly closed component collects children; its closing tag
    // is matched by literal name.
    let res = parse_doc(b"<Comp>text</Comp>");
    assert_eq!(
        Ok(vec![Node::Component {
            name: "Comp".into(),
            props: Vec::new(),
            children: vec![Node::Text("text".into())]
        }]),
        res
    );
    let res = parse_doc(b"<Comp><hr></Comp>");
    assert_eq!(
        Ok(vec![Node::Component {
            name: "Comp".into(),
            props: Vec::new(),
            children: vec![Node::Tag(Tag::Void {
                ident: Void::Hr,
                attribs: Vec::new()
            })]
        }]),
        res
    );
    // Whitespace is tolerated inside the closing tag.
    let res = parse_doc(b"<Comp></ Comp >");
    assert_eq!(
        Ok(vec![Node::Component {
            name: "Comp".into(),
            props: Vec::new(),
            children: Vec::new()
        }]),
        res
    );
}

#[test]
fn error_component_close_mismatch() {
    let res = parse_doc(b"<Comp></Other>");
    assert_eq!(
        Err(ParseError::Msg("Expecting end tag".into(), "Other>".into())),
        res
    );
}

#[test]
fn error_snippet_is_lossy() {
    // Ill-formed bytes in the snippet become replacement characters, one
    // per maximal subpart: an overlong sequence never decodes to a real
    // character.
    let res = parse_doc(&[b'<', b'b', b'r', b' ', b'a', b'=', b'"', 0xC0, 0xAF, b'>']);
    assert_eq!(
        Err(ParseError::Msg(
            "Expected ending double quote".into(),
            "\"\u{FFFD}\u{FFFD}>".into()
        )),
        res
    );
}

#[test]
fn component_priority_over_elements() {
    // A capitalized name is a component even when it spells an element.
    let res = parse_doc(b"<Div/>");
    assert_eq!(
        Ok(vec![Node::Component {
            name: "Div".into(),
            props: Vec::new(),
            children: Vec::new()
        }]),
        res
    );
    let res = parse_doc(b"<div><Img/></div>");
    assert_eq!(
        Ok(vec![Node::Tag(Tag::El {
            ident: El::Div,
            attribs: Vec::new(),
            children: vec![Node::Component {
                name: "Img".into(),
                props: Vec::new(),
                children: Vec::new()
            }]
        })]),
        res
    );
}

#[test]
fn text_trimming() {
    // Trailing whitespace trimmed, interior whitespace preserved.
    let res = parse_doc(b"<li>a b \t\n</li>");
    assert_eq!(
        Ok(vec![Node::Tag(Tag::El {
            ident: El::Li,
            attribs: Vec::new(),
            children: vec![Node::Text("a b".into())]
        })]),
        res
    );
}

#[test]
fn comment_node() {
    let res = parse_doc(b"<div><!--a note--></div>");
    assert_eq!(
        Ok(vec![Node::Tag(Tag::El {
            ident: El::Div,
            attribs: Vec::new(),
            children: vec![Node::Comment("a note".into())]
        })]),
        res
    );
}

#[test]
fn comment_without_close_runs_to_end_of_input() {
    // An unterminated comment silently consumes the rest of the input.
    // (At the very start of a document, `<!` would begin a doctype.)
    let res = parse_doc(b"<hr><!--left open");
    assert_eq!(
        Ok(vec![
            Node::Tag(Tag::Void {
                ident: Void::Hr,
                attribs: Vec::new()
            }),
            Node::Comment("left open".into())
        ]),
        res
    );
}

#[test]
fn script_src_tag() {
    let res = parse_doc(b"<script src=\"a.js\" defer></script>");
    assert_eq!(
        Ok(vec![Node::ScriptSrc {
            src: "a.js".into(),
            defer: true,
            asyc: false,
            typ: None
        }]),
        res
    );
}

#[test]
fn unicode_text() {
    let res = parse_doc("<p>caf\u{e9} \u{20ac}5</p>".as_bytes());
    assert_eq!(
        Ok(vec![Node::Tag(Tag::El {
            ident: El::P,
            attribs: Vec::new(),
            children: vec![Node::Text("caf\u{e9} \u{20ac}5".into())]
        })]),
        res
    );
}

#[test]
fn nested_other_tags() {
    let res = parse_doc(b"<section><hr></section>");
    assert_eq!(
        Ok(vec![Node::Tag(Tag::Other {
            ident: "section".into(),
            attribs: Vec::new(),
            children: vec![Node::Tag(Tag::Void {
                ident: Void::Hr,
                attribs: Vec::new()
            })]
        })]),
        res
    );
}

#[test]
fn error_missing_close_tag() {
    // A truncated document errs, naming the missing closing tag.
    let res = parse_doc(b"<div>");
    assert_eq!(
        Err(ParseError::Msg(
            "Eof, expecting close tag for: div".into(),
            "".into()
        )),
        res
    );
}

#[test]
fn error_wrong_close_tag() {
    let res = parse_doc(b"<ul></ol>");
    assert_eq!(
        Err(ParseError::Msg(
            "Expecting close tag for: ul".into(),
            "ol>".into()
        )),
        res
    );
}

#[test]
fn error_unexpected_closing_tag() {
    let res = parse_doc(b"</div>");
    assert_eq!(
        Err(ParseError::Msg(
            "Unexpected closing tag".into(),
            "div>".into()
        )),
        res
    );
}

#[test]
fn error_unterminated_attribute_quote() {
    let res = parse_doc(b"<br a=\"x>");
    assert_eq!(
        Err(ParseError::Msg(
            "Expected ending double quote".into(),
            "\"x>".into()
        )),
        res
    );
}

#[test]
fn error_specialized_attribute_requires_value() {
    let res = parse_doc(b"<br id>");
    assert_eq!(
        Err(ParseError::Msg(
            "Id attribute requires value".into(),
            "d>".into()
        )),
        res
    );
}

#[test]
fn error_unrecognized_bang() {
    let res = parse_doc(b"<div><!x</div>");
    assert_eq!(
        Err(ParseError::Msg(
            "Unrecognized <!".into(),
            "!x</div>".into()
        )),
        res
    );
}

#[test]
fn error_snippet_is_bounded() {
    // The error snippet keeps at most 100 bytes of the remaining input.
    let mut doc: Vec<u8> = b"<br a=\"".to_vec();
    doc.extend(std::iter::repeat(b'x').take(200));
    let res = parse_doc(&doc);
    let mut around = String::from("\"");
    for _ in 0..99 {
        around.push('x');
    }
    assert_eq!(
        Err(ParseError::Msg("Expected ending double quote".into(), around)),
        res
    );
}

#[test]
fn error_style_with_type_cannot_close() {
    // The grammar demands a second `<` after a `type` attribute's body, so
    // such a style tag never closes.
    let res = parse_doc(b"<style type=\"text/css\">x</style>");
    assert_eq!(
        Err(ParseError::Msg(
            "Expecting style end tag".into(),
            "/style>".into()
        )),
        res
    );
}

#[test]
fn error_slash_without_bracket() {
    let res = parse_doc(b"<br / x>");
    assert_eq!(
        Err(ParseError::Msg("Expected '>' after '/'".into(), " x>".into())),
        res
    );
}

#[test]
fn error_unquoted_value_at_end_of_input() {
    let res = parse_doc(b"<br a=x");
    assert_eq!(
        Err(ParseError::Msg(
            "Expected end of unquoted attribute".into(),
            "x".into()
        )),
        res
    );
}

#[test]
fn error_unterminated_single_quote() {
    let res = parse_doc(b"<br a='x>");
    assert_eq!(
        Err(ParseError::Msg(
            "Expected ending single quote".into(),
            "'x>".into()
        )),
        res
    );
}

#[test]
fn error_unterminated_doctype() {
    let res = parse_doc(b"<!DOCTYPE html");
    assert_eq!(
        Err(ParseError::Msg(
            "Failed to parse doctype".into(),
            "DOCTYPE html".into()
        )),
        res
    );
}

#[test]
fn error_wrong_other_close() {
    let res = parse_doc(b"<section><hr></div>");
    assert_eq!(
        Err(ParseError::Msg(
            "Expected closing tag: section".into(),
            "div>".into()
        )),
        res
    );
}

#[test]
fn error_other_close_incomplete() {
    let res = parse_doc(b"<section></section x");
    assert_eq!(
        Err(ParseError::Msg(
            "Closing tag not complete".into(),
            " x".into()
        )),
        res
    );
}

#[test]
fn error_component_missing_bracket() {
    let res = parse_doc(b"<Comp/x");
    assert_eq!(Err(ParseError::Msg("Expecting '>'".into(), "x".into())), res);
}

#[test]
fn error_component_bad_prop() {
    let res = parse_doc(b"<Comp 1x/>");
    assert_eq!(
        Err(ParseError::Msg(
            "Expected alpha char as first in prop".into(),
            "x/>".into()
        )),
        res
    );
}

#[test]
fn error_unknown_script_attribute() {
    let res = parse_doc(b"<script foo></script>");
    assert_eq!(
        Err(ParseError::Msg(
            "Unrecognized script attribute".into(),
            "oo></script>".into()
        )),
        res
    );
}

#[test]
fn error_script_src_expected() {
    let res = parse_doc(b"<script defer></script>");
    assert_eq!(
        Err(ParseError::Msg("Src attribute expected".into(), "".into())),
        res
    );
}

#[test]
fn error_script_src_required() {
    let res = parse_doc(b"<script />");
    assert_eq!(
        Err(ParseError::Msg("Script src required".into(), "".into())),
        res
    );
}

#[test]
fn error_slash_in_style_tag() {
    let res = parse_doc(b"<style /x>");
    assert_eq!(
        Err(ParseError::Msg(
            "Unexpected / in style tag".into(),
            "x>".into()
        )),
        res
    );
}

#[test]
fn error_unknown_style_attribute() {
    let res = parse_doc(b"<style foo>");
    assert_eq!(
        Err(ParseError::Msg(
            "Unrecognized attribute in style tag".into(),
            "oo>".into()
        )),
        res
    );
}

#[test]
fn error_stray_bracket_near_end() {
    // A `<` with fewer than three bytes remaining can never open a tag,
    // and text cannot advance past it.
    let res = parse_doc(b"ab<x");
    assert_eq!(
        Err(ParseError::Msg("Unexpected '<'".into(), "<x".into())),
        res
    );
}

#[test]
fn error_input_ends_inside_tag() {
    let res = parse_doc(b"<br x");
    assert_eq!(
        Err(ParseError::Msg(
            "Required length to be greater than 0".into(),
            "".into()
        )),
        res
    );
}

#[test]
fn doctype_alone() {
    let res = parse_doc(b"  <!DOCTYPE html>  ");
    assert_eq!(
        Ok(vec![Node::Tag(Tag::Void {
            ident: Void::Doctype,
            attribs: Vec::new()
        })]),
        res
    );
}
