//! The parser's document-level behaviour, exercised end to end through
//! `parse_doc`.
use htmlparse::ast::{el_str, void_str, Attrib, El, Node, Tag, Void};
use htmlparse::parser::parse_doc;

fn void_tags() -> Vec<Void> {
    vec![
        Void::Img, Void::Input, Void::Br, Void::Link, Void::Meta, Void::Source, Void::Embed,
        Void::Param, Void::Command, Void::Keygen, Void::Hr, Void::Area, Void::Base, Void::Col,
        Void::Track, Void::Wbr,
    ]
}

fn el_tags() -> Vec<El> {
    vec![
        El::Div, El::A, El::H1, El::H2, El::P, El::H3, El::H4, El::Html, El::Head, El::Title,
        El::Body, El::Form, El::Select, El::Opt, El::Ul, El::Ol, El::Li, El::Table, El::Tr,
        El::Td, El::Th, El::Em, El::B, El::I, El::Header, El::Footer, El::Article, El::Aside,
        El::Main, El::Small, El::U, El::H5, El::H6, El::Nav,
    ]
}

#[test]
fn test_empty() {
    let res = parse_doc(b"");
    assert_eq!(Ok(Vec::new()), res);
}

#[test]
fn test_doctype() {
    let res = parse_doc(b"<!DOCTYPE html>");
    assert_eq!(
        Ok(vec![Node::Tag(Tag::Void {
            ident: Void::Doctype,
            attribs: Vec::new()
        })]),
        res
    );
    // Doctype then tag
    let res = parse_doc(b"<!DOCTYPE html><div></div>");
    assert_eq!(
        Ok(vec![
            Node::Tag(Tag::Void {
                ident: Void::Doctype,
                attribs: Vec::new()
            }),
            Node::Tag(Tag::El {
                ident: El::Div,
                attribs: Vec::new(),
                children: Vec::new()
            })
        ]),
        res
    );
}

#[test]
fn test_simple_tag() {
    let res = parse_doc(b"<div></div>");
    assert_eq!(
        Ok(vec![Node::Tag(Tag::El {
            ident: El::Div,
            attribs: Vec::new(),
            children: Vec::new()
        })]),
        res
    );
}

#[test]
fn test_void_tags() {
    let tags = void_tags();
    for tag in tags {
        let tag_str = void_str(&tag);
        let doc = format!("<{}>", tag_str);
        let res = parse_doc(doc.as_bytes());
        assert_eq!(
            Ok(vec![Node::Tag(Tag::Void {
                ident: tag,
                attribs: Vec::new()
            })]),
            res
        );
    }
}

#[test]
fn test_el_tags() {
    let tags = el_tags();
    for tag in tags {
        let tag_str = el_str(&tag);
        for doc in &[
            format!("<{}/>", tag_str),
            format!("<{}></{}>", tag_str, tag_str),
        ] {
            let res = parse_doc(doc.as_bytes());
            assert_eq!(
                Ok(vec![Node::Tag(Tag::El {
                    ident: tag.clone(),
                    attribs: Vec::new(),
                    children: Vec::new()
                })]),
                res
            );
        }
    }
}

#[test]
fn test_attrib() {
    // Single attrib
    let tags = void_tags();
    for tag in tags {
        let tag_str = void_str(&tag);
        let doc = format!("<{} custom=\"value\">", tag_str);
        let res = parse_doc(doc.as_bytes());
        assert_eq!(
            Ok(vec![Node::Tag(Tag::Void {
                ident: tag,
                attribs: vec![Attrib::Other("custom".into(), Some("value".into()))]
            })]),
            res
        );
    }
    let tags = el_tags();
    for tag in tags {
        let tag_str = el_str(&tag);
        let doc = format!("<{} custom=\"value\"/>", tag_str);
        let res = parse_doc(doc.as_bytes());
        assert_eq!(
            Ok(vec![Node::Tag(Tag::El {
                ident: tag,
                attribs: vec![Attrib::Other("custom".into(), Some("value".into()))],
                children: Vec::new()
            })]),
            res
        );
    }
}

#[test]
fn test_attribs() {
    // Multiple attrib
    let tags = void_tags();
    for tag in tags {
        let tag_str = void_str(&tag);
        let doc = format!(
            r#"<{}
                    id="id-val"
                    class="cls-val cls-val2"
                    onclick ="onclick-val"
                    href= "https://example.com"
                    custom="value"
                    singlequote='sq'
                    noquote= ok noquote2=ok2 >"#,
            tag_str
        );
        let res = parse_doc(doc.as_bytes());
        assert_eq!(
            Ok(vec![Node::Tag(Tag::Void {
                ident: tag,
                attribs: vec![
                    Attrib::Id("id-val".into()),
                    Attrib::Cls("cls-val cls-val2".into()),
                    Attrib::OnClick("onclick-val".into()),
                    Attrib::Href("https://example.com".into()),
                    Attrib::Other("custom".into(), Some("value".into())),
                    Attrib::Other("singlequote".into(), Some("sq".into())),
                    Attrib::Other("noquote".into(), Some("ok".into())),
                    Attrib::Other("noquote2".into(), Some("ok2".into())),
                ]
            })]),
            res
        );
    }
}

#[test]
fn test_children() {
    let doc = r#"<div><hr></div>"#;
    let res = parse_doc(doc.as_bytes());
    assert_eq!(
        Ok(vec![Node::Tag(Tag::El {
            ident: El::Div,
            attribs: Vec::new(),
            children: vec![Node::Tag(Tag::Void {
                ident: Void::Hr,
                attribs: Vec::new()
            })]
        })]),
        res
    );
    let doc = r#"<div><hr><hr></div>"#;
    let res = parse_doc(doc.as_bytes());
    assert_eq!(
        Ok(vec![Node::Tag(Tag::El {
            ident: El::Div,
            attribs: Vec::new(),
            children: vec![
                Node::Tag(Tag::Void {
                    ident: Void::Hr,
                    attribs: Vec::new()
                }),
                Node::Tag(Tag::Void {
                    ident: Void::Hr,
                    attribs: Vec::new()
                })
            ]
        })]),
        res
    );
    let doc = r#"<ul><li>Item1</li><li>Item2</li></ul>"#;
    let res = parse_doc(doc.as_bytes());
    assert_eq!(
        Ok(vec![Node::Tag(Tag::El {
            ident: El::Ul,
            attribs: Vec::new(),
            children: vec![
                Node::Tag(Tag::El {
                    ident: El::Li,
                    attribs: Vec::new(),
                    children: vec![Node::Text("Item1".into())]
                }),
                Node::Tag(Tag::El {
                    ident: El::Li,
                    attribs: Vec::new(),
                    children: vec![Node::Text("Item2".into())]
                }),
            ]
        })]),
        res
    );
}

#[test]
fn test_script() {
    let script = r#"
            let x = 1;
            let y = "\"";
            let z = "Ok</script>";
        "#;
    let res = parse_doc(format!("<script>{}</script>", script).as_bytes());
    assert_eq!(
        Ok(vec![Node::Script {
            script: script.into(),
            typ: None
        }]),
        res
    );
}

#[test]
fn test_style() {
    let style = r#"#an-id {font-weight: bold;}"#;
    let res = parse_doc(format!("<style>{}</style>", style).as_bytes());
    assert_eq!(Ok(vec![Node::Style(style.into())]), res);
}

#[test]
fn test_stylesheet_link() {
    let doc = r#"<link
            rel='stylesheet'
            id='front-css'
            href='https://example.com/wp-content/themes/theme/css/front.css'
            type='text/css'
            media='all' />"#;
    let res = parse_doc(doc.as_bytes());
    assert_eq!(
        Ok(vec![Node::Tag(Tag::Void {
            ident: Void::Link,
            attribs: vec![
                Attrib::Other("rel".into(), Some("stylesheet".into())),
                Attrib::Id("front-css".into()),
                Attrib::Href("https://example.com/wp-content/themes/theme/css/front.css".into()),
                Attrib::Other("type".into(), Some("text/css".into())),
                Attrib::Other("media".into(), Some("all".into())),
            ]
        })]),
        res
    );
}
