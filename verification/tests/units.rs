//! Unit tests of the byte-slice primitives, the decoder, the string
//! helpers and the escapers.
use htmlparse::escape::{escape_string, json_escape_string, ArrKey};
use htmlparse::ast::{Attrib, Node};
use htmlparse::parse_utils::{
    err, in_range, is_alpha, is_alphanum, is_ident_char, is_numeric, is_space, lc_char, next_utf8,
    sbuf, sbuf_chr, strip_space, usize_dec_str, ByteArrayExt, ParseError,
};
use htmlparse::parser::{
    parse_attr_value, parse_attributes, parse_ident, parse_quotable_content, parse_text,
};
use htmlparse::replace::{replace_urls, replace_urls_rev};

#[test]
fn character_classes() {
    assert!(is_space(b' ') && is_space(b'\t') && is_space(b'\n') && is_space(b'\r'));
    assert!(!is_space(b'a'));
    assert!(in_range(b'c', b'a', b'z') && !in_range(b'C', b'a', b'z'));
    assert!(is_alpha(b'a') && is_alpha(b'Z') && !is_alpha(b'1'));
    assert!(is_numeric(b'0') && !is_numeric(b'x'));
    assert!(is_alphanum(b'g') && is_alphanum(b'7') && !is_alphanum(b'-'));
    assert!(is_ident_char(b'-') && is_ident_char(b'x') && !is_ident_char(b'>'));
    assert_eq!(lc_char(b'A'), b'a');
    assert_eq!(lc_char(b'z'), b'z');
    assert_eq!(lc_char(b'5'), b'5');
}

#[test]
fn string_buffers() {
    assert_eq!(sbuf("seed", 16), "seed".to_string());
    assert_eq!(sbuf_chr('x', 4), "x".to_string());
    assert_eq!(usize_dec_str(0), "0".to_string());
    assert_eq!(usize_dec_str(42), "42".to_string());
    assert_eq!(usize_dec_str(90210), "90210".to_string());
}

#[test]
fn utf8_decoding() {
    assert_eq!(next_utf8(b"abc"), Some((1, 'a')));
    assert_eq!(next_utf8("\u{e9}x".as_bytes()), Some((2, '\u{e9}')));
    assert_eq!(next_utf8("\u{20ac}".as_bytes()), Some((3, '\u{20ac}')));
    assert_eq!(next_utf8("\u{1f600}".as_bytes()), Some((4, '\u{1f600}')));
    assert_eq!(next_utf8(b""), None);
    // A lone 0xFF is not valid UTF-8: one byte consumed, replacement char.
    assert_eq!(next_utf8(&[0xFF]), Some((1, '\u{FFFD}')));
}

#[test]
fn whitespace_stripping() {
    assert_eq!(strip_space(b"  \t\na"), b"a");
    assert_eq!(strip_space(b"a  "), b"a  ");
    assert_eq!(strip_space(b"   "), b"");
}

#[test]
fn cursor_primitives() {
    let s: &[u8] = b"abc";
    assert_eq!(s.chr(), b'a');
    assert_eq!(s.parse_chr(b'a'), Some(&b"bc"[..]));
    assert_eq!(s.parse_chr(b'b'), None);
    let sp: &[u8] = b"  >x";
    assert_eq!(sp.parse_chr_opt_space(b'>'), Some(&b"x"[..]));
    assert_eq!(s.raw(2), b'c');
    assert!(s.is(b'a') && !s.is(b'b'));
    assert!(!s.is_uc());
    let uc: &[u8] = b"Comp";
    assert!(uc.is_uc());
    assert!(s.is_ident());
    assert_eq!(s.parse_bstr(b"ab"), Some(&b"c"[..]));
    assert_eq!(s.parse_bstr(b"ac"), None);
    let spaced: &[u8] = b"  div>";
    assert_eq!(spaced.parse_bstr_opt_space(b"div"), Some(&b">"[..]));
    // Ident-terminated matches: the byte after must not be an ident char.
    let d: &[u8] = b"div>";
    assert_eq!(d.parse_ident(b"div"), Some(&b">"[..]));
    let dz: &[u8] = b"divz>";
    assert_eq!(dz.parse_ident(b"div"), None);
    let iv: &[u8] = b"iv>";
    assert_eq!(iv.parse_ident2([b'i', b'v']), Some(&b">"[..]));
    let r: &[u8] = b"r>";
    assert_eq!(r.parse_ident1(b'r'), Some(&b">"[..]));
    let close: &[u8] = b"div >rest";
    assert_eq!(close.close_tag3(b'd', b'i', b'v'), Some(&b"rest"[..]));
    let wrong: &[u8] = b"dip>";
    assert_eq!(wrong.close_tag3(b'd', b'i', b'v'), None);
}

#[test]
fn length_guard_message() {
    let s: &[u8] = b"ab";
    assert_eq!(s.len_gt(1), Ok(()));
    assert_eq!(
        s.len_gt(5),
        Err(ParseError::Msg(
            "Required length to be greater than 5".into(),
            "ab".into()
        ))
    );
}

#[test]
fn error_builder() {
    let r: Result<(), ParseError> = err("boom", b"xyz");
    assert_eq!(r, Err(ParseError::Msg("boom".into(), "xyz".into())));
}

#[test]
fn attr_values() {
    assert_eq!(
        parse_attr_value(b"=\"v\" x"),
        Ok((&b" x"[..], Some("v".to_string())))
    );
    assert_eq!(
        parse_attr_value(b"='sq'x"),
        Ok((&b"x"[..], Some("sq".to_string())))
    );
    // Unquoted values consume their terminator.
    assert_eq!(
        parse_attr_value(b"=ok more"),
        Ok((&b"more"[..], Some("ok".to_string())))
    );
    // No equal sign: a valueless attribute, nothing consumed.
    assert_eq!(parse_attr_value(b"x"), Ok((&b"x"[..], None)));
    // Whitespace around the equal sign is tolerated.
    assert_eq!(
        parse_attr_value(b"= \"v\">"),
        Ok((&b">"[..], Some("v".to_string())))
    );
}

#[test]
fn attributes_lists() {
    assert_eq!(
        parse_attributes(b" id=\"a\">rest"),
        Ok((&b"rest"[..], false, vec![Attrib::Id("a".to_string())]))
    );
    assert_eq!(
        parse_attributes(b"/>rest"),
        Ok((&b"rest"[..], true, vec![]))
    );
}

#[test]
fn text_nodes() {
    let (rest, node) = parse_text(b"ab <c");
    assert_eq!(rest, b"<c");
    assert_eq!(node, Node::Text("ab".to_string()));
}

#[test]
fn quotable_content() {
    let (rest, content) = parse_quotable_content(b"let z = \"Ok</script>\";</script>");
    assert_eq!(rest, b"</script>");
    assert_eq!(content, "let z = \"Ok</script>\";".to_string());
    // A `<` that opens no closing tag is content.
    let (rest, content) = parse_quotable_content(b"a < b</style>");
    assert_eq!(rest, b"</style>");
    assert_eq!(content, "a < b".to_string());
}

#[test]
fn identifiers() {
    assert_eq!(
        parse_ident(b"div x"),
        Ok((&b" x"[..], "div".to_string()))
    );
    assert_eq!(
        parse_ident(b"1x"),
        Err(ParseError::Msg(
            "Expected alpha char as first in identifier".into(),
            "1x".into()
        ))
    );
}

#[test]
fn json_escaping() {
    assert_eq!(
        json_escape_string("a\"b\n\t\\c", String::new()),
        "\"a\\\"b\\n\\t\\\\c\"".to_string()
    );
    // CR is dropped, control characters become `\u` escapes.
    assert_eq!(
        json_escape_string("x\r\u{0007}", String::new()),
        "\"x\\u0007\"".to_string()
    );
    // Non-ASCII characters are hex escaped.
    assert_eq!(
        json_escape_string("\u{20ac}", String::new()),
        "\"\\u20ac\"".to_string()
    );
    assert_eq!(
        json_escape_string("\u{1f600}", String::new()),
        "\"\\u1f600\"".to_string()
    );
    // The buffer is appended to, not replaced.
    assert_eq!(
        json_escape_string("a", String::from("k: ")),
        "k: \"a\"".to_string()
    );
}

#[test]
fn plain_escaping() {
    assert_eq!(
        escape_string("a\"b\\c", String::new()),
        "\"a\\\"b\\\\c\"".to_string()
    );
    // CR dropped, newlines and unicode kept verbatim.
    assert_eq!(
        escape_string("l1\r\nl2 \u{20ac}", String::new()),
        "\"l1\nl2 \u{20ac}\"".to_string()
    );
}

#[test]
fn url_replacement() {
    assert_eq!(
        replace_urls(
            "a http://x/p b".to_string(),
            vec![("http://x".to_string(), "https://y".to_string())],
            false
        ),
        "a https://y/p b".to_string()
    );
    // With escaped forms, slash-escaped occurrences are rewritten too.
    assert_eq!(
        replace_urls(
            "u http:\\/\\/x\\/p".to_string(),
            vec![("http://x".to_string(), "https://y".to_string())],
            true
        ),
        "u https:\\/\\/y\\/p".to_string()
    );
    // An empty source text inserts the target at every boundary.
    assert_eq!(
        replace_urls(
            "ab".to_string(),
            vec![(String::new(), "-".to_string())],
            false
        ),
        "-a-b-".to_string()
    );
    // Overlapping occurrences are consumed leftmost first.
    assert_eq!(
        replace_urls(
            "aaa".to_string(),
            vec![("aa".to_string(), "b".to_string())],
            false
        ),
        "ba".to_string()
    );
}

#[test]
fn url_replacement_reversed() {
    // The reversed form reads each pair as (target, source).
    assert_eq!(
        replace_urls_rev(
            "a https://y/p".to_string(),
            vec![("http://x".to_string(), "https://y".to_string())],
            false
        ),
        "a http://x/p".to_string()
    );
}

#[test]
fn array_keys() {
    assert_eq!(ArrKey::Int(3), ArrKey::Int(3));
    assert_ne!(ArrKey::Int(3), ArrKey::Str("3".to_string()));
}
