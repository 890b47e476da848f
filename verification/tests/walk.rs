use mod_manager::events::XmlEvent;
use mod_manager::path::PathStack;
use mod_manager::values::{find_entry, XmlValue};
use mod_manager::walk::{read_text, Found, XmlError};

fn start(name: &[u8]) -> XmlEvent {
    let mut markup = b"<".to_vec();
    markup.extend_from_slice(name);
    markup.push(b'>');
    XmlEvent::Start { name: name.to_vec(), markup }
}

fn text(content: &[u8]) -> XmlEvent {
    XmlEvent::Text { content: content.to_vec(), markup: content.to_vec() }
}

fn end() -> XmlEvent {
    XmlEvent::End { markup: b"</x>".to_vec() }
}

fn entry(path: &str, name: &str, value: &str) -> XmlValue {
    XmlValue { path: path.to_string(), name: name.to_string(), value: value.to_string() }
}

#[test]
fn stack_joins_the_ancestors_with_slashes() {
    let mut stack = PathStack::new();
    assert_eq!(stack.depth(), 0);
    stack.enter("A".to_string());
    assert_eq!(stack.path(), "");
    stack.enter("C".to_string());
    assert_eq!(stack.path(), "A");
    stack.enter("D".to_string());
    assert_eq!(stack.depth(), 3);
    assert_eq!(stack.path(), "A/C");
    let leaf = stack.leaf("2.0".to_string());
    assert_eq!(leaf.path, "A/C");
    assert_eq!(leaf.name, "D");
    assert_eq!(leaf.value, "2.0");
}

#[test]
fn stack_leaves_innermost_first() {
    let mut stack = PathStack::new();
    stack.enter("A".to_string());
    stack.enter("B".to_string());
    assert!(stack.leave());
    assert_eq!(stack.depth(), 1);
    assert_eq!(stack.leaf("v".to_string()).name, "A");
    assert!(stack.leave());
    assert!(!stack.leave());
    assert_eq!(stack.depth(), 0);
}

#[test]
fn visit_follows_the_open_elements() {
    let mut stack = PathStack::new();
    assert!(matches!(stack.visit(&start(b"A")), Ok(Found::Nothing)));
    assert!(matches!(stack.visit(&start(b"B")), Ok(Found::Nothing)));
    match stack.visit(&text(b"1 &amp; 2")) {
        Ok(Found::Leaf(leaf)) => {
            assert_eq!(leaf.path, "A");
            assert_eq!(leaf.name, "B");
            assert_eq!(leaf.value, "1 & 2");
        }
        other => panic!("no leaf: {:?}", other),
    }
    assert!(matches!(stack.visit(&text(b" \n\t")), Ok(Found::Nothing)));
    let passed_over = vec![
        XmlEvent::Empty { markup: b"<C/>".to_vec() },
        XmlEvent::CData { markup: b"<![CDATA[x]]>".to_vec() },
        XmlEvent::Comment { markup: b"<!--c-->".to_vec() },
        XmlEvent::Decl { markup: b"<?xml version=\"1.0\"?>".to_vec() },
        XmlEvent::PI { markup: b"<?p i?>".to_vec() },
        XmlEvent::DocType { markup: b"<!DOCTYPE a>".to_vec() },
    ];
    for event in &passed_over {
        assert!(matches!(stack.visit(event), Ok(Found::Nothing)));
    }
    assert_eq!(stack.depth(), 2);
    assert!(matches!(stack.visit(&end()), Ok(Found::Nothing)));
    assert!(matches!(stack.visit(&XmlEvent::Eof), Err(XmlError::Parse)));
    assert_eq!(stack.depth(), 1);
    assert!(matches!(stack.visit(&end()), Ok(Found::Nothing)));
    assert!(matches!(stack.visit(&XmlEvent::Eof), Ok(Found::Done)));
}

#[test]
fn visit_refuses_what_is_malformed() {
    let mut stack = PathStack::new();
    assert!(matches!(stack.visit(&end()), Err(XmlError::Parse)));
    assert!(matches!(stack.visit(&start(b"\xc3\x28")), Err(XmlError::Encoding)));
    assert_eq!(stack.depth(), 0);
    assert!(matches!(stack.visit(&text(b"\xff &bogus;")), Ok(Found::Nothing)));
    assert!(matches!(stack.visit(&start(b"A")), Ok(Found::Nothing)));
    assert!(matches!(stack.visit(&text(b"\xff")), Err(XmlError::Encoding)));
    assert!(matches!(stack.visit(&text(b"&bogus;")), Err(XmlError::Parse)));
    assert!(matches!(stack.visit(&text(b"a & b")), Err(XmlError::Parse)));
    assert_eq!(stack.depth(), 1);
}

#[test]
fn read_text_tells_blank_from_text() {
    assert_eq!(read_text(b"abc"), Ok(Some("abc".to_string())));
    assert_eq!(read_text(b" a "), Ok(Some(" a ".to_string())));
    assert_eq!(read_text(b"&#x41;"), Ok(Some("A".to_string())));
    assert_eq!(read_text(b""), Ok(None));
    assert_eq!(read_text(b" \r\n\t"), Ok(None));
    assert_eq!(read_text(b"&#32;"), Ok(None));
    assert_eq!(read_text(b"\xe3\x80\x80"), Ok(None));
    assert_eq!(read_text(b"\xe3\x80"), Err(XmlError::Encoding));
    assert_eq!(read_text(b"&#0;"), Err(XmlError::Parse));
    assert_eq!(read_text(b"&amp"), Err(XmlError::Parse));
}

#[test]
fn markup_of_each_event_kind() {
    assert_eq!(start(b"A").markup(), b"<A>");
    assert_eq!(end().markup(), b"</x>");
    assert_eq!(text(b"t").markup(), b"t");
    assert_eq!(XmlEvent::Empty { markup: b"<C/>".to_vec() }.markup(), b"<C/>");
    assert_eq!(XmlEvent::CData { markup: b"<![CDATA[x]]>".to_vec() }.markup(), b"<![CDATA[x]]>");
    assert_eq!(XmlEvent::Comment { markup: b"<!--c-->".to_vec() }.markup(), b"<!--c-->");
    assert_eq!(XmlEvent::Decl { markup: b"<?xml?>".to_vec() }.markup(), b"<?xml?>");
    assert_eq!(XmlEvent::PI { markup: b"<?p i?>".to_vec() }.markup(), b"<?p i?>");
    assert_eq!(XmlEvent::DocType { markup: b"<!DOCTYPE a>".to_vec() }.markup(), b"<!DOCTYPE a>");
    assert_eq!(XmlEvent::Eof.markup(), b"");
}

#[test]
fn find_entry_gives_the_first_match() {
    let values = vec![
        entry("A", "B", "1"),
        entry("A/B", "C", "2"),
        entry("A", "B", "3"),
        entry("", "A", "4"),
    ];
    let path = |text: &str| text.to_string();
    assert_eq!(find_entry(&values, &path("A"), &path("B")), Some(0));
    assert_eq!(find_entry(&values, &path("A/B"), &path("C")), Some(1));
    assert_eq!(find_entry(&values, &path(""), &path("A")), Some(3));
    assert_eq!(find_entry(&values, &path("A"), &path("C")), None);
    assert_eq!(find_entry(&values, &path("B"), &path("A")), None);
    assert_eq!(find_entry(&[], &path("A"), &path("B")), None);
}

#[test]
fn clone_keeps_all_three_fields() {
    let value = entry("A/B", "C", "2");
    let copy = value.clone();
    assert_eq!(copy.path, "A/B");
    assert_eq!(copy.name, "C");
    assert_eq!(copy.value, "2");
}

fn has_white_space_property(c: char) -> bool {
    matches!(
        c,
        '\u{9}'..='\u{d}'
            | ' '
            | '\u{85}'
            | '\u{a0}'
            | '\u{1680}'
            | '\u{2000}'..='\u{200a}'
            | '\u{2028}'
            | '\u{2029}'
            | '\u{202f}'
            | '\u{205f}'
            | '\u{3000}'
    )
}

#[test]
fn blank_is_the_white_space_property_of_every_character() {
    let mut text = String::new();
    for code in 0..=0x10ffffu32 {
        let Some(c) = char::from_u32(code) else {
            continue;
        };
        if c == '&' {
            continue;
        }
        text.clear();
        text.push(c);
        let expected = if has_white_space_property(c) { None } else { Some(text.clone()) };
        assert_eq!(read_text(text.as_bytes()), Ok(expected), "U+{:04X}", code);
    }
}

#[test]
fn blank_looks_at_every_character() {
    assert_eq!(read_text("\u{2003}\u{a0}\t".as_bytes()), Ok(None));
    assert_eq!(read_text("\u{2003}x\u{a0}".as_bytes()), Ok(Some("\u{2003}x\u{a0}".to_string())));
    assert_eq!(read_text("\u{200b}".as_bytes()), Ok(Some("\u{200b}".to_string())));
    assert_eq!(read_text("\u{180e}".as_bytes()), Ok(Some("\u{180e}".to_string())));
    assert_eq!(read_text("\u{feff}".as_bytes()), Ok(Some("\u{feff}".to_string())));
}

#[test]
fn text_without_ampersand_stands_for_itself() {
    assert_eq!(read_text(b"a;b #x41; lt;"), Ok(Some("a;b #x41; lt;".to_string())));
    assert_eq!(read_text("caf\u{e9}<>\"'".as_bytes()), Ok(Some("caf\u{e9}<>\"'".to_string())));
}
