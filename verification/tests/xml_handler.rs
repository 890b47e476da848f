use mod_manager::values::XmlValue;
use mod_manager::walk::XmlError;
use mod_manager::xml_handler::{ends_inside_tag, XmlHandler};

fn triple(value: &XmlValue) -> (&str, &str, &str) {
    (value.path.as_str(), value.name.as_str(), value.value.as_str())
}

fn entry(path: &str, name: &str, value: &str) -> XmlValue {
    XmlValue { path: path.to_string(), name: name.to_string(), value: value.to_string() }
}

const CHARACTER: &str = "<?xml version=\"1.0\" encoding=\"utf-8\"?>\n\
<Character>\n\
  <!-- base stats -->\n\
  <Stats speed=\"fast\" kind='a>b'>\n\
    <Speed>3.60</Speed>\n\
    <Health> 100 </Health>\n\
  </Stats>\n\
  <Name>Zed &amp; Co</Name>\n\
  <Note><![CDATA[1 < 2]]></Note>\n\
  <Empty/>\n\
</Character>\n";

#[test]
fn extraction_gives_paths_names_and_values() {
    let mut handler = XmlHandler::new();
    let values = handler.load_file(b"<A><B>1.0</B><C><D>2.0</D></C></A>").unwrap();
    assert_eq!(values.len(), 2);
    assert_eq!(triple(&values[0]), ("A", "B", "1.0"));
    assert_eq!(triple(&values[1]), ("A/C", "D", "2.0"));
}

#[test]
fn targeted_substitution_changes_one_text_node() {
    let mut handler = XmlHandler::new();
    let input = b"<A><B>1.0</B><C><D>2.0</D></C></A>";
    let mut values = handler.load_file(input).unwrap();
    values[1].value = "5.0".to_string();
    let output = handler.save_changes(input, &values).unwrap();
    assert_eq!(output, b"<A><B>1.0</B><C><D>5.0</D></C></A>".to_vec());
}

#[test]
fn whitespace_between_elements_gives_no_value() {
    let mut handler = XmlHandler::new();
    let values = handler.load_file(b"<A>  \n  <B>text</B></A>").unwrap();
    assert_eq!(values.len(), 1);
    assert_eq!(triple(&values[0]), ("A", "B", "text"));
}

#[test]
fn duplicate_paths_are_both_extracted() {
    let mut handler = XmlHandler::new();
    let values = handler.load_file(b"<A><B>1</B><B>2</B></A>").unwrap();
    assert_eq!(values.len(), 2);
    assert_eq!(triple(&values[0]), ("A", "B", "1"));
    assert_eq!(triple(&values[1]), ("A", "B", "2"));
}

#[test]
fn first_entry_wins_for_duplicate_paths() {
    let mut handler = XmlHandler::new();
    let input = b"<A><B>1</B><B>2</B></A>";
    let mut values = handler.load_file(input).unwrap();
    values[1].value = "9".to_string();
    let output = handler.save_changes(input, &values).unwrap();
    assert_eq!(output, b"<A><B>1</B><B>1</B></A>".to_vec());
}

#[test]
fn edit_of_first_duplicate_reaches_every_occurrence() {
    let mut handler = XmlHandler::new();
    let input = b"<A><B>1</B><B>2</B></A>";
    let mut values = handler.load_file(input).unwrap();
    values[0].value = "7".to_string();
    let output = handler.save_changes(input, &values).unwrap();
    assert_eq!(output, b"<A><B>7</B><B>7</B></A>".to_vec());
}

#[test]
fn unterminated_tag_is_a_parse_error() {
    let mut handler = XmlHandler::new();
    assert_eq!(handler.load_file(b"<A><B>1</B").err(), Some(XmlError::Parse));
    assert_eq!(handler.save_changes(b"<A><B>1</B", &[]).err(), Some(XmlError::Parse));
    assert_eq!(handler.load_file(b"<A><B").err(), Some(XmlError::Parse));
    assert_eq!(handler.save_changes(b"<A><B", &[]).err(), Some(XmlError::Parse));
}

#[test]
fn unclosed_element_is_a_parse_error() {
    let mut handler = XmlHandler::new();
    assert_eq!(handler.load_file(b"<A><B>1</B>").err(), Some(XmlError::Parse));
    assert_eq!(handler.save_changes(b"<A><B>1</B>", &[]).err(), Some(XmlError::Parse));
}

#[test]
fn mismatched_closing_tag_is_a_parse_error() {
    let mut handler = XmlHandler::new();
    assert_eq!(handler.load_file(b"<A><B>1</A></B>").err(), Some(XmlError::Parse));
    assert_eq!(handler.save_changes(b"<A><B>1</A></B>", &[]).err(), Some(XmlError::Parse));
    assert_eq!(handler.load_file(b"</A>").err(), Some(XmlError::Parse));
}

#[test]
fn unknown_entity_is_a_parse_error() {
    let mut handler = XmlHandler::new();
    assert_eq!(handler.load_file(b"<A>x &bogus; y</A>").err(), Some(XmlError::Parse));
    assert_eq!(handler.save_changes(b"<A>x &bogus; y</A>", &[]).err(), Some(XmlError::Parse));
}

#[test]
fn non_utf8_tag_name_is_an_encoding_error() {
    let mut handler = XmlHandler::new();
    let input = b"<A><\xff\xfe>1</\xff\xfe></A>";
    assert_eq!(handler.load_file(input).err(), Some(XmlError::Encoding));
    assert_eq!(handler.save_changes(input, &[]).err(), Some(XmlError::Encoding));
}

#[test]
fn non_utf8_text_is_an_encoding_error() {
    let mut handler = XmlHandler::new();
    assert_eq!(handler.load_file(b"<A>\xff</A>").err(), Some(XmlError::Encoding));
    assert_eq!(handler.save_changes(b"<A>\xff</A>", &[]).err(), Some(XmlError::Encoding));
}

#[test]
fn failure_gives_no_partial_values() {
    let mut handler = XmlHandler::new();
    let outcome = handler.load_file(b"<A><B>1</B><C>2</C><D>&bad;</D></A>");
    assert!(outcome.is_err());
}

#[test]
fn replacement_text_is_escaped() {
    let handler = XmlHandler::new();
    let values = vec![entry("A", "B", "a<b>&'\"c")];
    let output = handler.save_changes(b"<A><B>x</B></A>", &values).unwrap();
    assert_eq!(output, b"<A><B>a&lt;b&gt;&amp;&apos;&quot;c</B></A>".to_vec());
}

#[test]
fn replacement_text_keeps_other_characters() {
    let handler = XmlHandler::new();
    let values = vec![entry("A", "B", " caf\u{e9} \u{4e16}\n\t;#")];
    let output = handler.save_changes(b"<A><B>x</B></A>", &values).unwrap();
    assert_eq!(output, "<A><B> caf\u{e9} \u{4e16}\n\t;#</B></A>".as_bytes().to_vec());
}

#[test]
fn entities_are_resolved_in_values() {
    let mut handler = XmlHandler::new();
    let values = handler.load_file(b"<A>1 &lt; 2 &amp; &#65;&#x42;&quot;&apos;&gt;</A>").unwrap();
    assert_eq!(values.len(), 1);
    assert_eq!(triple(&values[0]), ("", "A", "1 < 2 & AB\"'>"));
}

#[test]
fn value_keeps_the_whitespace_around_it() {
    let mut handler = XmlHandler::new();
    let values = handler.load_file(b"<A><B>  1.0\n</B></A>").unwrap();
    assert_eq!(values.len(), 1);
    assert_eq!(triple(&values[0]), ("A", "B", "  1.0\n"));
}

#[test]
fn root_level_leaf_has_an_empty_path() {
    let mut handler = XmlHandler::new();
    let values = handler.load_file(b"<Speed>3.60</Speed>").unwrap();
    assert_eq!(values.len(), 1);
    assert_eq!(triple(&values[0]), ("", "Speed", "3.60"));
}

#[test]
fn element_with_only_children_gives_no_value_of_its_own() {
    let mut handler = XmlHandler::new();
    let values = handler.load_file(b"<A><B><C>1</C></B><D/></A>").unwrap();
    assert_eq!(values.len(), 1);
    assert_eq!(triple(&values[0]), ("A/B", "C", "1"));
}

#[test]
fn blank_text_of_any_kind_gives_no_value() {
    let mut handler = XmlHandler::new();
    let values = handler.load_file("<A>\u{a0}\u{2003} &#32;&#9;<B>1</B></A>".as_bytes()).unwrap();
    assert_eq!(values.len(), 1);
    assert_eq!(triple(&values[0]), ("A", "B", "1"));
}

#[test]
fn text_outside_of_every_element_is_passed_over() {
    let mut handler = XmlHandler::new();
    let input = b"before &bogus; \xff<A>1</A>after";
    let values = handler.load_file(input).unwrap();
    assert_eq!(values.len(), 1);
    assert_eq!(triple(&values[0]), ("", "A", "1"));
    let output = handler.save_changes(input, &values).unwrap();
    assert_eq!(output, input.to_vec());
}

#[test]
fn attributes_name_only_the_tag() {
    let mut handler = XmlHandler::new();
    let values = handler.load_file(b"<A id=\"1\"><B\tkind='x'>v</B></A>").unwrap();
    assert_eq!(values.len(), 1);
    assert_eq!(triple(&values[0]), ("A", "B", "v"));
}

#[test]
fn empty_document_has_no_values() {
    let mut handler = XmlHandler::new();
    assert_eq!(handler.load_file(b"").unwrap().len(), 0);
    assert_eq!(handler.save_changes(b"", &[]).unwrap(), Vec::<u8>::new());
}

#[test]
fn round_trip_gives_the_document_back() {
    let mut handler = XmlHandler::new();
    let values = handler.load_file(CHARACTER.as_bytes()).unwrap();
    assert_eq!(values.len(), 3);
    assert_eq!(triple(&values[0]), ("Character/Stats", "Speed", "3.60"));
    assert_eq!(triple(&values[1]), ("Character/Stats", "Health", " 100 "));
    assert_eq!(triple(&values[2]), ("Character", "Name", "Zed & Co"));
    let output = handler.save_changes(CHARACTER.as_bytes(), &values).unwrap();
    assert_eq!(String::from_utf8(output).unwrap(), CHARACTER);
}

#[test]
fn rewriting_without_entries_copies_the_document() {
    let handler = XmlHandler::new();
    let output = handler.save_changes(CHARACTER.as_bytes(), &[]).unwrap();
    assert_eq!(String::from_utf8(output).unwrap(), CHARACTER);
}

#[test]
fn edit_in_a_formatted_document_changes_nothing_else() {
    let mut handler = XmlHandler::new();
    let mut values = handler.load_file(CHARACTER.as_bytes()).unwrap();
    values[0].value = "4.25".to_string();
    let output = handler.save_changes(CHARACTER.as_bytes(), &values).unwrap();
    assert_eq!(
        String::from_utf8(output).unwrap(),
        CHARACTER.replace("<Speed>3.60</Speed>", "<Speed>4.25</Speed>")
    );
}

#[test]
fn round_trip_escapes_quotes_in_values() {
    let mut handler = XmlHandler::new();
    let input = b"<A>it's</A>";
    let values = handler.load_file(input).unwrap();
    assert_eq!(triple(&values[0]), ("", "A", "it's"));
    let output = handler.save_changes(input, &values).unwrap();
    assert_eq!(output, b"<A>it&apos;s</A>".to_vec());
}

#[test]
fn entry_without_a_matching_leaf_changes_nothing() {
    let handler = XmlHandler::new();
    let values = vec![entry("A", "C", "9"), entry("", "B", "9"), entry("A/B", "B", "9")];
    let output = handler.save_changes(b"<A><B>1</B></A>", &values).unwrap();
    assert_eq!(output, b"<A><B>1</B></A>".to_vec());
}

#[test]
fn blank_text_is_never_replaced() {
    let handler = XmlHandler::new();
    let values = vec![entry("", "A", "x")];
    let output = handler.save_changes(b"<A>\n  <B>1</B>\n</A>", &values).unwrap();
    assert_eq!(output, b"<A>\n  <B>1</B>\n</A>".to_vec());
}

#[test]
fn rewriting_does_not_need_an_earlier_extraction() {
    let handler = XmlHandler::new();
    let values = vec![entry("Character/Stats", "Health", "250")];
    let output = handler.save_changes(CHARACTER.as_bytes(), &values).unwrap();
    assert_eq!(
        String::from_utf8(output).unwrap(),
        CHARACTER.replace("<Health> 100 </Health>", "<Health>250</Health>")
    );
}

#[test]
fn writer_normalises_some_markup() {
    let handler = XmlHandler::new();
    let output = handler
        .save_changes(b"\xef\xbb\xbf<!DOCTYPE   a><A></A  >", &[])
        .unwrap();
    assert_eq!(output, b"<!DOCTYPE a><A></A>".to_vec());
}

#[test]
fn modify_value_accepts_every_edit() {
    let mut handler = XmlHandler::new();
    assert_eq!(handler.modify_value("A", "B", "1"), Ok(()));
}

#[test]
fn unterminated_closing_tag_is_a_parse_error() {
    let mut handler = XmlHandler::new();
    assert_eq!(handler.load_file(b"<A>1</A").err(), Some(XmlError::Parse));
    assert_eq!(handler.save_changes(b"<A>1</A", &[]).err(), Some(XmlError::Parse));
    assert_eq!(handler.load_file(b"<A>1</A  ").err(), Some(XmlError::Parse));
    assert_eq!(handler.load_file(b"<A>1</A><").err(), Some(XmlError::Parse));
    assert_eq!(handler.save_changes(b"<A>1</A><", &[]).err(), Some(XmlError::Parse));
    assert_eq!(handler.load_file(b"<A/><B/").err(), Some(XmlError::Parse));
    assert_eq!(handler.load_file(b"<").err(), Some(XmlError::Parse));
    let values = vec![entry("", "A", "2")];
    assert_eq!(handler.save_changes(b"<A>1</A", &values).err(), Some(XmlError::Parse));
}

#[test]
fn earlier_failure_comes_before_the_open_tag_at_the_end() {
    let mut handler = XmlHandler::new();
    assert_eq!(handler.load_file(b"<\xff>1</\xff").err(), Some(XmlError::Encoding));
    assert_eq!(handler.save_changes(b"<\xff>1</\xff", &[]).err(), Some(XmlError::Encoding));
}

#[test]
fn closed_last_tag_is_accepted_with_text_behind_it() {
    let mut handler = XmlHandler::new();
    assert_eq!(handler.load_file(b"<A>1</A>").unwrap().len(), 1);
    assert_eq!(handler.load_file(b"<A>1</A>\n").unwrap().len(), 1);
    assert_eq!(handler.load_file(b"<A>1</A> tail > ").unwrap().len(), 1);
    assert_eq!(handler.load_file(b"<A k='<'>1</A>").unwrap().len(), 1);
    assert_eq!(handler.load_file(b"<A><!-- < --><![CDATA[<]]></A>").unwrap().len(), 0);
    assert_eq!(handler.load_file(b"no markup at all").unwrap().len(), 0);
}

#[test]
fn ends_inside_tag_looks_behind_the_last_closing_bracket() {
    assert!(!ends_inside_tag(b""));
    assert!(!ends_inside_tag(b"plain"));
    assert!(!ends_inside_tag(b"<A>"));
    assert!(!ends_inside_tag(b"<A>1</A> tail"));
    assert!(!ends_inside_tag(b"<<<>"));
    assert!(!ends_inside_tag(b">"));
    assert!(ends_inside_tag(b"<"));
    assert!(ends_inside_tag(b"<A"));
    assert!(ends_inside_tag(b"<A>1</A"));
    assert!(ends_inside_tag(b"<A>1</A><"));
    assert!(ends_inside_tag(b"><"));
}

#[test]
fn cdata_comments_and_instructions_are_copied() {
    let handler = XmlHandler::new();
    let input = b"<?xml version=\"1.0\"?><!DOCTYPE a><?p i?><A><!--c--><![CDATA[x]]><B/></A>";
    let values = vec![entry("", "A", "9")];
    assert_eq!(handler.save_changes(input, &values).unwrap(), input.to_vec());
}
