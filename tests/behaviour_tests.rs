use xml_to_json::{parse_element, parse_open_tag, start_parser, Grammar, Rule, Value, XmlError};

fn text(s: &str) -> Value {
    Value::Str(s.to_string())
}

fn object(entries: Vec<(&str, Value)>) -> Value {
    Value::Object(entries.into_iter().map(|(k, v)| (k.to_string(), v)).collect())
}

fn chars(s: &str) -> Vec<char> {
    s.chars().collect()
}

#[test]
fn attribute_and_text_round_trip() {
    let parsed = start_parser("<N a=\"v\">text</N>").unwrap();
    let expected = object(vec![("N", object(vec![("_a", text("v")), ("_text", text("text"))]))]);
    assert_eq!(parsed, expected);
}

#[test]
fn bare_text_collapses_to_string() {
    assert_eq!(start_parser("<p>hello</p>").unwrap(), object(vec![("p", text("hello"))]));
}

#[test]
fn text_is_trimmed() {
    assert_eq!(start_parser("<p>  hello world \n</p>").unwrap(), object(vec![("p", text("hello world"))]));
}

#[test]
fn empty_element_is_empty_mapping() {
    assert_eq!(start_parser("<p></p>").unwrap(), object(vec![("p", object(vec![]))]));
}

#[test]
fn attribute_only_element() {
    assert_eq!(
        start_parser("<p id=\"1\"></p>").unwrap(),
        object(vec![("p", object(vec![("_id", text("1"))]))])
    );
}

#[test]
fn child_elements_override_text() {
    assert_eq!(
        start_parser("<p><c>x</c>ignored</p>").unwrap(),
        object(vec![("p", object(vec![("c", text("x"))]))])
    );
}

#[test]
fn text_fragments_are_concatenated() {
    assert_eq!(start_parser("<p>ab<q></q></p>").unwrap(), object(vec![("p", object(vec![("q", object(vec![]))]))]));
}

#[test]
fn tag_mismatch_is_reported() {
    assert_eq!(
        start_parser("<a>x</b>"),
        Err(XmlError::TagMismatch { open: "a".to_string(), close: "b".to_string() })
    );
}

#[test]
fn tag_mismatch_is_case_sensitive() {
    assert!(matches!(start_parser("<a>x</A>"), Err(XmlError::TagMismatch { .. })));
}

#[test]
fn empty_input_is_reported() {
    assert_eq!(start_parser(""), Err(XmlError::EmptyInput));
    assert_eq!(start_parser(" \n\t "), Err(XmlError::EmptyInput));
}

#[test]
fn missing_close_tag_is_syntax_error() {
    assert_eq!(start_parser("<a>x"), Err(XmlError::Syntax { rule: Rule::close_tag, pos: 4 }));
}

#[test]
fn syntax_error_wins_over_mismatch() {
    assert!(matches!(start_parser("<a><b>x</c></a"), Err(XmlError::Syntax { .. })));
}

#[test]
fn trailing_content_is_syntax_error() {
    assert_eq!(start_parser("<a></a>x"), Err(XmlError::Syntax { rule: Rule::xml, pos: 7 }));
}

#[test]
fn name_must_start_with_letter() {
    assert_eq!(start_parser("<1a></1a>"), Err(XmlError::Syntax { rule: Rule::name, pos: 1 }));
    assert_eq!(start_parser("<_a></_a>"), Err(XmlError::Syntax { rule: Rule::name, pos: 1 }));
    assert_eq!(
        start_parser("<a1_-b></a1_-b>").unwrap(),
        object(vec![("a1_-b", object(vec![]))])
    );
}

#[test]
fn attribute_value_quoting() {
    assert!(matches!(start_parser("<a id=\"1></a>"), Err(XmlError::Syntax { .. })));
    assert!(matches!(start_parser("<a id=1></a>"), Err(XmlError::Syntax { .. })));
}

#[test]
fn deep_nesting() {
    assert_eq!(
        start_parser("<a><b><c>v</c></b></a>").unwrap(),
        object(vec![("a", object(vec![("b", object(vec![("c", text("v"))]))]))])
    );
}

#[test]
fn whitespace_between_tags_is_insignificant() {
    let plain = start_parser("<a x=\"1\"><b>v</b></a>").unwrap();
    let spaced = start_parser("  <a   x = \"1\"  >\n  <b>v</b>\n</  a >  ").unwrap();
    assert_eq!(plain, spaced);
}

#[test]
fn duplicate_children_last_wins_in_place() {
    assert_eq!(
        start_parser("<a><b>1</b><c>2</c><b>3</b></a>").unwrap(),
        object(vec![("a", object(vec![("b", text("3")), ("c", text("2"))]))])
    );
}

#[test]
fn text_attribute_is_overwritten_by_text() {
    assert_eq!(
        start_parser("<a text=\"v\">t</a>").unwrap(),
        object(vec![("a", object(vec![("_text", text("t"))]))])
    );
}

#[test]
fn open_tag_gives_name_and_attributes() {
    let (name, attributes, end) = parse_open_tag(&chars("<q  a=\"x\" bb = \"y z\">rest"), 0).unwrap();
    assert_eq!(name, "q");
    assert_eq!(attributes, vec![("a".to_string(), "x".to_string()), ("bb".to_string(), "y z".to_string())]);
    assert_eq!(end, 21);
}

#[test]
fn parse_element_gives_singleton_and_end() {
    let (v, end) = parse_element(&chars("xx<b>t</b>yy"), 2).unwrap();
    assert_eq!(v, object(vec![("b", text("t"))]));
    assert_eq!(end, 10);
}

#[test]
fn grammar_reports_positions() {
    assert_eq!(
        Grammar::parse(Rule::attribute, "id = 1").err(),
        Some(XmlError::Syntax { rule: Rule::attribute, pos: 5 })
    );
    assert_eq!(Grammar::parse(Rule::close_tag, "<tag>").err(), Some(XmlError::Syntax { rule: Rule::close_tag, pos: 1 }));
    assert_eq!(Grammar::parse(Rule::element, "<a>x</b>").unwrap().end, 8);
}

#[test]
fn non_ascii_text_is_kept() {
    assert_eq!(start_parser("<p>\u{a0}héllo\u{3000}</p>").unwrap(), object(vec![("p", text("héllo"))]));
}

#[test]
fn open_tag_whitespace_is_insignificant() {
    let plain = parse_open_tag(&chars("<q id=\"1\" x=\"2\">"), 0).unwrap();
    let spaced = parse_open_tag(&chars("<q   id =  \"1\"  x= \"2\"   >"), 0).unwrap();
    assert_eq!(plain.0, spaced.0);
    assert_eq!(plain.1, spaced.1);
    assert_eq!(plain.1, vec![("id".to_string(), "1".to_string()), ("x".to_string(), "2".to_string())]);
}

#[test]
fn nesting_five_levels() {
    assert_eq!(
        start_parser("<a><b><c><d><e>v</e></d></c></b></a>").unwrap(),
        object(vec![("a", object(vec![("b", object(vec![("c", object(vec![("d", object(vec![("e", text("v"))]))]))]))]))])
    );
}
