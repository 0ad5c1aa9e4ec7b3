use bhc_metadata::metadata::css_metadata::css_attribute::CssAttribute;
use bhc_metadata::metadata::css_metadata::css_parser::{
    parse_attributes, parse_css, parse_sheet, styles_from_nodes,
};
use bhc_metadata::metadata::css_metadata::css_style::CssStyle;
use bhc_metadata::metadata::css_metadata::css_token::{CssNode, CssToken};
use bhc_metadata::metadata::css_metadata::CssMetaData;
use cssparser::{Parser, ParserInput};

fn ident(text: &str) -> CssToken {
    CssToken::Ident(String::from(text))
}

fn dimension(value: &str, unit: &str) -> CssToken {
    CssToken::Dimension { value: String::from(value), unit: String::from(unit) }
}

fn named(name: &str, values: &[&str]) -> CssAttribute {
    let mut attribute = CssAttribute::new();
    attribute.name = String::from(name);
    attribute.values = values.iter().map(|v| String::from(*v)).collect();
    attribute
}

#[test]
fn test_parse_sheet() {
    let css_string = r#"
h1 {
    background-color: red;
    background-color: green;
    font-size: 100pt;
    xd: 100px;
}

p {
    font-size: 14pt;
}"#;

    let mut parserinput = ParserInput::new(&css_string);
    let mut parser = Parser::new(&mut parserinput);

    let mut metadata = CssMetaData::new();

    metadata.styles = parse_sheet(&mut parser).unwrap();

    let mut expected = CssMetaData::new();
    let mut style1 = CssStyle::new();
    style1.tag = String::from("h1");
    let mut attribute1 = CssAttribute::new();
    attribute1.name = String::from("background-color");
    attribute1.values = vec![String::from("red"), String::from("green")];
    let mut attribute2 = CssAttribute::new();
    attribute2.name = String::from("font-size");
    attribute2.values = vec![String::from("100pt")];
    let mut attribute3 = CssAttribute::new();
    attribute3.name = String::from("xd");
    attribute3.values = vec![String::from("100px")];

    style1.attributes = vec![attribute1, attribute2, attribute3];

    let mut style2 = CssStyle::new();
    style2.tag = String::from("p");
    let mut attribute4 = CssAttribute::new();
    attribute4.name = String::from("font-size");
    attribute4.values = vec![String::from("14pt")];

    style2.attributes = vec![attribute4];

    expected.styles = Some(vec![style1, style2]);

    expected.last_updated = metadata.last_updated;

    assert_eq!(expected, metadata);
}

#[test]
fn declarations_of_one_property_make_one_attribute() {
    let styles = parse_css("h1 { color: red; color: blue; }").unwrap();
    assert_eq!(styles.len(), 1);
    assert_eq!(styles[0].tag, "h1");
    assert_eq!(styles[0].attributes, vec![named("color", &["red", "blue"])]);
}

#[test]
fn styles_and_attributes_come_out_sorted() {
    let styles = parse_css("p { z: a; b: c; m: n; } a { q: r; } h1 { k: v; } a { c: d; }").unwrap();
    let tags: Vec<&str> = styles.iter().map(|s| s.tag.as_str()).collect();
    assert_eq!(tags, vec!["a", "a", "h1", "p"]);
    assert_eq!(styles[0].attributes, vec![named("q", &["r"])]);
    assert_eq!(styles[1].attributes, vec![named("c", &["d"])]);
    let names: Vec<&str> = styles[3].attributes.iter().map(|a| a.name.as_str()).collect();
    assert_eq!(names, vec!["b", "m", "z"]);
}

#[test]
fn sheet_without_rules_has_no_styles() {
    assert_eq!(parse_css(""), None);
    assert_eq!(parse_css("h1 p ; : /* nothing */"), None);
    assert_eq!(styles_from_nodes(&Vec::new()), None);
}

#[test]
fn malformed_tokens_are_passed_over() {
    let styles = parse_css("@media h1 [x] { color: #fff red } }} p { }").unwrap();
    assert_eq!(styles.len(), 2);
    assert_eq!(styles[0].tag, "h1");
    assert_eq!(styles[0].attributes, vec![named("color", &["red"])]);
    assert_eq!(styles[1].tag, "p");
    assert!(styles[1].attributes.is_empty());
}

#[test]
fn nested_blocks_are_skipped_whole() {
    let styles = parse_css("h1 { a { color: red; } size: 2em; }").unwrap();
    assert_eq!(styles.len(), 1);
    assert_eq!(styles[0].attributes, vec![named("size", &["2em"])]);
}

#[test]
fn value_is_last_identifier_or_joined_dimensions() {
    let tokens = vec![
        ident("margin"),
        CssToken::Colon,
        dimension("1", "px"),
        CssToken::Other,
        dimension("2.5", "em"),
        CssToken::Semicolon,
        ident("font"),
        CssToken::Colon,
        dimension("12", "pt"),
        ident("serif"),
        ident("bold"),
        CssToken::Semicolon,
        CssToken::Colon,
        ident("italic"),
    ];
    let attributes = parse_attributes(&tokens);
    assert_eq!(
        attributes,
        vec![named("font", &["bold", "italic"]), named("margin", &["1px2.5em"])]
    );
}

#[test]
fn colon_without_a_name_declares_the_empty_name() {
    let tokens = vec![CssToken::Colon, ident("red")];
    assert_eq!(parse_attributes(&tokens), vec![named("", &["red"])]);
    assert_eq!(parse_attributes(&vec![ident("color"), CssToken::Colon]), vec![named("color", &[""])]);
}

#[test]
fn block_takes_the_selector_in_force() {
    let nodes = vec![
        CssNode { token: CssToken::CurlyBracketBlock, block: vec![ident("a"), CssToken::Colon, ident("b")] },
        CssNode { token: ident("h2"), block: vec![] },
        CssNode { token: ident("h1"), block: vec![] },
        CssNode { token: CssToken::Other, block: vec![] },
        CssNode { token: CssToken::CurlyBracketBlock, block: vec![] },
        CssNode { token: CssToken::CurlyBracketBlock, block: vec![ident("c"), CssToken::Colon, ident("d")] },
    ];
    let styles = styles_from_nodes(&nodes).unwrap();
    assert_eq!(
        styles,
        vec![
            CssStyle { tag: String::new(), attributes: vec![named("a", &["b"])] },
            CssStyle { tag: String::from("h1"), attributes: vec![] },
            CssStyle { tag: String::from("h1"), attributes: vec![named("c", &["d"])] },
        ]
    );
}

#[test]
fn parser_is_read_to_its_end() {
    let mut input = ParserInput::new("h1 { color: red; } trailing");
    let mut parser = Parser::new(&mut input);
    let styles = parse_sheet(&mut parser).unwrap().unwrap();
    assert_eq!(styles.len(), 1);
    assert!(parser.is_exhausted());
}

#[test]
fn functions_and_brackets_are_passed_over_whole() {
    let styles = parse_css(
        "a { color: rgb(1, 2, 3); width: calc(1px + (2px * 3)) 4em; b: [x y] z; url: url(a.png) \"s\" }",
    )
    .unwrap();
    assert_eq!(styles.len(), 1);
    assert_eq!(
        styles[0].attributes,
        vec![
            named("b", &["z"]),
            named("color", &[""]),
            named("url", &[""]),
            named("width", &["4em"]),
        ]
    );
}

#[test]
fn block_without_an_end_runs_to_the_end_of_the_text() {
    let styles = parse_css("h1 { color: red; size: 2.5em").unwrap();
    assert_eq!(styles.len(), 1);
    assert_eq!(styles[0].attributes, vec![named("color", &["red"]), named("size", &["2.5em"])]);
}

#[test]
fn parser_that_has_handed_out_tokens_gives_the_rest() {
    let mut input = ParserInput::new("h1 { a: b; } h2 { c: d; }");
    let mut parser = Parser::new(&mut input);
    assert!(parser.next().is_ok());
    assert!(parser.next().is_ok());
    let styles = parse_sheet(&mut parser).unwrap().unwrap();
    assert_eq!(styles, vec![CssStyle { tag: String::from("h2"), attributes: vec![named("c", &["d"])] }]);
}

#[test]
fn selectors_are_sorted_by_their_bytes() {
    let styles = parse_css("b {} a {} B {} é {} ab {} _ {}").unwrap();
    let tags: Vec<&str> = styles.iter().map(|s| s.tag.as_str()).collect();
    assert_eq!(tags, vec!["B", "_", "a", "ab", "b", "é"]);
}
