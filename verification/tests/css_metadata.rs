use bhc_metadata::metadata::css_metadata::css_attribute::CssAttribute;
use bhc_metadata::metadata::css_metadata::css_style::CssStyle;
use bhc_metadata::metadata::css_metadata::{generate_css_string, merge_css_metadata, CssMetaData};
use bhc_metadata::ranked::{rank_sort, RankedExec};
use bhc_metadata::text::strings_lt;
use bhc_metadata::timestamp::Timestamp;

fn two_sheets() -> (CssAttribute, CssAttribute, Vec<CssMetaData>) {
    let attribute_1 = CssAttribute {
        name: String::from("background-color"),
        values: vec![String::from("red"), String::from("green")],
        source: None,
        is_overwritten: None,
    };

    let style_1 = CssStyle { tag: String::from("h1"), attributes: vec![attribute_1.clone()] };

    let attribute_2 = CssAttribute {
        name: String::from("font-size"),
        values: vec![String::from("14pt")],
        source: None,
        is_overwritten: None,
    };

    let style_2 = CssStyle { tag: String::from("h1"), attributes: vec![attribute_2.clone()] };

    let css_metadata_1 = CssMetaData {
        id: 0,
        file_name: String::new(),
        absolute_path: String::new(),
        last_updated: Timestamp::now(),
        imported_sheets: None,
        styles: Some(vec![style_1]),
    };

    let css_metadata_2 = CssMetaData {
        id: 1,
        file_name: String::new(),
        absolute_path: String::new(),
        last_updated: Timestamp::now(),
        imported_sheets: None,
        styles: Some(vec![style_2]),
    };

    (attribute_1, attribute_2, vec![css_metadata_1, css_metadata_2])
}

#[test]
fn css_metadata_merge_css_metadata_test() {
    let (attribute_1, attribute_2, sheets) = two_sheets();

    let expected_style = CssStyle {
        tag: String::from("h1"),
        attributes: vec![attribute_1.clone(), attribute_2.clone()],
    };

    let expected: Vec<CssStyle> = vec![expected_style];

    let output = merge_css_metadata(&sheets);

    println!("{output:?}");

    assert_eq!(expected, output);
}

#[test]
fn css_metadata_generate_css_string_test() {
    let (_, _, sheets) = two_sheets();

    let expected =
        "h1 {\n\tbackground-color: red;\n\tbackground-color: green;\n\tfont-size: 14pt;\n}\n";

    assert_eq!(generate_css_string(&sheets), expected);
}

fn style(tag: &str, attributes: Vec<CssAttribute>) -> CssStyle {
    CssStyle { tag: String::from(tag), attributes }
}

fn attribute(name: &str, values: &[&str]) -> CssAttribute {
    CssAttribute {
        name: String::from(name),
        values: values.iter().map(|v| String::from(*v)).collect(),
        source: None,
        is_overwritten: None,
    }
}

fn sheet(id: u32, styles: Option<Vec<CssStyle>>) -> CssMetaData {
    CssMetaData {
        id,
        file_name: String::new(),
        absolute_path: String::new(),
        last_updated: Timestamp::from_seconds(0),
        imported_sheets: None,
        styles,
    }
}

#[test]
fn merge_does_not_depend_on_the_order_of_the_sheets() {
    let a = sheet(1, Some(vec![style("h1", vec![attribute("color", &["red"])])]));
    let b = sheet(
        2,
        Some(vec![
            style("p", vec![attribute("color", &["blue"])]),
            style("h1", vec![attribute("font-size", &["10pt"]), attribute("border", &["none"])]),
        ]),
    );
    let c = sheet(3, None);
    let d = sheet(4, Some(vec![style("a", vec![]), style("p", vec![attribute("margin", &["0"])])]));
    let orders: [[usize; 4]; 4] = [[0, 1, 2, 3], [3, 2, 1, 0], [1, 3, 0, 2], [2, 0, 3, 1]];
    let sheets = [a, b, c, d];
    let expected = "a {\n\t}\nh1 {\n\tborder: none;\n\tcolor: red;\n\tfont-size: 10pt;\n}\np {\n\tcolor: blue;\n\tmargin: 0;\n}\n";
    for order in orders {
        let input: Vec<CssMetaData> = order.iter().map(|i| sheets[*i].clone()).collect();
        assert_eq!(generate_css_string(&input), expected);
        assert_eq!(merge_css_metadata(&input), merge_css_metadata(&sheets.to_vec()));
    }
}

#[test]
fn sheets_that_declare_a_property_alike_may_come_in_any_order() {
    let a = sheet(1, Some(vec![style("h1", vec![attribute("color", &["red"])])]));
    let b = sheet(2, Some(vec![style("h1", vec![attribute("color", &["red"])])]));
    assert_eq!(
        generate_css_string(&vec![a.clone(), b.clone()]),
        generate_css_string(&vec![b, a])
    );
}

#[test]
fn declarations_of_equal_name_come_in_the_order_of_their_values() {
    let a = sheet(1, Some(vec![style("h1", vec![attribute("color", &["red"])])]));
    let b = sheet(2, Some(vec![style("h1", vec![attribute("color", &["blue"])])]));
    let expected = "h1 {\n\tcolor: blue;\n\tcolor: red;\n}\n";
    assert_eq!(generate_css_string(&vec![a.clone(), b.clone()]), expected);
    assert_eq!(generate_css_string(&vec![b, a]), expected);
}

#[test]
fn values_of_one_attribute_stay_together_and_in_their_order() {
    let a = sheet(1, Some(vec![style("h1", vec![attribute("color", &["red", "blue"])])]));
    let b = sheet(2, Some(vec![style("h1", vec![attribute("color", &["green"])])]));
    let c = sheet(3, Some(vec![style("h1", vec![attribute("color", &["red"])])]));
    let expected = "h1 {\n\tcolor: green;\n\tcolor: red;\n\tcolor: red;\n\tcolor: blue;\n}\n";
    let sheets = [a, b, c];
    let orders: [[usize; 3]; 6] =
        [[0, 1, 2], [0, 2, 1], [1, 0, 2], [1, 2, 0], [2, 0, 1], [2, 1, 0]];
    for order in orders {
        let input: Vec<CssMetaData> = order.iter().map(|i| sheets[*i].clone()).collect();
        assert_eq!(generate_css_string(&input), expected);
    }
}

#[test]
fn equal_declarations_come_in_the_order_of_their_provenance() {
    let plain = attribute("color", &["red"]);
    let mut kept = attribute("color", &["red"]);
    kept.source = Some(3);
    kept.is_overwritten = Some(false);
    let mut changed = attribute("color", &["red"]);
    changed.source = Some(3);
    changed.is_overwritten = Some(true);
    let mut other = attribute("color", &["red"]);
    other.source = Some(2);
    other.is_overwritten = Some(true);
    let mut unmarked = attribute("color", &["red"]);
    unmarked.source = Some(3);
    let a = sheet(1, Some(vec![style("h1", vec![changed.clone(), plain.clone()])]));
    let b = sheet(2, Some(vec![style("h1", vec![kept.clone(), other.clone()])]));
    let c = sheet(3, Some(vec![style("h1", vec![unmarked.clone(), plain.clone()])]));
    let expected = vec![style(
        "h1",
        vec![plain.clone(), plain, other, unmarked, kept, changed],
    )];
    assert_eq!(merge_css_metadata(&vec![a.clone(), b.clone(), c.clone()]), expected);
    assert_eq!(merge_css_metadata(&vec![c.clone(), a.clone(), b.clone()]), expected);
    assert_eq!(merge_css_metadata(&vec![b, c, a]), expected);
}

#[test]
fn attributes_are_ordered_by_name_then_values() {
    assert!(attribute("a", &["z"]).precedes(&attribute("b", &[])));
    assert!(!attribute("b", &[]).precedes(&attribute("a", &["z"])));
    assert!(attribute("a", &[]).precedes(&attribute("a", &["x"])));
    assert!(attribute("a", &["x"]).precedes(&attribute("a", &["x", "y"])));
    assert!(attribute("a", &["x", "y"]).precedes(&attribute("a", &["y"])));
    assert!(!attribute("a", &["y"]).precedes(&attribute("a", &["x", "y"])));
    assert!(!attribute("a", &["x"]).precedes(&attribute("a", &["x"])));
    assert!(strings_lt(&vec![String::from("a")], &vec![String::from("a"), String::from("")]));
    assert!(!strings_lt(&vec![], &vec![]));
    let sorted = rank_sort(vec![
        attribute("b", &["1"]),
        attribute("a", &["2"]),
        attribute("a", &["1", "3"]),
        attribute("a", &["2"]),
    ]);
    assert_eq!(
        sorted,
        vec![
            attribute("a", &["1", "3"]),
            attribute("a", &["2"]),
            attribute("a", &["2"]),
            attribute("b", &["1"]),
        ]
    );
}

#[test]
fn text_of_no_styles_is_empty() {
    assert_eq!(generate_css_string(&vec![]), "");
    assert_eq!(generate_css_string(&vec![sheet(1, None)]), "");
    assert!(merge_css_metadata(&vec![sheet(1, Some(vec![]))]).is_empty());
}

#[test]
fn attribute_without_values_gives_no_line() {
    let a = sheet(
        1,
        Some(vec![style("h1", vec![attribute("color", &["red"]), attribute("zoom", &[])])]),
    );
    assert_eq!(generate_css_string(&vec![a]), "h1 {\n\tcolor: red;\n\t}\n");
}

#[test]
fn update_replaces_known_styles_and_keeps_stale_ones() {
    let mut record = sheet(
        1,
        Some(vec![
            style("h1", vec![attribute("color", &["red"])]),
            style("p", vec![attribute("margin", &["0"])]),
        ]),
    );
    record.update_styles(vec![
        style("h2", vec![attribute("color", &["green"])]),
        style("h1", vec![attribute("size", &["1em"])]),
        style("h2", vec![attribute("color", &["blue"]), attribute("top", &["0"])]),
    ]);
    assert_eq!(
        record.styles,
        Some(vec![
            style("h1", vec![attribute("size", &["1em"])]),
            style("p", vec![attribute("margin", &["0"])]),
            style("h2", vec![attribute("color", &["blue"]), attribute("top", &["0"])]),
        ])
    );
}

#[test]
fn update_of_a_record_without_styles() {
    let mut record = sheet(1, None);
    record.update_styles(vec![]);
    assert_eq!(record.styles, None);
    record.update_styles(vec![style("h1", vec![attribute("a", &["b"]), attribute("a", &["c"])])]);
    assert_eq!(
        record.styles,
        Some(vec![style("h1", vec![attribute("a", &["b", "c"]), attribute("a", &["c"])])])
    );
    let mut empty = sheet(2, Some(vec![]));
    empty.update_styles(vec![]);
    assert_eq!(empty.styles, Some(vec![]));
}

#[test]
fn record_is_made_from_the_text_of_the_stylesheet() {
    let now = Timestamp::from_seconds(1710090300);
    let record =
        CssMetaData::create_metadata("D:\\web\\css\\test.css", &7, "p { font-size: 14pt; }", now);
    assert_eq!(record.id, 7);
    assert_eq!(record.file_name, "test.css");
    assert_eq!(record.absolute_path, "D:\\web\\css\\test.css");
    assert_eq!(record.last_updated, now);
    assert_eq!(record.imported_sheets, None);
    assert_eq!(record.styles, Some(vec![style("p", vec![attribute("font-size", &["14pt"])])]));
    assert_eq!(CssMetaData::create_metadata("/w/e.css", &1, "", now).styles, None);
}

#[test]
fn refresh_replaces_the_declarations_of_known_selectors() {
    let mut imported = attribute("color", &["red"]);
    imported.source = Some(2);
    imported.is_overwritten = Some(false);
    let mut record = sheet(1, Some(vec![style("h1", vec![imported])]));
    record.absolute_path = String::from("/w/.bhc/.shared/a.css");
    let later = Timestamp::from_seconds(50);
    let entry = record.update_metadata("h1 { color: blue; } p { top: 0px; }", later);
    assert_eq!(record.last_updated, later);
    assert_eq!(
        record.styles,
        Some(vec![
            style("h1", vec![attribute("color", &["blue"])]),
            style("p", vec![attribute("top", &["0px"])]),
        ])
    );
    assert_eq!(entry.id, 1);
    assert!(entry.is_shared);

    record.update_metadata("/* nothing left */", Timestamp::from_seconds(60));
    assert_eq!(record.styles, None);
}

#[test]
fn records_are_picked_by_their_path() {
    use_paths();
}

fn use_paths() {
    let mut a = sheet(1, None);
    a.absolute_path = String::from("/w/a.css");
    let mut b = sheet(2, None);
    b.absolute_path = String::from("/w/b.css");
    let wanted = vec![String::from("\\w\\b.css"), String::from("/w/c.css")];
    assert_eq!(
        bhc_metadata::metadata::css_metadata::get_metadata_files(&wanted, vec![a.clone(), b.clone()]),
        Some(vec![b.clone()])
    );
    assert_eq!(
        bhc_metadata::metadata::css_metadata::get_metadata_files(&vec![], vec![a, b]),
        None
    );
}
