use bhc_metadata::metadata::css_metadata::css_attribute::CssAttribute;
use bhc_metadata::metadata::css_metadata::css_style::CssStyle;
use bhc_metadata::metadata::css_metadata::{generate_css_string, CssMetaData};
use bhc_metadata::metadata::file_metadata::{
    CssAttributeExtended, FormattedCssFile, LineInformation,
};
use bhc_metadata::timestamp::Timestamp;

#[test]
fn file_metadata_merge_css_metadata_test() {}

#[test]
fn file_metadata_generate_css_string_test() {}

fn sheet(id: u32, styles: Vec<CssStyle>) -> CssMetaData {
    CssMetaData {
        id,
        file_name: format!("{id}.css"),
        absolute_path: format!("/w/{id}.css"),
        last_updated: Timestamp::from_seconds(0),
        imported_sheets: None,
        styles: Some(styles),
    }
}

fn attribute(name: &str, values: &[&str]) -> CssAttribute {
    CssAttribute {
        name: String::from(name),
        values: values.iter().map(|v| String::from(*v)).collect(),
        source: None,
        is_overwritten: None,
    }
}

#[test]
fn from_attribute_gives_one_declaration_for_each_value() {
    let out = CssAttributeExtended::from_attribute(attribute("color", &["red", "blue"]), 7);
    assert_eq!(out.len(), 2);
    assert_eq!(out[0].owner, 7);
    assert_eq!(out[0].name, "color");
    assert_eq!(out[0].value, "red");
    assert_eq!(out[1].value, "blue");
}

#[test]
fn formatted_file_knows_the_owner_of_every_line() {
    let a = sheet(1, vec![CssStyle { tag: String::from("h1"), attributes: vec![attribute("color", &["red"])] }]);
    let b = sheet(
        2,
        vec![
            CssStyle { tag: String::from("h1"), attributes: vec![attribute("font-size", &["10pt"])] },
            CssStyle { tag: String::from("p"), attributes: vec![attribute("color", &["blue"])] },
        ],
    );
    let file = FormattedCssFile::generate_formatted_file(&vec![a, b]);
    assert_eq!(
        file.to_css_string(),
        "h1 {\n\tcolor: red;\n\tfont-size: 10pt;\n}\np {\n\tcolor: blue;\n}\n"
    );
    assert_eq!(file.styles[0].owner, None);
    assert_eq!(file.styles[1].owner, Some(2));
    let owners: Vec<Option<u32>> = file.lines.iter().map(|l| l.owner).collect();
    assert_eq!(owners, vec![None, Some(1), Some(2), None, Some(2), Some(2), Some(2)]);
    let numbers: Vec<u32> = file.lines.iter().map(|l| l.line_number).collect();
    assert_eq!(numbers, vec![0, 1, 2, 3, 4, 5, 6]);
    assert_eq!(file.included_files.len(), 2);
    assert_eq!(file.included_files[1].absolute_path, "/w/2.css");
    assert_eq!(file.lines.len(), file.to_css_string().lines().count());
}

#[test]
fn empty_style_belongs_to_the_first_file_that_holds_it() {
    let a = sheet(4, vec![CssStyle { tag: String::from("h1"), attributes: vec![] }]);
    let b = sheet(5, vec![CssStyle { tag: String::from("h1"), attributes: vec![] }]);
    let file = FormattedCssFile::try_generate_formatted_file(&vec![a, b]).unwrap();
    assert_eq!(file.styles.len(), 1);
    assert_eq!(file.styles[0].owner, Some(4));
    assert_eq!(file.to_css_string(), "h1 {\n\t}\n");
    assert_eq!(
        file.lines,
        vec![LineInformation::new_line(0, Some(4)), LineInformation::new_line(1, Some(4))]
    );
}

#[test]
fn formatted_text_is_the_text_of_the_merge() {
    let a = sheet(
        1,
        vec![
            CssStyle {
                tag: String::from("h1"),
                attributes: vec![attribute("color", &["red", "blue"])],
            },
            CssStyle { tag: String::from("p"), attributes: vec![attribute("color", &["red"])] },
        ],
    );
    let b = sheet(
        2,
        vec![
            CssStyle { tag: String::from("p"), attributes: vec![attribute("color", &["red"])] },
            CssStyle {
                tag: String::from("h1"),
                attributes: vec![attribute("color", &["green"]), attribute("border", &["0"])],
            },
        ],
    );
    let c = sheet(3, vec![CssStyle { tag: String::from("a"), attributes: vec![] }]);
    let sheets = [a, b, c];
    let expected = "a {\n\t}\nh1 {\n\tborder: 0;\n\tcolor: green;\n\tcolor: red;\n\tcolor: blue;\n}\np {\n\tcolor: red;\n\tcolor: red;\n}\n";
    let orders: [[usize; 3]; 6] =
        [[0, 1, 2], [0, 2, 1], [1, 0, 2], [1, 2, 0], [2, 0, 1], [2, 1, 0]];
    for order in orders {
        let input: Vec<CssMetaData> = order.iter().map(|i| sheets[*i].clone()).collect();
        let file = FormattedCssFile::generate_formatted_file(&input);
        assert_eq!(file.to_css_string(), expected);
        assert_eq!(file.to_css_string(), generate_css_string(&input));
    }
}

#[test]
fn formatted_styles_do_not_depend_on_the_order_of_the_files() {
    let a = sheet(
        7,
        vec![CssStyle {
            tag: String::from("h1"),
            attributes: vec![attribute("color", &["red"]), attribute("margin", &["0"])],
        }],
    );
    let b = sheet(
        3,
        vec![CssStyle { tag: String::from("h1"), attributes: vec![attribute("color", &["red"])] }],
    );
    let first = FormattedCssFile::generate_formatted_file(&vec![a.clone(), b.clone()]);
    let second = FormattedCssFile::generate_formatted_file(&vec![b, a]);
    assert_eq!(first.styles, second.styles);
    assert_eq!(first.lines, second.lines);
    let owners: Vec<Option<u32>> = first.lines.iter().map(|l| l.owner).collect();
    assert_eq!(owners, vec![None, Some(3), Some(7), Some(7), None]);
    assert_eq!(first.to_css_string(), "h1 {\n\tcolor: red;\n\tcolor: red;\n\tmargin: 0;\n}\n");
}

#[test]
fn texts_differ_only_where_a_block_ends_without_a_value() {
    let a = sheet(
        1,
        vec![CssStyle {
            tag: String::from("h1"),
            attributes: vec![attribute("color", &["red"]), attribute("zoom", &[])],
        }],
    );
    let input = vec![a];
    let file = FormattedCssFile::generate_formatted_file(&input);
    assert_eq!(file.to_css_string(), "h1 {\n\tcolor: red;\n}\n");
    assert_eq!(generate_css_string(&input), "h1 {\n\tcolor: red;\n\t}\n");
    assert_eq!(file.lines.len(), 3);
}
