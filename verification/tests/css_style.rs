use bhc_metadata::metadata::css_metadata::css_attribute::CssAttribute;
use bhc_metadata::metadata::css_metadata::css_style::CssStyle;

#[test]
fn update_style_test() {
    let mut old_style = CssStyle::new();

    let old_attribute1 = CssAttribute {
        name: String::from("background-color"),
        values: vec![String::from("red")],
        source: None,
        is_overwritten: None,
    };

    let old_attribute2 = CssAttribute {
        name: String::from("font-size"),
        values: vec![String::from("12pt")],
        source: Some(1),
        is_overwritten: Some(false),
    };

    old_style.attributes = vec![old_attribute1.clone(), old_attribute2.clone()];

    let new_attribute1 = CssAttribute {
        name: String::from("background-color"),
        values: vec![String::from("green")],
        source: None,
        is_overwritten: None,
    };

    let mut new_attributes = vec![new_attribute1.clone()];

    old_style.update_attributes(new_attributes);

    let mut new_style = CssStyle::new();
    new_style.attributes = vec![new_attribute1.clone(), old_attribute2.clone()];

    assert_eq!(old_style, new_style);

    let new_attribute2 = CssAttribute {
        name: String::from("font-size"),
        values: vec![String::from("12pt"), String::from("14pt")],
        source: None,
        is_overwritten: None,
    };

    new_attributes = vec![new_attribute1.clone(), new_attribute2.clone()];

    old_style.update_attributes(new_attributes);

    new_style.attributes = vec![new_attribute1.clone(), new_attribute2.clone()];
    new_style.attributes[1].source = Some(1);
    new_style.attributes[1].is_overwritten = Some(false);

    assert_eq!(old_style, new_style);
}

fn named(name: &str, values: &[&str]) -> CssAttribute {
    CssAttribute {
        name: String::from(name),
        values: values.iter().map(|v| String::from(*v)).collect(),
        source: None,
        is_overwritten: None,
    }
}

#[test]
fn new_names_are_added_in_the_order_of_their_first_declaration() {
    let mut style = CssStyle::new();
    style.tag = String::from("h1");
    style.attributes = vec![named("b", &["1"])];
    let mut sourced = named("z", &["9"]);
    sourced.source = Some(3);
    sourced.is_overwritten = Some(true);
    style.update_attributes(vec![
        named("z", &["7"]),
        named("a", &["2"]),
        sourced.clone(),
        named("b", &["3", "4"]),
        named("a", &[]),
    ]);
    let mut z = named("z", &["7", "9"]);
    z.source = Some(3);
    z.is_overwritten = Some(true);
    assert_eq!(style.tag, "h1");
    assert_eq!(style.attributes, vec![named("b", &["3", "4"]), z, named("a", &["2"])]);
}

#[test]
fn only_the_first_attribute_of_a_name_is_overwritten() {
    let mut style = CssStyle::new();
    style.attributes = vec![named("a", &["1"]), named("a", &["2"])];
    style.update_attributes(vec![named("a", &["3"])]);
    assert_eq!(style.attributes, vec![named("a", &["3"]), named("a", &["2"])]);
    style.update_attributes(vec![]);
    assert_eq!(style.attributes, vec![named("a", &["3"]), named("a", &["2"])]);
}

#[test]
fn attribute_takes_values_and_set_provenance() {
    let mut old = named("color", &["red"]);
    old.source = Some(1);
    old.is_overwritten = Some(false);
    let mut new = named("other", &["blue", "green"]);
    new.is_overwritten = Some(true);
    old.update_or_insert(&new);
    assert_eq!(old.name, "color");
    assert_eq!(old.values, vec![String::from("blue"), String::from("green")]);
    assert_eq!(old.source, Some(1));
    assert_eq!(old.is_overwritten, Some(true));

    let mut style = CssStyle::new();
    style.tag = String::from("p");
    style.attributes = vec![old.clone()];
    let mut other = CssStyle::new();
    other.tag = String::from("q");
    other.attributes = vec![new.clone(), new.clone()];
    style.update_or_insert(&other);
    assert_eq!(style.tag, "p");
    assert_eq!(style.attributes, vec![new.clone(), new]);
}
