use bhc_metadata::file::{get_css_file_paths, resolve_references};
use bhc_metadata::error::MetadataError;
use bhc_metadata::html::html_commands::{get_css_files, targets_of};
use bhc_metadata::html::{HtmlAttribute, HtmlTag, HtmlToken};
use bhc_metadata::path::is_same_path;

const PAGE: &str = r#"<!DOCTYPE html>
		<html lang="en#">
		<head>
			<meta charset="UTF-8">
			<title style="font-size: 14em">Title</title>
			<link rel="stylesheet" type="text/css" href="C:/Users\Ollie/Documents\serverexampletest/css_files/base.css"/>
			<link rel="stylesheet" type="text/css" href="../css_files/stylesheet_1.css"/>
		</head>
		<body>
			<h1>My Title</h1>
			<p>Lorem Ipsum Dolores</p>
		</body>
		</html>"#;

#[test]
fn test_get_css_file_paths() {
    let absolute_path = "C:/Users/Ollie/Documents/serverexampletest/html_files/test.html";

    let file_contents = PAGE;

    let mut expected: Vec<String> = Vec::new();
    expected.push(String::from("C:/Users/Ollie/Documents/serverexampletest/css_files/base.css"));
    expected.push(String::from(
        "C:/Users/Ollie/Documents/serverexampletest/css_files/stylesheet_1.css",
    ));

    let x = get_css_file_paths(absolute_path, file_contents, &vec![true, false]).unwrap();

    x.iter().for_each(|y| println!("{:?}", y));

    assert_eq!(x.len(), expected.len());
    assert!(is_same_path(&x[0], &expected[0]));
    assert_eq!(x[1], expected[1]);
}

#[test]
fn html_commands_it_works() {
    let found = get_css_files(&String::from(PAGE));
    println!("{:?}", found);
    assert_eq!(
        found,
        vec![
            String::from("C:/Users\\Ollie/Documents\\serverexampletest/css_files/base.css"),
            String::from("../css_files/stylesheet_1.css"),
        ]
    );
}

#[test]
fn only_link_tags_with_href_count() {
    let page = String::from(
        "<a href=\"x.css\">x</a><link rel=\"stylesheet\"><LINK HREF='a.css'><link href=b.css href=c.css></link>",
    );
    assert_eq!(get_css_files(&page), vec![String::from("a.css"), String::from("b.css")]);
}

#[test]
fn first_href_attribute_of_a_tag_is_taken() {
    let tag = HtmlTag {
        name: b"link".to_vec(),
        attributes: vec![
            HtmlAttribute { name: b"rel".to_vec(), value: b"stylesheet".to_vec() },
            HtmlAttribute { name: b"href".to_vec(), value: b"one.css".to_vec() },
            HtmlAttribute { name: b"href".to_vec(), value: b"two.css".to_vec() },
        ],
    };
    let other = HtmlTag { name: b"links".to_vec(), attributes: vec![HtmlAttribute { name: b"href".to_vec(), value: b"no.css".to_vec() }] };
    let tokens = vec![HtmlToken::Other, HtmlToken::StartTag(other), HtmlToken::StartTag(tag)];
    assert_eq!(targets_of(&tokens), vec![String::from("one.css")]);
}

#[test]
fn invalid_bytes_of_a_reference_are_replaced() {
    let tag = HtmlTag {
        name: b"link".to_vec(),
        attributes: vec![HtmlAttribute { name: b"href".to_vec(), value: vec![b'a', 0xff, b'b'] }],
    };
    assert_eq!(targets_of(&vec![HtmlToken::StartTag(tag)]), vec![String::from("a\u{fffd}b")]);
}

#[test]
fn last_unresolved_reference_is_the_error() {
    let references = vec![
        String::from("/gone/a.css"),
        String::from("ok.css"),
        String::from("../../../b.css"),
        String::from("fine.css"),
    ];
    let r = resolve_references("/w/page.html", &references, &vec![false, false, false, false]);
    assert_eq!(r, Err(MetadataError::PathResolution { path: String::from("../../../b.css") }));
    let r = resolve_references("/w/page.html", &references[..2].to_vec(), &vec![]);
    assert_eq!(r, Err(MetadataError::PathResolution { path: String::from("/gone/a.css") }));
    let r = resolve_references("/w/page.html", &references[..2].to_vec(), &vec![true]);
    assert_eq!(r, Ok(vec![String::from("/gone/a.css"), String::from("/w/ok.css")]));
}
