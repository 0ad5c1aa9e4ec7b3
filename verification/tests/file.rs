use bhc_metadata::error::MetadataError;
use bhc_metadata::file::{contains_web_documents, find_absolute_path, get_full_path};

#[test]
fn test_find_absolute_path() {
    let z = find_absolute_path(
        "d:\\programming\\web-dev\\xd\\html\\test.html",
        "../css/test.css",
        false,
    );

    assert_eq!(String::from("d:\\programming\\web-dev\\xd\\css\\test.css"), z.unwrap());
}

#[test]
fn test_get_full_path() {
    let workspace_path = String::from("C:/temp/random/path");

    let a = String::from("C:/temp/random/path/.bhc/.virtual/html/myfile.css");

    let file_pathbuf = String::from("C:/temp/random/path/html/myfile.html");

    assert_eq!(get_full_path(&file_pathbuf, &workspace_path), a);
}

#[test]
fn full_path_outside_workspace_is_empty() {
    assert_eq!(get_full_path("C:/elsewhere/page.html", "C:/temp/random/path"), "");
}

#[test]
fn web_documents_are_found_by_extension() {
    assert!(contains_web_documents(&vec![String::from("/w/readme.md"), String::from("/w/a.css")]));
    assert!(contains_web_documents(&vec![String::from("/w/index.html")]));
    assert!(!contains_web_documents(&vec![String::from("/w/readme.md"), String::from("/w/.css")]));
    assert!(!contains_web_documents(&Vec::new()));
}

#[test]
fn absolute_reference_must_exist() {
    assert_eq!(find_absolute_path("/w/p.html", "/css/a.css", true), Ok(String::from("/css/a.css")));
    assert_eq!(
        find_absolute_path("/w/p.html", "/css/a.css", false),
        Err(MetadataError::PathResolution { path: String::from("/css/a.css") })
    );
    assert_eq!(
        find_absolute_path("/w/p.html", "C:\\css\\a.css", true),
        Ok(String::from("C:\\css\\a.css"))
    );
    assert_eq!(
        MetadataError::PathResolution { path: String::from("/css/a.css") }.message(),
        "Error trying to find CSS File: /css/a.css"
    );
}

#[test]
fn relative_reference_is_resolved_against_the_folder_of_the_document() {
    assert_eq!(find_absolute_path("/w/html/p.html", "a.css", false), Ok(String::from("/w/html/a.css")));
    assert_eq!(find_absolute_path("/w/html/p.html", "a.css", true), Ok(String::from("/w/html/a.css")));
    assert_eq!(
        find_absolute_path("/w/html/p.html", "./x/../y//z.css", false),
        Ok(String::from("/w/x/y/z.css"))
    );
    assert_eq!(find_absolute_path("w/p.html", "../a.css", false), Ok(String::from("a.css")));
    assert_eq!(find_absolute_path("/p.html", "a.css", false), Ok(String::from("/a.css")));
    assert_eq!(find_absolute_path("", "a/b.css", false), Ok(String::from("a/b.css")));
}

#[test]
fn reference_that_climbs_above_the_root_is_an_error() {
    assert_eq!(
        find_absolute_path("/w/p.html", "../../a.css", false),
        Err(MetadataError::PathResolution { path: String::from("../../a.css") })
    );
    assert_eq!(
        find_absolute_path("p.html", "../a.css", false),
        Err(MetadataError::PathResolution { path: String::from("../a.css") })
    );
}

#[test]
fn full_path_replaces_or_adds_the_extension() {
    assert_eq!(get_full_path("/w/a/b.tar.html", "/w"), "/w/.bhc/.virtual/a/b.tar.css");
    assert_eq!(get_full_path("/w/a/page", "/w/"), "/w/.bhc/.virtual/a/page.css");
    assert_eq!(get_full_path("/w/.hidden", "/w"), "/w/.bhc/.virtual/.hidden.css");
    assert_eq!(get_full_path("w\\a\\p.html", "w"), "w/.bhc/.virtual/a/p.css");
    assert_eq!(get_full_path("D:\\w\\a\\p.html", "D:\\w"), "D:\\w\\.bhc\\.virtual\\a\\p.css");
    assert_eq!(get_full_path("/w", "/w"), "/w/.bhc/.virtual.css");
}
