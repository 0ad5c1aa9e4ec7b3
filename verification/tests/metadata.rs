use bhc_metadata::metadata::{classify, FileKind, GroupedFiles, GroupedJsonFiles, PathMap};

#[test]
fn sort_files_test() {
    let path1 = String::from("C:/random/file.css");
    let path2 = String::from("C:/random/file.html");
    let path3 = String::from("C:/random/.bhc/.meta/file.json");

    let paths: Vec<String> = vec![path1.clone(), path2.clone(), path3.clone()];

    let expected = GroupedFiles {
        css_files: vec![path1.clone()],
        html_files: vec![path2.clone()],
        json_files: GroupedJsonFiles {
            meta_file: String::new(),
            html_files: Vec::new(),
            css_files: Vec::new(),
        },
    };

    let mut actual = GroupedFiles::new();

    actual.sort_files(&paths);

    assert_eq!(actual, expected);
}

#[test]
fn files_are_sorted_by_kind() {
    let files = vec![
        String::from("/w/index.html"),
        String::from("/w/css/a.css"),
        String::from("/w/.bhc/.meta/meta.json"),
        String::from("/w/.bhc/.meta/css/1.json"),
        String::from("/w/.bhc/.meta/html/1.json"),
        String::from("/w/.bhc/.meta/html/2.json"),
        String::from("/w/.bhc/.virtual/index.css"),
        String::from("/w/.bhc/.shared/base.css"),
        String::from("/w/package.json"),
        String::from("/w/readme"),
    ];
    let grouped = GroupedFiles::from_files(&files);
    assert_eq!(grouped.html_files, vec![String::from("/w/index.html")]);
    assert_eq!(
        grouped.css_files,
        vec![String::from("/w/css/a.css"), String::from("/w/.bhc/.shared/base.css")]
    );
    assert_eq!(grouped.json_files.meta_file, "/w/.bhc/.meta/meta.json");
    assert_eq!(grouped.json_files.css_files, vec![String::from("/w/.bhc/.meta/css/1.json")]);
    assert_eq!(
        grouped.json_files.html_files,
        vec![String::from("/w/.bhc/.meta/html/1.json"), String::from("/w/.bhc/.meta/html/2.json")]
    );
    assert!(grouped.contains_workspace_metadata());
    assert!(!GroupedFiles::new().contains_workspace_metadata());
}

#[test]
fn kind_follows_extension_and_folder() {
    assert_eq!(classify("/w/a.css"), FileKind::Stylesheet);
    assert_eq!(classify("C:\\w\\a.html"), FileKind::Document);
    assert_eq!(classify("C:\\w\\.bhc\\.meta\\meta.json"), FileKind::WorkspaceIndex);
    assert_eq!(classify("/w/.bhc/.meta/css/12.json"), FileKind::StylesheetRecord);
    assert_eq!(classify("/w/.bhc/.meta/html/12.json"), FileKind::DocumentRecord);
    assert_eq!(classify("/w/.bhc/.meta/html/deep/12.json"), FileKind::Ignored);
    assert_eq!(classify("/w/.bhc/.virtual/a/b.css"), FileKind::Ignored);
    assert_eq!(classify("/w/.bhc/.virtual/a/b.html"), FileKind::Ignored);
    assert_eq!(classify("/w/a.CSS"), FileKind::Ignored);
    assert_eq!(classify("/w/.css"), FileKind::Ignored);
    assert_eq!(classify("/w/css"), FileKind::Ignored);
    assert_eq!(classify(""), FileKind::Ignored);
}

#[test]
fn last_entry_of_a_file_is_its_record() {
    let mut map = PathMap::new();
    assert_eq!(map.get("/w/a.css"), None);
    map.insert(String::from("/w/a.css"), String::from("/w/.bhc/.meta/css/1.json"));
    map.insert(String::from("/w/b.css"), String::from("/w/.bhc/.meta/css/2.json"));
    map.insert(String::from("/w//a.css"), String::from("/w/.bhc/.meta/css/3.json"));
    assert_eq!(map.get("/w/a.css"), Some(String::from("/w/.bhc/.meta/css/3.json")));
    assert_eq!(map.get("\\w\\b.css"), Some(String::from("/w/.bhc/.meta/css/2.json")));
    assert_eq!(map.get("/w/c.css"), None);
}

#[test]
fn unreadable_records_track_nothing() {
    let files = vec![
        String::from("/w/.bhc/.meta/css/1.json"),
        String::from("/w/.bhc/.meta/css/2.json"),
        String::from("/w/.bhc/.meta/css/3.json"),
    ];
    let grouped = GroupedFiles::from_files(&files);
    let map = grouped.map_css_files(&vec![Some(String::from("/w/a.css")), None, Some(String::from("/w/c.css"))]);
    assert_eq!(map.entries.len(), 2);
    assert_eq!(map.get("/w/a.css"), Some(String::from("/w/.bhc/.meta/css/1.json")));
    assert_eq!(map.get("/w/c.css"), Some(String::from("/w/.bhc/.meta/css/3.json")));
    assert_eq!(grouped.map_css_files(&vec![Some(String::from("/w/a.css"))]).entries.len(), 0);
    assert_eq!(grouped.map_html_files(&vec![]).entries.len(), 0);
}
