use bhc_metadata::error::MetadataError;
use bhc_metadata::metadata::css_metadata::CssMetaData;
use bhc_metadata::metadata::workspace_metadata::workspace_css_file::{
    check_is_shared, WorkspaceCssFile,
};
use bhc_metadata::metadata::workspace_metadata::workspace_html_file::WorkspaceHtmlFile;
use bhc_metadata::metadata::workspace_metadata::{
    id_to_json_file_name, next_available_id, WorkspaceMetaData,
};
use bhc_metadata::timestamp::Timestamp;

#[test]
fn get_next_available_css_id_test() {
    let mut metadata = WorkspaceMetaData::new();

    let mut css_file_1 = WorkspaceCssFile::new();
    css_file_1.id = 1;
    let mut css_file_2 = WorkspaceCssFile::new();
    css_file_2.id = 2;
    let mut css_file_3 = WorkspaceCssFile::new();
    css_file_3.id = 3;
    let mut css_file_4 = WorkspaceCssFile::new();
    css_file_4.id = 4;

    metadata.css_files = vec![css_file_1, css_file_2, css_file_3, css_file_4];

    assert_eq!(5, metadata.get_next_available_css_id());

    metadata.css_files[3].id = 5;

    assert_eq!(4, metadata.get_next_available_css_id());
}

#[test]
fn next_id_is_the_smallest_unused_whatever_the_order() {
    assert_eq!(next_available_id(&vec![]), 1);
    assert_eq!(next_available_id(&vec![2, 1]), 3);
    assert_eq!(next_available_id(&vec![5, 3, 1]), 2);
    assert_eq!(next_available_id(&vec![0, 2, 3]), 1);
    assert_eq!(next_available_id(&vec![1, 1, 2, 2]), 3);
    assert_eq!(next_available_id(&vec![u32::MAX, 1]), 2);

    let mut metadata = WorkspaceMetaData::new();
    assert_eq!(metadata.get_next_available_html_id(), 1);
    let mut page = WorkspaceHtmlFile::new();
    page.id = 1;
    metadata.add_html_file(page);
    assert_eq!(metadata.get_next_available_html_id(), 2);
    assert_eq!(metadata.get_next_available_css_id(), 1);
}

#[test]
fn record_files_are_named_by_id() {
    assert_eq!(id_to_json_file_name(&0), "0.json");
    assert_eq!(id_to_json_file_name(&7), "7.json");
    assert_eq!(id_to_json_file_name(&10), "10.json");
    assert_eq!(id_to_json_file_name(&1905), "1905.json");
    assert_eq!(id_to_json_file_name(&u32::MAX), "4294967295.json");
}

fn css_entry(id: u32, path: &str) -> WorkspaceCssFile {
    let mut file = WorkspaceCssFile::new();
    file.id = id;
    file.absolute_path = String::from(path);
    file
}

fn html_entry(id: u32, path: &str) -> WorkspaceHtmlFile {
    let mut file = WorkspaceHtmlFile::new();
    file.id = id;
    file.absolute_path = String::from(path);
    file
}

#[test]
fn files_are_found_by_path_and_by_id() {
    let mut metadata = WorkspaceMetaData::new();
    metadata.add_css_file(css_entry(1, "/w/css/a.css"));
    metadata.add_css_file(css_entry(2, "/w/css/b.css"));
    metadata.add_css_file(css_entry(3, "/w/css/a.css"));
    metadata.add_html_file(html_entry(1, "C:\\w\\index.html"));

    assert_eq!(metadata.get_css_file_id("/w/css/b.css"), Some(2));
    assert_eq!(metadata.get_css_file_id("/w/css/a.css"), Some(1));
    assert_eq!(metadata.get_css_file_id("\\w\\css//a.css"), Some(1));
    assert_eq!(metadata.get_css_file_id("w/css/a.css"), None);
    assert_eq!(metadata.get_css_file_id("/w/css/c.css"), None);
    assert_eq!(metadata.get_html_file_id("C:/w/index.html"), Some(1));
    assert_eq!(metadata.get_html_file_id("/w/css/a.css"), None);

    assert_eq!(metadata.get_css_file_by_id(&3), Some(css_entry(3, "/w/css/a.css")));
    assert_eq!(metadata.get_css_file_by_id(&4), None);
    assert_eq!(metadata.get_html_file_by_id(&1), Some(html_entry(1, "C:\\w\\index.html")));
    assert_eq!(metadata.get_html_file_by_id(&2), None);
}

#[test]
fn entry_is_replaced_at_its_position_only() {
    let mut metadata = WorkspaceMetaData::new();
    metadata.add_html_file(html_entry(1, "/w/a.html"));
    metadata.add_html_file(html_entry(2, "/w/b.html"));

    let mut changed = html_entry(2, "/w/b.html");
    changed.css_files = Some(vec![4, 5]);
    assert_eq!(metadata.modify_html_file(&changed, &1), Ok(()));
    assert_eq!(metadata.html_files, vec![html_entry(1, "/w/a.html"), changed.clone()]);

    assert_eq!(metadata.modify_html_file(&changed, &2), Err(MetadataError::IndexOutOfBounds));
    assert_eq!(metadata.html_files.len(), 2);
    assert_eq!(
        MetadataError::IndexOutOfBounds.message(),
        "Error trying to update Workspace HTML File: Index out of bounds"
    );
}

#[test]
fn index_is_dated_when_saved() {
    let mut metadata = WorkspaceMetaData::new();
    metadata.add_css_file(css_entry(1, "/w/a.css"));
    metadata.update_metadata(Timestamp::from_seconds(1710090300));
    assert_eq!(metadata.last_updated, Timestamp { seconds: 1710090300, nanoseconds: 0 });
    assert_eq!(metadata.css_files.len(), 1);
}

#[test]
fn shared_stylesheets_lie_in_the_shared_folder() {
    assert!(check_is_shared("D:/programming/web-dev/xd/.bhc/.shared/base.css"));
    assert!(check_is_shared("D:\\xd\\.bhc\\.shared\\deep\\base.css"));
    assert!(!check_is_shared("D:/programming/web-dev/xd/css/test.css"));
    assert!(!check_is_shared("/w/.shared/a.css"));
    assert!(!check_is_shared("/w/.bhc/x/.shared/a.css"));

    let mut record = CssMetaData::new();
    record.id = 3;
    record.file_name = String::from("base.css");
    record.absolute_path = String::from("/w/.bhc/.shared/base.css");
    let entry = WorkspaceCssFile::parse(&record);
    assert_eq!(entry.id, 3);
    assert_eq!(entry.file_name, "base.css");
    assert!(entry.is_shared);
    assert_eq!(entry.html_files, None);
}
