use std::collections::BTreeMap;

use bhc_metadata::error::MetadataError;
use bhc_metadata::file::{get_css_file, show_css_files};
use bhc_metadata::html::html_commands::get_css_files;
use bhc_metadata::metadata::css_metadata::{generate_css_string, CssMetaData};
use bhc_metadata::metadata::html_metadata::HtmlMetaData;
use bhc_metadata::metadata::workspace_metadata::workspace_html_file::WorkspaceHtmlFile;
use bhc_metadata::metadata::workspace_metadata::WorkspaceMetaData;
use bhc_metadata::timestamp::Timestamp;
use bhc_metadata::workspace::{path_of_record, Phase, Reconciler, Stage, SyncAction, SyncEvent};

/// A workspace kept in memory: the files with their text and the time of
/// their last change, and the records and the index that the pass saved.
struct Disk {
    files: BTreeMap<String, (String, Timestamp)>,
    css_records: BTreeMap<String, CssMetaData>,
    html_records: BTreeMap<String, HtmlMetaData>,
    index: Option<(String, WorkspaceMetaData)>,
    unreadable: Vec<String>,
    log: Vec<String>,
}

impl Disk {
    fn new() -> Disk {
        Disk {
            files: BTreeMap::new(),
            css_records: BTreeMap::new(),
            html_records: BTreeMap::new(),
            index: None,
            unreadable: Vec::new(),
            log: Vec::new(),
        }
    }

    fn write(&mut self, path: &str, text: &str, seconds: i64) {
        self.files.insert(String::from(path), (String::from(text), Timestamp::from_seconds(seconds)));
    }

    fn paths(&self) -> Vec<String> {
        let mut all: Vec<String> = self.files.keys().cloned().collect();
        all.extend(self.css_records.keys().cloned());
        all.extend(self.html_records.keys().cloned());
        if let Some((path, _)) = &self.index {
            all.push(path.clone());
        }
        all
    }

    fn perform(&mut self, action: SyncAction) -> Option<SyncEvent> {
        Some(match action {
            SyncAction::Finished => return None,
            SyncAction::LoadIndex { path } => {
                self.log.push(format!("load index {path}"));
                match &self.index {
                    Some((at, index)) if *at == path => SyncEvent::Index(index.clone()),
                    _ => SyncEvent::Failed,
                }
            }
            SyncAction::CreateIndex { path, index } => {
                self.log.push(format!("create index {path}"));
                self.index = Some((path, index.clone()));
                SyncEvent::Index(index)
            }
            SyncAction::LoadRecordPaths { css_records, html_records } => SyncEvent::RecordPaths {
                css: css_records
                    .iter()
                    .map(|p| self.css_records.get(p).map(|r| r.absolute_path.clone()))
                    .collect(),
                html: html_records
                    .iter()
                    .map(|p| self.html_records.get(p).map(|r| r.absolute_path.clone()))
                    .collect(),
            },
            SyncAction::InspectStylesheet { metadata_path } => {
                match self.css_records.get(&metadata_path) {
                    Some(record) => match self.files.get(&record.absolute_path) {
                        Some((_, modified)) => {
                            SyncEvent::Stylesheet { record: record.clone(), modified: *modified }
                        }
                        None => SyncEvent::Failed,
                    },
                    None => SyncEvent::Failed,
                }
            }
            SyncAction::InspectDocument { metadata_path } => {
                match self.html_records.get(&metadata_path) {
                    Some(record) => match self.files.get(&record.absolute_path) {
                        Some((_, modified)) => {
                            SyncEvent::Document { record: record.clone(), modified: *modified }
                        }
                        None => SyncEvent::Failed,
                    },
                    None => SyncEvent::Failed,
                }
            }
            SyncAction::ReadFile { path } => {
                self.log.push(format!("read {path}"));
                if self.unreadable.contains(&path) {
                    SyncEvent::Failed
                } else {
                    match self.files.get(&path) {
                        Some((text, _)) => SyncEvent::Text(text.clone()),
                        None => SyncEvent::Failed,
                    }
                }
            }
            SyncAction::CheckFiles { paths } => {
                SyncEvent::Existence(paths.iter().map(|p| self.files.contains_key(p)).collect())
            }
            SyncAction::SaveStylesheet { metadata_path, record } => {
                self.log.push(format!("save {metadata_path}"));
                self.css_records.insert(metadata_path, record);
                SyncEvent::Saved
            }
            SyncAction::SaveDocument { metadata_path, record } => {
                self.log.push(format!("save {metadata_path}"));
                self.html_records.insert(metadata_path, record);
                SyncEvent::Saved
            }
            SyncAction::SaveIndex { path, index } => {
                self.log.push(format!("save index {path}"));
                self.index = Some((path, index));
                SyncEvent::Saved
            }
        })
    }

    /// Runs one pass and gives the number of steps that it took.
    fn reconcile(&mut self, workspace: &str, seconds: i64) -> usize {
        self.log.clear();
        let now = Timestamp::from_seconds(seconds);
        let (mut state, mut action) = Reconciler::start(workspace, &self.paths(), now);
        let mut steps = 0;
        while let Some(event) = self.perform(action) {
            let (next, asked) = state.step(event, now);
            state = next;
            action = asked;
            steps += 1;
            assert!(steps < 10_000);
        }
        assert_eq!(state.stage, Stage::Finished);
        steps
    }

    fn index(&self) -> &WorkspaceMetaData {
        &self.index.as_ref().unwrap().1
    }
}

const PAGE: &str = "<html><head><link rel=\"stylesheet\" href=\"css/a.css\"><link rel=\"stylesheet\" href=\"css/b.css\"></head></html>";

fn site() -> Disk {
    let mut disk = Disk::new();
    disk.write("/w/index.html", PAGE, 100);
    disk.write("/w/css/a.css", "h1{color:red;}", 100);
    disk.write("/w/css/b.css", "h1{font-size:10pt;} p{color:blue;}", 100);
    disk
}

#[test]
fn pass_over_a_fresh_workspace() {
    let mut disk = site();
    disk.reconcile("/w", 200);

    let index = disk.index();
    assert_eq!(index.workspace_path, "/w");
    assert_eq!(index.last_updated, Timestamp::from_seconds(200));
    let css: Vec<(u32, &str)> =
        index.css_files.iter().map(|f| (f.id, f.absolute_path.as_str())).collect();
    assert_eq!(css, vec![(1, "/w/css/a.css"), (2, "/w/css/b.css")]);
    assert_eq!(index.css_files[0].file_name, "a.css");
    assert!(!index.css_files[0].is_shared);
    assert_eq!(
        index.html_files,
        vec![WorkspaceHtmlFile {
            id: 1,
            file_name: String::from("index.html"),
            absolute_path: String::from("/w/index.html"),
            css_files: Some(vec![1, 2]),
        }]
    );

    let page = &disk.html_records["/w/.bhc/.meta/html/1.json"];
    assert_eq!(page.id, 1);
    let sheets: Vec<(u32, &str, &str)> = page
        .css_sheets
        .as_ref()
        .unwrap()
        .iter()
        .map(|s| (s.id, s.file_name.as_str(), s.absolute_path.as_str()))
        .collect();
    assert_eq!(sheets, vec![(1, "a.css", "/w/css/a.css"), (2, "b.css", "/w/css/b.css")]);
    assert_eq!(page.last_updated, Timestamp::from_seconds(200));

    let records: Vec<CssMetaData> = vec![
        disk.css_records["/w/.bhc/.meta/css/1.json"].clone(),
        disk.css_records["/w/.bhc/.meta/css/2.json"].clone(),
    ];
    assert_eq!(
        generate_css_string(&records),
        "h1 {\n\tcolor: red;\n\tfont-size: 10pt;\n}\np {\n\tcolor: blue;\n}\n"
    );
    assert_eq!(disk.index.as_ref().unwrap().0, "/w/.bhc/.meta/meta.json");
}

#[test]
fn second_pass_changes_nothing_but_the_dates() {
    let mut disk = site();
    disk.reconcile("/w", 200);
    let css = disk.css_records.clone();
    let files = disk.index().css_files.clone();
    let pages = disk.index().html_files.clone();

    disk.reconcile("/w", 300);
    assert!(disk.log.contains(&String::from("load index /w/.bhc/.meta/meta.json")));
    assert!(!disk.log.iter().any(|l| l.starts_with("read /w/css")));
    assert!(!disk.log.iter().any(|l| l.starts_with("save /w/.bhc/.meta/css")));
    assert_eq!(disk.css_records, css);
    assert_eq!(disk.index().css_files, files);
    assert_eq!(disk.index().html_files, pages);
    assert_eq!(disk.index().last_updated, Timestamp::from_seconds(300));
    assert_eq!(disk.css_records.len(), 2);
    assert_eq!(disk.html_records.len(), 1);
}

#[test]
fn record_is_refreshed_only_for_a_strictly_newer_file() {
    let mut disk = site();
    disk.reconcile("/w", 200);

    disk.write("/w/css/a.css", "h1{color:green;}", 200);
    disk.write("/w/css/b.css", "p{color:black;}", 201);
    disk.reconcile("/w", 300);

    let a = &disk.css_records["/w/.bhc/.meta/css/1.json"];
    assert_eq!(a.last_updated, Timestamp::from_seconds(200));
    assert_eq!(a.styles.as_ref().unwrap()[0].attributes[0].values, vec![String::from("red")]);
    let b = &disk.css_records["/w/.bhc/.meta/css/2.json"];
    assert_eq!(b.last_updated, Timestamp::from_seconds(300));
    let tags: Vec<&str> = b.styles.as_ref().unwrap().iter().map(|s| s.tag.as_str()).collect();
    assert_eq!(tags, vec!["h1", "p"]);
    assert_eq!(b.styles.as_ref().unwrap()[1].attributes[0].values, vec![String::from("black")]);
    assert!(disk.log.contains(&String::from("read /w/css/b.css")));
    assert!(!disk.log.contains(&String::from("read /w/css/a.css")));
}

#[test]
fn new_files_get_the_smallest_free_ids() {
    let mut disk = site();
    disk.reconcile("/w", 200);
    disk.write("/w/css/c.css", "a{top:0px;}", 250);
    disk.write("/w/about.html", "<link href='css/c.css'>", 250);
    disk.reconcile("/w", 300);

    let css: Vec<(u32, &str)> =
        disk.index().css_files.iter().map(|f| (f.id, f.absolute_path.as_str())).collect();
    assert_eq!(css, vec![(1, "/w/css/a.css"), (2, "/w/css/b.css"), (3, "/w/css/c.css")]);
    let pages: Vec<(u32, &str, Option<Vec<u32>>)> = disk
        .index()
        .html_files
        .iter()
        .map(|f| (f.id, f.absolute_path.as_str(), f.css_files.clone()))
        .collect();
    assert_eq!(
        pages,
        vec![(1, "/w/index.html", Some(vec![1, 2])), (2, "/w/about.html", Some(vec![3]))]
    );
    assert!(disk.html_records.contains_key("/w/.bhc/.meta/html/2.json"));
}

#[test]
fn file_that_cannot_be_read_is_passed_over() {
    let mut disk = site();
    disk.unreadable.push(String::from("/w/css/a.css"));
    disk.reconcile("/w", 200);

    let css: Vec<(u32, &str)> =
        disk.index().css_files.iter().map(|f| (f.id, f.absolute_path.as_str())).collect();
    assert_eq!(css, vec![(1, "/w/css/b.css")]);
    assert_eq!(disk.index().html_files[0].css_files, Some(vec![1]));
    assert!(disk.log.contains(&String::from("save index /w/.bhc/.meta/meta.json")));

    disk.unreadable.clear();
    disk.reconcile("/w", 300);
    let css: Vec<(u32, &str)> =
        disk.index().css_files.iter().map(|f| (f.id, f.absolute_path.as_str())).collect();
    assert_eq!(css, vec![(1, "/w/css/b.css"), (2, "/w/css/a.css")]);
    assert_eq!(disk.index().html_files[0].css_files, Some(vec![2, 1]));
}

#[test]
fn workspace_without_web_documents_needs_no_pass() {
    let mut disk = Disk::new();
    disk.write("/w/readme.md", "hello", 1);
    assert_eq!(disk.reconcile("/w", 2), 0);
    assert!(disk.index.is_none());
    assert!(disk.log.is_empty());

    let (state, action) = Reconciler::start("/w", &vec![], Timestamp::from_seconds(0));
    assert_eq!(action, SyncAction::Finished);
    assert_eq!(state.stage, Stage::Finished);
    assert!(state.within());
    let (state, action) = state.step(SyncEvent::Saved, Timestamp::from_seconds(0));
    assert_eq!(action, SyncAction::Finished);
    assert_eq!(state.stage, Stage::Finished);
}

#[test]
fn pass_ends_where_the_index_cannot_be_had() {
    let files = vec![String::from("/w/a.css"), String::from("/w/.bhc/.meta/meta.json")];
    let now = Timestamp::from_seconds(5);
    let (state, action) = Reconciler::start("/w", &files, now);
    assert_eq!(action, SyncAction::LoadIndex { path: String::from("/w/.bhc/.meta/meta.json") });
    assert_eq!(state.stage, Stage::AwaitingIndex);
    let (state, action) = state.step(SyncEvent::Failed, now);
    assert_eq!(action, SyncAction::Finished);
    assert_eq!(state.stage, Stage::Finished);
}

#[test]
fn steps_of_a_new_stylesheet() {
    let files = vec![String::from("/w/a.css")];
    let now = Timestamp::from_seconds(5);
    let (state, action) = Reconciler::start("/w", &files, now);
    let index = match action {
        SyncAction::CreateIndex { path, index } => {
            assert_eq!(path, "/w/.bhc/.meta/meta.json");
            assert_eq!(index.workspace_path, "/w");
            assert_eq!(index.last_updated, now);
            index
        }
        other => panic!("{other:?}"),
    };
    let (state, action) = state.step(SyncEvent::Index(index), now);
    assert_eq!(action, SyncAction::LoadRecordPaths { css_records: vec![], html_records: vec![] });
    let (state, action) = state.step(SyncEvent::RecordPaths { css: vec![], html: vec![] }, now);
    assert_eq!(action, SyncAction::ReadFile { path: String::from("/w/a.css") });
    assert_eq!(
        state.stage,
        Stage::CreatingStylesheet { metadata_path: String::from("/w/.bhc/.meta/css/1.json"), id: 1 }
    );
    assert_eq!(state.phase, Phase::Stylesheets);
    let (state, action) = state.step(SyncEvent::Text(String::from("p{top:0px;}")), now);
    match &action {
        SyncAction::SaveStylesheet { metadata_path, record } => {
            assert_eq!(metadata_path, "/w/.bhc/.meta/css/1.json");
            assert_eq!(*record, CssMetaData::create_metadata("/w/a.css", &1, "p{top:0px;}", now));
        }
        other => panic!("{other:?}"),
    }
    assert!(state.index.css_files.is_empty());
    let (state, action) = state.step(SyncEvent::Saved, now);
    assert_eq!(state.index.css_files.len(), 1);
    assert_eq!(state.index.css_files[0].id, 1);
    match action {
        SyncAction::SaveIndex { path, index } => {
            assert_eq!(path, "/w/.bhc/.meta/meta.json");
            assert_eq!(index, state.index);
        }
        other => panic!("{other:?}"),
    }
    assert_eq!(state.stage, Stage::SavingIndex);
    let (state, action) = state.step(SyncEvent::Failed, now);
    assert_eq!(action, SyncAction::Finished);
    assert_eq!(state.stage, Stage::Finished);
}

#[test]
fn record_of_another_document_is_not_entered_in_the_index() {
    let mut disk = site();
    disk.reconcile("/w", 200);
    let mut wrong = disk.html_records["/w/.bhc/.meta/html/1.json"].clone();
    wrong.id = 9;
    wrong.css_sheets = None;
    disk.html_records.insert(String::from("/w/.bhc/.meta/html/1.json"), wrong);
    disk.reconcile("/w", 300);
    assert_eq!(disk.index().html_files[0].id, 1);
    assert_eq!(disk.index().html_files[0].css_files, Some(vec![1, 2]));
}

#[test]
fn record_paths_lie_in_the_folder_of_their_kind() {
    assert_eq!(path_of_record("/w", ".bhc/.meta/css", 12), "/w/.bhc/.meta/css/12.json");
    assert_eq!(path_of_record("C:\\w\\", ".bhc/.meta/html", 3), "C:\\w\\.bhc\\.meta\\html\\3.json");
}

fn record(id: u32, path: &str, text: &str) -> CssMetaData {
    CssMetaData::create_metadata(path, &id, text, Timestamp::from_seconds(0))
}

#[test]
fn document_with_one_stylesheet_is_shown_that_stylesheet() {
    let records = vec![record(1, "/w/css/a.css", "h1{color:red;}"), record(2, "/w/css/b.css", "p{top:0px;}")];
    let page = "<link href='css/a.css'>";
    let shown = get_css_file("/w/index.html", "/w", page, &vec![false], records).unwrap().unwrap();
    assert_eq!(shown.virtual_text, None);
    assert_eq!(shown.file.absolute_path, "/w/css/a.css");
    assert_eq!(shown.file.included_files.len(), 1);
    assert_eq!(shown.file.included_files[0].id, 1);
    assert_eq!(shown.file.to_css_string(), "h1 {\n\tcolor: red;\n}\n");
    assert_eq!(shown.file.lines.len(), 3);
}

#[test]
fn document_with_several_stylesheets_is_shown_their_merge() {
    let records = vec![
        record(1, "/w/css/a.css", "h1{color:red;}"),
        record(2, "/w/css/b.css", "h1{font-size:10pt;} p{color:blue;}"),
        record(3, "/w/css/c.css", "a{top:0px;}"),
    ];
    let shown = get_css_file("/w/pages/index.html", "/w", "<link href='../css/a.css'><link href='../css/b.css'>", &vec![], records)
        .unwrap()
        .unwrap();
    assert_eq!(shown.file.absolute_path, "/w/.bhc/.virtual/pages/index.css");
    assert_eq!(
        shown.virtual_text,
        Some(String::from("h1 {\n\tcolor: red;\n\tfont-size: 10pt;\n}\np {\n\tcolor: blue;\n}\n"))
    );
    assert_eq!(shown.virtual_text, Some(shown.file.to_css_string()));
    let owners: Vec<Option<u32>> = shown.file.lines.iter().map(|l| l.owner).collect();
    assert_eq!(owners, vec![None, Some(1), Some(2), None, Some(2), Some(2), Some(2)]);
}

#[test]
fn document_without_stylesheets_is_shown_nothing() {
    let records = vec![record(1, "/w/css/a.css", "h1{color:red;}")];
    assert_eq!(get_css_file("/w/index.html", "/w", "<p>text</p>", &vec![], records.clone()), Ok(None));
    assert_eq!(
        get_css_file("/w/index.html", "/w", "<link href='x.css'>", &vec![], records.clone()),
        Err(MetadataError::NoRecord { path: String::from("/w/index.html") })
    );
    assert_eq!(
        get_css_file("/w/index.html", "/w", "<link href='/gone.css'>", &vec![false], records),
        Err(MetadataError::PathResolution { path: String::from("/gone.css") })
    );
    assert_eq!(
        MetadataError::NoRecord { path: String::from("/w/index.html") }.message(),
        "Could not get css file for file: /w/index.html"
    );
}

#[test]
fn references_of_a_document_are_kept_up_to_date() {
    let mut index = WorkspaceMetaData::new();
    for (id, path) in [(1, "/w/a.css"), (2, "/w/b.css"), (3, "/w/c.css")] {
        let entry = bhc_metadata::metadata::workspace_metadata::workspace_css_file::WorkspaceCssFile::parse(&record(id, path, ""));
        index.add_css_file(entry);
    }
    let now = Timestamp::from_seconds(9);
    let mut page = HtmlMetaData::create_metadata("/w/p.html", &4, now);
    assert_eq!(page.file_name, "p.html");
    assert_eq!(page.css_sheets, None);
    assert_eq!(WorkspaceHtmlFile::parse(&page).css_files, None);

    let text = "<link href='b.css'><link href='unknown.css'><link href='a.css'><link href='b.css'>";
    assert_eq!(get_css_files(&String::from(text)).len(), 4);
    let entry = page.update_css_sheets(&index, text, &vec![]).unwrap();
    assert_eq!(entry.css_files, Some(vec![1, 2]));
    assert_eq!(entry.id, 4);

    let entry = page.update_css_sheets(&index, "<link href='c.css'>", &vec![]).unwrap();
    assert_eq!(entry.css_files, Some(vec![1, 2, 3]));

    let before = page.clone();
    assert_eq!(
        page.update_css_sheets(&index, "<link href='../../x.css'>", &vec![]),
        Err(MetadataError::PathResolution { path: String::from("../../x.css") })
    );
    assert_eq!(page, before);

    let (saved, entry) = page.update_metadata(&index, "<link href='a.css'>", &vec![], Timestamp::from_seconds(20)).unwrap();
    assert_eq!(saved.last_updated, Timestamp::from_seconds(20));
    assert_eq!(entry.css_files, Some(vec![2, 3, 1]));
    assert_eq!(page, before);

    let entry = page.update_css_sheets(&index, "<p>no links</p>", &vec![]).unwrap();
    assert_eq!(entry.css_files, None);
    assert_eq!(page.css_sheets, None);

    let entry = page.update_css_sheets(&index, "<link href='unknown.css'>", &vec![]).unwrap();
    assert_eq!(entry.css_files, None);
    assert_eq!(page.css_sheets, None);
}

#[test]
fn one_resolved_stylesheet_is_never_merged_to_a_virtual_file() {
    let records = vec![
        record(1, "/w/css/a.css", "h1{color:red;}"),
        record(2, "/w/css/b.css", "p{top:0px;}"),
    ];
    let shown = show_css_files("/w/index.html", "/w", &vec![String::from("/w/css/b.css")], records.clone())
        .unwrap()
        .unwrap();
    assert_eq!(shown.virtual_text, None);
    assert_eq!(shown.file.absolute_path, "/w/css/b.css");
    assert_eq!(shown.file.styles.len(), 1);
    assert_eq!(shown.file.styles[0].owner, Some(2));

    let both = vec![String::from("/w/css/b.css"), String::from("/w/css/a.css")];
    let shown = show_css_files("/w/index.html", "/w", &both, records.clone()).unwrap().unwrap();
    assert_eq!(shown.file.absolute_path, "/w/.bhc/.virtual/index.css");
    assert_eq!(shown.virtual_text, Some(String::from("h1 {\n\tcolor: red;\n}\np {\n\ttop: 0px;\n}\n")));
    assert_eq!(shown.file.included_files.len(), 2);
    assert_eq!(shown.file.included_files[0].id, 1);

    assert_eq!(show_css_files("/w/index.html", "/w", &vec![], records.clone()), Ok(None));
    assert_eq!(
        show_css_files("/w/index.html", "/w", &vec![String::from("/w/css/c.css")], records),
        Err(MetadataError::NoRecord { path: String::from("/w/index.html") })
    );
}

#[test]
fn sheets_are_linked_in_the_order_of_the_references() {
    let mut index = WorkspaceMetaData::new();
    for (id, path) in [(5, "/w/a.css"), (7, "/w/b.css")] {
        let entry = bhc_metadata::metadata::workspace_metadata::workspace_css_file::WorkspaceCssFile::parse(&record(id, path, ""));
        index.add_css_file(entry);
    }
    let mut page = HtmlMetaData::create_metadata("/w/p.html", &1, Timestamp::from_seconds(1));
    let entry = page.link_sheets(&index, &vec![String::from("/w/b.css"), String::from("/w/a.css"), String::from("/w/b.css")]);
    assert_eq!(entry.css_files, Some(vec![5, 7]));
    let sheets = page.css_sheets.clone().unwrap();
    assert_eq!(sheets[1].file_name, "b.css");
    assert_eq!(sheets[1].absolute_path, "/w/b.css");
    let entry = page.link_sheets(&index, &vec![]);
    assert_eq!(entry.css_files, None);
    assert_eq!(entry.absolute_path, "/w/p.html");
}
