//! Per-file and workspace-wide metadata records, and the sorting of the
//! files of a workspace into the kinds that the records are made for.

pub mod css_metadata;
pub mod file_metadata;
pub mod html_metadata;
pub mod workspace_metadata;

use vstd::prelude::*;
use crate::file::{CSS_METADATA_PATH, HTML_METADATA_PATH, METADATA_PATH, VIRTUAL_PATH};
use crate::keyed::views;
use crate::path::{
    chars_equal, components, ends_with, has_run, is_rooted, is_same_path, name_extension,
    parts_end_with, parts_have_run, parts_view, path_extension, same_path, split_components,
    starts_at_root, to_chars,
};
use crate::text::{lemma_texts_push, texts};

verus! {

/// What a file of a workspace is to the metadata engine.
#[derive(Debug, PartialEq, Eq, Clone, Copy)]
pub enum FileKind {
    /// A file that the engine does not track.
    Ignored,
    /// A stylesheet.
    Stylesheet,
    /// An HTML document.
    Document,
    /// The index of the workspace.
    WorkspaceIndex,
    /// The record of a stylesheet.
    StylesheetRecord,
    /// The record of an HTML document.
    DocumentRecord,
}

/// The kind of the file at `path`. Files below the folder of merged
/// stylesheets are ignored. Otherwise the extension decides: `css` makes a
/// stylesheet, `html` a document; a `json` file is the index where its path
/// ends with the path of the index, and a record where it lies in one of the
/// two folders of records.
pub open spec fn kind_of(path: Seq<char>) -> FileKind {
    let parts = components(path);
    if has_run(parts, components(VIRTUAL_PATH@)) {
        FileKind::Ignored
    } else if path_extension(path) == Some("css"@) {
        FileKind::Stylesheet
    } else if path_extension(path) == Some("html"@) {
        FileKind::Document
    } else if path_extension(path) == Some("json"@) {
        if ends_with(parts, components(METADATA_PATH@)) {
            FileKind::WorkspaceIndex
        } else if ends_with(parts.drop_last(), components(CSS_METADATA_PATH@)) {
            FileKind::StylesheetRecord
        } else if ends_with(parts.drop_last(), components(HTML_METADATA_PATH@)) {
            FileKind::DocumentRecord
        } else {
            FileKind::Ignored
        }
    } else {
        FileKind::Ignored
    }
}

/// The paths of `files` that are of the kind `kind`, in order.
pub open spec fn of_kind(files: Seq<Seq<char>>, kind: FileKind) -> Seq<Seq<char>>
    decreases files.len(),
{
    if files.len() == 0 {
        Seq::empty()
    } else if kind_of(files.last()) == kind {
        of_kind(files.drop_last(), kind).push(files.last())
    } else {
        of_kind(files.drop_last(), kind)
    }
}

/// The last of `files` that is an index of a workspace; `before` where none
/// is.
pub open spec fn last_index_file(files: Seq<Seq<char>>, before: Seq<char>) -> Seq<char>
    decreases files.len(),
{
    if files.len() == 0 {
        before
    } else if kind_of(files.last()) == FileKind::WorkspaceIndex {
        files.last()
    } else {
        last_index_file(files.drop_last(), before)
    }
}

/// The kind of the file at `path`.
pub fn classify(path: &str) -> (r: FileKind)
    ensures
        r == kind_of(path@),
{
    let mut parts = split_components(&to_chars(path));
    if parts_have_run(&parts, &split_components(&to_chars(VIRTUAL_PATH))) {
        return FileKind::Ignored;
    }
    if parts.len() == 0 {
        return FileKind::Ignored;
    }
    let extension = match name_extension(&parts[parts.len() - 1]) {
        Some(extension) => extension,
        None => {
            return FileKind::Ignored;
        },
    };
    if chars_equal(&extension, &to_chars("css")) {
        FileKind::Stylesheet
    } else if chars_equal(&extension, &to_chars("html")) {
        FileKind::Document
    } else if chars_equal(&extension, &to_chars("json")) {
        if parts_end_with(&parts, &split_components(&to_chars(METADATA_PATH))) {
            return FileKind::WorkspaceIndex;
        }
        let ghost whole = parts_view(parts@);
        parts.pop();
        assert(parts_view(parts@) =~= whole.drop_last());
        if parts_end_with(&parts, &split_components(&to_chars(CSS_METADATA_PATH))) {
            FileKind::StylesheetRecord
        } else if parts_end_with(&parts, &split_components(&to_chars(HTML_METADATA_PATH))) {
            FileKind::DocumentRecord
        } else {
            FileKind::Ignored
        }
    } else {
        FileKind::Ignored
    }
}

/// The record files of a workspace.
#[derive(Debug, PartialEq)]
pub struct GroupedJsonFiles {
    /// The index of the workspace; empty where there is none.
    pub meta_file: String,
    pub html_files: Vec<String>,
    pub css_files: Vec<String>,
}

/// What a `GroupedJsonFiles` holds, as mathematical values.
pub struct GroupedJsonFilesView {
    pub meta_file: Seq<char>,
    pub html_files: Seq<Seq<char>>,
    pub css_files: Seq<Seq<char>>,
}

impl View for GroupedJsonFiles {
    type V = GroupedJsonFilesView;

    open spec fn view(&self) -> GroupedJsonFilesView {
        GroupedJsonFilesView {
            meta_file: self.meta_file@,
            html_files: texts(self.html_files@),
            css_files: texts(self.css_files@),
        }
    }
}

impl GroupedJsonFiles {
    /// No record files.
    pub fn new() -> (r: GroupedJsonFiles)
        ensures
            r@ == (GroupedJsonFilesView {
                meta_file: Seq::empty(),
                html_files: Seq::empty(),
                css_files: Seq::empty(),
            }),
    {
        let r = GroupedJsonFiles {
            meta_file: String::new(),
            html_files: Vec::new(),
            css_files: Vec::new(),
        };
        assert(texts(r.css_files@) =~= Seq::empty());
        r
    }
}

/// The files of a workspace, by kind.
#[derive(Debug, PartialEq)]
pub struct GroupedFiles {
    pub html_files: Vec<String>,
    pub css_files: Vec<String>,
    pub json_files: GroupedJsonFiles,
}

/// What a `GroupedFiles` holds, as mathematical values.
pub struct GroupedFilesView {
    pub html_files: Seq<Seq<char>>,
    pub css_files: Seq<Seq<char>>,
    pub json_files: GroupedJsonFilesView,
}

impl View for GroupedFiles {
    type V = GroupedFilesView;

    open spec fn view(&self) -> GroupedFilesView {
        GroupedFilesView {
            html_files: texts(self.html_files@),
            css_files: texts(self.css_files@),
            json_files: self.json_files@,
        }
    }
}

impl GroupedFilesView {
    /// The groups after `files` have been sorted into them: each file is
    /// added to the group of its kind, and the index is the last file that is
    /// one.
    pub open spec fn with_files(self, files: Seq<Seq<char>>) -> GroupedFilesView {
        GroupedFilesView {
            html_files: self.html_files + of_kind(files, FileKind::Document),
            css_files: self.css_files + of_kind(files, FileKind::Stylesheet),
            json_files: GroupedJsonFilesView {
                meta_file: last_index_file(files, self.json_files.meta_file),
                html_files: self.json_files.html_files + of_kind(files, FileKind::DocumentRecord),
                css_files: self.json_files.css_files + of_kind(files, FileKind::StylesheetRecord),
            },
        }
    }
}

/// A list of pairs of a file and the record kept of it. A file that is
/// entered twice has the record that was entered last.
#[derive(Debug, PartialEq)]
pub struct PathMap {
    pub entries: Vec<TrackedFile>,
}

/// A file and the file that holds its record.
#[derive(Debug, PartialEq)]
pub struct TrackedFile {
    pub absolute_path: String,
    pub metadata_path: String,
}

/// What a `TrackedFile` holds, as mathematical values.
pub struct TrackedFileView {
    pub absolute_path: Seq<char>,
    pub metadata_path: Seq<char>,
}

impl View for TrackedFile {
    type V = TrackedFileView;

    open spec fn view(&self) -> TrackedFileView {
        TrackedFileView {
            absolute_path: self.absolute_path@,
            metadata_path: self.metadata_path@,
        }
    }
}

impl View for PathMap {
    type V = Seq<TrackedFileView>;

    open spec fn view(&self) -> Seq<TrackedFileView> {
        views(self.entries@)
    }
}

/// The record of the file at `path`: that of the last entry that names the
/// file.
pub open spec fn record_of(entries: Seq<TrackedFileView>, path: Seq<char>) -> Option<Seq<char>>
    decreases entries.len(),
{
    if entries.len() == 0 {
        None
    } else if same_path(entries.last().absolute_path, path) {
        Some(entries.last().metadata_path)
    } else {
        record_of(entries.drop_last(), path)
    }
}

impl PathMap {
    /// A list without entries.
    pub fn new() -> (r: PathMap)
        ensures
            r@ == Seq::<TrackedFileView>::empty(),
    {
        let r = PathMap { entries: Vec::new() };
        r
    }

    /// Enters the file at `absolute_path` with its record at
    /// `metadata_path`.
    pub fn insert(&mut self, absolute_path: String, metadata_path: String)
        ensures
            final(self)@ == old(self)@.push(
                TrackedFileView { absolute_path: absolute_path@, metadata_path: metadata_path@ },
            ),
    {
        self.entries.push(TrackedFile { absolute_path, metadata_path });
    }

    /// The path of the record of the file at `path`.
    pub fn get(&self, path: &str) -> (r: Option<String>)
        ensures
            match r {
                Some(found) => record_of(self@, path@) == Some(found@),
                None => record_of(self@, path@) is None,
            },
    {
        let ghost all = self@;
        let mut i: usize = self.entries.len();
        assert(all.take(i as int) =~= all);
        while i > 0
            invariant
                i <= self.entries.len(),
                all == self@,
                record_of(all, path@) == record_of(all.take(i as int), path@),
            decreases i,
        {
            assert(all.take(i as int).drop_last() =~= all.take(i - 1));
            if is_same_path(self.entries[i - 1].absolute_path.as_str(), path) {
                return Some(self.entries[i - 1].metadata_path.clone());
            }
            i -= 1;
        }
        None
    }
}

/// The entries that the record files `files` make, where `paths` gives for
/// each of them the file that its record describes, or `None` for a record
/// that could not be read: one entry for each record that could be read.
/// No entries where `paths` is shorter than `files`.
pub open spec fn recorded_files(files: Seq<Seq<char>>, paths: Seq<Option<Seq<char>>>) -> Seq<
    TrackedFileView,
>
    decreases files.len(),
{
    if files.len() == 0 || paths.len() < files.len() {
        Seq::empty()
    } else {
        match paths[files.len() - 1] {
            Some(path) => recorded_files(files.drop_last(), paths).push(
                TrackedFileView { absolute_path: path, metadata_path: files.last() },
            ),
            None => recorded_files(files.drop_last(), paths),
        }
    }
}

/// The entries of the record files `files`, of which the record at each
/// position names the file `paths` gives there; `None` stands for a record
/// that could not be read.
fn map_files(files: &Vec<String>, paths: &Vec<Option<String>>) -> (r: PathMap)
    ensures
        r@ == recorded_files(texts(files@), option_texts(paths@)),
{
    let ghost all = texts(files@);
    let ghost named = option_texts(paths@);
    let mut map = PathMap::new();
    if paths.len() < files.len() {
        return map;
    }
    let mut i: usize = 0;
    while i < files.len()
        invariant
            i <= files.len(),
            paths.len() >= files.len(),
            all == texts(files@),
            named == option_texts(paths@),
            map@ == recorded_files(all.take(i as int), named),
        decreases files.len() - i,
    {
        assert(all.take(i + 1).drop_last() =~= all.take(i as int));
        if let Some(path) = &paths[i] {
            map.insert(path.clone(), files[i].clone());
        }
        i += 1;
    }
    assert(all.take(i as int) =~= all);
    map
}

/// The texts of a run of strings of which some are missing.
pub open spec fn option_texts(strings: Seq<Option<String>>) -> Seq<Option<Seq<char>>> {
    strings.map_values(
        |s: Option<String>|
            match s {
                Some(s) => Some(s@),
                None => None,
            },
    )
}

impl GroupedFiles {
    /// No files.
    pub fn new() -> (r: GroupedFiles)
        ensures
            r@ == (GroupedFilesView {
                html_files: Seq::empty(),
                css_files: Seq::empty(),
                json_files: GroupedJsonFilesView {
                    meta_file: Seq::empty(),
                    html_files: Seq::empty(),
                    css_files: Seq::empty(),
                },
            }),
    {
        let r = GroupedFiles {
            html_files: Vec::new(),
            css_files: Vec::new(),
            json_files: GroupedJsonFiles::new(),
        };
        assert(texts(r.css_files@) =~= Seq::empty());
        r
    }

    /// Sorts `unorganised_files` into the groups.
    pub fn sort_files(&mut self, unorganised_files: &Vec<String>)
        ensures
            final(self)@ == old(self)@.with_files(texts(unorganised_files@)),
    {
        let ghost start = self@;
        let ghost all = texts(unorganised_files@);
        let mut i: usize = 0;
        while i < unorganised_files.len()
            invariant
                i <= unorganised_files.len(),
                all == texts(unorganised_files@),
                self@ == start.with_files(all.take(i as int)),
            decreases unorganised_files.len() - i,
        {
            let file_path = &unorganised_files[i];
            assert(all.take(i + 1).drop_last() =~= all.take(i as int));
            proof {
                lemma_texts_push(self.css_files@, *file_path);
                lemma_texts_push(self.html_files@, *file_path);
                lemma_texts_push(self.json_files.css_files@, *file_path);
                lemma_texts_push(self.json_files.html_files@, *file_path);
            }
            match classify(file_path.as_str()) {
                FileKind::Stylesheet => {
                    self.css_files.push(file_path.clone());
                },
                FileKind::Document => {
                    self.html_files.push(file_path.clone());
                },
                FileKind::WorkspaceIndex => {
                    self.json_files.meta_file = file_path.clone();
                },
                FileKind::StylesheetRecord => {
                    self.json_files.css_files.push(file_path.clone());
                },
                FileKind::DocumentRecord => {
                    self.json_files.html_files.push(file_path.clone());
                },
                FileKind::Ignored => {},
            }
            i += 1;
        }
        assert(all.take(i as int) =~= all);
    }

    /// The groups of the files `files`.
    pub fn from_files(files: &Vec<String>) -> (r: GroupedFiles)
        ensures
            r@ == GroupedFiles::empty_view().with_files(texts(files@)),
    {
        let mut grouped_files = GroupedFiles::new();
        grouped_files.sort_files(files);
        grouped_files
    }

    /// The view of no files.
    pub open spec fn empty_view() -> GroupedFilesView {
        GroupedFilesView {
            html_files: Seq::empty(),
            css_files: Seq::empty(),
            json_files: GroupedJsonFilesView {
                meta_file: Seq::empty(),
                html_files: Seq::empty(),
                css_files: Seq::empty(),
            },
        }
    }

    /// The stylesheets that have a record, each with the file of its
    /// record. `absolute_paths` gives, for each record file of a
    /// stylesheet, the path that its record names; `None` for a record that
    /// could not be read.
    pub fn map_css_files(&self, absolute_paths: &Vec<Option<String>>) -> (r: PathMap)
        ensures
            r@ == recorded_files(self@.json_files.css_files, option_texts(absolute_paths@)),
    {
        map_files(&self.json_files.css_files, absolute_paths)
    }

    /// The HTML documents that have a record, each with the file of its
    /// record. `absolute_paths` gives, for each record file of a document,
    /// the path that its record names; `None` for a record that could not
    /// be read.
    pub fn map_html_files(&self, absolute_paths: &Vec<Option<String>>) -> (r: PathMap)
        ensures
            r@ == recorded_files(self@.json_files.html_files, option_texts(absolute_paths@)),
    {
        map_files(&self.json_files.html_files, absolute_paths)
    }

    /// Whether the workspace has an index.
    pub fn contains_workspace_metadata(&self) -> (r: bool)
        ensures
            r == (is_rooted(self@.json_files.meta_file) || components(
                self@.json_files.meta_file,
            ).len() > 0),
    {
        let path = to_chars(self.json_files.meta_file.as_str());
        starts_at_root(&path) || split_components(&path).len() > 0
    }
}

} // verus!
