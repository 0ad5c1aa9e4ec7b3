//! The record kept of one HTML document.

use vstd::prelude::*;
use super::css_metadata::css_file::{CssFile, CssFileView};
use super::css_metadata::clone_files;
use super::workspace_metadata::workspace_html_file::{WorkspaceHtmlFile, WorkspaceHtmlFileView};
use super::workspace_metadata::{WorkspaceMetaData, WorkspaceMetaDataView};
use crate::error::MetadataError;
use crate::file::{get_css_file_paths, resolved_all};
use crate::html::html_commands::link_targets;
use crate::html::html_tokens;
use crate::keyed::views;
use crate::path::{file_name, file_name_of};
use crate::text::texts;
use crate::timestamp::Timestamp;

verus! {

/// The record kept of one HTML document.
#[derive(Debug, PartialEq)]
pub struct HtmlMetaData {
    /// The id of the document in its workspace; 0 until one is assigned.
    pub id: u32,
    pub file_name: String,
    pub absolute_path: String,
    pub last_updated: Timestamp,
    /// The stylesheets that the document refers to; `None` where it refers
    /// to none that the workspace knows.
    pub css_sheets: Option<Vec<CssFile>>,
}

/// What an `HtmlMetaData` holds, as mathematical values.
pub struct HtmlMetaDataView {
    pub id: u32,
    pub file_name: Seq<char>,
    pub absolute_path: Seq<char>,
    pub last_updated: Timestamp,
    pub css_sheets: Option<Seq<CssFileView>>,
}

impl View for HtmlMetaData {
    type V = HtmlMetaDataView;

    open spec fn view(&self) -> HtmlMetaDataView {
        HtmlMetaDataView {
            id: self.id,
            file_name: self.file_name@,
            absolute_path: self.absolute_path@,
            last_updated: self.last_updated,
            css_sheets: match self.css_sheets {
                Some(sheets) => Some(views(sheets@)),
                None => None,
            },
        }
    }
}

impl Clone for HtmlMetaData {
    fn clone(&self) -> (r: Self)
        ensures
            r@ == self@,
    {
        HtmlMetaData {
            id: self.id,
            file_name: self.file_name.clone(),
            absolute_path: self.absolute_path.clone(),
            last_updated: self.last_updated,
            css_sheets: match &self.css_sheets {
                Some(sheets) => Some(clone_files(sheets)),
                None => None,
            },
        }
    }
}

/// The references of `sheets` to stylesheets with another id than `id`,
/// in order.
pub open spec fn without_id(sheets: Seq<CssFileView>, id: u32) -> Seq<CssFileView>
    decreases sheets.len(),
{
    if sheets.len() == 0 {
        Seq::empty()
    } else if sheets.last().id == id {
        without_id(sheets.drop_last(), id)
    } else {
        without_id(sheets.drop_last(), id).push(sheets.last())
    }
}

/// The references of a document after it has been found to refer to
/// `paths`: each path that the index knows is entered at the end, in the
/// place of any reference to the same stylesheet; what the index does not
/// know is passed over.
pub open spec fn linked_sheets(
    sheets: Seq<CssFileView>,
    paths: Seq<Seq<char>>,
    index: WorkspaceMetaDataView,
) -> Seq<CssFileView>
    decreases paths.len(),
{
    if paths.len() == 0 {
        sheets
    } else {
        let before = linked_sheets(sheets, paths.drop_last(), index);
        match index.css_file_id(paths.last()) {
            Some(id) => without_id(before, id).push(
                CssFileView {
                    id,
                    file_name: file_name_of(paths.last()),
                    absolute_path: paths.last(),
                },
            ),
            None => before,
        }
    }
}

/// The references of a record after an update from a document that refers
/// to `paths`: none where the document refers to nothing; else the old
/// references with those to `paths` entered; and none where that leaves
/// nothing.
pub open spec fn updated_sheets(
    sheets: Option<Seq<CssFileView>>,
    paths: Seq<Seq<char>>,
    index: WorkspaceMetaDataView,
) -> Option<Seq<CssFileView>> {
    if paths.len() == 0 {
        None
    } else {
        let start = match sheets {
            Some(sheets) => sheets,
            None => Seq::empty(),
        };
        let linked = linked_sheets(start, paths, index);
        if linked.len() == 0 {
            None
        } else {
            Some(linked)
        }
    }
}

/// The ids of the stylesheets that `sheets` refer to.
pub open spec fn sheet_ids(sheets: Option<Seq<CssFileView>>) -> Option<Seq<u32>> {
    match sheets {
        Some(sheets) => Some(sheets.map_values(|sheet: CssFileView| sheet.id)),
        None => None,
    }
}

/// What the index tells of the document that `record` describes.
pub open spec fn index_entry(record: HtmlMetaDataView) -> WorkspaceHtmlFileView {
    WorkspaceHtmlFileView {
        id: record.id,
        file_name: record.file_name,
        absolute_path: record.absolute_path,
        css_files: sheet_ids(record.css_sheets),
    }
}

/// The references of `sheets` to stylesheets with another id than `id`.
fn remove_id(sheets: Vec<CssFile>, id: u32) -> (r: Vec<CssFile>)
    ensures
        views(r@) == without_id(views(sheets@), id),
{
    let ghost all = views(sheets@);
    let mut kept: Vec<CssFile> = Vec::new();
    let mut i: usize = 0;
    while i < sheets.len()
        invariant
            i <= sheets.len(),
            all == views(sheets@),
            views(kept@) == without_id(all.take(i as int), id),
        decreases sheets.len() - i,
    {
        assert(all.take(i + 1).drop_last() =~= all.take(i as int));
        if sheets[i].id != id {
            kept.push(sheets[i].clone());
        }
        i += 1;
    }
    assert(all.take(i as int) =~= all);
    kept
}

impl WorkspaceHtmlFile {
    /// The entry of the document that `html_metadata` records.
    pub fn parse(html_metadata: &HtmlMetaData) -> (r: WorkspaceHtmlFile)
        ensures
            r@ == index_entry(html_metadata@),
    {
        WorkspaceHtmlFile {
            id: html_metadata.id,
            file_name: html_metadata.file_name.clone(),
            absolute_path: html_metadata.absolute_path.clone(),
            css_files: match &html_metadata.css_sheets {
                Some(sheets) => {
                    let mut ids: Vec<u32> = Vec::new();
                    let mut i: usize = 0;
                    while i < sheets.len()
                        invariant
                            i <= sheets.len(),
                            ids.len() == i,
                            forall|j: int| 0 <= j < i ==> ids@[j] == sheets@[j].id,
                        decreases sheets.len() - i,
                    {
                        ids.push(sheets[i].id);
                        i += 1;
                    }
                    assert(ids@ =~= views(sheets@).map_values(|sheet: CssFileView| sheet.id));
                    Some(ids)
                },
                None => None,
            },
        }
    }
}

impl HtmlMetaData {
    /// An empty record, dated now.
    pub fn new() -> (r: HtmlMetaData)
        ensures
            r@.id == 0,
            r@.file_name == Seq::<char>::empty(),
            r@.absolute_path == Seq::<char>::empty(),
            r@.css_sheets is None,
    {
        HtmlMetaData {
            id: 0,
            file_name: String::new(),
            absolute_path: String::new(),
            last_updated: Timestamp::now(),
            css_sheets: None,
        }
    }

    /// Brings the references of the record up to date with the document,
    /// whose text is `html_string`, and gives the entry of the document for
    /// the index. `exists` says of each reference of the document whether it
    /// names a file that exists. Where a reference cannot be resolved, the
    /// record stays as it is.
    pub fn update_css_sheets(
        &mut self,
        workspace_metadata: &WorkspaceMetaData,
        html_string: &str,
        exists: &Vec<bool>,
    ) -> (r: Result<WorkspaceHtmlFile, MetadataError>)
        ensures
            match resolved_all(
                old(self)@.absolute_path,
                link_targets(html_tokens(html_string@)),
                exists@,
            ) {
                Ok(paths) => {
                    &&& final(self)@ == (HtmlMetaDataView {
                        css_sheets: updated_sheets(
                            old(self)@.css_sheets,
                            paths,
                            workspace_metadata@,
                        ),
                        ..old(self)@
                    })
                    &&& r matches Ok(entry)
                    &&& entry@ == index_entry(final(self)@)
                },
                Err(error) => {
                    &&& final(self)@ == old(self)@
                    &&& r matches Err(e)
                    &&& e@ == error
                },
            },
    {
        let css_file_paths = match get_css_file_paths(
            self.absolute_path.as_str(),
            html_string,
            exists,
        ) {
            Ok(value) => value,
            Err(error) => {
                return Err(error);
            },
        };
        Ok(self.link_sheets(workspace_metadata, &css_file_paths))
    }

    /// Enters in the record that the document refers to the stylesheets at
    /// `css_file_paths`, and gives the entry of the document for the index.
    /// Each path that the index knows is entered at the end of the
    /// references, in the place of any reference to the same stylesheet. A
    /// document that refers to no stylesheet, or to none that the index
    /// knows, has no references.
    pub fn link_sheets(
        &mut self,
        workspace_metadata: &WorkspaceMetaData,
        css_file_paths: &Vec<String>,
    ) -> (r: WorkspaceHtmlFile)
        ensures
            final(self)@ == (HtmlMetaDataView {
                css_sheets: updated_sheets(
                    old(self)@.css_sheets,
                    texts(css_file_paths@),
                    workspace_metadata@,
                ),
                ..old(self)@
            }),
            r@ == index_entry(final(self)@),
    {
        let ghost paths = texts(css_file_paths@);
        let ghost index = workspace_metadata@;
        if css_file_paths.len() == 0 {
            self.css_sheets = None;
        } else {
            let mut sheets: Vec<CssFile> = match self.css_sheets.take() {
                Some(sheets) => sheets,
                None => {
                    let empty: Vec<CssFile> = Vec::new();
                    assert(views(empty@) =~= Seq::empty());
                    empty
                },
            };
            let ghost start = views(sheets@);
            let mut i: usize = 0;
            while i < css_file_paths.len()
                invariant
                    i <= css_file_paths.len(),
                    paths == texts(css_file_paths@),
                    index == workspace_metadata@,
                    views(sheets@) == linked_sheets(start, paths.take(i as int), index),
                decreases css_file_paths.len() - i,
            {
                let file_path = &css_file_paths[i];
                assert(paths.take(i + 1).drop_last() =~= paths.take(i as int));
                if let Some(id) = workspace_metadata.get_css_file_id(file_path.as_str()) {
                    sheets = remove_id(sheets, id);
                    let css_file = CssFile {
                        id,
                        file_name: file_name(file_path.as_str()),
                        absolute_path: file_path.clone(),
                    };
                    sheets.push(css_file);
                }
                i += 1;
            }
            assert(paths.take(i as int) =~= paths);
            if sheets.len() == 0 {
                self.css_sheets = None;
            } else {
                self.css_sheets = Some(sheets);
            }
        }
        WorkspaceHtmlFile::parse(self)
    }

    /// The record of the document at `file_path` with the id `id`, made at
    /// the instant `now`. It refers to no stylesheet yet.
    pub fn create_metadata(file_path: &str, id: &u32, now: Timestamp) -> (r: HtmlMetaData)
        ensures
            r@ == (HtmlMetaDataView {
                id: *id,
                file_name: file_name_of(file_path@),
                absolute_path: file_path@,
                last_updated: now,
                css_sheets: None,
            }),
    {
        HtmlMetaData {
            id: *id,
            file_name: file_name(file_path),
            absolute_path: String::from_str(file_path),
            last_updated: now,
            css_sheets: None,
        }
    }

    /// The record as it is to be saved after the document, whose text is
    /// `html_string`, has changed: with its references brought up to date
    /// and dated `now`; and the entry of the document for the index.
    pub fn update_metadata(
        &self,
        workspace_metadata: &WorkspaceMetaData,
        html_string: &str,
        exists: &Vec<bool>,
        now: Timestamp,
    ) -> (r: Result<(HtmlMetaData, WorkspaceHtmlFile), MetadataError>)
        ensures
            match resolved_all(
                self@.absolute_path,
                link_targets(html_tokens(html_string@)),
                exists@,
            ) {
                Ok(paths) => {
                    &&& r matches Ok(pair)
                    &&& pair.0@ == (HtmlMetaDataView {
                        css_sheets: updated_sheets(self@.css_sheets, paths, workspace_metadata@),
                        last_updated: now,
                        ..self@
                    })
                    &&& pair.1@ == index_entry(pair.0@)
                },
                Err(error) => r matches Err(e) && e@ == error,
            },
    {
        let mut new_metadata = self.clone();
        let new_workspace_metadata = match new_metadata.update_css_sheets(
            workspace_metadata,
            html_string,
            exists,
        ) {
            Ok(value) => value,
            Err(error) => {
                return Err(error);
            },
        };
        new_metadata.last_updated = now;
        Ok((new_metadata, new_workspace_metadata))
    }
}

} // verus!
