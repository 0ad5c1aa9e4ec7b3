//! What the index of a workspace tells of one stylesheet.

use vstd::prelude::*;
use crate::file::SHARED_PATH;
use crate::metadata::css_metadata::CssMetaData;
use crate::path::{components, has_run, parts_have_run, split_components, to_chars};

verus! {

/// The entry of a stylesheet in the index of a workspace.
#[derive(Debug, PartialEq)]
pub struct WorkspaceCssFile {
    pub id: u32,
    pub file_name: String,
    pub absolute_path: String,
    /// Whether the file lies in the folder of shared stylesheets.
    pub is_shared: bool,
    /// The HTML documents that refer to the stylesheet.
    pub html_files: Option<Vec<u32>>,
}

/// What a `WorkspaceCssFile` holds, as mathematical values.
pub struct WorkspaceCssFileView {
    pub id: u32,
    pub file_name: Seq<char>,
    pub absolute_path: Seq<char>,
    pub is_shared: bool,
    pub html_files: Option<Seq<u32>>,
}

impl View for WorkspaceCssFile {
    type V = WorkspaceCssFileView;

    open spec fn view(&self) -> WorkspaceCssFileView {
        WorkspaceCssFileView {
            id: self.id,
            file_name: self.file_name@,
            absolute_path: self.absolute_path@,
            is_shared: self.is_shared,
            html_files: match self.html_files {
                Some(ids) => Some(ids@),
                None => None,
            },
        }
    }
}

/// A copy of a list of ids.
pub fn clone_ids(ids: &Vec<u32>) -> (r: Vec<u32>)
    ensures
        r@ == ids@,
{
    let mut out: Vec<u32> = Vec::new();
    let mut i: usize = 0;
    while i < ids.len()
        invariant
            i <= ids.len(),
            out@ == ids@.take(i as int),
        decreases ids.len() - i,
    {
        out.push(ids[i]);
        i += 1;
    }
    out
}

impl Clone for WorkspaceCssFile {
    fn clone(&self) -> (r: Self)
        ensures
            r@ == self@,
    {
        WorkspaceCssFile {
            id: self.id,
            file_name: self.file_name.clone(),
            absolute_path: self.absolute_path.clone(),
            is_shared: self.is_shared,
            html_files: match &self.html_files {
                Some(ids) => Some(clone_ids(ids)),
                None => None,
            },
        }
    }
}

/// Whether `path` lies in the folder of shared stylesheets: whether the
/// components of that folder stand in it.
pub open spec fn is_shared_path(path: Seq<char>) -> bool {
    has_run(components(path), components(SHARED_PATH@))
}

/// Whether the stylesheet at `absolute_path` lies in the folder of shared
/// stylesheets.
pub fn check_is_shared(absolute_path: &str) -> (r: bool)
    ensures
        r == is_shared_path(absolute_path@),
{
    let parts = split_components(&to_chars(absolute_path));
    let folder = split_components(&to_chars(SHARED_PATH));
    parts_have_run(&parts, &folder)
}

impl WorkspaceCssFile {
    /// An entry with id 0 and empty names.
    pub fn new() -> (r: WorkspaceCssFile)
        ensures
            r@ == (WorkspaceCssFileView {
                id: 0,
                file_name: Seq::empty(),
                absolute_path: Seq::empty(),
                is_shared: false,
                html_files: None,
            }),
    {
        WorkspaceCssFile {
            id: 0,
            file_name: String::new(),
            absolute_path: String::new(),
            is_shared: false,
            html_files: None,
        }
    }

    /// The entry of the stylesheet that `css_metadata` records.
    pub fn parse(css_metadata: &CssMetaData) -> (r: WorkspaceCssFile)
        ensures
            r@ == (WorkspaceCssFileView {
                id: css_metadata@.id,
                file_name: css_metadata@.file_name,
                absolute_path: css_metadata@.absolute_path,
                is_shared: is_shared_path(css_metadata@.absolute_path),
                html_files: None,
            }),
    {
        WorkspaceCssFile {
            id: css_metadata.id,
            file_name: css_metadata.file_name.clone(),
            absolute_path: css_metadata.absolute_path.clone(),
            is_shared: check_is_shared(css_metadata.absolute_path.as_str()),
            html_files: None,
        }
    }
}

} // verus!
