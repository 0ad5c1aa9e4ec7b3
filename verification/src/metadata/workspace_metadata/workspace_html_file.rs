//! What the index of a workspace tells of one HTML document.

use vstd::prelude::*;
use super::workspace_css_file::clone_ids;

verus! {

/// The entry of an HTML document in the index of a workspace.
#[derive(Debug, PartialEq)]
pub struct WorkspaceHtmlFile {
    pub id: u32,
    pub file_name: String,
    pub absolute_path: String,
    /// The stylesheets that the document refers to; `None` where it refers
    /// to none.
    pub css_files: Option<Vec<u32>>,
}

/// What a `WorkspaceHtmlFile` holds, as mathematical values.
pub struct WorkspaceHtmlFileView {
    pub id: u32,
    pub file_name: Seq<char>,
    pub absolute_path: Seq<char>,
    pub css_files: Option<Seq<u32>>,
}

impl View for WorkspaceHtmlFile {
    type V = WorkspaceHtmlFileView;

    open spec fn view(&self) -> WorkspaceHtmlFileView {
        WorkspaceHtmlFileView {
            id: self.id,
            file_name: self.file_name@,
            absolute_path: self.absolute_path@,
            css_files: match self.css_files {
                Some(ids) => Some(ids@),
                None => None,
            },
        }
    }
}

impl Clone for WorkspaceHtmlFile {
    fn clone(&self) -> (r: Self)
        ensures
            r@ == self@,
    {
        WorkspaceHtmlFile {
            id: self.id,
            file_name: self.file_name.clone(),
            absolute_path: self.absolute_path.clone(),
            css_files: match &self.css_files {
                Some(ids) => Some(clone_ids(ids)),
                None => None,
            },
        }
    }
}

impl WorkspaceHtmlFile {
    /// An entry with id 0 and empty names.
    pub fn new() -> (r: WorkspaceHtmlFile)
        ensures
            r@ == (WorkspaceHtmlFileView {
                id: 0,
                file_name: Seq::empty(),
                absolute_path: Seq::empty(),
                css_files: None,
            }),
    {
        WorkspaceHtmlFile {
            id: 0,
            file_name: String::new(),
            absolute_path: String::new(),
            css_files: None,
        }
    }
}

} // verus!
