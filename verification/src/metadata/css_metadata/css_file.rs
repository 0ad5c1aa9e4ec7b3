//! A reference to a stylesheet of the workspace.

use vstd::prelude::*;

verus! {

/// A stylesheet as another record refers to it.
#[derive(Debug, PartialEq)]
pub struct CssFile {
    pub id: u32,
    pub file_name: String,
    pub absolute_path: String,
}

/// What a `CssFile` holds, as mathematical values.
pub struct CssFileView {
    pub id: u32,
    pub file_name: Seq<char>,
    pub absolute_path: Seq<char>,
}

impl View for CssFile {
    type V = CssFileView;

    open spec fn view(&self) -> CssFileView {
        CssFileView {
            id: self.id,
            file_name: self.file_name@,
            absolute_path: self.absolute_path@,
        }
    }
}

impl Clone for CssFile {
    fn clone(&self) -> (r: Self)
        ensures
            r@ == self@,
    {
        CssFile {
            id: self.id,
            file_name: self.file_name.clone(),
            absolute_path: self.absolute_path.clone(),
        }
    }
}

impl CssFile {
    /// A reference with id 0 and empty names.
    pub fn new() -> (r: CssFile)
        ensures
            r@ == (CssFileView { id: 0, file_name: Seq::empty(), absolute_path: Seq::empty() }),
    {
        CssFile { id: 0, file_name: String::new(), absolute_path: String::new() }
    }
}

} // verus!
