//! Errors of the metadata engine.

use vstd::prelude::*;

verus! {

/// A record of whether an error has occurred, and of its message.
#[derive(Debug, PartialEq, Eq)]
pub struct Error {
    pub error_string: String,
    pub error_occurred: bool,
}

impl Error {
    /// A record of no error.
    pub fn new() -> (r: Error)
        ensures
            r.error_string@ == Seq::<char>::empty(),
            !r.error_occurred,
    {
        Error { error_string: String::new(), error_occurred: false }
    }

    /// Records that an error has occurred, with its message.
    pub fn handle_error(&mut self, error_message: String)
        ensures
            final(self).error_string@ == error_message@,
            final(self).error_occurred,
    {
        self.error_string = error_message;
        self.error_occurred = true;
    }
}

/// What can go wrong inside the metadata engine.
#[derive(Debug, PartialEq, Eq)]
pub enum MetadataError {
    /// A reference to a stylesheet could not be made absolute: it is
    /// absolute and names no file, or it climbs above the root.
    PathResolution { path: String },
    /// A position that lies behind the end of the HTML files of the index.
    IndexOutOfBounds,
    /// None of the stylesheets that the document at `path` refers to has a
    /// record.
    NoRecord { path: String },
    /// The merged stylesheet has more lines than can be numbered.
    TooManyLines,
}

/// What a `MetadataError` holds, as mathematical values.
pub enum MetadataErrorView {
    PathResolution { path: Seq<char> },
    IndexOutOfBounds,
    NoRecord { path: Seq<char> },
    TooManyLines,
}

impl View for MetadataError {
    type V = MetadataErrorView;

    open spec fn view(&self) -> MetadataErrorView {
        match self {
            MetadataError::PathResolution { path } => MetadataErrorView::PathResolution {
                path: path@,
            },
            MetadataError::IndexOutOfBounds => MetadataErrorView::IndexOutOfBounds,
            MetadataError::NoRecord { path } => MetadataErrorView::NoRecord { path: path@ },
            MetadataError::TooManyLines => MetadataErrorView::TooManyLines,
        }
    }
}

impl MetadataError {
    /// The message of the error, for a log.
    pub fn message(&self) -> (r: String)
        ensures
            r@ == match self@ {
                MetadataErrorView::PathResolution { path } => "Error trying to find CSS File: "@
                    + path,
                MetadataErrorView::IndexOutOfBounds =>
                    "Error trying to update Workspace HTML File: Index out of bounds"@,
                MetadataErrorView::NoRecord { path } => "Could not get css file for file: "@ + path,
                MetadataErrorView::TooManyLines => "The merged stylesheet has too many lines"@,
            },
    {
        match self {
            MetadataError::PathResolution { path } => {
                let mut text = String::from_str("Error trying to find CSS File: ");
                text.append(path.as_str());
                text
            },
            MetadataError::IndexOutOfBounds => String::from_str(
                "Error trying to update Workspace HTML File: Index out of bounds",
            ),
            MetadataError::NoRecord { path } => {
                let mut text = String::from_str("Could not get css file for file: ");
                text.append(path.as_str());
                text
            },
            MetadataError::TooManyLines => String::from_str(
                "The merged stylesheet has too many lines",
            ),
        }
    }
}

} // verus!
