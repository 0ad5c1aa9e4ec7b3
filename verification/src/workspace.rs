//! The reconciliation pass: brings the records and the index of a
//! workspace up to date with the files on disk.
//!
//! The pass reads and writes nothing itself. It is a state machine: each
//! step takes what was found outside and says what to do next.

use vstd::prelude::*;
use crate::file::{
    contains_web_documents, is_web_document, resolved_all, CSS_METADATA_PATH, HTML_METADATA_PATH,
    METADATA_PATH,
};
use crate::html::html_commands::{get_css_files, link_targets};
use crate::html::html_tokens;
use crate::metadata::css_metadata::css_parser::parsed_sheet;
use crate::metadata::css_metadata::css_token::css_nodes;
use crate::metadata::css_metadata::{updated_styles, CssMetaData, CssMetaDataView};
use crate::metadata::html_metadata::{
    index_entry, updated_sheets, HtmlMetaData, HtmlMetaDataView,
};
use crate::metadata::workspace_metadata::workspace_css_file::{
    is_shared_path, WorkspaceCssFile, WorkspaceCssFileView,
};
use crate::metadata::workspace_metadata::workspace_html_file::{
    WorkspaceHtmlFile, WorkspaceHtmlFileView,
};
use crate::metadata::workspace_metadata::{
    decimal, id_to_json_file_name, is_next_id, lemma_id_left, lemma_next_id_counts_up,
    lemma_next_id_keeps_valid, WorkspaceMetaData, WorkspaceMetaDataView,
};
use crate::metadata::{
    option_texts, record_of, recorded_files, GroupedFiles, GroupedFilesView, PathMap,
};
use crate::path::{components, file_name_of, is_rooted, join_path, joined_path};
use crate::text::{clone_strings, texts};
use crate::timestamp::{is_stale, Timestamp};

verus! {

/// The part of the pass that is under way.
#[derive(Debug, PartialEq, Eq, Clone, Copy)]
pub enum Phase {
    /// The stylesheets of the workspace are brought up to date.
    Stylesheets,
    /// The HTML documents of the workspace are brought up to date.
    Documents,
    /// The references of the documents of the index to stylesheets are
    /// worked out anew, now that every stylesheet has its id.
    Links,
}

/// What the pass waits for.
#[derive(Debug, PartialEq)]
#[allow(inconsistent_fields)]
pub enum Stage {
    /// The index of the workspace.
    AwaitingIndex,
    /// The files that the records on disk describe.
    AwaitingRecordPaths,
    /// The record of the stylesheet in turn, and the time at which the
    /// stylesheet was modified.
    InspectingStylesheet { metadata_path: String },
    /// The text of a stylesheet whose record is out of date.
    RefreshingStylesheet { metadata_path: String, record: CssMetaData },
    /// The text of a stylesheet that has no record yet.
    CreatingStylesheet { metadata_path: String, id: u32 },
    /// The saving of the record of a stylesheet; `entry` is what the index
    /// is to hold of a new one.
    SavingStylesheet { entry: Option<WorkspaceCssFile> },
    /// The record of the document in turn, and the time at which the
    /// document was modified.
    InspectingDocument { metadata_path: String },
    /// The text of a document.
    ReadingDocument { metadata_path: String, record: HtmlMetaData },
    /// Which of the references of a document name a file that exists.
    CheckingDocument { metadata_path: String, record: HtmlMetaData, text: String },
    /// The saving of the record of a document; `entry` is what the index is
    /// to hold of it.
    SavingDocument { entry: Option<WorkspaceHtmlFile> },
    /// The saving of the index.
    SavingIndex,
    /// Nothing: the pass has ended.
    Finished,
}

/// What is to be done outside for the pass, before its next step.
#[derive(Debug, PartialEq)]
#[allow(inconsistent_fields)]
pub enum SyncAction {
    /// Read the index at `path`.
    LoadIndex { path: String },
    /// Save `index` at `path` as the first index of the workspace.
    CreateIndex { path: String, index: WorkspaceMetaData },
    /// Read the records at the given paths, and tell of each the file it
    /// describes.
    LoadRecordPaths { css_records: Vec<String>, html_records: Vec<String> },
    /// Read the record of a stylesheet at `metadata_path`, and find when the
    /// stylesheet was modified.
    InspectStylesheet { metadata_path: String },
    /// Read the record of a document at `metadata_path`, and find when the
    /// document was modified.
    InspectDocument { metadata_path: String },
    /// Read the text of the file at `path`.
    ReadFile { path: String },
    /// Find which of `paths` name a file that exists.
    CheckFiles { paths: Vec<String> },
    /// Save the record of a stylesheet at `metadata_path`.
    SaveStylesheet { metadata_path: String, record: CssMetaData },
    /// Save the record of a document at `metadata_path`.
    SaveDocument { metadata_path: String, record: HtmlMetaData },
    /// Save the index at `path`.
    SaveIndex { path: String, index: WorkspaceMetaData },
    /// Nothing: the pass has ended.
    Finished,
}

/// What was found outside.
#[derive(Debug, PartialEq)]
#[allow(inconsistent_fields)]
pub enum SyncEvent {
    /// The index that was read, or that was created and read back.
    Index(WorkspaceMetaData),
    /// For each record, the file that it describes; `None` for a record
    /// that could not be read.
    RecordPaths { css: Vec<Option<String>>, html: Vec<Option<String>> },
    /// The record of a stylesheet, and the time at which the stylesheet was
    /// modified.
    Stylesheet { record: CssMetaData, modified: Timestamp },
    /// The record of a document, and the time at which the document was
    /// modified.
    Document { record: HtmlMetaData, modified: Timestamp },
    /// The text of the file that was to be read.
    Text(String),
    /// Of each path that was to be checked, whether it names a file that
    /// exists.
    Existence(Vec<bool>),
    /// What was to be saved has been saved.
    Saved,
    /// What was to be done could not be done.
    Failed,
}

/// The state of a reconciliation pass.
#[derive(Debug, PartialEq)]
pub struct Reconciler {
    pub workspace_path: String,
    /// The files of the workspace, by kind.
    pub files: GroupedFiles,
    /// The index, as far as it has been brought up to date.
    pub index: WorkspaceMetaData,
    /// The stylesheets that have a record.
    pub css_records: PathMap,
    /// The documents that have a record.
    pub html_records: PathMap,
    pub phase: Phase,
    /// The position of the file in turn: in the stylesheets or documents of
    /// the workspace, or in the documents of the index.
    pub position: usize,
    pub stage: Stage,
}

impl Stage {
    /// How many steps the file in turn may still take.
    pub open spec fn rank(self) -> nat {
        match self {
            Stage::AwaitingIndex => 4,
            Stage::AwaitingRecordPaths => 4,
            Stage::InspectingStylesheet { .. } => 4,
            Stage::RefreshingStylesheet { .. } => 3,
            Stage::CreatingStylesheet { .. } => 3,
            Stage::SavingStylesheet { .. } => 1,
            Stage::InspectingDocument { .. } => 4,
            Stage::ReadingDocument { .. } => 3,
            Stage::CheckingDocument { .. } => 2,
            Stage::SavingDocument { .. } => 1,
            Stage::SavingIndex => 1,
            Stage::Finished => 0,
        }
    }
}

impl Reconciler {
    /// The files that the pass has yet to go through, the one in turn
    /// included, counted once for each time that it goes through them.
    pub open spec fn files_left(self) -> nat {
        match self.stage {
            Stage::AwaitingIndex | Stage::AwaitingRecordPaths => self.files@.css_files.len() + 2
                * self.files@.html_files.len() + self.index@.html_files.len() + 4,
            Stage::SavingIndex => 0,
            Stage::Finished => 0,
            _ => self.turn_left(),
        }
    }

    /// The number of files that the part of the pass under way goes through.
    pub open spec fn phase_len(self) -> nat {
        match self.phase {
            Phase::Stylesheets => self.files@.css_files.len(),
            Phase::Documents => self.files@.html_files.len(),
            Phase::Links => self.index@.html_files.len(),
        }
    }

    /// The files that are yet to be gone through from the position of the
    /// state on, whatever its stage.
    pub open spec fn turn_left(self) -> nat {
        match self.phase {
            Phase::Stylesheets => (self.files@.css_files.len() - self.position + 2
                * self.files@.html_files.len() + self.index@.html_files.len() + 3) as nat,
            Phase::Documents => (2 * (self.files@.html_files.len() - self.position)
                + self.index@.html_files.len() + 2) as nat,
            Phase::Links => (self.index@.html_files.len() - self.position + 1) as nat,
        }
    }

    /// The state stands at the beginning of a file, or of the saving of the
    /// index, and `action` is what that beginning asks for: the record of
    /// a file that has one; for a stylesheet without a record, its text;
    /// for a document without a record, the saving of a new record. A new
    /// record gets the next id of its kind.
    pub open spec fn opens_with(self, action: SyncAction, now: Timestamp) -> bool {
        let next = self;
        match next.stage {
            Stage::InspectingStylesheet { metadata_path } => {
                &&& next.phase == Phase::Stylesheets
                &&& record_of(
                    next.css_records@,
                    next.files@.css_files[next.position as int],
                ) == Some(metadata_path@)
                &&& action matches SyncAction::InspectStylesheet { metadata_path: asked }
                &&& asked@ == metadata_path@
            },
            Stage::CreatingStylesheet { metadata_path, id } => {
                &&& next.phase == Phase::Stylesheets
                &&& record_of(
                    next.css_records@,
                    next.files@.css_files[next.position as int],
                ) is None
                &&& is_next_id(next.index@.css_ids(), id as int)
                &&& metadata_path@ == record_path(next.workspace_path@, CSS_METADATA_PATH@, id)
                &&& action matches SyncAction::ReadFile { path }
                &&& path@ == next.files@.css_files[next.position as int]
            },
            Stage::InspectingDocument { metadata_path } => {
                &&& action matches SyncAction::InspectDocument { metadata_path: asked }
                &&& asked@ == metadata_path@
                &&& next.phase == Phase::Documents ==> record_of(
                    next.html_records@,
                    next.files@.html_files[next.position as int],
                ) == Some(metadata_path@)
                &&& next.phase == Phase::Links ==> metadata_path@ == record_path(
                    next.workspace_path@,
                    HTML_METADATA_PATH@,
                    next.index@.html_files[next.position as int].id,
                )
                &&& next.phase != Phase::Stylesheets
            },
            Stage::SavingDocument { entry } => {
                &&& next.phase == Phase::Documents
                &&& record_of(
                    next.html_records@,
                    next.files@.html_files[next.position as int],
                ) is None
                &&& action matches SyncAction::SaveDocument { metadata_path, record }
                &&& is_next_id(next.index@.html_ids(), record@.id as int)
                &&& metadata_path@ == record_path(
                    next.workspace_path@,
                    HTML_METADATA_PATH@,
                    record@.id,
                )
                &&& record@ == (HtmlMetaDataView {
                    id: record@.id,
                    file_name: file_name_of(
                        next.files@.html_files[next.position as int],
                    ),
                    absolute_path: next.files@.html_files[next.position as int],
                    last_updated: now,
                    css_sheets: None,
                })
                &&& entry matches Some(e)
                &&& e@ == index_entry(record@)
            },
            Stage::SavingIndex => {
                &&& next.phase == Phase::Links
                &&& next.position >= next.index@.html_files.len()
                &&& next.index@.last_updated == now
                &&& action matches SyncAction::SaveIndex { path, index }
                &&& path@ == joined_path(next.workspace_path@, METADATA_PATH@)
                &&& index@ == next.index@
            },
            _ => false,
        }
    }

    /// The state is sound: the file in turn lies within the files of its
    /// phase; in the index every id is positive and belongs to one file of
    /// its kind only; an id that is held for a new record is the next id of
    /// its kind; and the record of a document of the index that is being
    /// brought up to date has the id that the index gives the document.
    pub open spec fn consistent(self) -> bool {
        &&& self.in_range()
        &&& self.index@.well_formed()
        &&& match self.stage {
            Stage::CreatingStylesheet { id, .. } => is_next_id(self.index@.css_ids(), id as int),
            Stage::SavingStylesheet { entry: Some(entry) } => is_next_id(
                self.index@.css_ids(),
                entry.id as int,
            ),
            Stage::SavingDocument { entry: Some(entry) } => match self.phase {
                Phase::Links => entry.id == self.index@.html_files[self.position as int].id,
                _ => is_next_id(self.index@.html_ids(), entry.id as int),
            },
            Stage::ReadingDocument { record, .. } => self.phase == Phase::Links ==> record.id
                == self.index@.html_files[self.position as int].id,
            Stage::CheckingDocument { record, .. } => self.phase == Phase::Links ==> record.id
                == self.index@.html_files[self.position as int].id,
            _ => true,
        }
    }

    /// All that holds of a step from this state on the event `event` to the
    /// state `next` with the action `action`.
    pub open spec fn steps_to(
        self,
        event: SyncEvent,
        now: Timestamp,
        next: Reconciler,
        action: SyncAction,
    ) -> bool {
        &&& next.in_range()
        &&& next.files == self.files
        &&& next.workspace_path == self.workspace_path
        &&& next.stage is Finished <==> action is Finished
        &&& !(self.stage is Finished) && !(self.stage is AwaitingIndex) ==> next.work_left()
            < self.work_left()
        &&& self.follows(event, now, next, action)
        &&& self.consistent() && (event matches SyncEvent::Index(loaded)
            ==> loaded@.well_formed()) ==> next.consistent()
    }

    /// The state `next` stands where this state stands, with the same
    /// index and the same records.
    pub open spec fn stays(self, next: Reconciler) -> bool {
        &&& next.phase == self.phase
        &&& next.position == self.position
        &&& next.index@ == self.index@
        &&& next.css_records@ == self.css_records@
        &&& next.html_records@ == self.html_records@
    }

    /// Whether an id is left for a new stylesheet and for a new document.
    pub open spec fn ids_left(self) -> bool {
        self.index@.css_files.len() < u32::MAX && self.index@.html_files.len() < u32::MAX
    }

    /// The part of the pass and the position at which the pass goes on from
    /// this state: the position of the state where its part has a file
    /// there; else the start of the next part that has files; at last the
    /// documents of the index.
    pub open spec fn landing(self) -> (Phase, int) {
        match self.phase {
            Phase::Stylesheets => if self.position < self.files@.css_files.len() {
                (Phase::Stylesheets, self.position as int)
            } else if 0 < self.files@.html_files.len() {
                (Phase::Documents, 0)
            } else {
                (Phase::Links, 0)
            },
            Phase::Documents => if self.position < self.files@.html_files.len() {
                (Phase::Documents, self.position as int)
            } else {
                (Phase::Links, 0)
            },
            Phase::Links => (Phase::Links, self.position as int),
        }
    }

    /// The state `next` has left the file in turn, holds `index` as far as
    /// files and workspace go, and has turned to the file behind the one
    /// left, or to the next part of the pass, or to the saving of the index.
    /// Only a file for which no id is left is passed over.
    pub open spec fn passes_on(
        self,
        index: WorkspaceMetaDataView,
        next: Reconciler,
        action: SyncAction,
        now: Timestamp,
    ) -> bool {
        &&& next.index@.css_files == index.css_files
        &&& next.index@.html_files == index.html_files
        &&& next.index@.workspace_path == index.workspace_path
        &&& next.css_records@ == self.css_records@
        &&& next.html_records@ == self.html_records@
        &&& next.opens_with(action, now)
        &&& next.turn_left() < self.turn_left() || (next.stage is SavingIndex)
        &&& next.ids_left() ==> (next.phase, next.position as int) == (Reconciler {
            position: (self.position + 1) as usize,
            ..self
        }).landing()
    }

    /// Whether the record of the document in turn, as it was found, is to
    /// be brought up to date: in the first pass over the documents, where
    /// the document was modified after the record was last updated; in the
    /// pass over the documents of the index, where the record is the one
    /// that the index means.
    pub open spec fn wants_document(self, record: HtmlMetaData, modified: Timestamp) -> bool {
        match self.phase {
            Phase::Links => self.position < self.index@.html_files.len() && record.id
                == self.index@.html_files[self.position as int].id,
            _ => modified.is_after(record.last_updated),
        }
    }

    /// The step from this state on the event `event` at the instant `now`
    /// leads to the state `next` and asks for `action`.
    pub open spec fn follows(
        self,
        event: SyncEvent,
        now: Timestamp,
        next: Reconciler,
        action: SyncAction,
    ) -> bool {
        match self.stage {
            Stage::Finished | Stage::SavingIndex => next.stage is Finished && next.index@
                == self.index@,
            Stage::AwaitingIndex => match event {
                SyncEvent::Index(loaded) => {
                    &&& next.stage is AwaitingRecordPaths
                    &&& next.index@ == (WorkspaceMetaDataView {
                        workspace_path: self.workspace_path@,
                        ..loaded@
                    })
                    &&& action matches SyncAction::LoadRecordPaths { css_records, html_records }
                    &&& texts(css_records@) == self.files@.json_files.css_files
                    &&& texts(html_records@) == self.files@.json_files.html_files
                },
                _ => next.stage is Finished && next.index@ == self.index@,
            },
            Stage::AwaitingRecordPaths => match event {
                SyncEvent::RecordPaths { css, html } => {
                    &&& next.css_records@ == recorded_files(
                        self.files@.json_files.css_files,
                        option_texts(css@),
                    )
                    &&& next.html_records@ == recorded_files(
                        self.files@.json_files.html_files,
                        option_texts(html@),
                    )
                    &&& next.index@.css_files == self.index@.css_files
                    &&& next.index@.html_files == self.index@.html_files
                    &&& next.index@.workspace_path == self.index@.workspace_path
                    &&& next.opens_with(action, now)
                    &&& next.ids_left() ==> (next.phase, next.position as int) == (Reconciler {
                        phase: Phase::Stylesheets,
                        position: 0,
                        ..self
                    }).landing()
                },
                _ => next.stage is Finished && next.index@ == self.index@,
            },
            Stage::InspectingStylesheet { metadata_path } => match event {
                SyncEvent::Stylesheet { record, modified } => if modified.is_after(
                    record.last_updated,
                ) {
                    &&& self.stays(next)
                    &&& next.stage matches Stage::RefreshingStylesheet {
                        metadata_path: kept_path,
                        record: kept,
                    }
                    &&& kept_path@ == metadata_path@
                    &&& kept@ == record@
                    &&& action matches SyncAction::ReadFile { path }
                    &&& path@ == record@.absolute_path
                } else {
                    self.passes_on(self.index@, next, action, now)
                },
                _ => self.passes_on(self.index@, next, action, now),
            },
            Stage::RefreshingStylesheet { metadata_path, record } => match event {
                SyncEvent::Text(text) => {
                    &&& self.stays(next)
                    &&& next.stage matches Stage::SavingStylesheet { entry: None }
                    &&& action matches SyncAction::SaveStylesheet {
                        metadata_path: asked,
                        record: updated,
                    }
                    &&& asked@ == metadata_path@
                    &&& updated@ == (CssMetaDataView {
                        styles: match parsed_sheet(css_nodes(text@)) {
                            Some(styles) => updated_styles(record@.styles, styles),
                            None => None,
                        },
                        last_updated: now,
                        ..record@
                    })
                },
                _ => self.passes_on(self.index@, next, action, now),
            },
            Stage::CreatingStylesheet { metadata_path, id } => match event {
                SyncEvent::Text(text) => {
                    let path = self.files@.css_files[self.position as int];
                    &&& self.stays(next)
                    &&& action matches SyncAction::SaveStylesheet {
                        metadata_path: asked,
                        record: created,
                    }
                    &&& asked@ == metadata_path@
                    &&& created@ == (CssMetaDataView {
                        id,
                        file_name: file_name_of(path),
                        absolute_path: path,
                        last_updated: now,
                        imported_sheets: None,
                        styles: parsed_sheet(css_nodes(text@)),
                    })
                    &&& next.stage matches Stage::SavingStylesheet { entry: Some(entry) }
                    &&& entry@ == (WorkspaceCssFileView {
                        id,
                        file_name: file_name_of(path),
                        absolute_path: path,
                        is_shared: is_shared_path(path),
                        html_files: None,
                    })
                },
                _ => self.passes_on(self.index@, next, action, now),
            },
            Stage::SavingStylesheet { entry } => match (event, entry) {
                (SyncEvent::Saved, Some(entry)) => self.passes_on(
                    WorkspaceMetaDataView {
                        css_files: self.index@.css_files.push(entry@),
                        ..self.index@
                    },
                    next,
                    action,
                    now,
                ),
                _ => self.passes_on(self.index@, next, action, now),
            },
            Stage::InspectingDocument { metadata_path } => match event {
                SyncEvent::Document { record, modified } => if self.wants_document(
                    record,
                    modified,
                ) {
                    &&& self.stays(next)
                    &&& next.stage matches Stage::ReadingDocument {
                        metadata_path: kept_path,
                        record: kept,
                    }
                    &&& kept_path@ == metadata_path@
                    &&& kept@ == record@
                    &&& action matches SyncAction::ReadFile { path }
                    &&& path@ == record@.absolute_path
                } else {
                    self.passes_on(self.index@, next, action, now)
                },
                _ => self.passes_on(self.index@, next, action, now),
            },
            Stage::ReadingDocument { metadata_path, record } => match event {
                SyncEvent::Text(text) => {
                    &&& self.stays(next)
                    &&& next.stage matches Stage::CheckingDocument {
                        metadata_path: kept_path,
                        record: kept,
                        text: kept_text,
                    }
                    &&& kept_path@ == metadata_path@
                    &&& kept@ == record@
                    &&& kept_text@ == text@
                    &&& action matches SyncAction::CheckFiles { paths }
                    &&& texts(paths@) == link_targets(html_tokens(text@))
                },
                _ => self.passes_on(self.index@, next, action, now),
            },
            Stage::CheckingDocument { metadata_path, record, text } => match event {
                SyncEvent::Existence(exists) => match resolved_all(
                    record@.absolute_path,
                    link_targets(html_tokens(text@)),
                    exists@,
                ) {
                    Ok(paths) => {
                        &&& self.stays(next)
                        &&& action matches SyncAction::SaveDocument {
                            metadata_path: asked,
                            record: updated,
                        }
                        &&& asked@ == metadata_path@
                        &&& updated@ == (HtmlMetaDataView {
                            css_sheets: updated_sheets(record@.css_sheets, paths, self.index@),
                            last_updated: now,
                            ..record@
                        })
                        &&& next.stage matches Stage::SavingDocument { entry }
                        &&& match self.phase {
                            Phase::Links => entry matches Some(e) && e@ == index_entry(updated@),
                            _ => entry is None,
                        }
                    },
                    Err(_) => self.passes_on(self.index@, next, action, now),
                },
                _ => self.passes_on(self.index@, next, action, now),
            },
            Stage::SavingDocument { entry } => match (event, entry) {
                (SyncEvent::Saved, Some(entry)) => self.passes_on(
                    WorkspaceMetaDataView {
                        html_files: match self.phase {
                            Phase::Links => self.index@.html_files.update(
                                self.position as int,
                                entry@,
                            ),
                            _ => self.index@.html_files.push(entry@),
                        },
                        ..self.index@
                    },
                    next,
                    action,
                    now,
                ),
                _ => self.passes_on(self.index@, next, action, now),
            },
        }
    }

    /// A bound on the number of steps that the pass has yet to take. Every
    /// step lowers it, so every pass ends.
    pub open spec fn work_left(self) -> nat {
        5 * self.files_left() + self.stage.rank()
    }

    /// The position of the file in turn lies within the files of its phase.
    pub open spec fn in_range(self) -> bool {
        match self.stage {
            Stage::AwaitingIndex | Stage::AwaitingRecordPaths | Stage::SavingIndex
            | Stage::Finished => true,
            Stage::InspectingStylesheet { .. } | Stage::RefreshingStylesheet { .. }
            | Stage::CreatingStylesheet { .. } | Stage::SavingStylesheet { .. } => self.phase
                == Phase::Stylesheets && self.position < self.files@.css_files.len(),
            _ => match self.phase {
                Phase::Stylesheets => false,
                Phase::Documents => self.position < self.files@.html_files.len(),
                Phase::Links => self.position < self.index@.html_files.len(),
            },
        }
    }
}

/// The ids are the numbers from 1 on, in order.
pub open spec fn counts_up(ids: Seq<u32>) -> bool {
    forall|i: int| 0 <= i < ids.len() ==> ids[i] == i + 1
}

/// A pass gives out ids in the order in which it comes to the files: a
/// step leaves the entries of the index in their places, adds at most one
/// at the end, and where the ids of the index count up from 1 before the
/// step, they do after it. So a pass that begins with an empty index
/// gives the first new stylesheet the id 1 and the second the id 2, and
/// the documents likewise.
pub proof fn lemma_step_counts_up(
    state: Reconciler,
    event: SyncEvent,
    now: Timestamp,
    next: Reconciler,
    action: SyncAction,
)
    requires
        state.consistent(),
        !(state.stage is AwaitingIndex),
        state.follows(event, now, next, action),
    ensures
        next.index@.css_ids().len() <= state.index@.css_ids().len() + 1,
        next.index@.html_ids().len() <= state.index@.html_ids().len() + 1,
        state.index@.css_ids() == next.index@.css_ids().take(state.index@.css_ids().len() as int),
        state.index@.html_ids() == next.index@.html_ids().take(
            state.index@.html_ids().len() as int,
        ),
        counts_up(state.index@.css_ids()) ==> counts_up(next.index@.css_ids()),
        counts_up(state.index@.html_ids()) ==> counts_up(next.index@.html_ids()),
{
    let css = state.index@.css_ids();
    let html = state.index@.html_ids();
    let css_after = next.index@.css_ids();
    let html_after = next.index@.html_ids();
    if counts_up(css) {
        lemma_next_id_counts_up(css);
    }
    if counts_up(html) {
        lemma_next_id_counts_up(html);
    }
    match (state.stage, event) {
        (Stage::SavingStylesheet { entry: Some(entry) }, SyncEvent::Saved) => {
            assert(css_after =~= css.push(entry.id));
            assert(html_after =~= html);
        },
        (Stage::SavingDocument { entry: Some(entry) }, SyncEvent::Saved) => {
            assert(css_after =~= css);
            if state.phase == Phase::Links {
                assert(html_after =~= html);
            } else {
                assert(html_after =~= html.push(entry.id));
            }
        },
        _ => {
            assert(css_after =~= css);
            assert(html_after =~= html);
        },
    }
    assert(css =~= css_after.take(css.len() as int));
    assert(html =~= html_after.take(html.len() as int));
}

/// `states` are the states of a pass, one step after the other: each but
/// the first is what the step from the state before it leads to, on the
/// event and at the instant of its place, with the action of its place.
pub open spec fn is_pass(
    states: Seq<Reconciler>,
    events: Seq<SyncEvent>,
    instants: Seq<Timestamp>,
    actions: Seq<SyncAction>,
) -> bool {
    &&& states.len() == events.len() + 1
    &&& instants.len() == events.len()
    &&& actions.len() == events.len()
    &&& forall|k: int|
        0 <= k < events.len() ==> (#[trigger] states[k]).steps_to(
            events[k],
            instants[k],
            states[k + 1],
            actions[k],
        )
}

/// Every pass ends: once the index is had, a pass that has not ended
/// takes no more steps than the work that was left at its beginning.
pub proof fn lemma_pass_ends(
    states: Seq<Reconciler>,
    events: Seq<SyncEvent>,
    instants: Seq<Timestamp>,
    actions: Seq<SyncAction>,
)
    requires
        is_pass(states, events, instants, actions),
        forall|k: int|
            0 <= k < events.len() ==> !((#[trigger] states[k]).stage is Finished) && !(
            states[k].stage is AwaitingIndex),
    ensures
        events.len() + states.last().work_left() <= states[0].work_left(),
    decreases events.len(),
{
    if events.len() > 0 {
        let n = events.len() - 1;
        assert(states[n].steps_to(events[n], instants[n], states[n + 1], actions[n]));
        let before = states.drop_last();
        assert forall|k: int| 0 <= k < n implies (#[trigger] before[k]).steps_to(
            events.drop_last()[k],
            instants.drop_last()[k],
            before[k + 1],
            actions.drop_last()[k],
        ) by {
            assert(states[k].steps_to(events[k], instants[k], states[k + 1], actions[k]));
        }
        assert forall|k: int| 0 <= k < n implies !((#[trigger] before[k]).stage is Finished) && !(
        before[k].stage is AwaitingIndex) by {
            assert(before[k] == states[k]);
        }
        lemma_pass_ends(before, events.drop_last(), instants.drop_last(), actions.drop_last());
    }
}

/// Throughout a pass that begins, once the index is had, in a sound state
/// with ids that count up from 1, the state is sound and the ids count up
/// from 1: the files get their ids in the order in which the pass comes to
/// them.
pub proof fn lemma_pass_counts_up(
    states: Seq<Reconciler>,
    events: Seq<SyncEvent>,
    instants: Seq<Timestamp>,
    actions: Seq<SyncAction>,
)
    requires
        is_pass(states, events, instants, actions),
        states[0].consistent(),
        counts_up(states[0].index@.css_ids()),
        counts_up(states[0].index@.html_ids()),
        forall|k: int|
            0 <= k < events.len() ==> !((#[trigger] states[k]).stage is AwaitingIndex) && !(
            events[k] is Index),
    ensures
        states.last().consistent(),
        counts_up(states.last().index@.css_ids()),
        counts_up(states.last().index@.html_ids()),
    decreases events.len(),
{
    if events.len() > 0 {
        let n = events.len() - 1;
        assert(states[n].steps_to(events[n], instants[n], states[n + 1], actions[n]));
        let before = states.drop_last();
        assert forall|k: int| 0 <= k < n implies (#[trigger] before[k]).steps_to(
            events.drop_last()[k],
            instants.drop_last()[k],
            before[k + 1],
            actions.drop_last()[k],
        ) by {
            assert(states[k].steps_to(events[k], instants[k], states[k + 1], actions[k]));
        }
        assert forall|k: int| 0 <= k < n implies !((#[trigger] before[k]).stage is AwaitingIndex)
            && !(events.drop_last()[k] is Index) by {
            assert(before[k] == states[k]);
        }
        lemma_pass_counts_up(
            before,
            events.drop_last(),
            instants.drop_last(),
            actions.drop_last(),
        );
        lemma_step_counts_up(states[n], events[n], instants[n], states[n + 1], actions[n]);
    }
}

/// The path of the record with the id `id` in the folder `folder` of the
/// workspace at `workspace_path`.
pub open spec fn record_path(workspace_path: Seq<char>, folder: Seq<char>, id: u32) -> Seq<char> {
    joined_path(
        joined_path(workspace_path, folder),
        decimal(id as nat) + ".json"@,
    )
}

/// The path of the record with the id `id` in the folder `folder` of the
/// workspace at `workspace_path`.
pub fn path_of_record(workspace_path: &str, folder: &str, id: u32) -> (r: String)
    ensures
        r@ == record_path(workspace_path@, folder@, id),
{
    let directory = join_path(workspace_path, folder);
    let file_name = id_to_json_file_name(&id);
    join_path(directory.as_str(), file_name.as_str())
}

impl Reconciler {
    /// Begins a pass over the workspace at `workspace_path`, which holds
    /// the files `files`. A workspace without HTML documents and stylesheets
    /// needs no pass. Any other needs its index first, which is read where
    /// there is one and created where there is none.
    pub fn start(workspace_path: &str, files: &Vec<String>, now: Timestamp) -> (r: (
        Reconciler,
        SyncAction,
    ))
        ensures
            r.0.in_range(),
            r.0.consistent(),
            r.0.workspace_path@ == workspace_path@,
            r.0.files@ == GroupedFiles::empty_view().with_files(texts(files@)),
            r.0.index@.css_files.len() == 0,
            r.0.index@.html_files.len() == 0,
            r.0.css_records@.len() == 0,
            r.0.html_records@.len() == 0,
            contains_documents(files@) ==> r.0.stage is AwaitingIndex,
            !contains_documents(files@) ==> r.0.stage is Finished && r.1 is Finished,
            contains_documents(files@) && has_index(r.0.files@) ==> (r.1 matches SyncAction::LoadIndex {
                path,
            } && path@ == joined_path(workspace_path@, METADATA_PATH@)),
            contains_documents(files@) && !has_index(r.0.files@) ==> (r.1 matches SyncAction::CreateIndex {
                path,
                index,
            } && path@ == joined_path(workspace_path@, METADATA_PATH@) && index@ == (
            WorkspaceMetaDataView {
                workspace_path: workspace_path@,
                last_updated: now,
                html_files: Seq::empty(),
                css_files: Seq::empty(),
            })),
    {
        let grouped = GroupedFiles::from_files(files);
        let mut index = WorkspaceMetaData::new();
        let mut state = Reconciler {
            workspace_path: String::from_str(workspace_path),
            files: grouped,
            index,
            css_records: PathMap::new(),
            html_records: PathMap::new(),
            phase: Phase::Stylesheets,
            position: 0,
            stage: Stage::Finished,
        };
        if !contains_web_documents(files) {
            return (state, SyncAction::Finished);
        }
        let path = join_path(workspace_path, METADATA_PATH);
        state.stage = Stage::AwaitingIndex;
        if state.files.contains_workspace_metadata() {
            (state, SyncAction::LoadIndex { path })
        } else {
            let mut first = WorkspaceMetaData::new();
            first.workspace_path = String::from_str(workspace_path);
            first.last_updated = now;
            (state, SyncAction::CreateIndex { path, index: first })
        }
    }

    /// Turns to the file at the position of the state, or to the next part
    /// of the pass where the files of this part are done, and says what is
    /// needed first.
    fn begin_file(self, now: Timestamp) -> (r: (Reconciler, SyncAction))
        requires
            self.position <= self.phase_len(),
        ensures
            r.0.in_range(),
            r.0.turn_left() <= self.turn_left(),
            r.0.files == self.files,
            r.0.workspace_path == self.workspace_path,
            r.0.css_records == self.css_records,
            r.0.html_records == self.html_records,
            r.0.index@.css_files == self.index@.css_files,
            r.0.index@.html_files == self.index@.html_files,
            r.0.index@.workspace_path == self.index@.workspace_path,
            !(r.1 is Finished),
            r.0.opens_with(r.1, now),
            self.ids_left() ==> (r.0.phase, r.0.position as int) == self.landing(),
    {
        let mut state = self;
        loop
            invariant
                state.position <= state.phase_len(),
                self.ids_left() ==> state.landing() == self.landing(),
                state.turn_left() <= self.turn_left(),
                state.files == self.files,
                state.workspace_path == self.workspace_path,
                state.css_records == self.css_records,
                state.html_records == self.html_records,
                state.index == self.index,
            decreases state.turn_left(),
        {
            match state.phase {
                Phase::Stylesheets => {
                    if state.position >= state.files.css_files.len() {
                        state.phase = Phase::Documents;
                        state.position = 0;
                    } else {
                        let found = state.css_records.get(
                            state.files.css_files[state.position].as_str(),
                        );
                        match found {
                            Some(metadata_path) => {
                                let action = SyncAction::InspectStylesheet {
                                    metadata_path: metadata_path.clone(),
                                };
                                state.stage = Stage::InspectingStylesheet { metadata_path };
                                return (state, action);
                            },
                            None => {
                                if state.index.css_files.len() >= u32::MAX as usize {
                                    state.position = state.position + 1;
                                } else {
                                    proof {
                                        lemma_id_left(state.index@.css_ids());
                                    }
                                    let id = state.index.get_next_available_css_id();
                                    let metadata_path = path_of_record(
                                        state.workspace_path.as_str(),
                                        CSS_METADATA_PATH,
                                        id,
                                    );
                                    let action = SyncAction::ReadFile {
                                        path: state.files.css_files[state.position].clone(),
                                    };
                                    state.stage = Stage::CreatingStylesheet { metadata_path, id };
                                    return (state, action);
                                }
                            },
                        }
                    }
                },
                Phase::Documents => {
                    if state.position >= state.files.html_files.len() {
                        state.phase = Phase::Links;
                        state.position = 0;
                    } else {
                        let found = state.html_records.get(
                            state.files.html_files[state.position].as_str(),
                        );
                        match found {
                            Some(metadata_path) => {
                                let action = SyncAction::InspectDocument {
                                    metadata_path: metadata_path.clone(),
                                };
                                state.stage = Stage::InspectingDocument { metadata_path };
                                return (state, action);
                            },
                            None => {
                                if state.index.html_files.len() >= u32::MAX as usize {
                                    state.position = state.position + 1;
                                } else {
                                    proof {
                                        lemma_id_left(state.index@.html_ids());
                                    }
                                    let id = state.index.get_next_available_html_id();
                                    let metadata_path = path_of_record(
                                        state.workspace_path.as_str(),
                                        HTML_METADATA_PATH,
                                        id,
                                    );
                                    let record = HtmlMetaData::create_metadata(
                                        state.files.html_files[state.position].as_str(),
                                        &id,
                                        now,
                                    );
                                    let entry = WorkspaceHtmlFile::parse(&record);
                                    state.stage = Stage::SavingDocument { entry: Some(entry) };
                                    return (state, SyncAction::SaveDocument { metadata_path, record });
                                }
                            },
                        }
                    }
                },
                Phase::Links => {
                    if state.position >= state.index.html_files.len() {
                        state.index.update_metadata(now);
                        let path = join_path(state.workspace_path.as_str(), METADATA_PATH);
                        let index = state.index.clone();
                        state.stage = Stage::SavingIndex;
                        return (state, SyncAction::SaveIndex { path, index });
                    } else {
                        let id = state.index.html_files[state.position].id;
                        let metadata_path = path_of_record(
                            state.workspace_path.as_str(),
                            HTML_METADATA_PATH,
                            id,
                        );
                        let action = SyncAction::InspectDocument {
                            metadata_path: metadata_path.clone(),
                        };
                        state.stage = Stage::InspectingDocument { metadata_path };
                        return (state, action);
                    }
                },
            }
        }
    }
}

impl Reconciler {
    /// Ends the pass.
    fn finish(self) -> (r: (Reconciler, SyncAction))
        ensures
            r.0 == (Reconciler { stage: Stage::Finished, ..self }),
            r.1 is Finished,
    {
        let mut state = self;
        state.stage = Stage::Finished;
        (state, SyncAction::Finished)
    }

    /// Waits at `stage` for what `action` asks for.
    fn wait(self, stage: Stage, action: SyncAction) -> (r: (Reconciler, SyncAction))
        ensures
            r.0 == (Reconciler { stage, ..self }),
            r.1 == action,
    {
        let mut state = self;
        state.stage = stage;
        (state, action)
    }

    /// Takes what the pass waited for out of the state.
    fn take_stage(&mut self) -> (stage: Stage)
        ensures
            stage == old(self).stage,
            *final(self) == (Reconciler { stage: Stage::Finished, ..*old(self) }),
    {
        let mut stage = Stage::Finished;
        std::mem::swap(&mut self.stage, &mut stage);
        stage
    }

    /// Leaves the file in turn and turns to the next one.
    fn next_file(self, now: Timestamp) -> (r: (Reconciler, SyncAction))
        requires
            self.position < self.phase_len(),
        ensures
            r.0.in_range(),
            r.0.turn_left() < self.turn_left(),
            r.0.files == self.files,
            r.0.workspace_path == self.workspace_path,
            r.0.css_records == self.css_records,
            r.0.html_records == self.html_records,
            r.0.index@.css_files == self.index@.css_files,
            r.0.index@.html_files == self.index@.html_files,
            r.0.index@.workspace_path == self.index@.workspace_path,
            !(r.1 is Finished),
            r.0.opens_with(r.1, now),
            r.0.ids_left() ==> (r.0.phase, r.0.position as int) == (Reconciler {
                position: (self.position + 1) as usize,
                ..self
            }).landing(),
    {
        let mut state = self;
        assert(state.files@.css_files.len() == state.files.css_files.len());
        assert(state.files@.html_files.len() == state.files.html_files.len());
        assert(state.index@.html_files.len() == state.index.html_files.len());
        state.position = state.position + 1;
        state.begin_file(now)
    }

    /// Takes one step of the pass: given what was found outside since the
    /// last step, says what is to be done next. A file for which something
    /// cannot be done is left as it is, and the pass goes on with the next
    /// one. Only where the index cannot be had, the pass ends early.
    pub fn step(self, event: SyncEvent, now: Timestamp) -> (r: (Reconciler, SyncAction))
        ensures
            r.0.in_range(),
            r.0.files == self.files,
            r.0.workspace_path == self.workspace_path,
            r.0.stage is Finished <==> r.1 is Finished,
            self.in_range() && !(self.stage is Finished) && !(self.stage is AwaitingIndex)
                ==> r.0.work_left() < self.work_left(),
            self.in_range() ==> self.follows(event, now, r.0, r.1),
            self.consistent() && (event matches SyncEvent::Index(loaded) ==> loaded@.well_formed())
                ==> r.0.consistent(),
    {
        if !self.within() {
            return self.finish();
        }
        match &self.stage {
            Stage::AwaitingIndex => self.on_index(event, now),
            Stage::AwaitingRecordPaths => self.on_record_paths(event, now),
            Stage::InspectingStylesheet { .. } => self.on_stylesheet_record(event, now),
            Stage::RefreshingStylesheet { .. } => self.on_stylesheet_text(event, now),
            Stage::CreatingStylesheet { .. } => self.on_new_stylesheet_text(event, now),
            Stage::SavingStylesheet { .. } => self.on_stylesheet_saved(event, now),
            Stage::InspectingDocument { .. } => self.on_document_record(event, now),
            Stage::ReadingDocument { .. } => self.on_document_text(event, now),
            Stage::CheckingDocument { .. } => self.on_references_checked(event, now),
            Stage::SavingDocument { .. } => self.on_document_saved(event, now),
            Stage::SavingIndex => self.finish(),
            Stage::Finished => self.finish(),
        }
    }

    /// The step that takes the index.
    fn on_index(self, event: SyncEvent, now: Timestamp) -> (r: (Reconciler, SyncAction))
        requires
            self.stage is AwaitingIndex,
        ensures
            self.steps_to(event, now, r.0, r.1),
    {
        let mut state = self;
        match event {
            SyncEvent::Index(loaded) => {
                state.index = loaded;
                state.index.workspace_path = state.workspace_path.clone();
                let action = SyncAction::LoadRecordPaths {
                    css_records: clone_strings(&state.files.json_files.css_files),
                    html_records: clone_strings(&state.files.json_files.html_files),
                };
                state.wait(Stage::AwaitingRecordPaths, action)
            },
            _ => state.finish(),
        }
    }

    /// The step that takes the files that the records describe.
    fn on_record_paths(self, event: SyncEvent, now: Timestamp) -> (r: (Reconciler, SyncAction))
        requires
            self.stage is AwaitingRecordPaths,
        ensures
            self.steps_to(event, now, r.0, r.1),
    {
        let mut state = self;
        match event {
            SyncEvent::RecordPaths { css, html } => {
                state.css_records = state.files.map_css_files(&css);
                state.html_records = state.files.map_html_files(&html);
                state.phase = Phase::Stylesheets;
                state.position = 0;
                state.begin_file(now)
            },
            _ => state.finish(),
        }
    }

    /// The step that takes the record of a stylesheet: the stylesheet is read
    /// again where it was modified after the record was last updated, and only
    /// then.
    fn on_stylesheet_record(self, event: SyncEvent, now: Timestamp) -> (r: (
        Reconciler,
        SyncAction,
    ))
        requires
            self.stage is InspectingStylesheet,
            self.in_range(),
        ensures
            self.steps_to(event, now, r.0, r.1),
    {
        let mut state = self;
        match (state.take_stage(), event) {
            (
                Stage::InspectingStylesheet { metadata_path },
                SyncEvent::Stylesheet { record, modified },
            ) => {
                if is_stale(&modified, &record.last_updated) {
                    let action = SyncAction::ReadFile { path: record.absolute_path.clone() };
                    state.wait(Stage::RefreshingStylesheet { metadata_path, record }, action)
                } else {
                    state.next_file(now)
                }
            },
            _ => state.next_file(now),
        }
    }

    /// The step that takes the text of a stylesheet whose record is out of
    /// date.
    fn on_stylesheet_text(self, event: SyncEvent, now: Timestamp) -> (r: (Reconciler, SyncAction))
        requires
            self.stage is RefreshingStylesheet,
            self.in_range(),
        ensures
            self.steps_to(event, now, r.0, r.1),
    {
        let mut state = self;
        match (state.take_stage(), event) {
            (Stage::RefreshingStylesheet { metadata_path, record }, SyncEvent::Text(text)) => {
                let mut record = record;
                record.update_metadata(text.as_str(), now);
                let action = SyncAction::SaveStylesheet { metadata_path, record };
                state.wait(Stage::SavingStylesheet { entry: None }, action)
            },
            _ => state.next_file(now),
        }
    }

    /// The step that takes the text of a stylesheet without a record.
    fn on_new_stylesheet_text(self, event: SyncEvent, now: Timestamp) -> (r: (
        Reconciler,
        SyncAction,
    ))
        requires
            self.stage is CreatingStylesheet,
            self.in_range(),
        ensures
            self.steps_to(event, now, r.0, r.1),
    {
        let mut state = self;
        match (state.take_stage(), event) {
            (Stage::CreatingStylesheet { metadata_path, id }, SyncEvent::Text(text)) => {
                let record = CssMetaData::create_metadata(
                    state.files.css_files[state.position].as_str(),
                    &id,
                    text.as_str(),
                    now,
                );
                let entry = WorkspaceCssFile::parse(&record);
                let action = SyncAction::SaveStylesheet { metadata_path, record };
                state.wait(Stage::SavingStylesheet { entry: Some(entry) }, action)
            },
            _ => state.next_file(now),
        }
    }

    /// The step after the record of a stylesheet was to be saved: a new
    /// stylesheet enters the index where its record has been saved.
    fn on_stylesheet_saved(self, event: SyncEvent, now: Timestamp) -> (r: (Reconciler, SyncAction))
        requires
            self.stage is SavingStylesheet,
            self.in_range(),
        ensures
            self.steps_to(event, now, r.0, r.1),
    {
        let mut state = self;
        match (state.take_stage(), event) {
            (Stage::SavingStylesheet { entry: Some(entry) }, SyncEvent::Saved) => {
                proof {
                    if self.consistent() {
                        lemma_next_id_keeps_valid(self.index@.css_ids(), entry.id);
                        assert(self.index@.css_files.push(entry@).map_values(
                            |file: WorkspaceCssFileView| file.id,
                        ) =~= self.index@.css_ids().push(entry.id));
                    }
                }
                state.index.add_css_file(entry);
                state.next_file(now)
            },
            _ => state.next_file(now),
        }
    }

    /// The step that takes the record of a document.
    fn on_document_record(self, event: SyncEvent, now: Timestamp) -> (r: (Reconciler, SyncAction))
        requires
            self.stage is InspectingDocument,
            self.in_range(),
        ensures
            self.steps_to(event, now, r.0, r.1),
    {
        let mut state = self;
        match (state.take_stage(), event) {
            (
                Stage::InspectingDocument { metadata_path },
                SyncEvent::Document { record, modified },
            ) => {
                let wanted = match state.phase {
                    Phase::Links => record.id == state.index.html_files[state.position].id,
                    _ => is_stale(&modified, &record.last_updated),
                };
                if wanted {
                    let action = SyncAction::ReadFile { path: record.absolute_path.clone() };
                    state.wait(Stage::ReadingDocument { metadata_path, record }, action)
                } else {
                    state.next_file(now)
                }
            },
            _ => state.next_file(now),
        }
    }

    /// The step that takes the text of a document.
    fn on_document_text(self, event: SyncEvent, now: Timestamp) -> (r: (Reconciler, SyncAction))
        requires
            self.stage is ReadingDocument,
            self.in_range(),
        ensures
            self.steps_to(event, now, r.0, r.1),
    {
        let mut state = self;
        match (state.take_stage(), event) {
            (Stage::ReadingDocument { metadata_path, record }, SyncEvent::Text(text)) => {
                let paths = get_css_files(&text);
                let action = SyncAction::CheckFiles { paths };
                state.wait(Stage::CheckingDocument { metadata_path, record, text }, action)
            },
            _ => state.next_file(now),
        }
    }

    /// The step that takes which references of a document name a file.
    fn on_references_checked(self, event: SyncEvent, now: Timestamp) -> (r: (
        Reconciler,
        SyncAction,
    ))
        requires
            self.stage is CheckingDocument,
            self.in_range(),
        ensures
            self.steps_to(event, now, r.0, r.1),
    {
        let mut state = self;
        match (state.take_stage(), event) {
            (
                Stage::CheckingDocument { metadata_path, record, text },
                SyncEvent::Existence(exists),
            ) => {
                match record.update_metadata(&state.index, text.as_str(), &exists, now) {
                    Ok((record, entry)) => {
                        let entry = match state.phase {
                            Phase::Links => Some(entry),
                            _ => None,
                        };
                        let action = SyncAction::SaveDocument { metadata_path, record };
                        state.wait(Stage::SavingDocument { entry }, action)
                    },
                    Err(_) => state.next_file(now),
                }
            },
            _ => state.next_file(now),
        }
    }

    /// The step after the record of a document was to be saved: the index
    /// takes the entry of the document where the record has been saved.
    fn on_document_saved(self, event: SyncEvent, now: Timestamp) -> (r: (Reconciler, SyncAction))
        requires
            self.stage is SavingDocument,
            self.in_range(),
        ensures
            self.steps_to(event, now, r.0, r.1),
    {
        let mut state = self;
        match (state.take_stage(), event) {
            (Stage::SavingDocument { entry: Some(entry) }, SyncEvent::Saved) => {
                match state.phase {
                    Phase::Links => {
                        assert(self.consistent() ==> self.index@.html_files.update(
                            self.position as int,
                            entry@,
                        ).map_values(|file: WorkspaceHtmlFileView| file.id)
                            =~= self.index@.html_ids());
                        let position = state.position;
                        let _ = state.index.modify_html_file(&entry, &position);
                    },
                    _ => {
                        proof {
                            if self.consistent() {
                                lemma_next_id_keeps_valid(self.index@.html_ids(), entry.id);
                                assert(self.index@.html_files.push(entry@).map_values(
                                    |file: WorkspaceHtmlFileView| file.id,
                                ) =~= self.index@.html_ids().push(entry.id));
                            }
                        }
                        state.index.add_html_file(entry);
                    },
                }
                state.next_file(now)
            },
            _ => state.next_file(now),
        }
    }

    /// Whether the position of the file in turn lies within the files of
    /// its phase.
    pub fn within(&self) -> (r: bool)
        ensures
            r == self.in_range(),
    {
        match &self.stage {
            Stage::AwaitingIndex => true,
            Stage::AwaitingRecordPaths => true,
            Stage::SavingIndex => true,
            Stage::Finished => true,
            Stage::InspectingStylesheet { .. } => self.in_stylesheets(),
            Stage::RefreshingStylesheet { .. } => self.in_stylesheets(),
            Stage::CreatingStylesheet { .. } => self.in_stylesheets(),
            Stage::SavingStylesheet { .. } => self.in_stylesheets(),
            _ => match self.phase {
                Phase::Stylesheets => false,
                Phase::Documents => self.position < self.files.html_files.len(),
                Phase::Links => self.position < self.index.html_files.len(),
            },
        }
    }

    /// Whether the pass is going through the stylesheets and has not come
    /// to their end.
    fn in_stylesheets(&self) -> (r: bool)
        ensures
            r == (self.phase == Phase::Stylesheets && self.position < self.files@.css_files.len()),
    {
        match self.phase {
            Phase::Stylesheets => self.position < self.files.css_files.len(),
            _ => false,
        }
    }
}

/// Whether one of `files` names an HTML document or a stylesheet.
pub open spec fn contains_documents(files: Seq<String>) -> bool {
    exists|i: int| 0 <= i < files.len() && is_web_document(#[trigger] files[i]@)
}

/// Whether the workspace has an index.
pub open spec fn has_index(files: GroupedFilesView) -> bool {
    is_rooted(files.json_files.meta_file) || components(
        files.json_files.meta_file,
    ).len() > 0
}

} // verus!
