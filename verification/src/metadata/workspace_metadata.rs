//! The index of a workspace: every tracked HTML document and stylesheet with
//! its id.

pub mod workspace_css_file;
pub mod workspace_html_file;

use vstd::prelude::*;
use vstd::seq_lib::seq_to_set_is_finite;
use vstd::set_lib::{lemma_int_range, lemma_len_subset, set_int_range};
use self::workspace_css_file::{WorkspaceCssFile, WorkspaceCssFileView};
use self::workspace_html_file::{WorkspaceHtmlFile, WorkspaceHtmlFileView};
use crate::error::MetadataError;
use crate::keyed::views;
use crate::path::{is_same_path, same_path, text_of};
use crate::timestamp::Timestamp;

verus! {

/// The decimal digit `d`.
pub open spec fn digit(d: int) -> char {
    if d == 0 {
        '0'
    } else if d == 1 {
        '1'
    } else if d == 2 {
        '2'
    } else if d == 3 {
        '3'
    } else if d == 4 {
        '4'
    } else if d == 5 {
        '5'
    } else if d == 6 {
        '6'
    } else if d == 7 {
        '7'
    } else if d == 8 {
        '8'
    } else {
        '9'
    }
}

/// The number `n` written in decimal.
pub open spec fn decimal(n: nat) -> Seq<char>
    decreases n,
{
    if n < 10 {
        seq![digit(n as int)]
    } else {
        decimal(n / 10).push(digit((n % 10) as int))
    }
}

/// The decimal digit `d`.
fn digit_char(d: u32) -> (r: char)
    requires
        d < 10,
    ensures
        r == digit(d as int),
{
    if d == 0 {
        '0'
    } else if d == 1 {
        '1'
    } else if d == 2 {
        '2'
    } else if d == 3 {
        '3'
    } else if d == 4 {
        '4'
    } else if d == 5 {
        '5'
    } else if d == 6 {
        '6'
    } else if d == 7 {
        '7'
    } else if d == 8 {
        '8'
    } else {
        '9'
    }
}

/// The digits of `n`, the last one first.
fn digits_reversed(n: u32) -> (r: Vec<char>)
    ensures
        r@.reverse() == decimal(n as nat),
        r.len() > 0,
    decreases n,
{
    if n < 10 {
        let r = vec![digit_char(n)];
        r
    } else {
        let mut rest = digits_reversed(n / 10);
        let last = digit_char(n % 10);
        rest.insert(0, last);
        rest
    }
}

/// The name of the file that holds the record with the id `id`: the id in
/// decimal, with the extension `json`.
pub fn id_to_json_file_name(id: &u32) -> (r: String)
    ensures
        r@ == decimal(*id as nat) + ".json"@,
{
    let reversed = digits_reversed(*id);
    let mut digits: Vec<char> = Vec::new();
    let mut i: usize = reversed.len();
    while i > 0
        invariant
            i <= reversed.len(),
            digits.len() == reversed.len() - i,
            forall|j: int| 0 <= j < digits.len() ==> digits@[j] == reversed@[reversed.len() - 1 - j],
        decreases i,
    {
        i -= 1;
        digits.push(reversed[i]);
    }
    let mut file_name = text_of(&digits);
    file_name.append(".json");
    file_name
}

/// The index of a workspace.
#[derive(Debug, PartialEq)]
pub struct WorkspaceMetaData {
    pub workspace_path: String,
    pub last_updated: Timestamp,
    pub html_files: Vec<WorkspaceHtmlFile>,
    pub css_files: Vec<WorkspaceCssFile>,
}

/// What a `WorkspaceMetaData` holds, as mathematical values.
pub struct WorkspaceMetaDataView {
    pub workspace_path: Seq<char>,
    pub last_updated: Timestamp,
    pub html_files: Seq<WorkspaceHtmlFileView>,
    pub css_files: Seq<WorkspaceCssFileView>,
}

impl View for WorkspaceMetaData {
    type V = WorkspaceMetaDataView;

    open spec fn view(&self) -> WorkspaceMetaDataView {
        WorkspaceMetaDataView {
            workspace_path: self.workspace_path@,
            last_updated: self.last_updated,
            html_files: views(self.html_files@),
            css_files: views(self.css_files@),
        }
    }
}

/// Whether `id` is one of `ids`.
pub open spec fn id_used(ids: Seq<u32>, id: int) -> bool {
    exists|i: int| 0 <= i < ids.len() && ids[i] == id
}

/// Whether `id` is the next id to give out: the smallest positive number
/// that is none of `ids`.
pub open spec fn is_next_id(ids: Seq<u32>, id: int) -> bool {
    &&& id >= 1
    &&& !id_used(ids, id)
    &&& forall|k: int| 1 <= k < id ==> id_used(ids, k)
}

/// Whether a positive number that an id can be is none of `ids`.
pub open spec fn id_left(ids: Seq<u32>) -> bool {
    exists|k: int| 1 <= k <= u32::MAX && !id_used(ids, k)
}

/// No id stands twice in `ids`, and all are positive.
pub open spec fn ids_valid(ids: Seq<u32>) -> bool {
    &&& forall|i: int| 0 <= i < ids.len() ==> ids[i] >= 1
    &&& forall|i: int, j: int| 0 <= i < j < ids.len() ==> ids[i] != ids[j]
}

impl WorkspaceMetaDataView {
    /// The ids of the stylesheets of the index, in order.
    pub open spec fn css_ids(self) -> Seq<u32> {
        self.css_files.map_values(|file: WorkspaceCssFileView| file.id)
    }

    /// The ids of the HTML documents of the index, in order.
    pub open spec fn html_ids(self) -> Seq<u32> {
        self.html_files.map_values(|file: WorkspaceHtmlFileView| file.id)
    }

    /// The index is well formed: among the stylesheets, and among the HTML
    /// documents, every id is positive and belongs to one file only.
    pub open spec fn well_formed(self) -> bool {
        ids_valid(self.css_ids()) && ids_valid(self.html_ids())
    }

    /// The paths of the stylesheets of the index, in order.
    pub open spec fn css_paths(self) -> Seq<Seq<char>> {
        self.css_files.map_values(|file: WorkspaceCssFileView| file.absolute_path)
    }

    /// The paths of the HTML documents of the index, in order.
    pub open spec fn html_paths(self) -> Seq<Seq<char>> {
        self.html_files.map_values(|file: WorkspaceHtmlFileView| file.absolute_path)
    }

    /// The id of the stylesheet at `path`, where the index has it.
    pub open spec fn css_file_id(self, path: Seq<char>) -> Option<u32> {
        id_of_path(self.css_paths(), self.css_ids(), path)
    }

    /// The id of the HTML document at `path`, where the index has it.
    pub open spec fn html_file_id(self, path: Seq<char>) -> Option<u32> {
        id_of_path(self.html_paths(), self.html_ids(), path)
    }
}

/// The id that stands in `ids` at the first position at which `paths`
/// names the same path as `path`.
pub open spec fn id_of_path(paths: Seq<Seq<char>>, ids: Seq<u32>, path: Seq<char>) -> Option<u32>
    decreases paths.len(),
{
    if paths.len() == 0 || ids.len() != paths.len() {
        None
    } else if same_path(paths[0], path) {
        Some(ids[0])
    } else {
        id_of_path(paths.drop_first(), ids.drop_first(), path)
    }
}

/// Where all the numbers from 1 to `n` are ids, there are at least `n` ids.
pub proof fn lemma_used_ids_bound(ids: Seq<u32>, n: int)
    requires
        n >= 0,
        forall|k: int| 1 <= k <= n ==> id_used(ids, k),
    ensures
        n <= ids.len(),
{
    let numbers = ids.map_values(|id: u32| id as int);
    let range = set_int_range(1, n + 1);
    lemma_int_range(1, n + 1);
    seq_to_set_is_finite(numbers);
    assert forall|k: int| range.contains(k) implies numbers.to_set().contains(k) by {
        assert(id_used(ids, k));
        let i = choose|i: int| 0 <= i < ids.len() && ids[i] == k;
        assert(numbers[i] == k);
    }
    lemma_len_subset(range, numbers.to_set());
    numbers.lemma_cardinality_of_set();
}

/// Fewer ids than there are positive numbers for them leave one free.
pub proof fn lemma_id_left(ids: Seq<u32>)
    requires
        ids.len() < u32::MAX,
    ensures
        id_left(ids),
{
    if !id_left(ids) {
        lemma_used_ids_bound(ids, u32::MAX as int);
    }
}

/// Ids stay positive and distinct where the next id is added to them.
pub proof fn lemma_next_id_keeps_valid(ids: Seq<u32>, id: u32)
    requires
        ids_valid(ids),
        is_next_id(ids, id as int),
    ensures
        ids_valid(ids.push(id)),
{
    let more = ids.push(id);
    assert forall|i: int, j: int| 0 <= i < j < more.len() implies more[i] != more[j] by {
    }
}

/// Ids that are given out one after the other count up from 1: where the
/// ids so far are the numbers from 1 on, the next id is the number after
/// them.
pub proof fn lemma_next_id_counts_up(ids: Seq<u32>)
    requires
        forall|i: int| 0 <= i < ids.len() ==> ids[i] == i + 1,
    ensures
        is_next_id(ids, (ids.len() + 1) as int),
{
    assert forall|k: int| 1 <= k < ids.len() + 1 implies id_used(ids, k) by {
        assert(ids[k - 1] == k);
    }
}

/// There is one next id.
pub proof fn lemma_next_id_unique(ids: Seq<u32>, a: int, b: int)
    requires
        is_next_id(ids, a),
        is_next_id(ids, b),
    ensures
        a == b,
{
}

/// Whether `id` is one of `ids`.
fn contains_id(ids: &Vec<u32>, id: u32) -> (r: bool)
    ensures
        r == id_used(ids@, id as int),
{
    let mut i: usize = 0;
    while i < ids.len()
        invariant
            i <= ids.len(),
            forall|j: int| 0 <= j < i ==> ids@[j] != id,
        decreases ids.len() - i,
    {
        if ids[i] == id {
            return true;
        }
        i += 1;
    }
    false
}

/// The smallest positive number that is none of `ids`. There must be one
/// that an id can be; there is where the ids are fewer than `u32::MAX`.
pub fn next_available_id(ids: &Vec<u32>) -> (r: u32)
    requires
        id_left(ids@),
    ensures
        is_next_id(ids@, r as int),
{
    let mut candidate: u32 = 1;
    while contains_id(ids, candidate)
        invariant
            candidate >= 1,
            id_left(ids@),
            forall|k: int| 1 <= k < candidate ==> id_used(ids@, k),
        decreases u32::MAX - candidate,
    {
        candidate += 1;
    }
    candidate
}

impl Clone for WorkspaceMetaData {
    fn clone(&self) -> (r: Self)
        ensures
            r@ == self@,
    {
        let mut html_files: Vec<WorkspaceHtmlFile> = Vec::new();
        let mut i: usize = 0;
        while i < self.html_files.len()
            invariant
                i <= self.html_files.len(),
                html_files.len() == i,
                forall|j: int| 0 <= j < i ==> html_files@[j]@ == self.html_files@[j]@,
            decreases self.html_files.len() - i,
        {
            html_files.push(self.html_files[i].clone());
            i += 1;
        }
        let mut css_files: Vec<WorkspaceCssFile> = Vec::new();
        let mut k: usize = 0;
        while k < self.css_files.len()
            invariant
                k <= self.css_files.len(),
                css_files.len() == k,
                forall|j: int| 0 <= j < k ==> css_files@[j]@ == self.css_files@[j]@,
            decreases self.css_files.len() - k,
        {
            css_files.push(self.css_files[k].clone());
            k += 1;
        }
        assert(views(html_files@) =~= views(self.html_files@));
        assert(views(css_files@) =~= views(self.css_files@));
        WorkspaceMetaData {
            workspace_path: self.workspace_path.clone(),
            last_updated: self.last_updated,
            html_files,
            css_files,
        }
    }
}

impl WorkspaceMetaData {
    /// An empty index, dated now.
    pub fn new() -> (r: WorkspaceMetaData)
        ensures
            r@.workspace_path == Seq::<char>::empty(),
            r@.html_files == Seq::<WorkspaceHtmlFileView>::empty(),
            r@.css_files == Seq::<WorkspaceCssFileView>::empty(),
            r@.well_formed(),
    {
        let r = WorkspaceMetaData {
            workspace_path: String::new(),
            last_updated: Timestamp::now(),
            html_files: Vec::new(),
            css_files: Vec::new(),
        };
        r
    }

    /// The id for the next stylesheet: the smallest positive number that no
    /// stylesheet of the index has. There must be one that an id can be.
    pub fn get_next_available_css_id(&self) -> (r: u32)
        requires
            id_left(self@.css_ids()),
        ensures
            is_next_id(self@.css_ids(), r as int),
    {
        let mut ids: Vec<u32> = Vec::new();
        let mut i: usize = 0;
        while i < self.css_files.len()
            invariant
                i <= self.css_files.len(),
                ids.len() == i,
                forall|j: int| 0 <= j < i ==> ids@[j] == self.css_files@[j].id,
            decreases self.css_files.len() - i,
        {
            ids.push(self.css_files[i].id);
            i += 1;
        }
        assert(ids@ =~= self@.css_ids());
        next_available_id(&ids)
    }

    /// The id for the next HTML document: the smallest positive number that
    /// no HTML document of the index has. There must be one that an id can
    /// be.
    pub fn get_next_available_html_id(&self) -> (r: u32)
        requires
            id_left(self@.html_ids()),
        ensures
            is_next_id(self@.html_ids(), r as int),
    {
        let mut ids: Vec<u32> = Vec::new();
        let mut i: usize = 0;
        while i < self.html_files.len()
            invariant
                i <= self.html_files.len(),
                ids.len() == i,
                forall|j: int| 0 <= j < i ==> ids@[j] == self.html_files@[j].id,
            decreases self.html_files.len() - i,
        {
            ids.push(self.html_files[i].id);
            i += 1;
        }
        assert(ids@ =~= self@.html_ids());
        next_available_id(&ids)
    }

    /// The id of the stylesheet at `absolute_path`: that of the first entry
    /// that names this path.
    pub fn get_css_file_id(&self, absolute_path: &str) -> (r: Option<u32>)
        ensures
            r == self@.css_file_id(absolute_path@),
    {
        let ghost paths = self@.css_paths();
        let ghost ids = self@.css_ids();
        let mut i: usize = 0;
        assert(paths.skip(0) =~= paths);
        assert(ids.skip(0) =~= ids);
        while i < self.css_files.len()
            invariant
                i <= self.css_files.len(),
                paths == self@.css_paths(),
                ids == self@.css_ids(),
                id_of_path(paths, ids, absolute_path@) == id_of_path(
                    paths.skip(i as int),
                    ids.skip(i as int),
                    absolute_path@,
                ),
            decreases self.css_files.len() - i,
        {
            assert(paths.skip(i as int).drop_first() =~= paths.skip(i + 1));
            assert(ids.skip(i as int).drop_first() =~= ids.skip(i + 1));
            if is_same_path(self.css_files[i].absolute_path.as_str(), absolute_path) {
                return Some(self.css_files[i].id);
            }
            i += 1;
        }
        None
    }

    /// The id of the HTML document at `absolute_path`: that of the first
    /// entry that names this path.
    pub fn get_html_file_id(&self, absolute_path: &str) -> (r: Option<u32>)
        ensures
            r == self@.html_file_id(absolute_path@),
    {
        let ghost paths = self@.html_paths();
        let ghost ids = self@.html_ids();
        let mut i: usize = 0;
        assert(paths.skip(0) =~= paths);
        assert(ids.skip(0) =~= ids);
        while i < self.html_files.len()
            invariant
                i <= self.html_files.len(),
                paths == self@.html_paths(),
                ids == self@.html_ids(),
                id_of_path(paths, ids, absolute_path@) == id_of_path(
                    paths.skip(i as int),
                    ids.skip(i as int),
                    absolute_path@,
                ),
            decreases self.html_files.len() - i,
        {
            assert(paths.skip(i as int).drop_first() =~= paths.skip(i + 1));
            assert(ids.skip(i as int).drop_first() =~= ids.skip(i + 1));
            if is_same_path(self.html_files[i].absolute_path.as_str(), absolute_path) {
                return Some(self.html_files[i].id);
            }
            i += 1;
        }
        None
    }

    /// The first HTML document of the index with the id `id`.
    pub fn get_html_file_by_id(&self, id: &u32) -> (r: Option<WorkspaceHtmlFile>)
        ensures
            match r {
                Some(file) => exists|i: int|
                    0 <= i < self@.html_files.len() && is_first_id(self@.html_ids(), *id, i)
                        && #[trigger] self@.html_files[i] == file@,
                None => !id_used(self@.html_ids(), *id as int),
            },
    {
        let mut i: usize = 0;
        while i < self.html_files.len()
            invariant
                i <= self.html_files.len(),
                forall|j: int| 0 <= j < i ==> self@.html_ids()[j] != *id,
            decreases self.html_files.len() - i,
        {
            if self.html_files[i].id == *id {
                assert(self@.html_files[i as int] == self.html_files@[i as int]@);
                return Some(self.html_files[i].clone());
            }
            i += 1;
        }
        None
    }

    /// The first stylesheet of the index with the id `id`.
    pub fn get_css_file_by_id(&self, id: &u32) -> (r: Option<WorkspaceCssFile>)
        ensures
            match r {
                Some(file) => exists|i: int|
                    0 <= i < self@.css_files.len() && is_first_id(self@.css_ids(), *id, i)
                        && #[trigger] self@.css_files[i] == file@,
                None => !id_used(self@.css_ids(), *id as int),
            },
    {
        let mut i: usize = 0;
        while i < self.css_files.len()
            invariant
                i <= self.css_files.len(),
                forall|j: int| 0 <= j < i ==> self@.css_ids()[j] != *id,
            decreases self.css_files.len() - i,
        {
            if self.css_files[i].id == *id {
                assert(self@.css_files[i as int] == self.css_files@[i as int]@);
                return Some(self.css_files[i].clone());
            }
            i += 1;
        }
        None
    }

    /// Adds a stylesheet at the end of the index.
    pub fn add_css_file(&mut self, css_file_metadata: WorkspaceCssFile)
        ensures
            final(self)@.css_files == old(self)@.css_files.push(css_file_metadata@),
            final(self)@.html_files == old(self)@.html_files,
            final(self)@.workspace_path == old(self)@.workspace_path,
            final(self)@.last_updated == old(self)@.last_updated,
    {
        self.css_files.push(css_file_metadata);
    }

    /// Adds an HTML document at the end of the index.
    pub fn add_html_file(&mut self, html_file_metadata: WorkspaceHtmlFile)
        ensures
            final(self)@.html_files == old(self)@.html_files.push(html_file_metadata@),
            final(self)@.css_files == old(self)@.css_files,
            final(self)@.workspace_path == old(self)@.workspace_path,
            final(self)@.last_updated == old(self)@.last_updated,
    {
        self.html_files.push(html_file_metadata);
    }

    /// Puts `new_metadata` in the place of the HTML document at `index`.
    /// Fails, and changes nothing, where the index has no such place.
    pub fn modify_html_file(&mut self, new_metadata: &WorkspaceHtmlFile, index: &usize) -> (r:
        Result<(), MetadataError>)
        ensures
            *index < old(self)@.html_files.len() ==> r is Ok && final(self)@.html_files == old(
                self,
            )@.html_files.update(*index as int, new_metadata@),
            *index >= old(self)@.html_files.len() ==> r == Err::<(), MetadataError>(
                MetadataError::IndexOutOfBounds,
            ) && final(self)@.html_files == old(self)@.html_files,
            final(self)@.css_files == old(self)@.css_files,
            final(self)@.workspace_path == old(self)@.workspace_path,
            final(self)@.last_updated == old(self)@.last_updated,
    {
        if *index < self.html_files.len() {
            self.html_files.set(*index, new_metadata.clone());
            Ok(())
        } else {
            Err(MetadataError::IndexOutOfBounds)
        }
    }

    /// Dates the index `now`, as is done before it is saved.
    pub fn update_metadata(&mut self, now: Timestamp)
        ensures
            final(self)@ == (WorkspaceMetaDataView { last_updated: now, ..old(self)@ }),
    {
        self.last_updated = now;
    }
}

/// `i` is the first position of `ids` that holds `id`.
pub open spec fn is_first_id(ids: Seq<u32>, id: u32, i: int) -> bool {
    &&& 0 <= i < ids.len()
    &&& ids[i] == id
    &&& forall|j: int| 0 <= j < i ==> ids[j] != id
}

} // verus!
