//! The workspaces that are open in the editor.

use vstd::prelude::*;
use crate::path::{is_path_within, names_path, names_same_path, path_starts_with};
use crate::text::{lemma_texts_push, texts};

verus! {

/// The open workspaces, and whether any has been registered yet.
pub struct Memory {
    workspace_paths: Vec<String>,
    ready: bool,
}

/// What a `Memory` holds, as mathematical values.
pub struct MemoryView {
    pub workspace_paths: Seq<Seq<char>>,
    pub ready: bool,
}

impl View for Memory {
    type V = MemoryView;

    closed spec fn view(&self) -> MemoryView {
        MemoryView { workspace_paths: texts(self.workspace_paths@), ready: self.ready }
    }
}

/// The paths of `paths` that none of `removed` names, in order.
pub open spec fn without_paths(paths: Seq<Seq<char>>, removed: Seq<Seq<char>>) -> Seq<Seq<char>>
    decreases paths.len(),
{
    if paths.len() == 0 {
        Seq::empty()
    } else if names_path(removed, paths.last()) {
        without_paths(paths.drop_last(), removed)
    } else {
        without_paths(paths.drop_last(), removed).push(paths.last())
    }
}

/// `i` is the first position of `folders` that holds a folder in which
/// `path` lies.
pub open spec fn is_first_folder_of(folders: Seq<Seq<char>>, path: Seq<char>, i: int) -> bool {
    &&& 0 <= i < folders.len()
    &&& path_starts_with(path, folders[i])
    &&& forall|j: int| 0 <= j < i ==> !path_starts_with(path, #[trigger] folders[j])
}

impl Memory {
    /// A memory without workspaces.
    pub fn new() -> (r: Memory)
        ensures
            r@ == (MemoryView { workspace_paths: Seq::empty(), ready: false }),
    {
        let r = Memory { workspace_paths: Vec::new(), ready: false };
        assert(texts(r.workspace_paths@) =~= Seq::empty());
        r
    }

    /// Whether a workspace has been registered.
    pub fn is_ready(&self) -> (r: bool)
        ensures
            r == self@.ready,
    {
        self.ready
    }

    /// Registers one workspace.
    pub fn add_workspace(&mut self, workspace: String)
        ensures
            final(self)@ == (MemoryView {
                workspace_paths: old(self)@.workspace_paths.push(workspace@),
                ready: true,
            }),
    {
        proof {
            lemma_texts_push(self.workspace_paths@, workspace);
        }
        self.workspace_paths.push(workspace);
        self.ready = true;
    }

    /// Registers several workspaces.
    pub fn add_workspaces(&mut self, workspaces: Vec<String>)
        ensures
            final(self)@ == (MemoryView {
                workspace_paths: old(self)@.workspace_paths + texts(workspaces@),
                ready: true,
            }),
    {
        let ghost before = texts(self.workspace_paths@);
        let mut added = workspaces;
        self.workspace_paths.append(&mut added);
        assert(texts(self.workspace_paths@) =~= before + texts(workspaces@));
        self.ready = true;
    }

    /// Forgets the workspaces that `workspaces` names.
    pub fn remove_workspaces(&mut self, workspaces: Vec<String>)
        ensures
            final(self)@ == (MemoryView {
                workspace_paths: without_paths(old(self)@.workspace_paths, texts(workspaces@)),
                ready: old(self)@.ready,
            }),
    {
        let ghost all = texts(self.workspace_paths@);
        let ghost removed = texts(workspaces@);
        let mut kept: Vec<String> = Vec::new();
        let mut i: usize = 0;
        while i < self.workspace_paths.len()
            invariant
                i <= self.workspace_paths.len(),
                self.ready == old(self).ready,
                all == texts(self.workspace_paths@),
                removed == texts(workspaces@),
                texts(kept@) == without_paths(all.take(i as int), removed),
            decreases self.workspace_paths.len() - i,
        {
            assert(all.take(i + 1).drop_last() =~= all.take(i as int));
            if !names_same_path(&workspaces, self.workspace_paths[i].as_str()) {
                proof {
                    lemma_texts_push(kept@, self.workspace_paths@[i as int]);
                }
                kept.push(self.workspace_paths[i].clone());
            }
            i += 1;
        }
        assert(all.take(i as int) =~= all);
        self.workspace_paths = kept;
    }

    /// The workspace that the file at `file_path` belongs to: the first
    /// registered one in which it lies.
    pub fn get_workspace_folder(&self, file_path: &str) -> (r: Option<String>)
        ensures
            match r {
                Some(folder) => exists|i: int|
                    is_first_folder_of(self@.workspace_paths, file_path@, i)
                        && #[trigger] self@.workspace_paths[i] == folder@,
                None => forall|i: int|
                    0 <= i < self@.workspace_paths.len() ==> !path_starts_with(
                        file_path@,
                        #[trigger] self@.workspace_paths[i],
                    ),
            },
    {
        let ghost folders = texts(self.workspace_paths@);
        let mut i: usize = 0;
        while i < self.workspace_paths.len()
            invariant
                i <= self.workspace_paths.len(),
                folders == texts(self.workspace_paths@),
                forall|j: int| 0 <= j < i ==> !path_starts_with(file_path@, #[trigger] folders[j]),
            decreases self.workspace_paths.len() - i,
        {
            if is_path_within(file_path, self.workspace_paths[i].as_str()) {
                let folder = self.workspace_paths[i].clone();
                assert(self@.workspace_paths[i as int] == folder@);
                return Some(folder);
            }
            i += 1;
        }
        None
    }
}

} // verus!
