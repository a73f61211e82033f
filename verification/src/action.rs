//! Repository actions as data. The engine never touches a repository: it
//! emits a sequence of [`GitAction`] values, and the binary around the
//! library carries each one out with the version-control tool, reporting
//! failure back. Every higher operation (materializing a plan, mutating a
//! chunk, syncing) is specified by the exact action sequence it produces.

use vstd::prelude::*;

verus! {

/// Where an action runs: the shared working tree at the repository root, or
/// the dedicated worktree bound to a branch.
#[derive(Debug)]
pub enum WorkDir {
    Root,
    Worktree { branch: String },
}

/// Mathematical image of a [`WorkDir`].
pub enum WorkDirV {
    Root,
    Worktree { branch: Seq<char> },
}

impl View for WorkDir {
    type V = WorkDirV;

    open spec fn view(&self) -> WorkDirV {
        match self {
            WorkDir::Root => WorkDirV::Root,
            WorkDir::Worktree { branch } => WorkDirV::Worktree { branch: branch@ },
        }
    }
}

impl DeepView for WorkDir {
    type V = WorkDirV;

    open spec fn deep_view(&self) -> WorkDirV {
        self.view()
    }
}

/// One primitive repository operation.
///
/// - `CreateBranch`: create `branch` at `base_ref` and check it out in the
///   shared tree; fails when the branch already exists.
/// - `AddWorktree`: create `branch` at `base_ref` with its own worktree; the
///   shared tree is untouched; fails when the branch already exists.
/// - `CopyFiles`: overwrite `files` in the working tree of `dir` with their
///   content at `source`; a no-op for an empty list.
/// - `Commit`: stage everything in `dir` and commit; fails when the tree is
///   clean.
/// - `Amend`: stage everything in `dir` and amend the tip commit.
/// - `RemoveFileFromTip`: take `file` out of the tip commit of the branch
///   checked out in `dir`, discarding its content, committing what remains
///   (an empty commit when nothing remains).
/// - `Checkout`: switch the shared tree to `branch`; fails when it does not
///   exist.
/// - `RemoveWorktree`: remove the worktree of `branch`, if any.
/// - `DeleteBranch`: force-delete `branch`; fails while it is checked out.
/// - `FetchAndRebase`: fetch the remote, then rebase the branch checked out
///   in `dir` onto `origin/<base_branch>`; with `update_refs`, branch
///   pointers inside the rebased range move along.
#[derive(Debug)]
pub enum GitAction {
    CreateBranch { branch: String, base_ref: String },
    AddWorktree { branch: String, base_ref: String },
    CopyFiles { dir: WorkDir, source: String, files: Vec<String> },
    Commit { dir: WorkDir, message: String },
    Amend { dir: WorkDir },
    RemoveFileFromTip { dir: WorkDir, file: String },
    Checkout { branch: String },
    RemoveWorktree { branch: String },
    DeleteBranch { branch: String },
    FetchAndRebase { dir: WorkDir, base_branch: String, update_refs: bool },
}

/// Mathematical image of a [`GitAction`].
pub enum ActionV {
    CreateBranch { branch: Seq<char>, base_ref: Seq<char> },
    AddWorktree { branch: Seq<char>, base_ref: Seq<char> },
    CopyFiles { dir: WorkDirV, source: Seq<char>, files: Seq<Seq<char>> },
    Commit { dir: WorkDirV, message: Seq<char> },
    Amend { dir: WorkDirV },
    RemoveFileFromTip { dir: WorkDirV, file: Seq<char> },
    Checkout { branch: Seq<char> },
    RemoveWorktree { branch: Seq<char> },
    DeleteBranch { branch: Seq<char> },
    FetchAndRebase { dir: WorkDirV, base_branch: Seq<char>, update_refs: bool },
}

impl View for GitAction {
    type V = ActionV;

    open spec fn view(&self) -> ActionV {
        match self {
            GitAction::CreateBranch { branch, base_ref } => ActionV::CreateBranch {
                branch: branch@,
                base_ref: base_ref@,
            },
            GitAction::AddWorktree { branch, base_ref } => ActionV::AddWorktree {
                branch: branch@,
                base_ref: base_ref@,
            },
            GitAction::CopyFiles { dir, source, files } => ActionV::CopyFiles {
                dir: dir@,
                source: source@,
                files: files.deep_view(),
            },
            GitAction::Commit { dir, message } => ActionV::Commit {
                dir: dir@,
                message: message@,
            },
            GitAction::Amend { dir } => ActionV::Amend { dir: dir@ },
            GitAction::RemoveFileFromTip { dir, file } => ActionV::RemoveFileFromTip {
                dir: dir@,
                file: file@,
            },
            GitAction::Checkout { branch } => ActionV::Checkout { branch: branch@ },
            GitAction::RemoveWorktree { branch } => ActionV::RemoveWorktree { branch: branch@ },
            GitAction::DeleteBranch { branch } => ActionV::DeleteBranch { branch: branch@ },
            GitAction::FetchAndRebase { dir, base_branch, update_refs } => {
                ActionV::FetchAndRebase {
                    dir: dir@,
                    base_branch: base_branch@,
                    update_refs: *update_refs,
                }
            },
        }
    }
}

impl DeepView for GitAction {
    type V = ActionV;

    open spec fn deep_view(&self) -> ActionV {
        self.view()
    }
}

/// The plain fetch-and-rebase of one branch onto `origin/<base_branch>`.
pub fn fetch_and_rebase(dir: WorkDir, base_branch: &str) -> (a: GitAction)
    ensures
        a@ == (ActionV::FetchAndRebase {
            dir: dir@,
            base_branch: base_branch@,
            update_refs: false,
        }),
{
    GitAction::FetchAndRebase { dir, base_branch: base_branch.to_owned(), update_refs: false }
}

/// Like [`fetch_and_rebase`], but ref updates cascade, so stacked chunk
/// branches that point into the rebased history move together.
pub fn fetch_and_rebase_stacked(dir: WorkDir, base_branch: &str) -> (a: GitAction)
    ensures
        a@ == (ActionV::FetchAndRebase {
            dir: dir@,
            base_branch: base_branch@,
            update_refs: true,
        }),
{
    GitAction::FetchAndRebase { dir, base_branch: base_branch.to_owned(), update_refs: true }
}

} // verus!
