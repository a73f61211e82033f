//! The persisted chunk graph: which feature branch is being decomposed, which
//! base branch the pieces target, and the ordered list of chunks with the
//! files each one owns. The well-formedness predicate [`wf_chunks`] captures
//! the global invariant that every file path belongs to at most one chunk.

use vstd::prelude::*;
use vstd::string::StrSliceExecFns;
use vstd::string::StringExecFns;

use crate::text;

verus! {

/// How chunk branches are kept in step with the base branch: `Stacked`
/// cascades ref updates across a shared rebased range, `Independent` rebases
/// every chunk branch onto base on its own.
#[derive(Clone, Copy, Debug, PartialEq, Eq, Structural)]
pub enum Strategy {
    Stacked,
    Independent,
}

impl Strategy {
    /// The snake_case name this strategy is displayed and persisted as.
    pub fn label(&self) -> (r: String)
        ensures
            *self is Stacked ==> r@ == "stacked"@,
            *self is Independent ==> r@ == "independent"@,
    {
        match self {
            Strategy::Stacked => String::from_str("stacked"),
            Strategy::Independent => String::from_str("independent"),
        }
    }
}

/// One named, disjoint subset of the changed files, materialised as its own
/// branch. `pr_number`/`pr_url` are filled in by the hosting-service layer
/// outside this crate and carried through opaquely.
#[derive(Debug)]
pub struct Chunk {
    pub name: String,
    pub branch: String,
    pub files: Vec<String>,
    pub pr_number: Option<u64>,
    pub pr_url: Option<String>,
}

/// Mathematical image of a [`Chunk`]: names and paths as character sequences.
#[verifier::ext_equal]
pub struct ChunkV {
    pub name: Seq<char>,
    pub branch: Seq<char>,
    pub files: Seq<Seq<char>>,
    pub pr_number: Option<u64>,
    pub pr_url: Option<Seq<char>>,
}

impl View for Chunk {
    type V = ChunkV;

    open spec fn view(&self) -> ChunkV {
        ChunkV {
            name: self.name@,
            branch: self.branch@,
            files: self.files.deep_view(),
            pr_number: self.pr_number,
            pr_url: self.pr_url.deep_view(),
        }
    }
}

impl DeepView for Chunk {
    type V = ChunkV;

    open spec fn deep_view(&self) -> ChunkV {
        self.view()
    }
}

impl Chunk {
    /// A copy equal to `self` in every field.
    pub fn duplicate(&self) -> (r: Chunk)
        ensures
            r@ == self@,
    {
        let r = Chunk {
            name: self.name.clone(),
            branch: self.branch.clone(),
            files: text::clone_string_vec(&self.files),
            pr_number: clone_pr_number(&self.pr_number),
            pr_url: clone_pr_url(&self.pr_url),
        };
        proof {
            assert(r.files.deep_view() =~= self.files.deep_view());
        }
        r
    }
}

impl Chunk {
    /// A copy of `self` whose file list is replaced by `files`.
    pub fn with_files(&self, files: Vec<String>) -> (r: Chunk)
        ensures
            r@ == (ChunkV { files: files.deep_view(), ..self@ }),
    {
        Chunk {
            name: self.name.clone(),
            branch: self.branch.clone(),
            files,
            pr_number: clone_pr_number(&self.pr_number),
            pr_url: clone_pr_url(&self.pr_url),
        }
    }
}

fn clone_pr_number(n: &Option<u64>) -> (r: Option<u64>)
    ensures
        r == *n,
{
    match n {
        Some(v) => Some(*v),
        None => None,
    }
}

fn clone_pr_url(u: &Option<String>) -> (r: Option<String>)
    ensures
        r.deep_view() == u.deep_view(),
        r is Some <==> *u is Some,
{
    match u {
        Some(s) => Some(s.clone()),
        None => None,
    }
}

/// Root aggregate, one per repository: the branch being decomposed, the base
/// branch, the hosting identity, the sync strategy, the execution topology,
/// and the chunks.
#[derive(Debug)]
pub struct MergesState {
    pub base_branch: String,
    pub source_branch: String,
    pub repo_owner: String,
    pub repo_name: String,
    pub strategy: Strategy,
    pub use_worktrees: bool,
    pub chunks: Vec<Chunk>,
}

/// Mathematical image of a [`MergesState`].
#[verifier::ext_equal]
pub struct StateV {
    pub base_branch: Seq<char>,
    pub source_branch: Seq<char>,
    pub repo_owner: Seq<char>,
    pub repo_name: Seq<char>,
    pub strategy: Strategy,
    pub use_worktrees: bool,
    pub chunks: Seq<ChunkV>,
}

impl View for MergesState {
    type V = StateV;

    open spec fn view(&self) -> StateV {
        StateV {
            base_branch: self.base_branch@,
            source_branch: self.source_branch@,
            repo_owner: self.repo_owner@,
            repo_name: self.repo_name@,
            strategy: self.strategy,
            use_worktrees: self.use_worktrees,
            chunks: self.chunks.deep_view(),
        }
    }
}

/// All files assigned across a sequence of chunks, flattened in order.
pub open spec fn all_files(chunks: Seq<ChunkV>) -> Seq<Seq<char>>
    decreases chunks.len(),
{
    if chunks.len() == 0 {
        Seq::empty()
    } else {
        chunks[0].files + all_files(chunks.drop_first())
    }
}

/// No file path occurs twice, neither within one chunk nor across two chunks.
pub open spec fn wf_chunks(chunks: Seq<ChunkV>) -> bool {
    forall|i: int, j: int, k: int, l: int|
        0 <= i < chunks.len() && 0 <= k < chunks[i].files.len() && 0 <= j < chunks.len() && 0 <= l
            < chunks[j].files.len() && (i != j || k != l) ==> chunks[i].files[k]
            != chunks[j].files[l]
}

/// A file assigned somewhere among `chunks`.
pub open spec fn file_assigned(chunks: Seq<ChunkV>, f: Seq<char>) -> bool {
    exists|i: int, k: int|
        0 <= i < chunks.len() && 0 <= k < chunks[i].files.len() && chunks[i].files[k] == f
}

/// The names of the chunks, in order.
pub open spec fn chunk_names(chunks: Seq<ChunkV>) -> Seq<Seq<char>>
    decreases chunks.len(),
{
    if chunks.len() == 0 {
        Seq::empty()
    } else {
        chunk_names(chunks.drop_last()).push(chunks.last().name)
    }
}

/// Some chunk carries this name.
pub open spec fn chunk_named(chunks: Seq<ChunkV>, name: Seq<char>) -> bool {
    exists|i: int| 0 <= i < chunks.len() && (#[trigger] chunks[i]).name == name
}

/// Index of the first chunk with this name (meaningful only when one
/// exists).
pub open spec fn chunk_index_of(chunks: Seq<ChunkV>, name: Seq<char>) -> int
    decreases chunks.len(),
{
    if chunks.len() == 0 {
        0
    } else if chunks[0].name == name {
        0
    } else {
        1 + chunk_index_of(chunks.drop_first(), name)
    }
}

/// `chunk_index_of` names the first index whose chunk carries `name`.
pub proof fn lemma_chunk_index_of(chunks: Seq<ChunkV>, name: Seq<char>, i: int)
    requires
        0 <= i < chunks.len(),
        chunks[i].name == name,
        forall|j: int| 0 <= j < i ==> (#[trigger] chunks[j]).name != name,
    ensures
        chunk_index_of(chunks, name) == i,
    decreases chunks.len(),
{
    if chunks[0].name != name {
        assert(i > 0);
        lemma_chunk_index_of(chunks.drop_first(), name, i - 1);
    }
}

impl MergesState {
    /// A copy equal to `self` in every field.
    pub fn duplicate(&self) -> (r: MergesState)
        ensures
            r@ == self@,
    {
        let mut chunks: Vec<Chunk> = Vec::new();
        let mut i: usize = 0;
        while i < self.chunks.len()
            invariant
                i <= self.chunks.len(),
                chunks.deep_view().len() == i,
                forall|t: int| 0 <= t < i ==> #[trigger] chunks.deep_view()[t] == self@.chunks[t],
            decreases self.chunks.len() - i,
        {
            let ghost old_c = chunks.deep_view();
            chunks.push(self.chunks[i].duplicate());
            proof {
                assert(chunks.deep_view() =~= old_c.push(self@.chunks[i as int]));
            }
            i += 1;
        }
        let r = MergesState {
            base_branch: self.base_branch.clone(),
            source_branch: self.source_branch.clone(),
            repo_owner: self.repo_owner.clone(),
            repo_name: self.repo_name.clone(),
            strategy: self.strategy,
            use_worktrees: self.use_worktrees,
            chunks,
        };
        proof {
            assert(r@.chunks =~= self@.chunks);
            assert(r@ =~= self@);
        }
        r
    }

    /// Where the state file lives: directly under the repository root, as
    /// `.merges.json`.
    pub fn path(repo_root: &str) -> (r: String)
        ensures
            r@ == repo_root@ + "/.merges.json"@,
    {
        let mut r = String::from_str(repo_root);
        r.append("/.merges.json");
        r
    }

    /// The chunk names, in order, for naming them in error messages.
    pub fn name_list(&self) -> (r: Vec<String>)
        ensures
            r.deep_view() == chunk_names(self@.chunks),
    {
        let ghost cv = self@.chunks;
        let mut r: Vec<String> = Vec::new();
        let mut i: usize = 0;
        proof {
            assert(cv.take(0) =~= Seq::<ChunkV>::empty());
            assert(r.deep_view() =~= chunk_names(cv.take(0)));
        }
        while i < self.chunks.len()
            invariant
                i <= self.chunks.len(),
                cv == self@.chunks,
                r.deep_view() == chunk_names(cv.take(i as int)),
            decreases self.chunks.len() - i,
        {
            proof {
                assert(cv.take(i + 1).drop_last() =~= cv.take(i as int));
                assert(cv.take(i + 1).last() == cv[i as int]);
                assert(self.chunks@[i as int]@.name == cv[i as int].name);
            }
            let ghost old_r = r.deep_view();
            r.push(self.chunks[i].name.clone());
            proof {
                assert(r.deep_view() =~= old_r.push(cv[i as int].name));
            }
            i += 1;
        }
        proof {
            assert(cv.take(self.chunks.len() as int) =~= cv);
        }
        r
    }

    /// Index of the chunk with the given name, searching front to back.
    pub fn find_chunk(&self, name: &str) -> (r: Option<usize>)
        ensures
            match r {
                Some(i) => i < self@.chunks.len() && self@.chunks[i as int].name == name@
                    && forall|j: int| 0 <= j < i ==> self@.chunks[j].name != name@,
                None => forall|j: int| 0 <= j < self@.chunks.len() ==> self@.chunks[j].name != name@,
            },
    {
        let mut i: usize = 0;
        while i < self.chunks.len()
            invariant
                i <= self.chunks.len(),
                forall|j: int| 0 <= j < i ==> self@.chunks[j].name != name@,
            decreases self.chunks.len() - i,
        {
            assert(self@.chunks[i as int].name == self.chunks@[i as int]@.name);
            if text::str_eq(self.chunks[i].name.as_str(), name) {
                return Some(i);
            }
            i += 1;
        }
        None
    }
}

} // verus!
