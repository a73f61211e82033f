//! Post-hoc chunk mutations: adding files to an existing chunk, and moving a
//! single file between two chunks. Each operation validates first, then
//! yields the action script amending the affected branches together with the
//! state that holds afterwards. Adding files already present is a no-op, not
//! an error.

use vstd::prelude::*;
use vstd::string::StringExecFns;

use crate::action::ActionV;
use crate::action::GitAction;
use crate::action::WorkDir;
use crate::action::WorkDirV;
use crate::error::ErrorV;
use crate::error::MergesError;
use crate::state::Chunk;
use crate::state::ChunkV;
use crate::state::MergesState;
use crate::state::StateV;
use crate::state::chunk_index_of;
use crate::state::chunk_named;
use crate::state::chunk_names;
use crate::state::lemma_chunk_index_of;
use crate::text;

verus! {

/// The outcome of a validated mutation: the actions to run and the state
/// that describes the repository once they have all succeeded.
#[derive(Debug)]
pub struct MutationScript {
    pub actions: Vec<GitAction>,
    pub new_state: MergesState,
}

/// The members of `files` not already in `existing`, in request order, each
/// kept once: a file named twice in the request is added once.
pub open spec fn new_files_of(existing: Seq<Seq<char>>, files: Seq<Seq<char>>) -> Seq<Seq<char>>
    decreases files.len(),
{
    if files.len() == 0 {
        Seq::empty()
    } else {
        let rest = new_files_of(existing, files.drop_last());
        if text::contains_str(existing, files.last()) || text::contains_str(rest, files.last()) {
            rest
        } else {
            rest.push(files.last())
        }
    }
}

/// `f` is a member of some chunk other than the one at `idx`.
pub open spec fn assigned_elsewhere(chunks: Seq<ChunkV>, idx: int, f: Seq<char>) -> bool {
    exists|j: int, k: int|
        #![trigger chunks[j].files[k]]
        0 <= j < chunks.len() && j != idx && 0 <= k < chunks[j].files.len() && chunks[j].files[k]
            == f
}

/// Whether some chunk other than the one at `idx` owns `f`.
fn in_other_chunk(state: &MergesState, idx: usize, f: &str) -> (r: bool)
    ensures
        r == assigned_elsewhere(state@.chunks, idx as int, f@),
{
    let mut j: usize = 0;
    while j < state.chunks.len()
        invariant
            j <= state.chunks.len(),
            forall|a: int, k: int|
                #![trigger state@.chunks[a].files[k]]
                0 <= a < j && a != idx && 0 <= k < state@.chunks[a].files.len()
                    ==> state@.chunks[a].files[k] != f@,
        decreases state.chunks.len() - j,
    {
        if j != idx {
            proof {
                assert(state@.chunks[j as int].files == state.chunks@[j as int]@.files);
            }
            if text::vec_contains_str(&state.chunks[j].files, f) {
                proof {
                    let k = choose|k: int|
                        0 <= k < state.chunks@[j as int]@.files.len() && state.chunks@[
                            j as int
                        ]@.files[k] == f@;
                    assert(state@.chunks[j as int].files[k] == f@);
                }
                return true;
            }
        }
        j += 1;
    }
    proof {
        if assigned_elsewhere(state@.chunks, idx as int, f@) {
            let (a, k) = choose|a: int, k: int|
                #![trigger state@.chunks[a].files[k]]
                0 <= a < state@.chunks.len() && a != idx && 0 <= k < state@.chunks[a].files.len()
                    && state@.chunks[a].files[k] == f@;
            assert(state@.chunks[a].files[k] != f@);
        }
    }
    false
}

/// The actions that add `nf` to the chunk at `idx`: copy the files in from
/// the source branch and amend the tip, inside the chunk's worktree or,
/// in shared-tree mode, around a checkout that is restored afterwards.
pub open spec fn add_actions(state: StateV, idx: int, nf: Seq<Seq<char>>) -> Seq<ActionV> {
    let b = state.chunks[idx].branch;
    if state.use_worktrees {
        seq![
            ActionV::CopyFiles {
                dir: WorkDirV::Worktree { branch: b },
                source: state.source_branch,
                files: nf,
            },
            ActionV::Amend { dir: WorkDirV::Worktree { branch: b } },
        ]
    } else {
        seq![
            ActionV::Checkout { branch: b },
            ActionV::CopyFiles { dir: WorkDirV::Root, source: state.source_branch, files: nf },
            ActionV::Amend { dir: WorkDirV::Root },
            ActionV::Checkout { branch: state.source_branch },
        ]
    }
}

/// `files` with every occurrence of `f` removed.
pub open spec fn without_file(files: Seq<Seq<char>>, f: Seq<char>) -> Seq<Seq<char>>
    decreases files.len(),
{
    if files.len() == 0 {
        Seq::empty()
    } else {
        let rest = without_file(files.drop_last(), f);
        if files.last() == f {
            rest
        } else {
            rest.push(files.last())
        }
    }
}

/// The chunk list after moving `f` from the chunk at `fi` to the chunk at
/// `ti`: `f` leaves the one, and joins the other unless (once the removal is
/// accounted for) it is already there.
pub open spec fn moved_chunks(chunks: Seq<ChunkV>, fi: int, ti: int, f: Seq<char>) -> Seq<ChunkV> {
    let c1 = chunks.update(
        fi,
        ChunkV { files: without_file(chunks[fi].files, f), ..chunks[fi] },
    );
    if text::contains_str(c1[ti].files, f) {
        c1
    } else {
        c1.update(ti, ChunkV { files: c1[ti].files.push(f), ..c1[ti] })
    }
}

/// The actions that move `f`: take it out of the tip commit of the source
/// chunk's branch, and, when the destination branch does not already carry
/// it, copy it in there and amend; the source branch is restored at the end.
/// All of it runs in the shared tree.
pub open spec fn move_actions(state: StateV, fi: int, ti: int, f: Seq<char>) -> Seq<ActionV> {
    seq![
        ActionV::Checkout { branch: state.chunks[fi].branch },
        ActionV::RemoveFileFromTip { dir: WorkDirV::Root, file: f },
    ] + (if text::contains_str(state.chunks[ti].files, f) {
        Seq::<ActionV>::empty()
    } else {
        seq![
            ActionV::Checkout { branch: state.chunks[ti].branch },
            ActionV::CopyFiles {
                dir: WorkDirV::Root,
                source: state.source_branch,
                files: seq![f],
            },
            ActionV::Amend { dir: WorkDirV::Root },
        ]
    }) + seq![ActionV::Checkout { branch: state.source_branch }]
}

/// `files` with every member equal to `f` filtered out.
fn filter_out(files: &Vec<String>, f: &str) -> (r: Vec<String>)
    ensures
        r.deep_view() == without_file(files.deep_view(), f@),
{
    let ghost dv = files.deep_view();
    let mut r: Vec<String> = Vec::new();
    let mut i: usize = 0;
    proof {
        assert(dv.take(0) =~= Seq::<Seq<char>>::empty());
        assert(r.deep_view() =~= without_file(dv.take(0), f@));
    }
    while i < files.len()
        invariant
            i <= files.len(),
            dv == files.deep_view(),
            r.deep_view() == without_file(dv.take(i as int), f@),
        decreases files.len() - i,
    {
        proof {
            assert(dv.take(i + 1).drop_last() =~= dv.take(i as int));
            assert(dv.take(i + 1).last() == dv[i as int]);
        }
        let ghost old_r = r.deep_view();
        if !text::str_eq(files[i].as_str(), f) {
            r.push(files[i].clone());
            proof {
                assert(r.deep_view() =~= old_r.push(dv[i as int]));
            }
        }
        i += 1;
    }
    proof {
        assert(dv.take(files.len() as int) =~= dv);
    }
    r
}

/// The members of `files` not yet in `existing`, in request order, each once.
fn keep_new(existing: &Vec<String>, files: &Vec<String>) -> (r: Vec<String>)
    ensures
        r.deep_view() == new_files_of(existing.deep_view(), files.deep_view()),
{
    let ghost ev = existing.deep_view();
    let ghost dv = files.deep_view();
    let mut r: Vec<String> = Vec::new();
    let mut i: usize = 0;
    proof {
        assert(dv.take(0) =~= Seq::<Seq<char>>::empty());
        assert(r.deep_view() =~= new_files_of(ev, dv.take(0)));
    }
    while i < files.len()
        invariant
            i <= files.len(),
            ev == existing.deep_view(),
            dv == files.deep_view(),
            r.deep_view() == new_files_of(ev, dv.take(i as int)),
        decreases files.len() - i,
    {
        proof {
            assert(dv.take(i + 1).drop_last() =~= dv.take(i as int));
            assert(dv.take(i + 1).last() == dv[i as int]);
        }
        let ghost old_r = r.deep_view();
        if !text::vec_contains_str(existing, files[i].as_str()) && !text::vec_contains_str(
            &r,
            files[i].as_str(),
        ) {
            r.push(files[i].clone());
            proof {
                assert(r.deep_view() =~= old_r.push(dv[i as int]));
            }
        }
        i += 1;
    }
    proof {
        assert(dv.take(files.len() as int) =~= dv);
    }
    r
}

/// Add `files` to the chunk called `chunk_name`. Every file must be in the
/// live diff and owned by no other chunk; files the chunk already owns are
/// dropped from the request, and a request that adds nothing leaves branch
/// and state untouched.
#[verifier::rlimit(60)]
pub fn add_files(
    state: &MergesState,
    chunk_name: &str,
    files: &Vec<String>,
    changed: &Vec<String>,
) -> (r: Result<MutationScript, MergesError>)
    ensures
        r is Ok <==> (chunk_named(state@.chunks, chunk_name@) && files.deep_view().len() > 0
            && (forall|t: int|
            0 <= t < files.deep_view().len() ==> text::contains_str(
                changed.deep_view(),
                #[trigger] files.deep_view()[t],
            )) && (forall|t: int|
            0 <= t < files.deep_view().len() ==> !assigned_elsewhere(
                state@.chunks,
                chunk_index_of(state@.chunks, chunk_name@),
                #[trigger] files.deep_view()[t],
            ))),
        match r {
            Ok(s) => {
                let idx = chunk_index_of(state@.chunks, chunk_name@);
                let nf = new_files_of(state@.chunks[idx].files, files.deep_view());
                &&& s.actions.deep_view() == (if nf.len() == 0 {
                    Seq::<ActionV>::empty()
                } else {
                    add_actions(state@, idx, nf)
                })
                &&& s.new_state@.chunks == state@.chunks.update(
                    idx,
                    (ChunkV { files: state@.chunks[idx].files + nf, ..state@.chunks[idx] }),
                )
                &&& s.new_state@.base_branch == state@.base_branch
                &&& s.new_state@.source_branch == state@.source_branch
                &&& s.new_state@.repo_owner == state@.repo_owner
                &&& s.new_state@.repo_name == state@.repo_name
                &&& s.new_state@.strategy == state@.strategy
                &&& s.new_state@.use_worktrees == state@.use_worktrees
                &&& (nf.len() == 0 ==> s.new_state@ == state@)
            },
            Err(e) => match e@ {
                ErrorV::UnknownChunk { name, available } => name == chunk_name@ && !chunk_named(
                    state@.chunks,
                    chunk_name@,
                ) && available == chunk_names(state@.chunks),
                ErrorV::NoFiles => chunk_named(state@.chunks, chunk_name@) && files.deep_view().len()
                    == 0,
                ErrorV::FileNotInDiff { file } => chunk_named(state@.chunks, chunk_name@)
                    && text::contains_str(files.deep_view(), file) && !text::contains_str(
                    changed.deep_view(),
                    file,
                ),
                ErrorV::DuplicateFile { file } => chunk_named(state@.chunks, chunk_name@)
                    && text::contains_str(files.deep_view(), file) && assigned_elsewhere(
                    state@.chunks,
                    chunk_index_of(state@.chunks, chunk_name@),
                    file,
                ),
                _ => false,
            },
        },
{
    let ghost sv = state@;
    let idx = match state.find_chunk(chunk_name) {
        Some(i) => i,
        None => {
            return Err(
                MergesError::UnknownChunk {
                    name: chunk_name.to_owned(),
                    available: state.name_list(),
                },
            );
        },
    };
    proof {
        lemma_chunk_index_of(sv.chunks, chunk_name@, idx as int);
    }
    if files.len() == 0 {
        return Err(MergesError::NoFiles);
    }
    let mut t: usize = 0;
    while t < files.len()
        invariant
            t <= files.len(),
            sv == state@,
            idx < sv.chunks.len(),
            idx as int == chunk_index_of(sv.chunks, chunk_name@),
            chunk_named(sv.chunks, chunk_name@),
            forall|j: int|
                0 <= j < t ==> text::contains_str(
                    changed.deep_view(),
                    #[trigger] files.deep_view()[j],
                ),
            forall|j: int|
                0 <= j < t ==> !assigned_elsewhere(
                    sv.chunks,
                    idx as int,
                    #[trigger] files.deep_view()[j],
                ),
        decreases files.len() - t,
    {
        if !text::vec_contains_str(changed, files[t].as_str()) {
            proof {
                assert(text::contains_str(files.deep_view(), files.deep_view()[t as int]));
            }
            return Err(MergesError::FileNotInDiff { file: files[t].clone() });
        }
        if in_other_chunk(state, idx, files[t].as_str()) {
            proof {
                assert(text::contains_str(files.deep_view(), files.deep_view()[t as int]));
            }
            return Err(MergesError::DuplicateFile { file: files[t].clone() });
        }
        t += 1;
    }
    let new_files = keep_new(&state.chunks[idx].files, files);
    let ghost nf = new_files.deep_view();
    proof {
        assert(state.chunks@[idx as int]@.files == sv.chunks[idx as int].files);
    }
    if new_files.len() == 0 {
        let new_state = state.duplicate();
        proof {
            assert(sv.chunks[idx as int].files + nf =~= sv.chunks[idx as int].files);
            assert((ChunkV {
                files: sv.chunks[idx as int].files + nf,
                ..sv.chunks[idx as int]
            }) =~= sv.chunks[idx as int]);
            assert(sv.chunks.update(
                idx as int,
                (ChunkV { files: sv.chunks[idx as int].files + nf, ..sv.chunks[idx as int] }),
            ) =~= sv.chunks);
        }
        return Ok(MutationScript { actions: Vec::new(), new_state });
    }
    let mut extended = text::clone_string_vec(&state.chunks[idx].files);
    let mut t2: usize = 0;
    while t2 < new_files.len()
        invariant
            t2 <= new_files.len(),
            nf == new_files.deep_view(),
            sv == state@,
            idx < sv.chunks.len(),
            extended.deep_view() == sv.chunks[idx as int].files + nf.take(t2 as int),
        decreases new_files.len() - t2,
    {
        let ghost old_e = extended.deep_view();
        extended.push(new_files[t2].clone());
        proof {
            assert(extended.deep_view() =~= old_e.push(nf[t2 as int]));
            assert(old_e.push(nf[t2 as int]) =~= sv.chunks[idx as int].files + nf.take(t2 + 1));
        }
        t2 += 1;
    }
    proof {
        assert(nf.take(new_files.len() as int) =~= nf);
    }
    let mut new_chunks: Vec<Chunk> = Vec::new();
    let mut c: usize = 0;
    let mut extended_opt = Some(extended);
    while c < state.chunks.len()
        invariant
            c <= state.chunks.len(),
            sv == state@,
            idx < sv.chunks.len(),
            new_chunks.deep_view().len() == c,
            c <= idx ==> (extended_opt matches Some(e) && e.deep_view() == sv.chunks[
                idx as int
            ].files + nf),
            forall|j: int|
                0 <= j < c ==> #[trigger] new_chunks.deep_view()[j] == (if j == idx {
                    ChunkV { files: sv.chunks[idx as int].files + nf, ..sv.chunks[j] }
                } else {
                    sv.chunks[j]
                }),
        decreases state.chunks.len() - c,
    {
        let ghost old_n = new_chunks.deep_view();
        if c == idx {
            let e = extended_opt.take().unwrap();
            new_chunks.push(state.chunks[c].with_files(e));
        } else {
            new_chunks.push(state.chunks[c].duplicate());
        }
        proof {
            assert(new_chunks.deep_view() =~= old_n.push(new_chunks.deep_view()[c as int]));
        }
        c += 1;
    }
    let new_state = MergesState {
        base_branch: state.base_branch.clone(),
        source_branch: state.source_branch.clone(),
        repo_owner: state.repo_owner.clone(),
        repo_name: state.repo_name.clone(),
        strategy: state.strategy,
        use_worktrees: state.use_worktrees,
        chunks: new_chunks,
    };
    proof {
        assert(new_state@.chunks =~= sv.chunks.update(
            idx as int,
            (ChunkV { files: sv.chunks[idx as int].files + nf, ..sv.chunks[idx as int] }),
        ));
    }
    let mut actions: Vec<GitAction> = Vec::new();
    let branch = state.chunks[idx].branch.clone();
    if state.use_worktrees {
        actions.push(
            GitAction::CopyFiles {
                dir: WorkDir::Worktree { branch: branch.clone() },
                source: state.source_branch.clone(),
                files: new_files,
            },
        );
        actions.push(GitAction::Amend { dir: WorkDir::Worktree { branch } });
    } else {
        actions.push(GitAction::Checkout { branch });
        actions.push(
            GitAction::CopyFiles {
                dir: WorkDir::Root,
                source: state.source_branch.clone(),
                files: new_files,
            },
        );
        actions.push(GitAction::Amend { dir: WorkDir::Root });
        actions.push(GitAction::Checkout { branch: state.source_branch.clone() });
    }
    proof {
        assert(actions.deep_view() =~= add_actions(sv, idx as int, nf));
    }
    Ok(MutationScript { actions, new_state })
}

/// Move `file` out of the chunk called `from_chunk` and into the distinct
/// chunk called `to_chunk`, amending both branches.
#[verifier::rlimit(60)]
pub fn move_file(
    state: &MergesState,
    file: &str,
    from_chunk: &str,
    to_chunk: &str,
) -> (r: Result<MutationScript, MergesError>)
    ensures
        r is Ok <==> (chunk_named(state@.chunks, from_chunk@) && text::contains_str(
            state@.chunks[chunk_index_of(state@.chunks, from_chunk@)].files,
            file@,
        ) && chunk_named(state@.chunks, to_chunk@) && chunk_index_of(state@.chunks, from_chunk@)
            != chunk_index_of(state@.chunks, to_chunk@)),
        match r {
            Ok(s) => {
                let fi = chunk_index_of(state@.chunks, from_chunk@);
                let ti = chunk_index_of(state@.chunks, to_chunk@);
                &&& s.actions.deep_view() == move_actions(state@, fi, ti, file@)
                &&& s.new_state@.chunks == moved_chunks(state@.chunks, fi, ti, file@)
                &&& s.new_state@.base_branch == state@.base_branch
                &&& s.new_state@.source_branch == state@.source_branch
                &&& s.new_state@.repo_owner == state@.repo_owner
                &&& s.new_state@.repo_name == state@.repo_name
                &&& s.new_state@.strategy == state@.strategy
                &&& s.new_state@.use_worktrees == state@.use_worktrees
            },
            Err(e) => match e@ {
                ErrorV::UnknownChunk { name, available } => available == chunk_names(state@.chunks)
                    && ((name == from_chunk@ && !chunk_named(state@.chunks, from_chunk@)) || (name
                    == to_chunk@ && chunk_named(state@.chunks, from_chunk@) && text::contains_str(
                    state@.chunks[chunk_index_of(state@.chunks, from_chunk@)].files,
                    file@,
                ) && !chunk_named(state@.chunks, to_chunk@))),
                ErrorV::FileNotInChunk { file: f, chunk, members } => f == file@ && chunk
                    == from_chunk@ && chunk_named(state@.chunks, from_chunk@) && members
                    == state@.chunks[chunk_index_of(state@.chunks, from_chunk@)].files
                    && !text::contains_str(
                    state@.chunks[chunk_index_of(state@.chunks, from_chunk@)].files,
                    file@,
                ),
                ErrorV::SameChunk { chunk } => chunk == to_chunk@ && chunk_named(
                    state@.chunks,
                    from_chunk@,
                ) && text::contains_str(
                    state@.chunks[chunk_index_of(state@.chunks, from_chunk@)].files,
                    file@,
                ) && chunk_named(state@.chunks, to_chunk@) && chunk_index_of(
                    state@.chunks,
                    from_chunk@,
                ) == chunk_index_of(state@.chunks, to_chunk@),
                _ => false,
            },
        },
{
    let ghost sv = state@;
    let fi = match state.find_chunk(from_chunk) {
        Some(i) => i,
        None => {
            return Err(
                MergesError::UnknownChunk {
                    name: from_chunk.to_owned(),
                    available: state.name_list(),
                },
            );
        },
    };
    proof {
        lemma_chunk_index_of(sv.chunks, from_chunk@, fi as int);
        assert(state.chunks@[fi as int]@.files == sv.chunks[fi as int].files);
    }
    if !text::vec_contains_str(&state.chunks[fi].files, file) {
        return Err(
            MergesError::FileNotInChunk {
                file: file.to_owned(),
                chunk: from_chunk.to_owned(),
                members: text::clone_string_vec(&state.chunks[fi].files),
            },
        );
    }
    let ti = match state.find_chunk(to_chunk) {
        Some(i) => i,
        None => {
            return Err(
                MergesError::UnknownChunk {
                    name: to_chunk.to_owned(),
                    available: state.name_list(),
                },
            );
        },
    };
    proof {
        lemma_chunk_index_of(sv.chunks, to_chunk@, ti as int);
        assert(state.chunks@[ti as int]@.files == sv.chunks[ti as int].files);
    }
    if fi == ti {
        return Err(MergesError::SameChunk { chunk: to_chunk.to_owned() });
    }
    let had_pre = text::vec_contains_str(&state.chunks[ti].files, file);
    let filtered = filter_out(&state.chunks[fi].files, file);
    let had_post = if ti == fi {
        text::vec_contains_str(&filtered, file)
    } else {
        had_pre
    };
    let ghost c1 = sv.chunks.update(
        fi as int,
        ChunkV { files: without_file(sv.chunks[fi as int].files, file@), ..sv.chunks[fi as int] },
    );
    proof {
        assert(had_post == text::contains_str(c1[ti as int].files, file@));
    }
    let mut new_chunks: Vec<Chunk> = Vec::new();
    let mut c: usize = 0;
    let mut filtered_opt = Some(filtered);
    while c < state.chunks.len()
        invariant
            c <= state.chunks.len(),
            sv == state@,
            fi < sv.chunks.len(),
            ti < sv.chunks.len(),
            new_chunks.deep_view().len() == c,
            c <= fi ==> (filtered_opt matches Some(e) && e.deep_view() == without_file(
                sv.chunks[fi as int].files,
                file@,
            )),
            had_post == text::contains_str(c1[ti as int].files, file@),
            c1 == sv.chunks.update(
                fi as int,
                ChunkV {
                    files: without_file(sv.chunks[fi as int].files, file@),
                    ..sv.chunks[fi as int]
                },
            ),
            forall|j: int|
                0 <= j < c ==> #[trigger] new_chunks.deep_view()[j] == (if j == ti && !had_post {
                    ChunkV { files: c1[j].files.push(file@), ..c1[j] }
                } else {
                    c1[j]
                }),
        decreases state.chunks.len() - c,
    {
        let ghost old_n = new_chunks.deep_view();
        let mut base: Vec<String> = if c == fi {
            filtered_opt.take().unwrap()
        } else {
            text::clone_string_vec(&state.chunks[c].files)
        };
        proof {
            assert(state.chunks@[c as int]@.files == sv.chunks[c as int].files);
            assert(base.deep_view() == c1[c as int].files);
        }
        if c == ti && !had_post {
            let ghost old_b = base.deep_view();
            base.push(file.to_owned());
            proof {
                assert(base.deep_view() =~= old_b.push(file@));
            }
        }
        new_chunks.push(state.chunks[c].with_files(base));
        proof {
            assert(new_chunks.deep_view() =~= old_n.push(new_chunks.deep_view()[c as int]));
        }
        c += 1;
    }
    let new_state = MergesState {
        base_branch: state.base_branch.clone(),
        source_branch: state.source_branch.clone(),
        repo_owner: state.repo_owner.clone(),
        repo_name: state.repo_name.clone(),
        strategy: state.strategy,
        use_worktrees: state.use_worktrees,
        chunks: new_chunks,
    };
    proof {
        assert(new_state@.chunks =~= moved_chunks(sv.chunks, fi as int, ti as int, file@));
    }
    let mut actions: Vec<GitAction> = Vec::new();
    actions.push(GitAction::Checkout { branch: state.chunks[fi].branch.clone() });
    actions.push(GitAction::RemoveFileFromTip { dir: WorkDir::Root, file: file.to_owned() });
    if !had_pre {
        actions.push(GitAction::Checkout { branch: state.chunks[ti].branch.clone() });
        let single: Vec<String> = vec![file.to_owned()];
        proof {
            assert(single.deep_view() =~= seq![file@]);
        }
        actions.push(
            GitAction::CopyFiles {
                dir: WorkDir::Root,
                source: state.source_branch.clone(),
                files: single,
            },
        );
        actions.push(GitAction::Amend { dir: WorkDir::Root });
    }
    actions.push(GitAction::Checkout { branch: state.source_branch.clone() });
    proof {
        assert(actions.deep_view() =~= move_actions(sv, fi as int, ti as int, file@));
    }
    Ok(MutationScript { actions, new_state })
}

} // verus!
