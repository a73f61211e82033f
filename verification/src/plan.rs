//! The plan materializer. Validation happens up front and completely: a plan
//! is accepted if and only if it is non-empty, every file it names is in the
//! live diff, and no file is named twice or already owned by a chunk. An
//! accepted plan is turned into the exact sequence of repository actions that
//! creates one branch (or worktree) per chunk from the merge-base, copies in
//! exactly that chunk's files and commits them; the rollback sequence for a
//! partially executed script deletes precisely what the prefix created.

use vstd::prelude::*;
use vstd::string::StringExecFns;

use crate::action::ActionV;
use crate::action::GitAction;
use crate::action::WorkDir;
use crate::action::WorkDirV;
use crate::error::ErrorV;
use crate::error::MergesError;
use crate::group::ChunkPlan;
use crate::group::ChunkPlanV;
use crate::names;
use crate::state::Chunk;
use crate::state::ChunkV;
use crate::state::MergesState;
use crate::state::StateV;
use crate::state::file_assigned;
use crate::text;

verus! {

/// The ordinal of the `i`-th planned chunk, counting existing chunks first.
pub open spec fn chunk_ordinal(state: StateV, i: int) -> nat
    recommends
        0 <= i,
        state.chunks.len() + i + 1 <= usize::MAX,
{
    (state.chunks.len() + i + 1) as nat
}

/// The branch the `i`-th planned chunk materialises as.
pub open spec fn planned_branch(state: StateV, plan: Seq<ChunkPlanV>, i: int) -> Seq<char> {
    names::chunk_branch_spec(state.source_branch, chunk_ordinal(state, i), plan[i].name)
}

/// The given sequences joined with a newline between neighbours.
pub open spec fn join_nl(files: Seq<Seq<char>>) -> Seq<char>
    decreases files.len(),
{
    if files.len() == 0 {
        Seq::empty()
    } else if files.len() == 1 {
        files[0]
    } else {
        join_nl(files.drop_last()) + "\n"@ + files.last()
    }
}

/// The body of the commit message for the `i`-th planned chunk, naming the
/// chunk and listing its files.
pub open spec fn chunk_message_body(state: StateV, plan: Seq<ChunkPlanV>, i: int) -> Seq<char> {
    "feat("@ + names::slug_of(plan[i].name) + "): chunk "@ + text::dec_rep(chunk_ordinal(state, i))
        + " - "@ + plan[i].name + "\n\nFiles:\n"@ + join_nl(plan[i].files)
}

/// The full, ticket-prefixed commit message for the `i`-th planned chunk.
pub open spec fn chunk_message(state: StateV, plan: Seq<ChunkPlanV>, i: int) -> Seq<char> {
    names::with_ticket(state.source_branch, chunk_message_body(state, plan, i))
}

/// The actions materialising the `i`-th planned chunk: branch or worktree
/// from the merge-base, file copy from the source branch, commit; in
/// shared-tree mode, a return to the source branch.
pub open spec fn actions_for_chunk(
    state: StateV,
    plan: Seq<ChunkPlanV>,
    base_ref: Seq<char>,
    i: int,
) -> Seq<ActionV> {
    let b = planned_branch(state, plan, i);
    let msg = chunk_message(state, plan, i);
    if state.use_worktrees {
        seq![
            ActionV::AddWorktree { branch: b, base_ref },
            ActionV::CopyFiles {
                dir: WorkDirV::Worktree { branch: b },
                source: state.source_branch,
                files: plan[i].files,
            },
            ActionV::Commit { dir: WorkDirV::Worktree { branch: b }, message: msg },
        ]
    } else {
        seq![
            ActionV::CreateBranch { branch: b, base_ref },
            ActionV::CopyFiles {
                dir: WorkDirV::Root,
                source: state.source_branch,
                files: plan[i].files,
            },
            ActionV::Commit { dir: WorkDirV::Root, message: msg },
            ActionV::Checkout { branch: state.source_branch },
        ]
    }
}

/// The actions for the first `n` plan entries, in order.
pub open spec fn plan_actions_upto(
    state: StateV,
    plan: Seq<ChunkPlanV>,
    base_ref: Seq<char>,
    n: int,
) -> Seq<ActionV>
    decreases n,
{
    if n <= 0 {
        Seq::empty()
    } else {
        plan_actions_upto(state, plan, base_ref, n - 1) + actions_for_chunk(
            state,
            plan,
            base_ref,
            n - 1,
        )
    }
}

/// The whole action script of a plan.
pub open spec fn plan_actions(state: StateV, plan: Seq<ChunkPlanV>, base_ref: Seq<char>) -> Seq<
    ActionV,
> {
    plan_actions_upto(state, plan, base_ref, plan.len() as int)
}

/// The chunk record appended to the state for the `i`-th plan entry.
pub open spec fn planned_chunk(state: StateV, plan: Seq<ChunkPlanV>, i: int) -> ChunkV {
    ChunkV {
        name: plan[i].name,
        branch: planned_branch(state, plan, i),
        files: plan[i].files,
        pr_number: None,
        pr_url: None,
    }
}

/// Branches planned for distinct entries never collide: their ordinals
/// differ.
pub proof fn lemma_planned_branches_distinct(state: StateV, plan: Seq<ChunkPlanV>)
    ensures
        forall|i: int, j: int|
            #![trigger planned_branch(state, plan, i), planned_branch(state, plan, j)]
            0 <= i < plan.len() && 0 <= j < plan.len() && i != j ==> planned_branch(state, plan, i)
                != planned_branch(state, plan, j),
{
    assert forall|i: int, j: int|
        #![trigger planned_branch(state, plan, i), planned_branch(state, plan, j)]
        0 <= i < plan.len() && 0 <= j < plan.len() && i != j implies planned_branch(state, plan, i)
        != planned_branch(state, plan, j) by {
        assert(chunk_ordinal(state, i) != chunk_ordinal(state, j));
        names::lemma_chunk_branch_distinct(
            state.source_branch,
            chunk_ordinal(state, i),
            plan[i].name,
            chunk_ordinal(state, j),
            plan[j].name,
        );
    }
}

/// Position `(j, l)` is a plan position strictly before `(i, k)` in the
/// file-by-file validation order.
pub open spec fn pos_before(plan: Seq<ChunkPlanV>, j: int, l: int, i: int, k: int) -> bool {
    0 <= j < plan.len() && 0 <= l < plan[j].files.len() && (j < i || (j == i && l < k))
}

/// `x` occurs in the plan strictly before position `(i, k)`.
pub open spec fn in_plan_before(
    plan: Seq<ChunkPlanV>,
    i: int,
    k: int,
    x: Seq<char>,
) -> bool {
    exists|j: int, l: int| #[trigger] pos_before(plan, j, l, i, k) && plan[j].files[l] == x
}

/// `x` occurs somewhere in the plan.
pub open spec fn in_plan(plan: Seq<ChunkPlanV>, x: Seq<char>) -> bool {
    exists|j: int, l: int|
        #![trigger plan[j].files[l]]
        0 <= j < plan.len() && 0 <= l < plan[j].files.len() && plan[j].files[l] == x
}

/// `x` occurs at two distinct plan positions.
pub open spec fn plan_duplicates(plan: Seq<ChunkPlanV>, x: Seq<char>) -> bool {
    exists|j1: int, l1: int, j2: int, l2: int|
        #![trigger plan[j1].files[l1], plan[j2].files[l2]]
        0 <= j1 < plan.len() && 0 <= l1 < plan[j1].files.len() && 0 <= j2 < plan.len() && 0 <= l2
            < plan[j2].files.len() && (j1 != j2 || l1 != l2) && plan[j1].files[l1] == x
            && plan[j2].files[l2] == x
}

/// A plan is accepted if and only if: it names at least one chunk, every
/// file is in the live diff, no file occurs twice within the plan, and no
/// file is already owned by an existing chunk.
pub open spec fn plan_valid(state: StateV, plan: Seq<ChunkPlanV>, changed: Seq<Seq<char>>) -> bool {
    &&& plan.len() > 0
    &&& forall|j: int, l: int|
        #![trigger plan[j].files[l]]
        0 <= j < plan.len() && 0 <= l < plan[j].files.len() ==> text::contains_str(
            changed,
            plan[j].files[l],
        )
    &&& forall|j1: int, l1: int, j2: int, l2: int|
        #![trigger plan[j1].files[l1], plan[j2].files[l2]]
        0 <= j1 < plan.len() && 0 <= l1 < plan[j1].files.len() && 0 <= j2 < plan.len() && 0 <= l2
            < plan[j2].files.len() && (j1 != j2 || l1 != l2) ==> plan[j1].files[l1]
            != plan[j2].files[l2]
    &&& forall|j: int, l: int|
        #![trigger plan[j].files[l]]
        0 <= j < plan.len() && 0 <= l < plan[j].files.len() ==> !file_assigned(
            state.chunks,
            plan[j].files[l],
        )
}

/// A validated plan turned into data: the chunk records to append on
/// success, and the action script to run.
#[derive(Debug)]
pub struct PlanScript {
    pub new_chunks: Vec<Chunk>,
    pub actions: Vec<GitAction>,
}

/// Whether some file of `chunks` equals `f`.
fn state_contains_file(state: &MergesState, f: &str) -> (r: bool)
    ensures
        r == file_assigned(state@.chunks, f@),
{
    let mut i: usize = 0;
    while i < state.chunks.len()
        invariant
            i <= state.chunks.len(),
            forall|j: int, k: int|
                #![trigger state@.chunks[j].files[k]]
                0 <= j < i && 0 <= k < state@.chunks[j].files.len() ==> state@.chunks[j].files[k]
                    != f@,
        decreases state.chunks.len() - i,
    {
        proof {
            assert(state@.chunks[i as int].files == state.chunks@[i as int]@.files);
        }
        if text::vec_contains_str(&state.chunks[i].files, f) {
            proof {
                let k = choose|k: int|
                    0 <= k < state.chunks@[i as int]@.files.len() && state.chunks@[
                        i as int
                    ]@.files[k] == f@;
                assert(state@.chunks[i as int].files[k] == f@);
            }
            return true;
        }
        i += 1;
    }
    proof {
        if file_assigned(state@.chunks, f@) {
            let (j, k) = choose|j: int, k: int|
                0 <= j < state@.chunks.len() && 0 <= k < state@.chunks[j].files.len()
                    && state@.chunks[j].files[k] == f@;
            assert(state@.chunks[j].files[k] != f@);
        }
    }
    false
}

/// The elements of `files` joined with a newline between neighbours.
fn join_files(files: &Vec<String>) -> (r: String)
    ensures
        r@ == join_nl(files.deep_view()),
{
    let ghost dv = files.deep_view();
    if files.len() == 0 {
        return String::new();
    }
    let mut r = files[0].clone();
    let mut i: usize = 1;
    proof {
        assert(dv.take(1).len() == 1);
        assert(dv.take(1)[0] == dv[0]);
        assert(r@ == join_nl(dv.take(1)));
    }
    while i < files.len()
        invariant
            1 <= i <= files.len(),
            dv == files.deep_view(),
            r@ == join_nl(dv.take(i as int)),
        decreases files.len() - i,
    {
        proof {
            assert(dv.take(i + 1).drop_last() =~= dv.take(i as int));
            assert(dv.take(i + 1).last() == dv[i as int]);
        }
        r.append("\n");
        r.append(files[i].as_str());
        i += 1;
    }
    proof {
        assert(dv.take(files.len() as int) =~= dv);
    }
    r
}

/// Validate `plan` against the live diff and the current state, and, when it
/// is acceptable, produce the chunk records and the action script.
///
/// The result is `Ok` exactly when the plan is valid; each error names an
/// offending file, and comes only with a genuine cause.
#[verifier::rlimit(80)]
pub fn apply_plan(
    state: &MergesState,
    plan: &Vec<ChunkPlan>,
    changed: &Vec<String>,
    base_ref: &str,
) -> (r: Result<PlanScript, MergesError>)
    requires
        state@.chunks.len() + plan@.len() + 1 <= usize::MAX,
    ensures
        r is Ok <==> plan_valid(state@, plan.deep_view(), changed.deep_view()),
        match r {
            Ok(s) => {
                &&& s.new_chunks.deep_view().len() == plan@.len()
                &&& forall|t: int|
                    0 <= t < plan@.len() ==> s.new_chunks.deep_view()[t] == planned_chunk(
                        state@,
                        plan.deep_view(),
                        t,
                    )
                &&& s.actions.deep_view() == plan_actions(state@, plan.deep_view(), base_ref@)
            },
            Err(e) => match e@ {
                ErrorV::EmptyPlan => plan@.len() == 0,
                ErrorV::FileNotInDiff { file } => in_plan(plan.deep_view(), file)
                    && !text::contains_str(changed.deep_view(), file),
                ErrorV::DuplicateFile { file } => plan_duplicates(plan.deep_view(), file) || (
                in_plan(plan.deep_view(), file) && file_assigned(state@.chunks, file)),
                _ => false,
            },
        },
{
    let ghost sv = state@;
    let ghost planv = plan.deep_view();
    let ghost chv = changed.deep_view();
    if plan.len() == 0 {
        return Err(MergesError::EmptyPlan);
    }
    let mut seen: Vec<String> = Vec::new();
    let mut i: usize = 0;
    while i < plan.len()
        invariant
            i <= plan.len(),
            planv == plan.deep_view(),
            chv == changed.deep_view(),
            sv == state@,
            forall|j: int, l: int|
                #[trigger] pos_before(planv, j, l, i as int, 0) ==> text::contains_str(
                    seen.deep_view(),
                    planv[j].files[l],
                ),
            forall|t: int|
                0 <= t < seen.deep_view().len() ==> in_plan_before(
                    planv,
                    i as int,
                    0,
                    #[trigger] seen.deep_view()[t],
                ),
            forall|j: int, l: int|
                #[trigger] pos_before(planv, j, l, i as int, 0) ==> text::contains_str(
                    chv,
                    planv[j].files[l],
                ) && !file_assigned(sv.chunks, planv[j].files[l]),
            forall|j1: int, l1: int, j2: int, l2: int|
                #[trigger] pos_before(planv, j1, l1, i as int, 0) && #[trigger] pos_before(
                    planv,
                    j2,
                    l2,
                    i as int,
                    0,
                ) && (j1 != j2 || l1 != l2) ==> planv[j1].files[l1] != planv[j2].files[l2],
        decreases plan.len() - i,
    {
        let files_len = plan[i].files.len();
        let mut k: usize = 0;
        while k < files_len
            invariant
                i < plan.len(),
                k <= files_len,
                files_len == planv[i as int].files.len(),
                planv == plan.deep_view(),
                chv == changed.deep_view(),
                sv == state@,
                forall|j: int, l: int|
                    #[trigger] pos_before(planv, j, l, i as int, k as int) ==> text::contains_str(
                        seen.deep_view(),
                        planv[j].files[l],
                    ),
                forall|t: int|
                    0 <= t < seen.deep_view().len() ==> in_plan_before(
                        planv,
                        i as int,
                        k as int,
                        #[trigger] seen.deep_view()[t],
                    ),
                forall|j: int, l: int|
                    #[trigger] pos_before(planv, j, l, i as int, k as int) ==> text::contains_str(
                        chv,
                        planv[j].files[l],
                    ) && !file_assigned(sv.chunks, planv[j].files[l]),
                forall|j1: int, l1: int, j2: int, l2: int|
                    #[trigger] pos_before(planv, j1, l1, i as int, k as int) && #[trigger] pos_before(
                        planv,
                        j2,
                        l2,
                        i as int,
                        k as int,
                    ) && (j1 != j2 || l1 != l2) ==> planv[j1].files[l1] != planv[j2].files[l2],
            decreases files_len - k,
        {
            let f = &plan[i].files[k];
            proof {
                assert(f@ == planv[i as int].files[k as int]);
                assert(pos_before(planv, i as int, k as int, i as int, k as int + 1));
            }
            if !text::vec_contains_str(changed, f.as_str()) {
                proof {
                    assert(0 <= i < planv.len() && 0 <= k < planv[i as int].files.len()
                        && planv[i as int].files[k as int] == f@);
                }
                return Err(MergesError::FileNotInDiff { file: f.clone() });
            }
            if text::vec_contains_str(&seen, f.as_str()) {
                proof {
                    let t = choose|t: int|
                        0 <= t < seen.deep_view().len() && seen.deep_view()[t] == f@;
                    assert(in_plan_before(planv, i as int, k as int, f@));
                    let (j, l) = choose|j: int, l: int|
                        #[trigger] pos_before(planv, j, l, i as int, k as int) && planv[j].files[l]
                            == f@;
                    assert(plan_duplicates(planv, f@)) by {
                        assert(planv[j].files[l] == f@ && planv[i as int].files[k as int] == f@);
                        assert(j != i as int || l != k as int);
                    }
                    assert(!plan_valid(sv, planv, chv)) by {
                        if plan_valid(sv, planv, chv) {
                            assert(planv[j].files[l] != planv[i as int].files[k as int]);
                        }
                    }
                }
                return Err(MergesError::DuplicateFile { file: f.clone() });
            }
            if state_contains_file(state, f.as_str()) {
                proof {
                    assert(!plan_valid(sv, planv, chv)) by {
                        if plan_valid(sv, planv, chv) {
                            assert(!file_assigned(sv.chunks, planv[i as int].files[k as int]));
                        }
                    }
                }
                return Err(MergesError::DuplicateFile { file: f.clone() });
            }
            let ghost old_seen = seen.deep_view();
            seen.push(f.clone());
            proof {
                assert(seen.deep_view() =~= old_seen.push(f@));
                assert forall|j: int, l: int|
                    #[trigger] pos_before(planv, j, l, i as int, k as int + 1) implies
                    text::contains_str(seen.deep_view(), planv[j].files[l]) by {
                    if pos_before(planv, j, l, i as int, k as int) {
                        let t = choose|t: int|
                            0 <= t < old_seen.len() && old_seen[t] == planv[j].files[l];
                        assert(seen.deep_view()[t] == planv[j].files[l]);
                    } else {
                        assert(j == i as int && l == k as int);
                        assert(seen.deep_view()[old_seen.len() as int] == planv[j].files[l]);
                    }
                }
                assert forall|t: int| 0 <= t < seen.deep_view().len() implies in_plan_before(
                    planv,
                    i as int,
                    k as int + 1,
                    #[trigger] seen.deep_view()[t],
                ) by {
                    if t < old_seen.len() {
                        let (j, l) = choose|j: int, l: int|
                            #[trigger] pos_before(planv, j, l, i as int, k as int) && planv[
                                j
                            ].files[l] == old_seen[t];
                        assert(pos_before(planv, j, l, i as int, k as int + 1));
                    } else {
                        assert(pos_before(planv, i as int, k as int, i as int, k as int + 1));
                    }
                }
                assert forall|j1: int, l1: int, j2: int, l2: int|
                    #[trigger] pos_before(planv, j1, l1, i as int, k as int + 1)
                        && #[trigger] pos_before(planv, j2, l2, i as int, k as int + 1) && (j1 != j2
                        || l1 != l2) implies planv[j1].files[l1] != planv[j2].files[l2] by {
                    if pos_before(planv, j1, l1, i as int, k as int) && !pos_before(
                        planv,
                        j2,
                        l2,
                        i as int,
                        k as int,
                    ) {
                        assert(text::contains_str(old_seen, planv[j1].files[l1]));
                    }
                    if pos_before(planv, j2, l2, i as int, k as int) && !pos_before(
                        planv,
                        j1,
                        l1,
                        i as int,
                        k as int,
                    ) {
                        assert(text::contains_str(old_seen, planv[j2].files[l2]));
                    }
                }
            }
            k += 1;
        }
        proof {
            assert forall|j: int, l: int| #[trigger] pos_before(
                planv,
                j,
                l,
                i as int + 1,
                0,
            ) implies pos_before(planv, j, l, i as int, files_len as int) by {}
            assert forall|t: int| 0 <= t < seen.deep_view().len() implies in_plan_before(
                planv,
                i as int + 1,
                0,
                #[trigger] seen.deep_view()[t],
            ) by {
                let (j, l) = choose|j: int, l: int|
                    #[trigger] pos_before(planv, j, l, i as int, files_len as int) && planv[
                        j
                    ].files[l] == seen.deep_view()[t];
                assert(pos_before(planv, j, l, i as int + 1, 0));
            }
        }
        i += 1;
    }
    proof {
        assert(plan_valid(sv, planv, chv)) by {
            assert forall|j: int, l: int|
                #![trigger planv[j].files[l]]
                0 <= j < planv.len() && 0 <= l < planv[j].files.len() implies pos_before(
                planv,
                j,
                l,
                planv.len() as int,
                0,
            ) by {}
        }
    }
    let mut actions: Vec<GitAction> = Vec::new();
    let mut new_chunks: Vec<Chunk> = Vec::new();
    let mut i2: usize = 0;
    let ghost brv = base_ref@;
    proof {
        assert(actions.deep_view() =~= plan_actions_upto(sv, planv, brv, 0));
        assert(new_chunks.deep_view() =~= Seq::<ChunkV>::empty());
    }
    while i2 < plan.len()
        invariant
            i2 <= plan.len(),
            planv == plan.deep_view(),
            sv == state@,
            brv == base_ref@,
            state@.chunks.len() + plan@.len() + 1 <= usize::MAX,
            actions.deep_view() == plan_actions_upto(sv, planv, brv, i2 as int),
            new_chunks.deep_view().len() == i2,
            forall|t: int|
                0 <= t < i2 ==> #[trigger] new_chunks.deep_view()[t] == planned_chunk(
                    sv,
                    planv,
                    t,
                ),
        decreases plan.len() - i2,
    {
        let n: usize = state.chunks.len() + i2 + 1;
        let branch = names::chunk_branch_name(
            state.source_branch.as_str(),
            n as u64,
            plan[i2].name.as_str(),
        );
        proof {
            assert(n as nat == chunk_ordinal(sv, i2 as int));
            assert(branch@ == planned_branch(sv, planv, i2 as int));
        }
        let mut body = String::from_str("feat(");
        let sl = names::slug(plan[i2].name.as_str());
        body.append(sl.as_str());
        body.append("): chunk ");
        let nd = text::u64_to_dec(n as u64);
        body.append(nd.as_str());
        body.append(" - ");
        body.append(plan[i2].name.as_str());
        body.append("\n\nFiles:\n");
        let joined = join_files(&plan[i2].files);
        body.append(joined.as_str());
        proof {
            assert(body@ == chunk_message_body(sv, planv, i2 as int));
        }
        let msg = names::commit_message(state.source_branch.as_str(), body.as_str());
        let ghost old_actions = actions.deep_view();
        if state.use_worktrees {
            actions.push(
                GitAction::AddWorktree { branch: branch.clone(), base_ref: base_ref.to_owned() },
            );
            actions.push(
                GitAction::CopyFiles {
                    dir: WorkDir::Worktree { branch: branch.clone() },
                    source: state.source_branch.clone(),
                    files: text::clone_string_vec(&plan[i2].files),
                },
            );
            actions.push(
                GitAction::Commit { dir: WorkDir::Worktree { branch: branch.clone() }, message: msg },
            );
        } else {
            actions.push(
                GitAction::CreateBranch { branch: branch.clone(), base_ref: base_ref.to_owned() },
            );
            actions.push(
                GitAction::CopyFiles {
                    dir: WorkDir::Root,
                    source: state.source_branch.clone(),
                    files: text::clone_string_vec(&plan[i2].files),
                },
            );
            actions.push(GitAction::Commit { dir: WorkDir::Root, message: msg });
            actions.push(GitAction::Checkout { branch: state.source_branch.clone() });
        }
        proof {
            assert(actions.deep_view() =~= old_actions + actions_for_chunk(
                sv,
                planv,
                brv,
                i2 as int,
            ));
        }
        let ghost old_chunks = new_chunks.deep_view();
        new_chunks.push(
            Chunk {
                name: plan[i2].name.clone(),
                branch,
                files: text::clone_string_vec(&plan[i2].files),
                pr_number: None,
                pr_url: None,
            },
        );
        proof {
            assert(new_chunks.deep_view() =~= old_chunks.push(planned_chunk(sv, planv, i2 as int)));
        }
        i2 += 1;
    }
    proof {
        assert(actions.deep_view() == plan_actions(sv, planv, brv));
    }
    Ok(PlanScript { new_chunks, actions })
}

/// The branches that the `CreateBranch`/`AddWorktree` actions of `acts`
/// created, in order.
pub open spec fn created_spec(acts: Seq<ActionV>) -> Seq<Seq<char>>
    decreases acts.len(),
{
    if acts.len() == 0 {
        Seq::empty()
    } else {
        created_spec(acts.drop_last()) + (match acts.last() {
            ActionV::CreateBranch { branch, .. } => seq![branch],
            ActionV::AddWorktree { branch, .. } => seq![branch],
            _ => Seq::empty(),
        })
    }
}

/// The branches created by the first `k` actions of a script: what a
/// rollback after a failure at action `k` must remove.
pub fn created_in_prefix(actions: &Vec<GitAction>, k: usize) -> (r: Vec<String>)
    requires
        k <= actions@.len(),
    ensures
        r.deep_view() == created_spec(actions.deep_view().take(k as int)),
{
    let ghost av = actions.deep_view();
    let mut r: Vec<String> = Vec::new();
    let mut t: usize = 0;
    proof {
        assert(av.take(0) =~= Seq::<ActionV>::empty());
        assert(r.deep_view() =~= created_spec(av.take(0)));
    }
    while t < k
        invariant
            t <= k,
            k <= actions@.len(),
            av == actions.deep_view(),
            r.deep_view() == created_spec(av.take(t as int)),
        decreases k - t,
    {
        proof {
            assert(av.take(t + 1).drop_last() =~= av.take(t as int));
            assert(av.take(t + 1).last() == av[t as int]);
        }
        let ghost old_r = r.deep_view();
        match &actions[t] {
            GitAction::CreateBranch { branch, .. } => {
                r.push(branch.clone());
                proof {
                    assert(r.deep_view() =~= old_r.push(branch@));
                    assert(old_r.push(branch@) =~= old_r + seq![branch@]);
                }
            },
            GitAction::AddWorktree { branch, .. } => {
                r.push(branch.clone());
                proof {
                    assert(r.deep_view() =~= old_r.push(branch@));
                    assert(old_r.push(branch@) =~= old_r + seq![branch@]);
                }
            },
            _ => {
                proof {
                    assert(created_spec(av.take(t + 1)) =~= old_r);
                }
            },
        }
        t += 1;
    }
    r
}

/// The rollback actions for the branches in `created`, in creation order:
/// worktree removal (in worktree mode) then forced branch deletion.
pub open spec fn rollback_for(created: Seq<Seq<char>>, use_worktrees: bool, n: int) -> Seq<ActionV>
    decreases n,
{
    if n <= 0 {
        Seq::empty()
    } else {
        rollback_for(created, use_worktrees, n - 1) + (if use_worktrees {
            seq![
                ActionV::RemoveWorktree { branch: created[n - 1] },
                ActionV::DeleteBranch { branch: created[n - 1] },
            ]
        } else {
            seq![ActionV::DeleteBranch { branch: created[n - 1] }]
        })
    }
}

/// The whole rollback script: in shared-tree mode first a return to the
/// source branch, then the removal of every created branch.
pub open spec fn rollback_actions(
    created: Seq<Seq<char>>,
    use_worktrees: bool,
    source: Seq<char>,
) -> Seq<ActionV> {
    (if !use_worktrees {
        seq![ActionV::Checkout { branch: source }]
    } else {
        Seq::empty()
    }) + rollback_for(created, use_worktrees, created.len() as int)
}

/// Undo a partially executed plan script: every branch and worktree in
/// `created` is removed, and in shared-tree mode the source branch is
/// restored first. Cleanup is best effort; the caller reports the original
/// error regardless.
pub fn rollback_plan(created: &Vec<String>, use_worktrees: bool, source_branch: &str) -> (r: Vec<
    GitAction,
>)
    ensures
        r.deep_view() == rollback_actions(created.deep_view(), use_worktrees, source_branch@),
{
    let ghost cv = created.deep_view();
    let mut r: Vec<GitAction> = Vec::new();
    if !use_worktrees {
        r.push(GitAction::Checkout { branch: source_branch.to_owned() });
    }
    let ghost pre = r.deep_view();
    proof {
        assert(r.deep_view() =~= pre + rollback_for(cv, use_worktrees, 0));
    }
    let mut t: usize = 0;
    while t < created.len()
        invariant
            t <= created.len(),
            cv == created.deep_view(),
            r.deep_view() == pre + rollback_for(cv, use_worktrees, t as int),
            pre == (if !use_worktrees {
                seq![ActionV::Checkout { branch: source_branch@ }]
            } else {
                Seq::<ActionV>::empty()
            }),
        decreases created.len() - t,
    {
        let ghost old_r = r.deep_view();
        if use_worktrees {
            r.push(GitAction::RemoveWorktree { branch: created[t].clone() });
            r.push(GitAction::DeleteBranch { branch: created[t].clone() });
            proof {
                assert(r.deep_view() =~= old_r + seq![
                    ActionV::RemoveWorktree { branch: cv[t as int] },
                    ActionV::DeleteBranch { branch: cv[t as int] },
                ]);
            }
        } else {
            r.push(GitAction::DeleteBranch { branch: created[t].clone() });
            proof {
                assert(r.deep_view() =~= old_r + seq![
                    ActionV::DeleteBranch { branch: cv[t as int] },
                ]);
            }
        }
        t += 1;
    }
    r
}

/// The state after a fully successful plan script: the new chunks appended,
/// everything else unchanged. On failure the caller keeps the old state
/// untouched instead.
pub fn commit_plan(state: &MergesState, new_chunks: Vec<Chunk>) -> (r: MergesState)
    ensures
        r@.base_branch == state@.base_branch,
        r@.source_branch == state@.source_branch,
        r@.repo_owner == state@.repo_owner,
        r@.repo_name == state@.repo_name,
        r@.strategy == state@.strategy,
        r@.use_worktrees == state@.use_worktrees,
        r@.chunks == state@.chunks + new_chunks.deep_view(),
{
    let ghost nv = new_chunks.deep_view();
    let mut chunks: Vec<Chunk> = Vec::new();
    let mut i: usize = 0;
    while i < state.chunks.len()
        invariant
            i <= state.chunks.len(),
            chunks.deep_view().len() == i,
            forall|t: int|
                0 <= t < i ==> #[trigger] chunks.deep_view()[t] == state@.chunks[t],
        decreases state.chunks.len() - i,
    {
        let ghost old_c = chunks.deep_view();
        chunks.push(state.chunks[i].duplicate());
        proof {
            assert(chunks.deep_view() =~= old_c.push(state@.chunks[i as int]));
        }
        i += 1;
    }
    let mut rest = new_chunks;
    let mut moved: usize = 0;
    let ghost total = nv.len();
    let initial_len = rest.len();
    proof {
        assert(rest.deep_view() =~= nv.skip(0));
        assert(total == initial_len as nat);
    }
    while rest.len() > 0
        invariant
            moved + rest.deep_view().len() == total,
            total == nv.len(),
            total <= usize::MAX,
            rest.deep_view() == nv.skip(moved as int),
            chunks.deep_view().len() == state@.chunks.len() + moved,
            forall|t: int|
                0 <= t < state@.chunks.len() ==> #[trigger] chunks.deep_view()[t]
                    == state@.chunks[t],
            forall|t: int|
                0 <= t < moved ==> #[trigger] chunks.deep_view()[state@.chunks.len() + t] == nv[t],
        decreases rest.len(),
    {
        let ghost old_c = chunks.deep_view();
        let ghost old_rest = rest.deep_view();
        let ghost old_restv = rest@;
        let c = rest.remove(0);
        proof {
            assert(old_rest[0] == old_restv[0].deep_view());
            assert(old_rest == nv.skip(moved as int));
            assert(nv.skip(moved as int)[0] == nv[moved as int]);
            assert(c@ == nv[moved as int]);
            assert forall|x: int| 0 <= x < rest.deep_view().len() implies rest.deep_view()[x]
                == nv.skip(moved + 1)[x] by {
                assert(rest@[x] == old_restv[x + 1]);
                assert(old_rest[x + 1] == old_restv[x + 1].deep_view());
            }
            assert(rest.deep_view() =~= nv.skip(moved + 1));
        }
        chunks.push(c);
        proof {
            assert(chunks.deep_view() =~= old_c.push(nv[moved as int]));
        }
        moved += 1;
    }
    proof {
        assert forall|x: int| 0 <= x < chunks.deep_view().len() implies chunks.deep_view()[x] == (
        state@.chunks + nv)[x] by {
            let base = state@.chunks.len() as int;
            if x >= base {
                assert(chunks.deep_view()[base + (x - base)] == nv[x - base]);
            }
        }
        assert(chunks.deep_view() =~= state@.chunks + nv);
    }
    let r = MergesState {
        base_branch: state.base_branch.clone(),
        source_branch: state.source_branch.clone(),
        repo_owner: state.repo_owner.clone(),
        repo_name: state.repo_name.clone(),
        strategy: state.strategy,
        use_worktrees: state.use_worktrees,
        chunks,
    };
    r
}

} // verus!
