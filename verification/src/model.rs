//! An abstract model of the repository, and the two transactional theorems
//! of the materializer proved against it. The model tracks, per branch, the
//! set of files whose content differs from the base branch (committed and
//! staged separately), which branches have worktrees, and which branch the
//! shared tree has checked out. A branch created at the merge-base differs
//! from base in nothing; a successful rebase preserves that difference, so
//! it leaves the model unchanged.
//!
//! The first theorem: on a repository consistent with the state, a valid
//! plan's whole action script runs through, and afterwards each planned
//! branch's difference against base is exactly its chunk's declared files,
//! with the shared tree back on the source branch. The second: whatever
//! prefix of the script ran, the rollback script for the branches that
//! prefix created runs through and leaves the very branches, worktrees and
//! checkout the repository started with.

use vstd::prelude::*;

use crate::action::ActionV;
use crate::action::WorkDirV;
use crate::group::ChunkPlanV;
use crate::mutate::move_actions;
use crate::plan::actions_for_chunk;
use crate::plan::created_spec;
use crate::plan::plan_actions;
use crate::plan::plan_actions_upto;
use crate::plan::plan_valid;
use crate::plan::planned_branch;
use crate::plan::rollback_actions;
use crate::plan::rollback_for;
use crate::state::StateV;
use crate::text;

verus! {

/// One branch: the files whose committed content differs from the base
/// branch, and the files staged in its working tree beyond that.
#[verifier::ext_equal]
pub struct BranchV {
    pub committed: Set<Seq<char>>,
    pub staged: Set<Seq<char>>,
}

/// The abstract repository.
#[verifier::ext_equal]
pub struct RepoV {
    pub branches: Map<Seq<char>, BranchV>,
    pub worktrees: Set<Seq<char>>,
    pub head: Seq<char>,
}

/// The set of members of `files`.
pub open spec fn files_set(files: Seq<Seq<char>>) -> Set<Seq<char>> {
    Set::new(|x: Seq<char>| text::contains_str(files, x))
}

/// The branch an action directed at `dir` works on.
pub open spec fn target_of(dir: WorkDirV, head: Seq<char>) -> Seq<char> {
    match dir {
        WorkDirV::Root => head,
        WorkDirV::Worktree { branch } => branch,
    }
}

/// The effect of one action on the model, `None` when it fails.
pub open spec fn step(r: RepoV, a: ActionV) -> Option<RepoV> {
    match a {
        ActionV::CreateBranch { branch, .. } => if r.branches.contains_key(branch) {
            None
        } else {
            Some(
                RepoV {
                    branches: r.branches.insert(
                        branch,
                        BranchV { committed: Set::empty(), staged: Set::empty() },
                    ),
                    head: branch,
                    ..r
                },
            )
        },
        ActionV::AddWorktree { branch, .. } => if r.branches.contains_key(branch) {
            None
        } else {
            Some(
                RepoV {
                    branches: r.branches.insert(
                        branch,
                        BranchV { committed: Set::empty(), staged: Set::empty() },
                    ),
                    worktrees: r.worktrees.insert(branch),
                    ..r
                },
            )
        },
        ActionV::CopyFiles { dir, source, files } => {
            let target = target_of(dir, r.head);
            if r.branches.contains_key(target) && r.branches.contains_key(source) && (forall|
                x: Seq<char>,
            |
                text::contains_str(files, x) ==> r.branches[source].committed.contains(x)) {
                Some(
                    RepoV {
                        branches: r.branches.insert(
                            target,
                            BranchV {
                                committed: r.branches[target].committed,
                                staged: r.branches[target].staged.union(files_set(files)),
                            },
                        ),
                        ..r
                    },
                )
            } else {
                None
            }
        },
        ActionV::Commit { dir, .. } => {
            let target = target_of(dir, r.head);
            if r.branches.contains_key(target) && r.branches[target].staged != Set::<
                Seq<char>,
            >::empty() {
                Some(
                    RepoV {
                        branches: r.branches.insert(
                            target,
                            BranchV {
                                committed: r.branches[target].committed.union(
                                    r.branches[target].staged,
                                ),
                                staged: Set::empty(),
                            },
                        ),
                        ..r
                    },
                )
            } else {
                None
            }
        },
        ActionV::Amend { dir } => {
            let target = target_of(dir, r.head);
            if r.branches.contains_key(target) {
                Some(
                    RepoV {
                        branches: r.branches.insert(
                            target,
                            BranchV {
                                committed: r.branches[target].committed.union(
                                    r.branches[target].staged,
                                ),
                                staged: Set::empty(),
                            },
                        ),
                        ..r
                    },
                )
            } else {
                None
            }
        },
        ActionV::RemoveFileFromTip { dir, file } => {
            let target = target_of(dir, r.head);
            if r.branches.contains_key(target) {
                Some(
                    RepoV {
                        branches: r.branches.insert(
                            target,
                            BranchV {
                                committed: r.branches[target].committed.remove(file),
                                staged: r.branches[target].staged,
                            },
                        ),
                        ..r
                    },
                )
            } else {
                None
            }
        },
        ActionV::Checkout { branch } => if r.branches.contains_key(branch) {
            Some(RepoV { head: branch, ..r })
        } else {
            None
        },
        ActionV::RemoveWorktree { branch } => Some(
            RepoV { worktrees: r.worktrees.remove(branch), ..r },
        ),
        ActionV::DeleteBranch { branch } => if !r.branches.contains_key(branch) || r.head == branch
            || r.worktrees.contains(branch) {
            None
        } else {
            Some(RepoV { branches: r.branches.remove(branch), ..r })
        },
        ActionV::FetchAndRebase { .. } => Some(r),
    }
}

/// Run a whole action sequence; `None` as soon as one action fails.
pub open spec fn run_actions(r: RepoV, acts: Seq<ActionV>) -> Option<RepoV>
    decreases acts.len(),
{
    if acts.len() == 0 {
        Some(r)
    } else {
        match step(r, acts[0]) {
            None => None,
            Some(r2) => run_actions(r2, acts.drop_first()),
        }
    }
}

/// Running a concatenation runs the parts in order.
pub proof fn lemma_run_split(r: RepoV, a: Seq<ActionV>, b: Seq<ActionV>)
    ensures
        run_actions(r, a + b) == (match run_actions(r, a) {
            None => None::<RepoV>,
            Some(r2) => run_actions(r2, b),
        }),
    decreases a.len(),
{
    if a.len() == 0 {
        assert(a + b =~= b);
    } else {
        assert((a + b)[0] == a[0]);
        match step(r, a[0]) {
            None => {},
            Some(r2) => {
                assert((a + b).drop_first() =~= a.drop_first() + b);
                lemma_run_split(r2, a.drop_first(), b);
            },
        }
    }
}

/// The repository is consistent with the state, and the planned branch
/// names are fresh and mutually distinct: what materialization starts from.
pub open spec fn ready_for_plan(
    state: StateV,
    plan: Seq<ChunkPlanV>,
    changed: Seq<Seq<char>>,
    r0: RepoV,
) -> bool {
    &&& r0.branches.contains_key(state.source_branch)
    &&& r0.head == state.source_branch
    &&& forall|x: Seq<char>|
        text::contains_str(changed, x) ==> r0.branches[state.source_branch].committed.contains(x)
    &&& forall|i: int|
        0 <= i < plan.len() ==> !r0.branches.contains_key(
            #[trigger] planned_branch(state, plan, i),
        )
    &&& forall|i: int|
        0 <= i < plan.len() ==> !r0.worktrees.contains(#[trigger] planned_branch(state, plan, i))
}

/// The repository after the first `n` chunks have materialized: each new
/// branch committed with exactly its chunk's files, a worktree per branch in
/// worktree mode, and the shared tree on the source branch.
pub open spec fn repo_after(state: StateV, plan: Seq<ChunkPlanV>, r0: RepoV, n: int) -> RepoV
    decreases n,
{
    if n <= 0 {
        r0
    } else {
        let prev = repo_after(state, plan, r0, n - 1);
        let b = planned_branch(state, plan, n - 1);
        RepoV {
            branches: prev.branches.insert(
                b,
                BranchV { committed: files_set(plan[n - 1].files), staged: Set::empty() },
            ),
            worktrees: if state.use_worktrees {
                prev.worktrees.insert(b)
            } else {
                prev.worktrees
            },
            head: state.source_branch,
        }
    }
}

/// Which keys `repo_after` holds, and that old entries keep their value.
proof fn lemma_repo_after_keys(
    state: StateV,
    plan: Seq<ChunkPlanV>,
    changed: Seq<Seq<char>>,
    r0: RepoV,
    n: int,
)
    requires
        ready_for_plan(state, plan, changed, r0),
        0 <= n <= plan.len(),
    ensures
        forall|b: Seq<char>|
            #[trigger] repo_after(state, plan, r0, n).branches.contains_key(b) <==> (
            r0.branches.contains_key(b) || exists|i: int|
                0 <= i < n && b == #[trigger] planned_branch(state, plan, i)),
        forall|b: Seq<char>|
            r0.branches.contains_key(b) ==> #[trigger] repo_after(
                state,
                plan,
                r0,
                n,
            ).branches.contains_key(b) && repo_after(state, plan, r0, n).branches[b]
                == r0.branches[b],
        forall|i: int|
            0 <= i < n ==> repo_after(state, plan, r0, n).branches.contains_key(
                #[trigger] planned_branch(state, plan, i),
            ) && repo_after(state, plan, r0, n).branches[planned_branch(state, plan, i)] == (
            BranchV { committed: files_set(plan[i].files), staged: Set::empty() }),
        n > 0 ==> repo_after(state, plan, r0, n).head == state.source_branch,
        forall|b: Seq<char>|
            #[trigger] repo_after(state, plan, r0, n).worktrees.contains(b) <==> (
            r0.worktrees.contains(b) || (state.use_worktrees && exists|i: int|
                0 <= i < n && b == #[trigger] planned_branch(state, plan, i))),
    decreases n,
{
    crate::plan::lemma_planned_branches_distinct(state, plan);
    if n > 0 {
        lemma_repo_after_keys(state, plan, changed, r0, n - 1);
        let prev = repo_after(state, plan, r0, n - 1);
        let cur = repo_after(state, plan, r0, n);
        let bn = planned_branch(state, plan, n - 1);
        assert forall|b: Seq<char>| #[trigger] cur.branches.contains_key(b) implies (
        r0.branches.contains_key(b) || exists|i: int|
            0 <= i < n && b == #[trigger] planned_branch(state, plan, i)) by {
            if b == bn {
                assert(b == planned_branch(state, plan, n - 1));
            } else {
                assert(prev.branches.contains_key(b));
                if !r0.branches.contains_key(b) {
                    let i = choose|i: int|
                        0 <= i < n - 1 && b == #[trigger] planned_branch(state, plan, i);
                    assert(b == planned_branch(state, plan, i));
                }
            }
        }
        assert forall|b: Seq<char>|
            (r0.branches.contains_key(b) || exists|i: int|
                0 <= i < n && b == #[trigger] planned_branch(state, plan, i)) implies #[trigger] cur.branches.contains_key(
            b,
        ) by {
            if r0.branches.contains_key(b) {
                assert(prev.branches.contains_key(b));
            } else {
                let i = choose|i: int|
                    0 <= i < n && b == #[trigger] planned_branch(state, plan, i);
                if i < n - 1 {
                    assert(prev.branches.contains_key(planned_branch(state, plan, i)));
                }
            }
        }
        assert forall|b: Seq<char>| r0.branches.contains_key(b) implies #[trigger] cur.branches.contains_key(
            b,
        ) && cur.branches[b] == r0.branches[b] by {
            assert(b != bn);
        }
        assert forall|i: int| 0 <= i < n implies cur.branches.contains_key(
            #[trigger] planned_branch(state, plan, i),
        ) && cur.branches[planned_branch(state, plan, i)] == (BranchV {
            committed: files_set(plan[i].files),
            staged: Set::empty(),
        }) by {
            if i < n - 1 {
                assert(planned_branch(state, plan, i) != bn);
            }
        }
        assert forall|b: Seq<char>| #[trigger] cur.worktrees.contains(b) implies (
        r0.worktrees.contains(b) || (state.use_worktrees && exists|i: int|
            0 <= i < n && b == #[trigger] planned_branch(state, plan, i))) by {
            if state.use_worktrees && b == bn {
                assert(b == planned_branch(state, plan, n - 1));
            } else {
                assert(prev.worktrees.contains(b));
                if !r0.worktrees.contains(b) {
                    let i = choose|i: int|
                        0 <= i < n - 1 && b == #[trigger] planned_branch(state, plan, i);
                    assert(b == planned_branch(state, plan, i));
                }
            }
        }
        assert forall|b: Seq<char>|
            (r0.worktrees.contains(b) || (state.use_worktrees && exists|i: int|
                0 <= i < n && b == #[trigger] planned_branch(state, plan, i))) implies #[trigger] cur.worktrees.contains(
            b,
        ) by {
            if r0.worktrees.contains(b) {
                assert(prev.worktrees.contains(b));
            } else {
                let i = choose|i: int|
                    0 <= i < n && b == #[trigger] planned_branch(state, plan, i);
                if i < n - 1 {
                    assert(prev.worktrees.contains(planned_branch(state, plan, i)));
                }
            }
        }
    }
}

/// Materializing a valid plan succeeds, chunk by chunk, and lands on
/// `repo_after`.
proof fn lemma_plan_runs(
    state: StateV,
    plan: Seq<ChunkPlanV>,
    changed: Seq<Seq<char>>,
    base_ref: Seq<char>,
    r0: RepoV,
    n: int,
)
    requires
        plan_valid(state, plan, changed),
        ready_for_plan(state, plan, changed, r0),
        forall|i: int| 0 <= i < plan.len() ==> (#[trigger] plan[i].files).len() > 0,
        0 <= n <= plan.len(),
    ensures
        run_actions(r0, plan_actions_upto(state, plan, base_ref, n)) == Some(
            repo_after(state, plan, r0, n),
        ),
    decreases n,
{
    if n == 0 {
        assert(plan_actions_upto(state, plan, base_ref, 0) =~= Seq::<ActionV>::empty());
    } else {
        crate::plan::lemma_planned_branches_distinct(state, plan);
        lemma_plan_runs(state, plan, changed, base_ref, r0, n - 1);
        lemma_repo_after_keys(state, plan, changed, r0, n - 1);
        let prev = repo_after(state, plan, r0, n - 1);
        let b = planned_branch(state, plan, n - 1);
        let chunk_acts = actions_for_chunk(state, plan, base_ref, n - 1);
        lemma_run_split(r0, plan_actions_upto(state, plan, base_ref, n - 1), chunk_acts);
        let src = state.source_branch;
        assert(prev.head == src);
        assert(!prev.branches.contains_key(b)) by {
            if prev.branches.contains_key(b) {
                if !r0.branches.contains_key(b) {
                    let i = choose|i: int|
                        0 <= i < n - 1 && b == #[trigger] planned_branch(state, plan, i);
                }
            }
        }
        assert(r0.branches.contains_key(src));
        assert(repo_after(state, plan, r0, n - 1).branches.contains_key(src));
        assert(repo_after(state, plan, r0, n - 1).branches[src] == r0.branches[src]);
        let fresh = BranchV { committed: Set::empty(), staged: Set::empty() };
        let fset = files_set(plan[n - 1].files);
        assert(forall|x: Seq<char>|
            text::contains_str(plan[n - 1].files, x) ==> r0.branches[src].committed.contains(x))
            by {
            assert forall|x: Seq<char>| text::contains_str(plan[n - 1].files, x) implies
                r0.branches[src].committed.contains(x) by {
                let k = choose|k: int|
                    0 <= k < plan[n - 1].files.len() && #[trigger] plan[n - 1].files[k] == x;
                assert(text::contains_str(changed, plan[n - 1].files[k]));
            }
        }
        assert(fset.contains(plan[n - 1].files[0]));
        assert(fset != Set::<Seq<char>>::empty());
        if state.use_worktrees {
            let r1 = RepoV {
                branches: prev.branches.insert(b, fresh),
                worktrees: prev.worktrees.insert(b),
                head: src,
            };
            assert(step(prev, chunk_acts[0]) == Some(r1));
            let staged1 = BranchV { committed: Set::empty(), staged: Set::empty().union(fset) };
            let r2 = RepoV { branches: r1.branches.insert(b, staged1), ..r1 };
            assert(target_of(WorkDirV::Worktree { branch: b }, r1.head) == b);
            assert(step(r1, chunk_acts[1]) == Some(r2));
            assert(staged1.staged =~= fset);
            assert(staged1.staged.contains(plan[n - 1].files[0]));
            assert(staged1.staged != Set::<Seq<char>>::empty());
            let committed = BranchV {
                committed: staged1.committed.union(staged1.staged),
                staged: Set::empty(),
            };
            let r3 = RepoV { branches: r2.branches.insert(b, committed), ..r2 };
            assert(step(r2, chunk_acts[2]) == Some(r3));
            assert(chunk_acts.len() == 3);
            assert(run_actions(prev, chunk_acts) == Some(r3)) by {
                reveal_with_fuel(run_actions, 5);
                assert(chunk_acts.drop_first().drop_first().drop_first() =~= Seq::<
                    ActionV,
                >::empty());
                assert(chunk_acts.drop_first()[0] == chunk_acts[1]);
                assert(chunk_acts.drop_first().drop_first()[0] == chunk_acts[2]);
                assert(chunk_acts.drop_first().len() == 2);
                assert(chunk_acts.drop_first().drop_first().len() == 1);
            }
            assert(committed.committed =~= fset);
            assert(committed =~= (BranchV { committed: fset, staged: Set::empty() }));
            assert(r3.branches =~= repo_after(state, plan, r0, n).branches);
            assert(r3 =~= repo_after(state, plan, r0, n));
        } else {
            let r1 = RepoV { branches: prev.branches.insert(b, fresh), head: b, ..prev };
            assert(step(prev, chunk_acts[0]) == Some(r1));
            let staged1 = BranchV { committed: Set::empty(), staged: Set::empty().union(fset) };
            let r2 = RepoV { branches: r1.branches.insert(b, staged1), ..r1 };
            assert(target_of(WorkDirV::Root, r1.head) == b);
            assert(step(r1, chunk_acts[1]) == Some(r2));
            assert(staged1.staged =~= fset);
            assert(staged1.staged.contains(plan[n - 1].files[0]));
            assert(staged1.staged != Set::<Seq<char>>::empty());
            let committed = BranchV {
                committed: staged1.committed.union(staged1.staged),
                staged: Set::empty(),
            };
            let r3 = RepoV { branches: r2.branches.insert(b, committed), ..r2 };
            assert(step(r2, chunk_acts[2]) == Some(r3));
            assert(r3.branches.contains_key(src));
            let r4 = RepoV { head: src, ..r3 };
            assert(step(r3, chunk_acts[3]) == Some(r4));
            assert(chunk_acts.len() == 4);
            assert(run_actions(prev, chunk_acts) == Some(r4)) by {
                reveal_with_fuel(run_actions, 6);
                assert(chunk_acts.drop_first()[0] == chunk_acts[1]);
                assert(chunk_acts.drop_first().drop_first()[0] == chunk_acts[2]);
                assert(chunk_acts.drop_first().drop_first().drop_first()[0] == chunk_acts[3]);
                assert(chunk_acts.drop_first().len() == 3);
                assert(chunk_acts.drop_first().drop_first().len() == 2);
                assert(chunk_acts.drop_first().drop_first().drop_first().len() == 1);
                assert(chunk_acts.drop_first().drop_first().drop_first().drop_first() =~= Seq::<
                    ActionV,
                >::empty());
            }
            assert(committed.committed =~= fset);
            assert(committed =~= (BranchV { committed: fset, staged: Set::empty() }));
            assert(r4.branches =~= repo_after(state, plan, r0, n).branches);
            assert(r4 =~= repo_after(state, plan, r0, n));
        }
    }
}

/// Every branch of `r0` is still present in `end`, unchanged.
pub open spec fn preserves_existing(r0: RepoV, end: RepoV) -> bool {
    forall|b: Seq<char>|
        r0.branches.contains_key(b) ==> #[trigger] end.branches.contains_key(b) && end.branches[b]
            == r0.branches[b]
}

/// For every non-empty valid plan on a consistent repository, the whole
/// script succeeds, and afterwards each chunk branch differs from base in
/// exactly that chunk's declared files, nothing is staged there, the shared
/// tree is back on the source branch, and every pre-existing branch is
/// untouched.
pub proof fn theorem_apply_plan_materializes(
    state: StateV,
    plan: Seq<ChunkPlanV>,
    changed: Seq<Seq<char>>,
    base_ref: Seq<char>,
    r0: RepoV,
)
    requires
        plan_valid(state, plan, changed),
        ready_for_plan(state, plan, changed, r0),
        forall|i: int| 0 <= i < plan.len() ==> (#[trigger] plan[i].files).len() > 0,
    ensures
        run_actions(r0, plan_actions(state, plan, base_ref)) is Some,
        run_actions(r0, plan_actions(state, plan, base_ref))->Some_0.head == state.source_branch,
        forall|i: int|
            0 <= i < plan.len() ==> run_actions(
                r0,
                plan_actions(state, plan, base_ref),
            )->Some_0.branches.contains_key(#[trigger] planned_branch(state, plan, i))
                && run_actions(r0, plan_actions(state, plan, base_ref))->Some_0.branches[
                planned_branch(state, plan, i)].committed == files_set(plan[i].files)
                && run_actions(r0, plan_actions(state, plan, base_ref))->Some_0.branches[
                planned_branch(state, plan, i)].staged == Set::<Seq<char>>::empty(),
        preserves_existing(r0, run_actions(r0, plan_actions(state, plan, base_ref))->Some_0),
        state.use_worktrees ==> forall|i: int|
            0 <= i < plan.len() ==> run_actions(
                r0,
                plan_actions(state, plan, base_ref),
            )->Some_0.worktrees.contains(#[trigger] planned_branch(state, plan, i)),
{
    lemma_plan_runs(state, plan, changed, base_ref, r0, plan.len() as int);
    lemma_repo_after_keys(state, plan, changed, r0, plan.len() as int);
    assert(plan.len() > 0);
    let n = plan.len() as int;
    let fin = repo_after(state, plan, r0, n);
    assert(run_actions(r0, plan_actions(state, plan, base_ref)) == Some(fin));
    let endr = run_actions(r0, plan_actions(state, plan, base_ref))->Some_0;
    assert(endr == fin);
    assert(endr.head == state.source_branch);
    assert forall|i: int| 0 <= i < plan.len() implies endr.branches.contains_key(
        #[trigger] planned_branch(state, plan, i),
    ) && endr.branches[planned_branch(state, plan, i)].committed == files_set(plan[i].files)
        && endr.branches[planned_branch(state, plan, i)].staged == Set::<Seq<char>>::empty() by {
        assert(fin.branches[planned_branch(state, plan, i)] == (BranchV {
            committed: files_set(plan[i].files),
            staged: Set::empty(),
        }));
    }
    assert(preserves_existing(r0, fin)) by {
        assert forall|b: Seq<char>| r0.branches.contains_key(b) implies
            #[trigger] fin.branches.contains_key(b) && fin.branches[b] == r0.branches[b] by {}
    }
    assert(preserves_existing(r0, run_actions(r0, plan_actions(state, plan, base_ref))->Some_0));
    if state.use_worktrees {
        assert forall|i: int| 0 <= i < plan.len() implies endr.worktrees.contains(
            #[trigger] planned_branch(state, plan, i),
        ) by {
            assert(fin.worktrees.contains(planned_branch(state, plan, i)));
        }
    }
}

/// What any successfully executed prefix of a plan script guarantees: the
/// branches it created are exactly `created_spec` of the prefix, they are
/// mutually distinct and new, every other branch name still exists exactly
/// as before, worktrees outside the created set are untouched, and the
/// shared tree is on the source branch or on a created branch.
pub open spec fn script_extends(
    r0: RepoV,
    r: RepoV,
    created: Seq<Seq<char>>,
    wt: bool,
    source: Seq<char>,
) -> bool {
    &&& forall|t1: int, t2: int| 0 <= t1 < t2 < created.len() ==> created[t1] != created[t2]
    &&& forall|t: int|
        0 <= t < created.len() ==> r.branches.contains_key(#[trigger] created[t])
            && !r0.branches.contains_key(created[t]) && !r0.worktrees.contains(created[t])
    &&& forall|b: Seq<char>|
        !text::contains_str(created, b) ==> (#[trigger] r.branches.contains_key(b)
            <==> r0.branches.contains_key(b))
    &&& forall|b: Seq<char>|
        !text::contains_str(created, b) ==> (#[trigger] r.worktrees.contains(b)
            <==> r0.worktrees.contains(b))
    &&& (r.head == source || text::contains_str(created, r.head))
    &&& (wt ==> r.head == source)
    &&& (!wt ==> forall|b: Seq<char>|
        #[trigger] r.worktrees.contains(b) <==> r0.worktrees.contains(b))
}

/// Each action of a plan script preserves `script_extends`, growing the
/// created set at branch creations.
proof fn lemma_prefix_extends(
    state: StateV,
    plan: Seq<ChunkPlanV>,
    changed: Seq<Seq<char>>,
    base_ref: Seq<char>,
    r0: RepoV,
    k: int,
)
    requires
        plan_valid(state, plan, changed),
        ready_for_plan(state, plan, changed, r0),
        0 <= k <= plan_actions(state, plan, base_ref).len(),
        run_actions(r0, plan_actions(state, plan, base_ref).take(k)) is Some,
    ensures
        script_extends(
            r0,
            run_actions(r0, plan_actions(state, plan, base_ref).take(k))->Some_0,
            created_spec(plan_actions(state, plan, base_ref).take(k)),
            state.use_worktrees,
            state.source_branch,
        ),
    decreases k,
{
    let acts = plan_actions(state, plan, base_ref);
    if k == 0 {
        assert(acts.take(0) =~= Seq::<ActionV>::empty());
        assert(created_spec(acts.take(0)) =~= Seq::<Seq<char>>::empty());
        assert(run_actions(r0, acts.take(0)) == Some(r0));
    } else {
        assert(acts.take(k) =~= acts.take(k - 1) + seq![acts[k - 1]]);
        lemma_run_split(r0, acts.take(k - 1), seq![acts[k - 1]]);
        assert(run_actions(r0, acts.take(k - 1)) is Some);
        lemma_prefix_extends(state, plan, changed, base_ref, r0, k - 1);
        let r_prev = run_actions(r0, acts.take(k - 1))->Some_0;
        let created_prev = created_spec(acts.take(k - 1));
        let a = acts[k - 1];
        lemma_plan_action_shape(state, plan, base_ref, k - 1);
        assert(run_actions(r_prev, seq![a]) is Some);
        assert(step(r_prev, a) is Some) by {
            assert(seq![a][0] == a);
        }
        let r_next = step(r_prev, a)->Some_0;
        assert(run_actions(r_prev, seq![a]) == Some(r_next)) by {
            reveal_with_fuel(run_actions, 3);
            assert(seq![a][0] == a);
            assert(seq![a].len() == 1);
            assert(seq![a].drop_first() =~= Seq::<ActionV>::empty());
        }
        assert(acts.take(k).drop_last() =~= acts.take(k - 1));
        assert(acts.take(k).last() == a);
        let created_next = created_spec(acts.take(k));
        match a {
            ActionV::CreateBranch { branch, .. } => {
                let i2 = choose|i2: int|
                    0 <= i2 < plan.len() && branch == #[trigger] planned_branch(state, plan, i2)
                        && actions_for_chunk(state, plan, base_ref, i2).contains(a);
                assert(!r0.branches.contains_key(branch));
                assert(created_next =~= created_prev + seq![branch]);
                assert(!text::contains_str(created_prev, branch)) by {
                    if text::contains_str(created_prev, branch) {
                        let t = choose|t: int|
                            0 <= t < created_prev.len() && created_prev[t] == branch;
                        assert(r_prev.branches.contains_key(branch));
                    }
                }
                assert(script_extends(
                    r0,
                    r_next,
                    created_next,
                    state.use_worktrees,
                    state.source_branch,
                )) by {
                    assert(text::contains_str(created_next, branch)) by {
                        assert(created_next[created_prev.len() as int] == branch);
                    }
                    assert forall|bb: Seq<char>| !text::contains_str(created_next, bb) implies (
                    #[trigger] r_next.branches.contains_key(bb) <==> r0.branches.contains_key(
                        bb,
                    )) by {
                        assert(!text::contains_str(created_prev, bb)) by {
                            if text::contains_str(created_prev, bb) {
                                let t = choose|t: int|
                                    0 <= t < created_prev.len() && created_prev[t] == bb;
                                assert(created_next[t] == bb);
                            }
                        }
                        assert(bb != branch) by {
                            assert(created_next[created_prev.len() as int] == branch);
                        }
                    }
                    assert forall|bb: Seq<char>| !text::contains_str(created_next, bb) implies (
                    #[trigger] r_next.worktrees.contains(bb) <==> r0.worktrees.contains(bb)) by {
                        assert(!text::contains_str(created_prev, bb)) by {
                            if text::contains_str(created_prev, bb) {
                                let t = choose|t: int|
                                    0 <= t < created_prev.len() && created_prev[t] == bb;
                                assert(created_next[t] == bb);
                            }
                        }
                    }
                    assert forall|t: int| 0 <= t < created_next.len() implies
                        r_next.branches.contains_key(#[trigger] created_next[t])
                        && !r0.branches.contains_key(created_next[t])
                        && !r0.worktrees.contains(created_next[t]) by {
                        if t < created_prev.len() {
                            assert(created_next[t] == created_prev[t]);
                        } else {
                            assert(created_next[t] == branch);
                        }
                    }
                    assert forall|t1: int, t2: int|
                        0 <= t1 < t2 < created_next.len() implies created_next[t1]
                        != created_next[t2] by {
                        if t2 == created_prev.len() {
                            assert(created_next[t1] == created_prev[t1]);
                            if created_prev[t1] == branch {
                                assert(text::contains_str(created_prev, branch));
                            }
                        } else {
                            assert(created_next[t1] == created_prev[t1] && created_next[t2]
                                == created_prev[t2]);
                        }
                    }
                }
            },
            ActionV::AddWorktree { branch, .. } => {
                let i2 = choose|i2: int|
                    0 <= i2 < plan.len() && branch == #[trigger] planned_branch(state, plan, i2)
                        && actions_for_chunk(state, plan, base_ref, i2).contains(a);
                assert(!r0.branches.contains_key(branch));
                assert(state.use_worktrees) by {
                    if !state.use_worktrees {
                        let grp = actions_for_chunk(state, plan, base_ref, i2);
                        let o = choose|o: int| 0 <= o < grp.len() && grp[o] == a;
                        assert(o == 0 || o == 1 || o == 2 || o == 3);
                    }
                }
                assert(created_next =~= created_prev + seq![branch]);
                assert(!text::contains_str(created_prev, branch)) by {
                    if text::contains_str(created_prev, branch) {
                        let t = choose|t: int|
                            0 <= t < created_prev.len() && created_prev[t] == branch;
                        assert(r_prev.branches.contains_key(branch));
                    }
                }
                assert(script_extends(
                    r0,
                    r_next,
                    created_next,
                    state.use_worktrees,
                    state.source_branch,
                )) by {
                    assert(text::contains_str(created_next, branch)) by {
                        assert(created_next[created_prev.len() as int] == branch);
                    }
                    assert forall|bb: Seq<char>| !text::contains_str(created_next, bb) implies (
                    #[trigger] r_next.branches.contains_key(bb) <==> r0.branches.contains_key(
                        bb,
                    )) by {
                        assert(!text::contains_str(created_prev, bb)) by {
                            if text::contains_str(created_prev, bb) {
                                let t = choose|t: int|
                                    0 <= t < created_prev.len() && created_prev[t] == bb;
                                assert(created_next[t] == bb);
                            }
                        }
                        assert(bb != branch) by {
                            assert(created_next[created_prev.len() as int] == branch);
                        }
                    }
                    assert forall|bb: Seq<char>| !text::contains_str(created_next, bb) implies (
                    #[trigger] r_next.worktrees.contains(bb) <==> r0.worktrees.contains(bb)) by {
                        assert(!text::contains_str(created_prev, bb)) by {
                            if text::contains_str(created_prev, bb) {
                                let t = choose|t: int|
                                    0 <= t < created_prev.len() && created_prev[t] == bb;
                                assert(created_next[t] == bb);
                            }
                        }
                        assert(bb != branch) by {
                            assert(created_next[created_prev.len() as int] == branch);
                        }
                    }
                    assert forall|t: int| 0 <= t < created_next.len() implies
                        r_next.branches.contains_key(#[trigger] created_next[t])
                        && !r0.branches.contains_key(created_next[t])
                        && !r0.worktrees.contains(created_next[t]) by {
                        if t < created_prev.len() {
                            assert(created_next[t] == created_prev[t]);
                        } else {
                            assert(created_next[t] == branch);
                        }
                    }
                    assert forall|t1: int, t2: int|
                        0 <= t1 < t2 < created_next.len() implies created_next[t1]
                        != created_next[t2] by {
                        if t2 == created_prev.len() {
                            assert(created_next[t1] == created_prev[t1]);
                            if created_prev[t1] == branch {
                                assert(text::contains_str(created_prev, branch));
                            }
                        } else {
                            assert(created_next[t1] == created_prev[t1] && created_next[t2]
                                == created_prev[t2]);
                        }
                    }
                }
            },
            ActionV::CopyFiles { .. } => {
                assert(created_next =~= created_prev);
            },
            ActionV::Commit { .. } => {
                assert(created_next =~= created_prev);
            },
            ActionV::Checkout { branch } => {
                assert(created_next =~= created_prev);
                assert(branch == state.source_branch);
            },
            _ => {
                assert(created_next =~= created_prev);
                assert(false);
            },
        }
    }
}

/// Every action of a plan script belongs to one of its chunks' action
/// groups, and the branch-creating ones create that chunk's planned branch;
/// checkouts only ever return to the source branch.
proof fn lemma_plan_action_shape(
    state: StateV,
    plan: Seq<ChunkPlanV>,
    base_ref: Seq<char>,
    k: int,
)
    requires
        0 <= k < plan_actions(state, plan, base_ref).len(),
    ensures
        exists|i: int|
            0 <= i < plan.len() && #[trigger] actions_for_chunk(state, plan, base_ref, i).contains(
                plan_actions(state, plan, base_ref)[k],
            ),
        (match plan_actions(state, plan, base_ref)[k] {
            ActionV::CreateBranch { branch, .. } => exists|i: int|
                0 <= i < plan.len() && branch == #[trigger] planned_branch(state, plan, i)
                    && actions_for_chunk(state, plan, base_ref, i).contains(
                    plan_actions(state, plan, base_ref)[k],
                ),
            ActionV::AddWorktree { branch, .. } => exists|i: int|
                0 <= i < plan.len() && branch == #[trigger] planned_branch(state, plan, i)
                    && actions_for_chunk(state, plan, base_ref, i).contains(
                    plan_actions(state, plan, base_ref)[k],
                ),
            ActionV::Checkout { branch } => branch == state.source_branch,
            ActionV::CopyFiles { .. } => true,
            ActionV::Commit { .. } => true,
            _ => false,
        }),
{
    lemma_plan_action_shape_upto(state, plan, base_ref, plan.len() as int, k);
}

proof fn lemma_plan_action_shape_upto(
    state: StateV,
    plan: Seq<ChunkPlanV>,
    base_ref: Seq<char>,
    n: int,
    k: int,
)
    requires
        0 <= n <= plan.len(),
        0 <= k < plan_actions_upto(state, plan, base_ref, n).len(),
    ensures
        exists|i: int|
            0 <= i < plan.len() && #[trigger] actions_for_chunk(state, plan, base_ref, i).contains(
                plan_actions_upto(state, plan, base_ref, n)[k],
            ),
        (match plan_actions_upto(state, plan, base_ref, n)[k] {
            ActionV::CreateBranch { branch, .. } => exists|i: int|
                0 <= i < plan.len() && branch == #[trigger] planned_branch(state, plan, i)
                    && actions_for_chunk(state, plan, base_ref, i).contains(
                    plan_actions_upto(state, plan, base_ref, n)[k],
                ),
            ActionV::AddWorktree { branch, .. } => exists|i: int|
                0 <= i < plan.len() && branch == #[trigger] planned_branch(state, plan, i)
                    && actions_for_chunk(state, plan, base_ref, i).contains(
                    plan_actions_upto(state, plan, base_ref, n)[k],
                ),
            ActionV::Checkout { branch } => branch == state.source_branch,
            ActionV::CopyFiles { .. } => true,
            ActionV::Commit { .. } => true,
            _ => false,
        }),
    decreases n,
{
    assert(n > 0);
    let front = plan_actions_upto(state, plan, base_ref, n - 1);
    let grp = actions_for_chunk(state, plan, base_ref, n - 1);
    if k < front.len() {
        lemma_plan_action_shape_upto(state, plan, base_ref, n - 1, k);
        assert(plan_actions_upto(state, plan, base_ref, n)[k] == front[k]);
    } else {
        let o = k - front.len();
        let a = plan_actions_upto(state, plan, base_ref, n)[k];
        assert(a == grp[o]);
        assert(grp.contains(a)) by {
            assert(grp[o] == a);
        }
    }
}

/// The rollback script for a set of created branches removes exactly those
/// branches and their worktrees and ends on the source branch, leaving the
/// repository's branch set, worktree set and checkout exactly as they were
/// before the plan started.
pub proof fn theorem_rollback_restores(
    state: StateV,
    plan: Seq<ChunkPlanV>,
    changed: Seq<Seq<char>>,
    base_ref: Seq<char>,
    r0: RepoV,
    k: int,
)
    requires
        plan_valid(state, plan, changed),
        ready_for_plan(state, plan, changed, r0),
        0 <= k <= plan_actions(state, plan, base_ref).len(),
        run_actions(r0, plan_actions(state, plan, base_ref).take(k)) is Some,
    ensures
        ({
            let rk = run_actions(r0, plan_actions(state, plan, base_ref).take(k))->Some_0;
            let created = created_spec(plan_actions(state, plan, base_ref).take(k));
            let undone = run_actions(
                rk,
                rollback_actions(created, state.use_worktrees, state.source_branch),
            );
            &&& undone is Some
            &&& forall|b: Seq<char>|
                #[trigger] undone->Some_0.branches.contains_key(b) <==> r0.branches.contains_key(b)
            &&& forall|b: Seq<char>|
                #[trigger] undone->Some_0.worktrees.contains(b) <==> r0.worktrees.contains(b)
            &&& undone->Some_0.head == state.source_branch
        }),
{
    lemma_prefix_extends(state, plan, changed, base_ref, r0, k);
    let rk = run_actions(r0, plan_actions(state, plan, base_ref).take(k))->Some_0;
    let created = created_spec(plan_actions(state, plan, base_ref).take(k));
    let wt = state.use_worktrees;
    let source = state.source_branch;
    assert(!text::contains_str(created, source)) by {
        if text::contains_str(created, source) {
            let t = choose|t: int| 0 <= t < created.len() && created[t] == source;
            assert(!r0.branches.contains_key(created[t]));
        }
    }
    let start = if !wt {
        let r1 = RepoV { head: source, ..rk };
        assert(rk.branches.contains_key(source));
        assert(step(rk, ActionV::Checkout { branch: source }) == Some(r1));
        r1
    } else {
        rk
    };
    assert(rollback_actions(created, wt, source) == (if !wt {
        seq![ActionV::Checkout { branch: source }]
    } else {
        Seq::<ActionV>::empty()
    }) + rollback_for(created, wt, created.len() as int));
    if !wt {
        lemma_run_split(
            rk,
            seq![ActionV::Checkout { branch: source }],
            rollback_for(created, wt, created.len() as int),
        );
        assert(run_actions(rk, seq![ActionV::Checkout { branch: source }]) == Some(start)) by {
            reveal_with_fuel(run_actions, 3);
            assert(seq![ActionV::Checkout { branch: source }][0] == ActionV::Checkout {
                branch: source,
            });
            assert(seq![ActionV::Checkout { branch: source }].len() == 1);
            assert(seq![ActionV::Checkout { branch: source }].drop_first() =~= Seq::<
                ActionV,
            >::empty());
        }
    } else {
        assert((Seq::<ActionV>::empty() + rollback_for(created, wt, created.len() as int)) =~=
            rollback_for(created, wt, created.len() as int));
    }
    lemma_rollback_for_agree(created, wt, created.len() as int);
    assert(rollback_for_from(created, wt, created.len() as int) =~= Seq::<ActionV>::empty());
    assert(rollback_for(created, wt, created.len() as int) + Seq::<ActionV>::empty() =~=
        rollback_for(created, wt, created.len() as int));
    assert(rollback_for(created, wt, created.len() as int) == rollback_for_from(created, wt, 0));
    lemma_rollback_runs(r0, start, created, wt, source, 0);
}

/// Undoing the created branches one by one, from position `n` on, restores
/// the original branch and worktree sets.
proof fn lemma_rollback_runs(
    r0: RepoV,
    r: RepoV,
    created: Seq<Seq<char>>,
    wt: bool,
    source: Seq<char>,
    n: int,
)
    requires
        0 <= n <= created.len(),
        r.head == source,
        !text::contains_str(created, source),
        forall|t1: int, t2: int| 0 <= t1 < t2 < created.len() ==> created[t1] != created[t2],
        // branches beyond position n are still present; those before are gone
        forall|t: int| n <= t < created.len() ==> r.branches.contains_key(#[trigger] created[t]),
        forall|t: int| 0 <= t < created.len() ==> !r0.branches.contains_key(#[trigger] created[t]),
        forall|t: int| 0 <= t < n ==> !r.branches.contains_key(#[trigger] created[t]),
        forall|b: Seq<char>|
            !text::contains_str(created, b) ==> (#[trigger] r.branches.contains_key(b)
                <==> r0.branches.contains_key(b)),
        forall|b: Seq<char>|
            !text::contains_str(created, b) ==> (#[trigger] r.worktrees.contains(b)
                <==> r0.worktrees.contains(b)),
        forall|t: int| 0 <= t < created.len() ==> !r0.worktrees.contains(#[trigger] created[t]),
        // already-undone branches have no worktree left
        forall|t: int| 0 <= t < n ==> !r.worktrees.contains(#[trigger] created[t]),
        // in shared-tree mode no worktrees were created at all
        !wt ==> forall|t: int|
            n <= t < created.len() ==> !r.worktrees.contains(#[trigger] created[t]),
    ensures
        ({
            let fin = run_actions(r, rollback_for_from(created, wt, n));
            &&& fin is Some
            &&& forall|b: Seq<char>|
                #[trigger] fin->Some_0.branches.contains_key(b) <==> r0.branches.contains_key(b)
            &&& forall|b: Seq<char>|
                #[trigger] fin->Some_0.worktrees.contains(b) <==> r0.worktrees.contains(b)
            &&& fin->Some_0.head == source
        }),
    decreases created.len() - n,
{
    if n == created.len() {
        assert(rollback_for_from(created, wt, n) =~= Seq::<ActionV>::empty());
        assert forall|b: Seq<char>| #[trigger] r.branches.contains_key(b) <==>
            r0.branches.contains_key(b) by {
            if text::contains_str(created, b) {
                let t = choose|t: int| 0 <= t < created.len() && created[t] == b;
            }
        }
        assert forall|b: Seq<char>| #[trigger] r.worktrees.contains(b) <==> r0.worktrees.contains(
            b,
        ) by {
            if text::contains_str(created, b) {
                let t = choose|t: int| 0 <= t < created.len() && created[t] == b;
                if !wt {
                } else {
                }
            }
        }
    } else {
        let b = created[n];
        if wt {
            let r1 = RepoV { worktrees: r.worktrees.remove(b), ..r };
            assert(step(r, ActionV::RemoveWorktree { branch: b }) == Some(r1));
            assert(r1.head != b) by {
                assert(created[n] == b);
            }
            assert(!r1.worktrees.contains(b));
            let r2 = RepoV { branches: r1.branches.remove(b), ..r1 };
            assert(step(r1, ActionV::DeleteBranch { branch: b }) == Some(r2));
            assert(rollback_for_from(created, wt, n) =~= seq![
                ActionV::RemoveWorktree { branch: b },
                ActionV::DeleteBranch { branch: b },
            ] + rollback_for_from(created, wt, n + 1));
            lemma_run_split(
                r,
                seq![
                    ActionV::RemoveWorktree { branch: b },
                    ActionV::DeleteBranch { branch: b },
                ],
                rollback_for_from(created, wt, n + 1),
            );
            assert(run_actions(
                r,
                seq![
                    ActionV::RemoveWorktree { branch: b },
                    ActionV::DeleteBranch { branch: b },
                ],
            ) == Some(r2)) by {
                reveal_with_fuel(run_actions, 4);
                let two = seq![
                    ActionV::RemoveWorktree { branch: b },
                    ActionV::DeleteBranch { branch: b },
                ];
                assert(two.len() == 2);
                assert(two.drop_first().len() == 1);
                assert(two[0] == ActionV::RemoveWorktree { branch: b });
                assert(two.drop_first()[0] == two[1]);
                assert(two[1] == ActionV::DeleteBranch { branch: b });
                assert(two.drop_first().drop_first() =~= Seq::<ActionV>::empty());
            }
            lemma_rollback_runs(r0, r2, created, wt, source, n + 1);
        } else {
            assert(!r.worktrees.contains(b)) by {
                assert(created[n] == b);
            }
            assert(r.head != b) by {
                assert(created[n] == b);
            }
            let r2 = RepoV { branches: r.branches.remove(b), ..r };
            assert(step(r, ActionV::DeleteBranch { branch: b }) == Some(r2));
            assert(rollback_for_from(created, wt, n) =~= seq![
                ActionV::DeleteBranch { branch: b },
            ] + rollback_for_from(created, wt, n + 1));
            lemma_run_split(
                r,
                seq![ActionV::DeleteBranch { branch: b }],
                rollback_for_from(created, wt, n + 1),
            );
            assert(run_actions(r, seq![ActionV::DeleteBranch { branch: b }]) == Some(r2)) by {
                reveal_with_fuel(run_actions, 3);
                assert(seq![ActionV::DeleteBranch { branch: b }][0] == ActionV::DeleteBranch {
                    branch: b,
                });
                assert(seq![ActionV::DeleteBranch { branch: b }].len() == 1);
                assert(seq![ActionV::DeleteBranch { branch: b }].drop_first() =~= Seq::<
                    ActionV,
                >::empty());
            }
            lemma_rollback_runs(r0, r2, created, wt, source, n + 1);
        }
    }
}

/// Moving a file whose destination chunk does not yet carry it does to the
/// branches exactly what the state change says: the file leaves the source
/// chunk's branch diff, joins the destination chunk's, and the shared tree
/// ends back on the source branch, with every other branch untouched.
pub proof fn theorem_move_file_updates_branches(
    state: StateV,
    fi: int,
    ti: int,
    f: Seq<char>,
    r0: RepoV,
)
    requires
        0 <= fi < state.chunks.len(),
        0 <= ti < state.chunks.len(),
        r0.head == state.source_branch,
        r0.branches.contains_key(state.source_branch),
        r0.branches.contains_key(state.chunks[fi].branch),
        r0.branches.contains_key(state.chunks[ti].branch),
        state.chunks[fi].branch != state.chunks[ti].branch,
        state.chunks[fi].branch != state.source_branch,
        state.chunks[ti].branch != state.source_branch,
        r0.branches[state.source_branch].committed.contains(f),
        r0.branches[state.chunks[ti].branch].staged == Set::<Seq<char>>::empty(),
        !crate::text::contains_str(state.chunks[ti].files, f),
    ensures
        ({
            let fin = run_actions(r0, move_actions(state, fi, ti, f));
            let fb = state.chunks[fi].branch;
            let tb = state.chunks[ti].branch;
            &&& fin is Some
            &&& fin->Some_0.head == state.source_branch
            &&& fin->Some_0.branches[fb].committed == r0.branches[fb].committed.remove(f)
            &&& fin->Some_0.branches[tb].committed == r0.branches[tb].committed.insert(f)
            &&& forall|b: Seq<char>|
                b != fb && b != tb && r0.branches.contains_key(b)
                    ==> #[trigger] fin->Some_0.branches.contains_key(b) && fin->Some_0.branches[b]
                    == r0.branches[b]
        }),
{
    let fb = state.chunks[fi].branch;
    let tb = state.chunks[ti].branch;
    let src = state.source_branch;
    let acts = move_actions(state, fi, ti, f);
    assert(acts.len() == 6);
    assert(acts[0] == (ActionV::Checkout { branch: fb }));
    assert(acts[1] == (ActionV::RemoveFileFromTip { dir: WorkDirV::Root, file: f }));
    assert(acts[2] == (ActionV::Checkout { branch: tb }));
    assert(acts[3] == (ActionV::CopyFiles {
        dir: WorkDirV::Root,
        source: src,
        files: seq![f],
    }));
    assert(acts[4] == (ActionV::Amend { dir: WorkDirV::Root }));
    assert(acts[5] == (ActionV::Checkout { branch: src }));
    let r1 = RepoV { head: fb, ..r0 };
    assert(step(r0, acts[0]) == Some(r1));
    let from_removed = BranchV {
        committed: r0.branches[fb].committed.remove(f),
        staged: r0.branches[fb].staged,
    };
    let r2 = RepoV { branches: r1.branches.insert(fb, from_removed), ..r1 };
    assert(step(r1, acts[1]) == Some(r2));
    let r3 = RepoV { head: tb, ..r2 };
    assert(r2.branches.contains_key(tb));
    assert(step(r2, acts[2]) == Some(r3));
    assert(r3.branches.contains_key(src) && r3.branches[src] == r0.branches[src]);
    assert forall|x: Seq<char>| crate::text::contains_str(seq![f], x) implies
        r3.branches[src].committed.contains(x) by {
        assert(seq![f][0] == f);
        assert(x == f);
    }
    let to_staged = BranchV {
        committed: r3.branches[tb].committed,
        staged: r3.branches[tb].staged.union(files_set(seq![f])),
    };
    let r4 = RepoV { branches: r3.branches.insert(tb, to_staged), ..r3 };
    assert(step(r3, acts[3]) == Some(r4));
    let to_amended = BranchV {
        committed: r4.branches[tb].committed.union(r4.branches[tb].staged),
        staged: Set::empty(),
    };
    let r5 = RepoV { branches: r4.branches.insert(tb, to_amended), ..r4 };
    assert(step(r4, acts[4]) == Some(r5));
    assert(r5.branches.contains_key(src));
    let r6 = RepoV { head: src, ..r5 };
    assert(step(r5, acts[5]) == Some(r6));
    assert(run_actions(r0, acts) == Some(r6)) by {
        reveal_with_fuel(run_actions, 8);
        assert(acts.drop_first()[0] == acts[1]);
        assert(acts.drop_first().drop_first()[0] == acts[2]);
        assert(acts.drop_first().drop_first().drop_first()[0] == acts[3]);
        assert(acts.drop_first().drop_first().drop_first().drop_first()[0] == acts[4]);
        assert(acts.drop_first().drop_first().drop_first().drop_first().drop_first()[0] == acts[
            5
        ]);
        assert(acts.drop_first().drop_first().drop_first().drop_first().drop_first().drop_first()
            =~= Seq::<ActionV>::empty());
    }
    assert(r6.branches[fb].committed == r0.branches[fb].committed.remove(f));
    assert(r6.branches[tb].committed =~= r0.branches[tb].committed.insert(f)) by {
        assert(files_set(seq![f]) =~= Set::<Seq<char>>::empty().insert(f)) by {
            assert forall|x: Seq<char>| #[trigger] files_set(seq![f]).contains(x) implies x
                == f by {
                assert(seq![f][0] == f);
            }
            assert(crate::text::contains_str(seq![f], f)) by {
                assert(seq![f][0] == f);
            }
        }
    }
}

/// The tail of the rollback script from position `n` on.
pub open spec fn rollback_for_from(created: Seq<Seq<char>>, wt: bool, n: int) -> Seq<ActionV>
    decreases created.len() - n,
{
    if n < 0 || n >= created.len() {
        Seq::empty()
    } else {
        (if wt {
            seq![
                ActionV::RemoveWorktree { branch: created[n] },
                ActionV::DeleteBranch { branch: created[n] },
            ]
        } else {
            seq![ActionV::DeleteBranch { branch: created[n] }]
        }) + rollback_for_from(created, wt, n + 1)
    }
}

/// The front-to-back and back-to-front phrasings of the rollback tail agree.
proof fn lemma_rollback_for_agree(created: Seq<Seq<char>>, wt: bool, n: int)
    requires
        0 <= n <= created.len(),
    ensures
        rollback_for(created, wt, n) + rollback_for_from(created, wt, n) == rollback_for_from(
            created,
            wt,
            0,
        ),
    decreases n,
{
    if n == 0 {
        assert(rollback_for(created, wt, 0) =~= Seq::<ActionV>::empty());
        assert(rollback_for(created, wt, 0) + rollback_for_from(created, wt, 0) =~=
            rollback_for_from(created, wt, 0));
    } else {
        lemma_rollback_for_agree(created, wt, n - 1);
        assert(rollback_for_from(created, wt, n - 1) == (if wt {
            seq![
                ActionV::RemoveWorktree { branch: created[n - 1] },
                ActionV::DeleteBranch { branch: created[n - 1] },
            ]
        } else {
            seq![ActionV::DeleteBranch { branch: created[n - 1] }]
        }) + rollback_for_from(created, wt, n));
        assert(rollback_for(created, wt, n) + rollback_for_from(created, wt, n) =~= rollback_for(
            created,
            wt,
            n - 1,
        ) + rollback_for_from(created, wt, n - 1));
    }
}

} // verus!
