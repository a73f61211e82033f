//! The sync engine: rebase every chunk branch onto the latest base branch.
//! In worktree mode each chunk owns its directory, so the per-chunk jobs are
//! independent and the caller may run them concurrently, collecting failures
//! per chunk; in shared-tree mode the actions are strictly sequential,
//! checking each branch out in turn and returning to the branch that was
//! current. Syncing never touches the persisted state: a failed rebase
//! simply leaves that branch for the next run.

use vstd::prelude::*;

use crate::action::ActionV;
use crate::action::GitAction;
use crate::action::WorkDir;
use crate::action::WorkDirV;
use crate::state::MergesState;
use crate::state::StateV;
use crate::state::Strategy;

verus! {

/// The sync actions for the first `n` chunks. The `Stacked` strategy
/// cascades ref updates across the rebased range; `Independent` rebases each
/// branch on its own.
pub open spec fn sync_actions_upto(state: StateV, n: int) -> Seq<ActionV>
    decreases n,
{
    if n <= 0 {
        Seq::empty()
    } else {
        sync_actions_upto(state, n - 1) + (if state.use_worktrees {
            seq![
                ActionV::FetchAndRebase {
                    dir: WorkDirV::Worktree { branch: state.chunks[n - 1].branch },
                    base_branch: state.base_branch,
                    update_refs: state.strategy is Stacked,
                },
            ]
        } else {
            seq![
                ActionV::Checkout { branch: state.chunks[n - 1].branch },
                ActionV::FetchAndRebase {
                    dir: WorkDirV::Root,
                    base_branch: state.base_branch,
                    update_refs: state.strategy is Stacked,
                },
            ]
        })
    }
}

/// The whole sync script. With no chunks there is nothing to do; in
/// shared-tree mode the branch that was current is restored at the end.
pub open spec fn sync_actions(state: StateV, current: Seq<char>) -> Seq<ActionV> {
    if state.chunks.len() == 0 {
        Seq::empty()
    } else {
        sync_actions_upto(state, state.chunks.len() as int) + (if state.use_worktrees {
            Seq::empty()
        } else {
            seq![ActionV::Checkout { branch: current }]
        })
    }
}

/// Rebase every chunk branch onto `origin/<base_branch>`. `current_branch`
/// is the branch checked out in the shared tree, restored afterwards in
/// shared-tree mode. In worktree mode the returned jobs are mutually
/// independent and safe to run concurrently, one per chunk.
pub fn sync_all(state: &MergesState, current_branch: &str) -> (r: Vec<GitAction>)
    ensures
        r.deep_view() == sync_actions(state@, current_branch@),
{
    let ghost sv = state@;
    let mut r: Vec<GitAction> = Vec::new();
    if state.chunks.len() == 0 {
        proof {
            assert(r.deep_view() =~= sync_actions(sv, current_branch@));
        }
        return r;
    }
    let mut i: usize = 0;
    proof {
        assert(r.deep_view() =~= sync_actions_upto(sv, 0));
    }
    while i < state.chunks.len()
        invariant
            i <= state.chunks.len(),
            sv == state@,
            r.deep_view() == sync_actions_upto(sv, i as int),
        decreases state.chunks.len() - i,
    {
        let ghost old_r = r.deep_view();
        let branch = state.chunks[i].branch.clone();
        let update_refs = match state.strategy {
            Strategy::Stacked => true,
            Strategy::Independent => false,
        };
        if state.use_worktrees {
            r.push(
                GitAction::FetchAndRebase {
                    dir: WorkDir::Worktree { branch },
                    base_branch: state.base_branch.clone(),
                    update_refs,
                },
            );
        } else {
            r.push(GitAction::Checkout { branch });
            r.push(
                GitAction::FetchAndRebase {
                    dir: WorkDir::Root,
                    base_branch: state.base_branch.clone(),
                    update_refs,
                },
            );
        }
        proof {
            assert(state.chunks@[i as int]@.branch == sv.chunks[i as int].branch);
            assert(r.deep_view() =~= sync_actions_upto(sv, i + 1));
        }
        i += 1;
    }
    if !state.use_worktrees {
        r.push(GitAction::Checkout { branch: current_branch.to_owned() });
    }
    proof {
        assert(r.deep_view() =~= sync_actions(sv, current_branch@));
    }
    r
}

} // verus!
