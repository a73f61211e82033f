//! The consistency checker: cross-validate the declared state against
//! observed repository facts. The caller gathers the facts (does each chunk
//! branch exist, does each worktree directory exist, is the state file
//! registered in the local exclusion list) and this module decides, purely,
//! which issues to report. The duplicate-file check needs no facts at all:
//! it catches corruption of the state itself. Only the exclusion
//! registration is auto-repairable; with `repair` set the caller registers
//! it and the report omits that issue.

use vstd::prelude::*;
use vstd::string::StringExecFns;

use crate::state::ChunkV;
use crate::state::MergesState;
use crate::state::StateV;
use crate::text;

verus! {

/// Result of a consistency check: the human-readable issues found.
#[derive(Debug)]
pub struct DoctorReport {
    pub issues: Vec<String>,
}

impl DoctorReport {
    /// No issues at all.
    pub fn all_ok(&self) -> (r: bool)
        ensures
            r == (self.issues@.len() == 0),
    {
        self.issues.len() == 0
    }
}

/// How many entries of `v` are false.
pub open spec fn count_false(v: Seq<bool>) -> int
    decreases v.len(),
{
    if v.len() == 0 {
        0
    } else {
        count_false(v.drop_last()) + (if v.last() {
            0int
        } else {
            1int
        })
    }
}

/// All files of all chunks, flattened in order.
pub open spec fn flat_files(chunks: Seq<ChunkV>) -> Seq<Seq<char>>
    decreases chunks.len(),
{
    if chunks.len() == 0 {
        Seq::empty()
    } else {
        flat_files(chunks.drop_last()) + chunks.last().files
    }
}

/// How many entries of `s` repeat an earlier entry.
pub open spec fn dups_in(s: Seq<Seq<char>>) -> int
    decreases s.len(),
{
    if s.len() == 0 {
        0
    } else {
        dups_in(s.drop_last()) + (if text::contains_str(s.drop_last(), s.last()) {
            1int
        } else {
            0int
        })
    }
}

/// The issue reported for a chunk branch missing from the repository.
pub open spec fn missing_branch_issue(branch: Seq<char>) -> Seq<char> {
    "Chunk branch '"@ + branch + "' does not exist locally."@
}

/// The issue reported for a missing worktree directory.
pub open spec fn missing_worktree_issue(branch: Seq<char>) -> Seq<char> {
    "Worktree for branch '"@ + branch + "' is missing."@
}

/// The issue reported when the state file is not in the exclusion list.
pub open spec fn exclude_issue() -> Seq<char> {
    ".merges.json is not in .git/info/exclude - it may appear as an untracked file."@
}

/// The issue reported for a file occurring twice in the state.
pub open spec fn duplicate_issue(file: Seq<char>) -> Seq<char> {
    "File '"@ + file + "' appears in multiple chunks (duplicate in state - possibly corrupted)."@
}

/// The missing-branch issues among the first `n` chunks, in order.
pub open spec fn branch_issues(chunks: Seq<ChunkV>, exists_: Seq<bool>, n: int) -> Seq<Seq<char>>
    decreases n,
{
    if n <= 0 {
        Seq::empty()
    } else {
        branch_issues(chunks, exists_, n - 1) + (if exists_[n - 1] {
            Seq::empty()
        } else {
            seq![missing_branch_issue(chunks[n - 1].branch)]
        })
    }
}

/// The missing-worktree issues among the first `n` chunks, in order.
pub open spec fn worktree_issues(chunks: Seq<ChunkV>, exists_: Seq<bool>, n: int) -> Seq<
    Seq<char>,
>
    decreases n,
{
    if n <= 0 {
        Seq::empty()
    } else {
        worktree_issues(chunks, exists_, n - 1) + (if exists_[n - 1] {
            Seq::empty()
        } else {
            seq![missing_worktree_issue(chunks[n - 1].branch)]
        })
    }
}

/// One duplicate issue per entry of `s` that repeats an earlier entry.
pub open spec fn dup_issues(s: Seq<Seq<char>>) -> Seq<Seq<char>>
    decreases s.len(),
{
    if s.len() == 0 {
        Seq::empty()
    } else {
        dup_issues(s.drop_last()) + (if text::contains_str(s.drop_last(), s.last()) {
            seq![duplicate_issue(s.last())]
        } else {
            Seq::empty()
        })
    }
}

/// The full report a diagnosis produces, in order: missing branches, missing
/// worktrees (in worktree mode), the unregistered exclusion (unless a repair
/// was asked for), duplicated file entries.
pub open spec fn doctor_issues(
    state: StateV,
    branch_exists: Seq<bool>,
    worktree_exists: Seq<bool>,
    exclude_registered: bool,
    repair: bool,
) -> Seq<Seq<char>> {
    branch_issues(state.chunks, branch_exists, state.chunks.len() as int) + (
    if state.use_worktrees {
        worktree_issues(state.chunks, worktree_exists, state.chunks.len() as int)
    } else {
        Seq::empty()
    }) + (if !exclude_registered && !repair {
        seq![exclude_issue()]
    } else {
        Seq::empty()
    }) + dup_issues(flat_files(state.chunks))
}

/// The number of issues a diagnosis reports: one per missing branch, one per
/// missing worktree (in worktree mode), one when the state file is not
/// excluded and no repair was asked for, and one per duplicated file entry.
pub open spec fn issue_count(
    state: StateV,
    branch_exists: Seq<bool>,
    worktree_exists: Seq<bool>,
    exclude_registered: bool,
    repair: bool,
) -> int {
    count_false(branch_exists) + (if state.use_worktrees {
        count_false(worktree_exists)
    } else {
        0int
    }) + (if !exclude_registered && !repair {
        1int
    } else {
        0int
    }) + dups_in(flat_files(state.chunks))
}

proof fn lemma_branch_issues_len(chunks: Seq<ChunkV>, exists_: Seq<bool>, n: int)
    requires
        0 <= n <= exists_.len(),
    ensures
        branch_issues(chunks, exists_, n).len() == count_false(exists_.take(n)),
    decreases n,
{
    if n > 0 {
        lemma_branch_issues_len(chunks, exists_, n - 1);
        assert(exists_.take(n).drop_last() =~= exists_.take(n - 1));
        assert(exists_.take(n).last() == exists_[n - 1]);
    } else {
        assert(exists_.take(0) =~= Seq::<bool>::empty());
    }
}

proof fn lemma_worktree_issues_len(chunks: Seq<ChunkV>, exists_: Seq<bool>, n: int)
    requires
        0 <= n <= exists_.len(),
    ensures
        worktree_issues(chunks, exists_, n).len() == count_false(exists_.take(n)),
    decreases n,
{
    if n > 0 {
        lemma_worktree_issues_len(chunks, exists_, n - 1);
        assert(exists_.take(n).drop_last() =~= exists_.take(n - 1));
        assert(exists_.take(n).last() == exists_[n - 1]);
    } else {
        assert(exists_.take(0) =~= Seq::<bool>::empty());
    }
}

proof fn lemma_dup_issues_len(s: Seq<Seq<char>>)
    ensures
        dup_issues(s).len() == dups_in(s),
    decreases s.len(),
{
    if s.len() > 0 {
        lemma_dup_issues_len(s.drop_last());
    }
}

/// The report's length is exactly the per-category issue count.
pub proof fn lemma_doctor_issue_count(
    state: StateV,
    branch_exists: Seq<bool>,
    worktree_exists: Seq<bool>,
    exclude_registered: bool,
    repair: bool,
)
    requires
        branch_exists.len() == state.chunks.len(),
        worktree_exists.len() == state.chunks.len(),
    ensures
        doctor_issues(state, branch_exists, worktree_exists, exclude_registered, repair).len()
            == issue_count(state, branch_exists, worktree_exists, exclude_registered, repair),
{
    lemma_branch_issues_len(state.chunks, branch_exists, state.chunks.len() as int);
    assert(branch_exists.take(state.chunks.len() as int) =~= branch_exists);
    lemma_worktree_issues_len(state.chunks, worktree_exists, state.chunks.len() as int);
    assert(worktree_exists.take(state.chunks.len() as int) =~= worktree_exists);
    lemma_dup_issues_len(flat_files(state.chunks));
}

/// Validate state consistency against observed facts. `branch_exists[i]` and
/// `worktree_exists[i]` report on the `i`-th chunk. When `repair` is set,
/// the caller registers the exclusion itself, and the report omits that
/// issue; nothing else is auto-repairable. The report is pinned message by
/// message: which chunk, branch or file each issue names, and in what order.
#[verifier::rlimit(60)]
pub fn diagnose(
    state: &MergesState,
    branch_exists: &Vec<bool>,
    worktree_exists: &Vec<bool>,
    exclude_registered: bool,
    repair: bool,
) -> (r: DoctorReport)
    requires
        branch_exists@.len() == state@.chunks.len(),
        worktree_exists@.len() == state@.chunks.len(),
    ensures
        r.issues.deep_view() == doctor_issues(
            state@,
            branch_exists@,
            worktree_exists@,
            exclude_registered,
            repair,
        ),
        r.issues@.len() == issue_count(
            state@,
            branch_exists@,
            worktree_exists@,
            exclude_registered,
            repair,
        ),
{
    let ghost sv = state@;
    let ghost bev = branch_exists@;
    let ghost wev = worktree_exists@;
    let mut issues: Vec<String> = Vec::new();
    let mut i: usize = 0;
    proof {
        assert(issues.deep_view() =~= branch_issues(sv.chunks, bev, 0));
    }
    while i < state.chunks.len()
        invariant
            i <= state.chunks.len(),
            sv == state@,
            bev == branch_exists@,
            bev.len() == sv.chunks.len(),
            issues.deep_view() == branch_issues(sv.chunks, bev, i as int),
        decreases state.chunks.len() - i,
    {
        if !branch_exists[i] {
            let mut m = String::from_str("Chunk branch '");
            m.append(state.chunks[i].branch.as_str());
            m.append("' does not exist locally.");
            let ghost old_issues = issues.deep_view();
            proof {
                assert(state.chunks@[i as int]@.branch == sv.chunks[i as int].branch);
                assert(m@ == missing_branch_issue(sv.chunks[i as int].branch));
            }
            issues.push(m);
            proof {
                assert(issues.deep_view() =~= old_issues.push(
                    missing_branch_issue(sv.chunks[i as int].branch),
                ));
                assert(issues.deep_view() =~= branch_issues(sv.chunks, bev, i + 1));
            }
        } else {
            proof {
                assert(issues.deep_view() =~= branch_issues(sv.chunks, bev, i + 1));
            }
        }
        i += 1;
    }
    let ghost part_branch = issues.deep_view();
    if state.use_worktrees {
        let mut w: usize = 0;
        proof {
            assert(issues.deep_view() =~= part_branch + worktree_issues(sv.chunks, wev, 0));
        }
        while w < state.chunks.len()
            invariant
                w <= state.chunks.len(),
                sv == state@,
                wev == worktree_exists@,
                wev.len() == sv.chunks.len(),
                issues.deep_view() == part_branch + worktree_issues(sv.chunks, wev, w as int),
            decreases state.chunks.len() - w,
        {
            if !worktree_exists[w] {
                let mut m = String::from_str("Worktree for branch '");
                m.append(state.chunks[w].branch.as_str());
                m.append("' is missing.");
                let ghost old_issues = issues.deep_view();
                proof {
                    assert(state.chunks@[w as int]@.branch == sv.chunks[w as int].branch);
                    assert(m@ == missing_worktree_issue(sv.chunks[w as int].branch));
                }
                issues.push(m);
                proof {
                    assert(issues.deep_view() =~= old_issues.push(
                        missing_worktree_issue(sv.chunks[w as int].branch),
                    ));
                    assert(issues.deep_view() =~= part_branch + worktree_issues(
                        sv.chunks,
                        wev,
                        w + 1,
                    ));
                }
            } else {
                proof {
                    assert(issues.deep_view() =~= part_branch + worktree_issues(
                        sv.chunks,
                        wev,
                        w + 1,
                    ));
                }
            }
            w += 1;
        }
    }
    let ghost part_worktree = issues.deep_view();
    if !exclude_registered && !repair {
        let m = String::from_str(
            ".merges.json is not in .git/info/exclude - it may appear as an untracked file.",
        );
        let ghost old_issues = issues.deep_view();
        proof {
            assert(m@ == exclude_issue());
        }
        issues.push(m);
        proof {
            assert(issues.deep_view() =~= old_issues.push(exclude_issue()));
        }
    }
    let ghost part_exclude = issues.deep_view();
    let mut seen: Vec<String> = Vec::new();
    let mut c: usize = 0;
    proof {
        assert(sv.chunks.take(0) =~= Seq::<ChunkV>::empty());
        assert(seen.deep_view() =~= flat_files(sv.chunks.take(0)));
        assert(issues.deep_view() =~= part_exclude + dup_issues(seen.deep_view()));
    }
    while c < state.chunks.len()
        invariant
            c <= state.chunks.len(),
            sv == state@,
            seen.deep_view() == flat_files(sv.chunks.take(c as int)),
            issues.deep_view() == part_exclude + dup_issues(seen.deep_view()),
        decreases state.chunks.len() - c,
    {
        let files_len = state.chunks[c].files.len();
        let mut k: usize = 0;
        proof {
            assert(sv.chunks[c as int].files.take(0) =~= Seq::<Seq<char>>::empty());
            assert(seen.deep_view() =~= flat_files(sv.chunks.take(c as int)) + sv.chunks[
                c as int
            ].files.take(0));
        }
        while k < files_len
            invariant
                c < state.chunks.len(),
                k <= files_len,
                sv == state@,
                files_len == sv.chunks[c as int].files.len(),
                seen.deep_view() == flat_files(sv.chunks.take(c as int)) + sv.chunks[
                    c as int
                ].files.take(k as int),
                issues.deep_view() == part_exclude + dup_issues(seen.deep_view()),
            decreases files_len - k,
        {
            let f = &state.chunks[c].files[k];
            proof {
                assert(state.chunks@[c as int]@.files == sv.chunks[c as int].files);
                assert(f@ == sv.chunks[c as int].files[k as int]);
            }
            let ghost old_seen = seen.deep_view();
            if text::vec_contains_str(&seen, f.as_str()) {
                let mut m = String::from_str("File '");
                m.append(f.as_str());
                m.append("' appears in multiple chunks (duplicate in state - possibly corrupted).");
                let ghost old_issues = issues.deep_view();
                proof {
                    assert(m@ == duplicate_issue(f@));
                }
                issues.push(m);
                proof {
                    assert(issues.deep_view() =~= old_issues.push(duplicate_issue(f@)));
                }
            }
            seen.push(f.clone());
            proof {
                assert(seen.deep_view() =~= old_seen.push(f@));
                assert(seen.deep_view().drop_last() =~= old_seen);
                assert(dup_issues(seen.deep_view()) == dup_issues(old_seen) + (
                if text::contains_str(old_seen, f@) {
                    seq![duplicate_issue(f@)]
                } else {
                    Seq::<Seq<char>>::empty()
                }));
                assert(issues.deep_view() =~= part_exclude + dup_issues(seen.deep_view()));
                assert(old_seen.push(f@) =~= flat_files(sv.chunks.take(c as int)) + sv.chunks[
                    c as int
                ].files.take(k + 1));
            }
            k += 1;
        }
        proof {
            assert(sv.chunks.take(c + 1).drop_last() =~= sv.chunks.take(c as int));
            assert(sv.chunks.take(c + 1).last() == sv.chunks[c as int]);
            assert(flat_files(sv.chunks.take(c + 1)) == flat_files(sv.chunks.take(c as int))
                + sv.chunks[c as int].files);
            assert(sv.chunks[c as int].files.take(files_len as int) =~= sv.chunks[c as int].files);
        }
        c += 1;
    }
    proof {
        assert(sv.chunks.take(sv.chunks.len() as int) =~= sv.chunks);
        assert(part_worktree =~= part_branch + (if sv.use_worktrees {
            worktree_issues(sv.chunks, wev, sv.chunks.len() as int)
        } else {
            Seq::<Seq<char>>::empty()
        }));
        assert(part_exclude =~= part_worktree + (if !exclude_registered && !repair {
            seq![exclude_issue()]
        } else {
            Seq::<Seq<char>>::empty()
        }));
        assert(issues.deep_view() =~= doctor_issues(sv, bev, wev, exclude_registered, repair));
        lemma_doctor_issue_count(sv, bev, wev, exclude_registered, repair);
    }
    DoctorReport { issues }
}

} // verus!
