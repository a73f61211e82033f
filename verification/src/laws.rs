//! The file-uniqueness invariant, proved: every mutation path preserves
//! "no file path belongs to two chunks", and the consistency checker's
//! duplicate check reports nothing if and only if that invariant holds.

use vstd::prelude::*;

use crate::doctor::dups_in;
use crate::doctor::flat_files;
use crate::group::ChunkPlanV;
use crate::mutate::assigned_elsewhere;
use crate::mutate::moved_chunks;
use crate::mutate::new_files_of;
use crate::mutate::without_file;
use crate::plan::plan_valid;
use crate::plan::planned_chunk;
use crate::state::ChunkV;
use crate::state::StateV;
use crate::state::file_assigned;
use crate::state::wf_chunks;
use crate::text;

verus! {

/// Where in the flattened file list the `c`-th chunk's files begin.
pub open spec fn flat_offset(chunks: Seq<ChunkV>, c: int) -> int
    decreases c,
{
    if c <= 0 {
        0
    } else {
        flat_offset(chunks, c - 1) + chunks[c - 1].files.len()
    }
}

proof fn lemma_flat_offset_take(chunks: Seq<ChunkV>, c: int)
    requires
        0 <= c <= chunks.len(),
    ensures
        flat_offset(chunks, c) == flat_files(chunks.take(c)).len(),
    decreases c,
{
    if c > 0 {
        lemma_flat_offset_take(chunks, c - 1);
        assert(chunks.take(c).drop_last() =~= chunks.take(c - 1));
        assert(chunks.take(c).last() == chunks[c - 1]);
    } else {
        assert(chunks.take(0) =~= Seq::<ChunkV>::empty());
    }
}

proof fn lemma_flat_of_take(chunks: Seq<ChunkV>, c: int)
    requires
        0 <= c <= chunks.len(),
    ensures
        flat_files(chunks.take(c)).len() <= flat_files(chunks).len(),
        forall|t: int|
            0 <= t < flat_files(chunks.take(c)).len() ==> #[trigger] flat_files(chunks.take(c))[t]
                == flat_files(chunks)[t],
    decreases chunks.len() - c,
{
    if c == chunks.len() {
        assert(chunks.take(c) =~= chunks);
    } else {
        lemma_flat_of_take(chunks, c + 1);
        assert(chunks.take(c + 1).drop_last() =~= chunks.take(c));
        assert(chunks.take(c + 1).last() == chunks[c]);
        assert(flat_files(chunks.take(c + 1)) == flat_files(chunks.take(c)) + chunks[c].files);
        assert forall|t: int| 0 <= t < flat_files(chunks.take(c)).len() implies #[trigger] flat_files(
            chunks.take(c),
        )[t] == flat_files(chunks)[t] by {
            assert(flat_files(chunks.take(c + 1))[t] == flat_files(chunks.take(c))[t]);
        }
    }
}

/// The flattened list holds the `k`-th file of the `c`-th chunk at offset
/// `flat_offset(chunks, c) + k`.
proof fn lemma_flat_index(chunks: Seq<ChunkV>, c: int, k: int)
    requires
        0 <= c < chunks.len(),
        0 <= k < chunks[c].files.len(),
    ensures
        0 <= flat_offset(chunks, c) + k < flat_files(chunks).len(),
        flat_files(chunks)[flat_offset(chunks, c) + k] == chunks[c].files[k],
{
    lemma_flat_offset_take(chunks, c);
    lemma_flat_offset_take(chunks, c + 1);
    lemma_flat_of_take(chunks, c + 1);
    assert(chunks.take(c + 1).drop_last() =~= chunks.take(c));
    assert(chunks.take(c + 1).last() == chunks[c]);
    let before = flat_files(chunks.take(c));
    assert(flat_files(chunks.take(c + 1)) == before + chunks[c].files);
    assert(flat_files(chunks.take(c + 1))[before.len() + k] == chunks[c].files[k]);
    assert(flat_offset(chunks, c) >= 0);
}

/// Position `t` of the flattened list is the `k`-th file of chunk `c`.
pub open spec fn flat_src(chunks: Seq<ChunkV>, c: int, k: int, t: int) -> bool {
    0 <= c < chunks.len() && 0 <= k < chunks[c].files.len() && flat_offset(chunks, c) + k == t
}

/// Every flat position comes from exactly one chunk position.
proof fn lemma_flat_inverse(chunks: Seq<ChunkV>, t: int)
    requires
        0 <= t < flat_files(chunks).len(),
    ensures
        exists|c: int, k: int| #[trigger] flat_src(chunks, c, k, t),
    decreases chunks.len(),
{
    assert(chunks.len() > 0);
    let front = chunks.drop_last();
    let c_last = chunks.len() - 1;
    lemma_flat_offset_take(chunks, c_last);
    assert(chunks.take(c_last) =~= front);
    if t < flat_files(front).len() {
        lemma_flat_inverse(front, t);
        let (c, k) = choose|c: int, k: int| #[trigger] flat_src(front, c, k, t);
        lemma_flat_offset_take(front, c);
        lemma_flat_offset_take(chunks, c);
        assert(chunks.take(c) =~= front.take(c));
        assert(flat_src(chunks, c, k, t));
    } else {
        let k = t - flat_files(front).len();
        assert(flat_src(chunks, c_last, k, t));
    }
}

proof fn lemma_flat_offset_mono(chunks: Seq<ChunkV>, c1: int, c2: int)
    requires
        0 <= c1 <= c2 <= chunks.len(),
    ensures
        flat_offset(chunks, c1) <= flat_offset(chunks, c2),
    decreases c2 - c1,
{
    if c1 < c2 {
        lemma_flat_offset_mono(chunks, c1, c2 - 1);
    }
}

/// The consistency checker's duplicate check is exact: it reports nothing
/// if and only if no file path belongs to two chunks (nor twice to one).
pub proof fn lemma_checker_exact(chunks: Seq<ChunkV>)
    ensures
        dups_in(flat_files(chunks)) == 0 <==> wf_chunks(chunks),
{
    lemma_dups_zero_iff_distinct(flat_files(chunks));
    let flat = flat_files(chunks);
    if dups_in(flat) == 0 {
        assert forall|i: int, j: int, k: int, l: int|
            0 <= i < chunks.len() && 0 <= k < chunks[i].files.len() && 0 <= j < chunks.len() && 0
                <= l < chunks[j].files.len() && (i != j || k != l) implies chunks[i].files[k]
            != chunks[j].files[l] by {
            lemma_flat_index(chunks, i, k);
            lemma_flat_index(chunks, j, l);
            let p1 = flat_offset(chunks, i) + k;
            let p2 = flat_offset(chunks, j) + l;
            if i < j {
                lemma_flat_offset_take(chunks, i + 1);
                lemma_flat_offset_take(chunks, i);
                lemma_flat_offset_mono(chunks, i + 1, j);
                assert(p1 < p2);
            } else if j < i {
                lemma_flat_offset_take(chunks, j + 1);
                lemma_flat_offset_take(chunks, j);
                lemma_flat_offset_mono(chunks, j + 1, i);
                assert(p2 < p1);
            }
            assert(p1 != p2);
        }
    }
    if wf_chunks(chunks) {
        assert forall|p1: int, p2: int| 0 <= p1 < p2 < flat.len() implies flat[p1] != flat[p2] by {
            lemma_flat_inverse(chunks, p1);
            lemma_flat_inverse(chunks, p2);
            let (c1, k1) = choose|c: int, k: int| #[trigger] flat_src(chunks, c, k, p1);
            let (c2, k2) = choose|c: int, k: int| #[trigger] flat_src(chunks, c, k, p2);
            lemma_flat_index(chunks, c1, k1);
            lemma_flat_index(chunks, c2, k2);
            assert(c1 != c2 || k1 != k2);
        }
    }
}

proof fn lemma_dups_nonneg(s: Seq<Seq<char>>)
    ensures
        dups_in(s) >= 0,
    decreases s.len(),
{
    if s.len() > 0 {
        lemma_dups_nonneg(s.drop_last());
    }
}

proof fn lemma_dups_zero_iff_distinct(s: Seq<Seq<char>>)
    ensures
        dups_in(s) == 0 <==> (forall|i: int, j: int| 0 <= i < j < s.len() ==> s[i] != s[j]),
    decreases s.len(),
{
    if s.len() == 0 {
    } else {
        let front = s.drop_last();
        lemma_dups_zero_iff_distinct(front);
        lemma_dups_nonneg(front);
        if dups_in(s) == 0 {
            assert forall|i: int, j: int| 0 <= i < j < s.len() implies s[i] != s[j] by {
                if j < s.len() - 1 {
                    assert(front[i] != front[j]);
                } else {
                    assert(!text::contains_str(front, s.last()));
                    assert(front[i] == s[i]);
                    if s[i] == s[j] {
                        assert(text::contains_str(front, s.last()));
                    }
                }
            }
        }
        if forall|i: int, j: int| 0 <= i < j < s.len() ==> s[i] != s[j] {
            assert forall|i: int, j: int| 0 <= i < j < front.len() implies front[i] != front[j] by {
                assert(s[i] != s[j]);
            }
            assert(!text::contains_str(front, s.last())) by {
                if text::contains_str(front, s.last()) {
                    let i = choose|i: int| 0 <= i < front.len() && front[i] == s.last();
                    assert(s[i] == s[s.len() - 1]);
                }
            }
        }
    }
}

/// Materializing a valid plan preserves the invariant: the old chunks plus
/// the planned ones still assign every file path at most once.
pub proof fn lemma_apply_plan_keeps_files_unique(
    state: StateV,
    plan: Seq<ChunkPlanV>,
    changed: Seq<Seq<char>>,
    new_chunks: Seq<ChunkV>,
)
    requires
        wf_chunks(state.chunks),
        plan_valid(state, plan, changed),
        new_chunks.len() == plan.len(),
        forall|t: int| 0 <= t < plan.len() ==> #[trigger] new_chunks[t] == planned_chunk(
            state,
            plan,
            t,
        ),
    ensures
        wf_chunks(state.chunks + new_chunks),
{
    let all = state.chunks + new_chunks;
    let n = state.chunks.len() as int;
    assert forall|i: int, j: int, k: int, l: int|
        0 <= i < all.len() && 0 <= k < all[i].files.len() && 0 <= j < all.len() && 0 <= l < all[
        j].files.len() && (i != j || k != l) implies all[i].files[k] != all[j].files[l] by {
        if i < n && j < n {
            assert(all[i] == state.chunks[i]);
            assert(all[j] == state.chunks[j]);
        } else if i >= n && j >= n {
            assert(all[i] == planned_chunk(state, plan, i - n));
            assert(all[j] == planned_chunk(state, plan, j - n));
            assert(plan[i - n].files[k] != plan[j - n].files[l]);
        } else if i < n && j >= n {
            assert(all[i] == state.chunks[i]);
            assert(all[j] == planned_chunk(state, plan, j - n));
            assert(!file_assigned(state.chunks, plan[j - n].files[l]));
            if all[i].files[k] == all[j].files[l] {
                assert(file_assigned(state.chunks, plan[j - n].files[l]));
            }
        } else {
            assert(all[j] == state.chunks[j]);
            assert(all[i] == planned_chunk(state, plan, i - n));
            assert(!file_assigned(state.chunks, plan[i - n].files[k]));
            if all[i].files[k] == all[j].files[l] {
                assert(file_assigned(state.chunks, plan[i - n].files[k]));
            }
        }
    }
}

proof fn lemma_new_files_members(existing: Seq<Seq<char>>, files: Seq<Seq<char>>, t: int)
    requires
        0 <= t < new_files_of(existing, files).len(),
    ensures
        !text::contains_str(existing, new_files_of(existing, files)[t]),
        text::contains_str(files, new_files_of(existing, files)[t]),
    decreases files.len(),
{
    assert(files.len() > 0);
    let rest = new_files_of(existing, files.drop_last());
    if t < rest.len() {
        lemma_new_files_members(existing, files.drop_last(), t);
        let w = choose|w: int|
            0 <= w < files.drop_last().len() && files.drop_last()[w] == rest[t];
        assert(files[w] == new_files_of(existing, files)[t]);
    } else {
        assert(!text::contains_str(existing, files.last()));
        assert(files[files.len() - 1] == new_files_of(existing, files)[t]);
    }
}

proof fn lemma_new_files_distinct(existing: Seq<Seq<char>>, files: Seq<Seq<char>>)
    ensures
        forall|t1: int, t2: int|
            0 <= t1 < t2 < new_files_of(existing, files).len() ==> new_files_of(existing, files)[
                t1
            ] != new_files_of(existing, files)[t2],
    decreases files.len(),
{
    if files.len() > 0 {
        let front = files.drop_last();
        lemma_new_files_distinct(existing, front);
        let rest = new_files_of(existing, front);
        if !text::contains_str(existing, files.last()) && !text::contains_str(
            rest,
            files.last(),
        ) {
            assert forall|t1: int, t2: int|
                0 <= t1 < t2 < new_files_of(existing, files).len() implies new_files_of(
                existing,
                files,
            )[t1] != new_files_of(existing, files)[t2] by {
                if t2 == rest.len() {
                    assert(new_files_of(existing, files)[t1] == rest[t1]);
                    if rest[t1] == files.last() {
                        assert(text::contains_str(rest, files.last()));
                    }
                }
            }
        }
    }
}

/// Adding files to one chunk preserves the invariant, provided no requested
/// file is owned by another chunk - exactly what `add_files` validates
/// before returning Ok. Files already in the target chunk, or repeated in
/// the request, are dropped, so they are harmless.
pub proof fn lemma_add_files_keeps_files_unique(
    state: StateV,
    idx: int,
    files: Seq<Seq<char>>,
)
    requires
        wf_chunks(state.chunks),
        0 <= idx < state.chunks.len(),
        forall|t: int|
            0 <= t < files.len() ==> !assigned_elsewhere(state.chunks, idx, #[trigger] files[t]),
    ensures
        wf_chunks(
            state.chunks.update(
                idx,
                (ChunkV {
                    files: state.chunks[idx].files + new_files_of(state.chunks[idx].files, files),
                    ..state.chunks[idx]
                }),
            ),
        ),
{
    let existing = state.chunks[idx].files;
    let nf = new_files_of(existing, files);
    lemma_new_files_distinct(existing, files);
    let upd = state.chunks.update(
        idx,
        (ChunkV { files: existing + nf, ..state.chunks[idx] }),
    );
    assert forall|i: int, j: int, k: int, l: int|
        0 <= i < upd.len() && 0 <= k < upd[i].files.len() && 0 <= j < upd.len() && 0 <= l < upd[
        j].files.len() && (i != j || k != l) implies upd[i].files[k] != upd[j].files[l] by {
        let en = existing.len() as int;
        if i != idx && j != idx {
            assert(upd[i] == state.chunks[i] && upd[j] == state.chunks[j]);
        } else if i == idx && j == idx {
            if k < en && l < en {
                assert(state.chunks[idx].files[k] != state.chunks[idx].files[l]);
            } else if k >= en && l >= en {
                assert(nf[k - en] != nf[l - en]);
            } else if k < en && l >= en {
                lemma_new_files_members(existing, files, l - en);
                if upd[i].files[k] == upd[j].files[l] {
                    assert(text::contains_str(existing, nf[l - en]));
                }
            } else {
                lemma_new_files_members(existing, files, k - en);
                if upd[i].files[k] == upd[j].files[l] {
                    assert(text::contains_str(existing, nf[k - en]));
                }
            }
        } else if i == idx && j != idx {
            assert(upd[j] == state.chunks[j]);
            if k < en {
                assert(state.chunks[idx].files[k] != state.chunks[j].files[l]);
            } else {
                lemma_new_files_members(existing, files, k - en);
                let w = choose|w: int| 0 <= w < files.len() && files[w] == nf[k - en];
                assert(!text::contains_str(state.chunks[j].files, files[w])) by {
                    if text::contains_str(state.chunks[j].files, files[w]) {
                        let k2 = choose|k2: int|
                            0 <= k2 < state.chunks[j].files.len() && state.chunks[j].files[k2]
                                == files[w];
                        assert(state.chunks[j].files[k2] == files[w]);
                        assert(assigned_elsewhere(state.chunks, idx, files[w]));
                    }
                }
                if upd[i].files[k] == upd[j].files[l] {
                    assert(text::contains_str(state.chunks[j].files, files[w]));
                }
            }
        } else {
            assert(upd[i] == state.chunks[i]);
            if l < en {
                assert(state.chunks[i].files[k] != state.chunks[idx].files[l]);
            } else {
                lemma_new_files_members(existing, files, l - en);
                let w = choose|w: int| 0 <= w < files.len() && files[w] == nf[l - en];
                assert(!text::contains_str(state.chunks[i].files, files[w])) by {
                    if text::contains_str(state.chunks[i].files, files[w]) {
                        let k2 = choose|k2: int|
                            0 <= k2 < state.chunks[i].files.len() && state.chunks[i].files[k2]
                                == files[w];
                        assert(state.chunks[i].files[k2] == files[w]);
                        assert(assigned_elsewhere(state.chunks, idx, files[w]));
                    }
                }
                if upd[i].files[k] == upd[j].files[l] {
                    assert(text::contains_str(state.chunks[i].files, files[w]));
                }
            }
        }
    }
}

proof fn lemma_without_file_members(files: Seq<Seq<char>>, f: Seq<char>, t: int)
    requires
        0 <= t < without_file(files, f).len(),
    ensures
        without_file(files, f)[t] != f,
        text::contains_str(files, without_file(files, f)[t]),
    decreases files.len(),
{
    assert(files.len() > 0);
    let rest = without_file(files.drop_last(), f);
    if t < rest.len() {
        lemma_without_file_members(files.drop_last(), f, t);
        let w = choose|w: int|
            0 <= w < files.drop_last().len() && files.drop_last()[w] == rest[t];
        assert(files[w] == without_file(files, f)[t]);
    } else {
        assert(files[files.len() - 1] == without_file(files, f)[t]);
    }
}

proof fn lemma_without_file_distinct(files: Seq<Seq<char>>, f: Seq<char>)
    requires
        forall|t1: int, t2: int| 0 <= t1 < t2 < files.len() ==> files[t1] != files[t2],
    ensures
        forall|t1: int, t2: int|
            0 <= t1 < t2 < without_file(files, f).len() ==> without_file(files, f)[t1]
                != without_file(files, f)[t2],
    decreases files.len(),
{
    if files.len() > 0 {
        let front = files.drop_last();
        assert forall|t1: int, t2: int| 0 <= t1 < t2 < front.len() implies front[t1]
            != front[t2] by {
            assert(files[t1] != files[t2]);
        }
        lemma_without_file_distinct(front, f);
        let rest = without_file(front, f);
        if files.last() != f {
            assert forall|t1: int, t2: int|
                0 <= t1 < t2 < without_file(files, f).len() implies without_file(files, f)[t1]
                != without_file(files, f)[t2] by {
                if t2 == rest.len() {
                    lemma_without_file_members(front, f, t1);
                    let w = choose|w: int| 0 <= w < front.len() && front[w] == rest[t1];
                    assert(files[w] == rest[t1]);
                    assert(files[w] != files.last());
                }
            }
        }
    }
}

/// Moving a file between two chunks preserves the invariant.
pub proof fn lemma_move_file_keeps_files_unique(
    chunks: Seq<ChunkV>,
    fi: int,
    ti: int,
    f: Seq<char>,
)
    requires
        wf_chunks(chunks),
        0 <= fi < chunks.len(),
        0 <= ti < chunks.len(),
        text::contains_str(chunks[fi].files, f),
    ensures
        wf_chunks(moved_chunks(chunks, fi, ti, f)),
{
    let c1 = chunks.update(
        fi,
        ChunkV { files: without_file(chunks[fi].files, f), ..chunks[fi] },
    );
    assert forall|t1: int, t2: int| 0 <= t1 < t2 < chunks[fi].files.len() implies chunks[
        fi
    ].files[t1] != chunks[fi].files[t2] by {}
    lemma_without_file_distinct(chunks[fi].files, f);
    assert(wf_chunks(c1)) by {
        assert forall|i: int, j: int, k: int, l: int|
            0 <= i < c1.len() && 0 <= k < c1[i].files.len() && 0 <= j < c1.len() && 0 <= l < c1[
            j].files.len() && (i != j || k != l) implies c1[i].files[k] != c1[j].files[l] by {
            if i == fi && j == fi {
            } else if i == fi {
                lemma_without_file_members(chunks[fi].files, f, k);
                let w = choose|w: int|
                    0 <= w < chunks[fi].files.len() && chunks[fi].files[w] == c1[i].files[k];
                assert(chunks[fi].files[w] != chunks[j].files[l]);
            } else if j == fi {
                lemma_without_file_members(chunks[fi].files, f, l);
                let w = choose|w: int|
                    0 <= w < chunks[fi].files.len() && chunks[fi].files[w] == c1[j].files[l];
                assert(chunks[i].files[k] != chunks[fi].files[w]);
            } else {
                assert(chunks[i].files[k] != chunks[j].files[l]);
            }
        }
    }
    if !text::contains_str(c1[ti].files, f) {
        let c2 = c1.update(ti, ChunkV { files: c1[ti].files.push(f), ..c1[ti] });
        // f no longer occurs anywhere in c1
        assert forall|j: int, l: int|
            #![trigger c1[j].files[l]]
            0 <= j < c1.len() && 0 <= l < c1[j].files.len() implies c1[j].files[l] != f by {
            if j == fi {
                lemma_without_file_members(chunks[fi].files, f, l);
            } else {
                let k0 = choose|k0: int|
                    0 <= k0 < chunks[fi].files.len() && chunks[fi].files[k0] == f;
                if c1[j].files[l] == f {
                    assert(chunks[j].files[l] == chunks[fi].files[k0]);
                }
            }
        }
        assert forall|i: int, j: int, k: int, l: int|
            0 <= i < c2.len() && 0 <= k < c2[i].files.len() && 0 <= j < c2.len() && 0 <= l < c2[
            j].files.len() && (i != j || k != l) implies c2[i].files[k] != c2[j].files[l] by {
            let tn = c1[ti].files.len() as int;
            if i == ti && k == tn {
                if j == ti && l < tn {
                    assert(c2[j].files[l] == c1[ti].files[l]);
                    if c2[i].files[k] == c2[j].files[l] {
                        assert(text::contains_str(c1[ti].files, f));
                    }
                } else if j != ti {
                    assert(c2[j].files[l] == c1[j].files[l]);
                    assert(c1[j].files[l] != f);
                }
            } else if j == ti && l == tn {
                if i == ti && k < tn {
                    assert(c2[i].files[k] == c1[ti].files[k]);
                    if c2[i].files[k] == c2[j].files[l] {
                        assert(text::contains_str(c1[ti].files, f));
                    }
                } else if i != ti {
                    assert(c2[i].files[k] == c1[i].files[k]);
                    assert(c1[i].files[k] != f);
                }
            } else {
                assert(c2[i].files[k] == c1[i].files[k]);
                assert(c2[j].files[l] == c1[j].files[l]);
                assert(c1[i].files[k] != c1[j].files[l]);
            }
        }
    }
}

} // verus!
