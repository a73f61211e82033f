//! The grouping planner: a pure function from the list of changed file paths
//! to a deterministic set of named candidate chunks, keyed by directory
//! structure. When all files share a single top-level directory the second
//! path segment is used instead, so a repository whose changes all live under
//! one umbrella directory still splits meaningfully.

use vstd::prelude::*;
use vstd::string::StrSliceExecFns;
use vstd::string::StringExecFns;

use crate::remote::first_slash;
use crate::text;

verus! {

broadcast use vstd::seq_lib::group_to_multiset_ensures;

/// One entry of a chunk plan: a name and the files the chunk should contain.
#[derive(Debug)]
pub struct ChunkPlan {
    pub name: String,
    pub files: Vec<String>,
}

/// Mathematical image of a [`ChunkPlan`].
pub struct ChunkPlanV {
    pub name: Seq<char>,
    pub files: Seq<Seq<char>>,
}

impl View for ChunkPlan {
    type V = ChunkPlanV;

    open spec fn view(&self) -> ChunkPlanV {
        ChunkPlanV { name: self.name@, files: self.files.deep_view() }
    }
}

impl DeepView for ChunkPlan {
    type V = ChunkPlanV;

    open spec fn deep_view(&self) -> ChunkPlanV {
        self.view()
    }
}

/// `first_slash` always lands between `0` and the length of its argument.
pub proof fn lemma_first_slash_bounds(s: Seq<char>)
    ensures
        0 <= first_slash(s) <= s.len(),
    decreases s.len(),
{
    if s.len() != 0 && s[0] != '/' {
        lemma_first_slash_bounds(s.drop_first());
    }
}

/// The non-empty `/`-separated segments of a path.
pub open spec fn segments(s: Seq<char>) -> Seq<Seq<char>>
    decreases s.len(),
    via segments_decreases
{
    let i = first_slash(s);
    if i == s.len() {
        if s.len() == 0 {
            Seq::empty()
        } else {
            seq![s]
        }
    } else {
        if i == 0 {
            segments(s.skip(1))
        } else {
            seq![s.take(i)] + segments(s.skip(i + 1))
        }
    }
}

#[via_fn]
proof fn segments_decreases(s: Seq<char>) {
    lemma_first_slash_bounds(s);
}

/// The first path segment when the path has a directory part, else `root`.
pub open spec fn top_dir_spec(f: Seq<char>) -> Seq<char> {
    if segments(f).len() <= 1 {
        "root"@
    } else {
        segments(f)[0]
    }
}

/// The group a file falls into: `root` for bare filenames, the directory for
/// two-segment paths, and for deeper paths the first or second segment
/// depending on `use_second`.
pub open spec fn grouping_key_spec(f: Seq<char>, use_second: bool) -> Seq<char> {
    let segs = segments(f);
    if segs.len() <= 1 {
        "root"@
    } else if segs.len() == 2 {
        segs[0]
    } else if use_second {
        segs[1]
    } else {
        segs[0]
    }
}

/// The non-empty `/`-separated segments of `f`, as strings.
fn path_segments(f: &str) -> (r: Vec<String>)
    ensures
        r.deep_view() == segments(f@),
{
    let len = f.unicode_len();
    let mut r: Vec<String> = Vec::new();
    let mut pos: usize = 0;
    proof {
        assert(f@.skip(0) =~= f@);
        assert(r.deep_view() + segments(f@.skip(0)) =~= segments(f@));
    }
    loop
        invariant
            pos <= len,
            len == f@.len(),
            segments(f@) == r.deep_view() + segments(f@.skip(pos as int)),
        ensures
            r.deep_view() == segments(f@),
        decreases len - pos,
    {
        let ghost tail = f@.skip(pos as int);
        let mut j: usize = pos;
        loop
            invariant
                pos <= j <= len,
                len == f@.len(),
                forall|t: int| pos <= t < j ==> f@[t] != '/',
            ensures
                pos <= j <= len,
                len == f@.len(),
                forall|t: int| pos <= t < j ==> f@[t] != '/',
                j < len ==> f@[j as int] == '/',
            decreases len - j,
        {
            if j == len {
                break;
            }
            if f.get_char(j) == '/' {
                break;
            }
            j += 1;
        }
        proof {
            lemma_first_slash_at(tail, j - pos);
        }
        if j == len {
            if j > pos {
                let seg = f.substring_char(pos, j);
                proof {
                    assert(seg@ =~= tail);
                    assert(segments(tail) == seq![tail]);
                }
                let segs = String::from_str(seg);
                let ghost old_r = r.deep_view();
                r.push(segs);
                proof {
                    assert(r.deep_view() =~= old_r.push(tail));
                    assert(old_r.push(tail) =~= old_r + seq![tail]);
                    assert(f@.skip(len as int) =~= Seq::<char>::empty());
                    assert(r.deep_view() + segments(f@.skip(len as int)) =~= segments(f@));
                }
            } else {
                proof {
                    assert(tail =~= Seq::<char>::empty());
                    assert(r.deep_view() + segments(tail) =~= r.deep_view());
                }
            }
            pos = j;
            break;
        }
        if j == pos {
            proof {
                assert(segments(tail) == segments(tail.skip(1)));
                assert(tail.skip(1) =~= f@.skip(pos + 1));
            }
            pos = j + 1;
        } else {
            let seg = f.substring_char(pos, j);
            proof {
                assert(seg@ =~= tail.take(j - pos));
                assert(segments(tail) == seq![tail.take(j - pos)] + segments(
                    tail.skip(j - pos + 1),
                ));
                assert(tail.skip(j - pos + 1) =~= f@.skip(j + 1));
            }
            let segs = String::from_str(seg);
            let ghost old_r = r.deep_view();
            r.push(segs);
            proof {
                assert(r.deep_view() =~= old_r.push(tail.take(j - pos)));
                assert(old_r.push(tail.take(j - pos)) =~= old_r + seq![tail.take(j - pos)]);
                assert(r.deep_view() + segments(f@.skip(j + 1)) =~= segments(f@));
            }
            pos = j + 1;
        }
    }
    proof {
        assert(f@.skip(pos as int).len() == 0 ==> segments(f@.skip(pos as int)) =~= Seq::<
            Seq<char>,
        >::empty());
    }
    r
}

/// `first_slash(s) == i` when the characters before `i` are slash-free and
/// `i` is a slash or the end.
proof fn lemma_first_slash_at(s: Seq<char>, i: int)
    requires
        0 <= i <= s.len(),
        forall|j: int| 0 <= j < i ==> s[j] != '/',
        i < s.len() ==> s[i] == '/',
    ensures
        first_slash(s) == i,
    decreases s.len(),
{
    if s.len() == 0 {
    } else if s[0] == '/' {
        assert(i == 0);
    } else {
        assert(i > 0);
        lemma_first_slash_at(s.drop_first(), i - 1);
    }
}

/// Return the first path component, or `root` for files with no parent
/// directory.
pub fn top_dir(f: &str) -> (r: String)
    ensures
        r@ == top_dir_spec(f@),
{
    let segs = path_segments(f);
    if segs.len() >= 2 {
        let r = segs[0].clone();
        proof {
            assert(r@ == segs.deep_view()[0]);
        }
        r
    } else {
        String::from_str("root")
    }
}

/// Choose the grouping key for a file.
pub fn grouping_key(f: &str, use_second: bool) -> (r: String)
    ensures
        r@ == grouping_key_spec(f@, use_second),
{
    let segs = path_segments(f);
    if segs.len() <= 1 {
        String::from_str("root")
    } else if segs.len() == 2 {
        let r = segs[0].clone();
        proof {
            assert(r@ == segs.deep_view()[0]);
        }
        r
    } else if use_second {
        let r = segs[1].clone();
        proof {
            assert(r@ == segs.deep_view()[1]);
        }
        r
    } else {
        let r = segs[0].clone();
        proof {
            assert(r@ == segs.deep_view()[0]);
        }
        r
    }
}

/// `t` is the single top-level directory: not `root`, some file lies under
/// it, and every file lies under it or at the root.
pub open spec fn top_witness(files: Seq<Seq<char>>, t: Seq<char>) -> bool {
    &&& t != "root"@
    &&& exists|i: int| 0 <= i < files.len() && #[trigger] top_dir_spec(files[i]) == t
    &&& forall|i: int|
        0 <= i < files.len() ==> #[trigger] top_dir_spec(files[i]) == t || top_dir_spec(files[i])
            == "root"@
}

/// Exactly one distinct non-root top-level directory occurs among `files`.
pub open spec fn single_non_root_top(files: Seq<Seq<char>>) -> bool {
    exists|t: Seq<char>| #[trigger] top_witness(files, t)
}

/// The files whose grouping key is `k`, in input order.
pub open spec fn files_with_key(files: Seq<Seq<char>>, k: Seq<char>, second: bool) -> Seq<
    Seq<char>,
>
    decreases files.len(),
{
    if files.len() == 0 {
        Seq::empty()
    } else {
        let rest = files_with_key(files.drop_last(), k, second);
        if grouping_key_spec(files.last(), second) == k {
            rest.push(files.last())
        } else {
            rest
        }
    }
}

proof fn lemma_files_with_key_step(files: Seq<Seq<char>>, k: Seq<char>, second: bool, j: int)
    requires
        0 <= j < files.len(),
    ensures
        files_with_key(files.take(j + 1), k, second) == (if grouping_key_spec(files[j], second)
            == k {
            files_with_key(files.take(j), k, second).push(files[j])
        } else {
            files_with_key(files.take(j), k, second)
        }),
{
    assert(files.take(j + 1).drop_last() =~= files.take(j));
    assert(files.take(j + 1).last() == files[j]);
}

proof fn lemma_files_with_key_contains(files: Seq<Seq<char>>, k: Seq<char>, second: bool, j: int)
    requires
        0 <= j < files.len(),
        grouping_key_spec(files[j], second) == k,
    ensures
        files_with_key(files, k, second).contains(files[j]),
    decreases files.len(),
{
    if j == files.len() - 1 {
        let rest = files_with_key(files.drop_last(), k, second);
        assert(files_with_key(files, k, second)[rest.len() as int] == files[j]);
    } else {
        lemma_files_with_key_contains(files.drop_last(), k, second, j);
        let rest = files_with_key(files.drop_last(), k, second);
        let idx = choose|i: int| 0 <= i < rest.len() && rest[i] == files.drop_last()[j];
        assert(files_with_key(files, k, second)[idx] == files[j]);
    }
}

proof fn lemma_files_with_key_members(files: Seq<Seq<char>>, k: Seq<char>, second: bool, i: int)
    requires
        0 <= i < files_with_key(files, k, second).len(),
    ensures
        grouping_key_spec(files_with_key(files, k, second)[i], second) == k,
        files.contains(files_with_key(files, k, second)[i]),
    decreases files.len(),
{
    if files.len() > 0 {
        let rest = files_with_key(files.drop_last(), k, second);
        if i < rest.len() {
            lemma_files_with_key_members(files.drop_last(), k, second, i);
            let idx = choose|j: int|
                0 <= j < files.drop_last().len() && files.drop_last()[j] == rest[i];
            assert(files[idx] == files_with_key(files, k, second)[i]);
        } else {
            assert(files[files.len() - 1] == files_with_key(files, k, second)[i]);
        }
    }
}

/// Weakly sorted in the lexicographic order.
pub open spec fn sorted_strs(s: Seq<Seq<char>>) -> bool {
    forall|i: int, j: int| 0 <= i < j < s.len() ==> text::lex_le(s[i], s[j])
}

/// Strictly sorted: ordered and free of repeats.
pub open spec fn strictly_sorted_strs(s: Seq<Seq<char>>) -> bool {
    forall|i: int, j: int| 0 <= i < j < s.len() ==> text::lex_le(s[i], s[j]) && s[i] != s[j]
}

/// What `auto_group_files` guarantees of its result: one group per distinct
/// grouping key, groups named in strictly increasing order, each group
/// holding exactly the input files with its key, sorted; every input file's
/// key names some group.
pub open spec fn is_auto_grouping(files: Seq<Seq<char>>, groups: Seq<ChunkPlanV>) -> bool {
    let second = single_non_root_top(files);
    &&& (groups.len() == 0 <==> files.len() == 0)
    &&& forall|a: int, b: int|
        0 <= a < b < groups.len() ==> text::lex_le(
            (#[trigger] groups[a]).name,
            (#[trigger] groups[b]).name,
        ) && groups[a].name != groups[b].name
    &&& forall|g: int| 0 <= g < groups.len() ==> (#[trigger] groups[g].files).len() > 0
    &&& forall|g: int| 0 <= g < groups.len() ==> sorted_strs(#[trigger] groups[g].files)
    &&& forall|g: int|
        0 <= g < groups.len() ==> (#[trigger] groups[g].files).to_multiset() == files_with_key(
            files,
            groups[g].name,
            second,
        ).to_multiset()
    &&& forall|i: int|
        0 <= i < files.len() ==> exists|g: int|
            0 <= g < groups.len() && groups[g].name == #[trigger] grouping_key_spec(
                files[i],
                second,
            )
}

/// `x` is the grouping key of one of the first `n` files.
pub open spec fn key_from(files: Seq<Seq<char>>, n: int, x: Seq<char>, second: bool) -> bool {
    exists|j: int| 0 <= j < n && x == #[trigger] grouping_key_spec(files[j], second)
}

/// Decide whether grouping should look one level deeper: true exactly when
/// the changed files share a single non-root top-level directory.
fn compute_use_second(files: &Vec<String>) -> (r: bool)
    ensures
        r == single_non_root_top(files.deep_view()),
{
    let ghost fv = files.deep_view();
    let mut tops: Vec<String> = Vec::new();
    let mut i: usize = 0;
    while i < files.len()
        invariant
            i <= files.len(),
            fv == files.deep_view(),
            forall|t1: int, t2: int|
                0 <= t1 < t2 < tops.len() ==> tops.deep_view()[t1] != tops.deep_view()[t2],
            forall|t: int|
                0 <= t < tops.len() ==> tops.deep_view()[t] != "root"@ && exists|j: int|
                    0 <= j < i && #[trigger] top_dir_spec(fv[j]) == tops.deep_view()[t],
            forall|j: int|
                0 <= j < i ==> #[trigger] top_dir_spec(fv[j]) == "root"@ || text::contains_str(
                    tops.deep_view(),
                    top_dir_spec(fv[j]),
                ),
        decreases files.len() - i,
    {
        let t = top_dir(files[i].as_str());
        if !text::str_eq(t.as_str(), "root") {
            if !text::vec_contains_str(&tops, t.as_str()) {
                let ghost old_tops = tops.deep_view();
                tops.push(t);
                proof {
                    assert(tops.deep_view() =~= old_tops.push(top_dir_spec(fv[i as int])));
                    assert(tops.deep_view()[old_tops.len() as int] == top_dir_spec(fv[i as int]));
                    assert forall|x: Seq<char>|
                        text::contains_str(old_tops, x) implies #[trigger] text::contains_str(
                        tops.deep_view(),
                        x,
                    ) by {
                        let w = choose|w: int| 0 <= w < old_tops.len() && old_tops[w] == x;
                        assert(tops.deep_view()[w] == x);
                    }
                }
            }
        }
        i += 1;
    }
    let r = tops.len() == 1;
    proof {
        let td = tops.deep_view();
        if tops.len() == 1 {
            assert(top_witness(fv, td[0]));
        } else if tops.len() == 0 {
            if single_non_root_top(fv) {
                let t = choose|t: Seq<char>| top_witness(fv, t);
                let j = choose|j: int| 0 <= j < fv.len() && top_dir_spec(fv[j]) == t;
                assert(text::contains_str(td, top_dir_spec(fv[j])));
            }
        } else {
            if single_non_root_top(fv) {
                let t = choose|t: Seq<char>| top_witness(fv, t);
                let j0 = choose|j: int| 0 <= j < fv.len() && top_dir_spec(fv[j]) == td[0];
                let j1 = choose|j: int| 0 <= j < fv.len() && top_dir_spec(fv[j]) == td[1];
                assert(top_dir_spec(fv[j0]) == t);
                assert(top_dir_spec(fv[j1]) == t);
                assert(td[0] == td[1]);
            }
        }
    }
    r
}

/// Insert `k` into a strictly sorted vector, keeping it strictly sorted;
/// a present key is left alone.
fn insert_sorted_distinct(keys: &mut Vec<String>, k: String)
    requires
        strictly_sorted_strs(old(keys).deep_view()),
    ensures
        strictly_sorted_strs(final(keys).deep_view()),
        text::contains_str(final(keys).deep_view(), k@),
        forall|x: Seq<char>|
            #[trigger] text::contains_str(final(keys).deep_view(), x) <==> (text::contains_str(
                old(keys).deep_view(),
                x,
            ) || x == k@),
{
    let ghost dv = keys.deep_view();
    let mut p: usize = 0;
    loop
        invariant
            p <= keys.len(),
            keys.deep_view() == dv,
            strictly_sorted_strs(dv),
            forall|j: int| 0 <= j < p ==> text::lex_le(dv[j], k@) && dv[j] != k@,
        ensures
            p <= keys.len(),
            keys.deep_view() == dv,
            forall|j: int| 0 <= j < p ==> text::lex_le(dv[j], k@) && dv[j] != k@,
            p < dv.len() ==> (dv[p as int] == k@ || !text::lex_le(dv[p as int], k@)),
        decreases keys.len() - p,
    {
        if p == keys.len() {
            break;
        }
        if text::str_eq(keys[p].as_str(), k.as_str()) {
            break;
        }
        if !text::str_lex_le(keys[p].as_str(), k.as_str()) {
            break;
        }
        p += 1;
    }
    if p < keys.len() && text::str_eq(keys[p].as_str(), k.as_str()) {
        proof {
            assert(text::contains_str(dv, k@));
            assert(forall|x: Seq<char>|
                #[trigger] text::contains_str(dv, x) <==> (text::contains_str(dv, x) || x == k@));
        }
        return ;
    }
    proof {
        assert forall|j: int| p <= j < dv.len() implies text::lex_le(k@, dv[j]) && k@ != dv[j] by {
            text::lex_le_total(dv[p as int], k@);
            if j > p {
                text::lex_le_trans(k@, dv[p as int], dv[j]);
                if k@ == dv[j] {
                    text::lex_le_antisymm(dv[p as int], dv[j]);
                }
            }
        }
    }
    keys.insert(p, k);
    proof {
        let dv2 = keys.deep_view();
        assert(dv2 =~= dv.insert(p as int, k@));
        assert forall|i: int, j: int| 0 <= i < j < dv2.len() implies text::lex_le(dv2[i], dv2[j])
            && dv2[i] != dv2[j] by {
            if i < p && j < p {
            } else if i < p && j == p {
            } else if i == p {
            } else if i < p && j > p {
            } else {
            }
        }
        assert(dv2[p as int] == k@);
        assert(text::contains_str(dv2, k@));
        assert forall|x: Seq<char>| #[trigger] text::contains_str(dv2, x) implies (
        text::contains_str(dv, x) || x == k@) by {
            let i = choose|i: int| 0 <= i < dv2.len() && dv2[i] == x;
            if i < p {
                assert(dv[i] == x);
            } else if i > p {
                assert(dv[i - 1] == x);
            }
        }
        assert forall|x: Seq<char>| (text::contains_str(dv, x) || x == k@) implies #[trigger] text::contains_str(
            dv2,
            x,
        ) by {
            if text::contains_str(dv, x) {
                let i = choose|i: int| 0 <= i < dv.len() && dv[i] == x;
                if i < p {
                    assert(dv2[i] == x);
                } else {
                    assert(dv2[i + 1] == x);
                }
            }
        }
    }
}

/// Insertion sort over the lexicographic order.
fn sort_strings(v: Vec<String>) -> (r: Vec<String>)
    ensures
        r.deep_view().to_multiset() == v.deep_view().to_multiset(),
        sorted_strs(r.deep_view()),
{
    let ghost vd = v.deep_view();
    let mut r: Vec<String> = Vec::new();
    let mut i: usize = 0;
    proof {
        assert(vd.take(0) =~= Seq::<Seq<char>>::empty());
        assert(r.deep_view() =~= vd.take(0));
    }
    while i < v.len()
        invariant
            i <= v.len(),
            vd == v.deep_view(),
            sorted_strs(r.deep_view()),
            r.deep_view().to_multiset() == vd.take(i as int).to_multiset(),
        decreases v.len() - i,
    {
        let x = v[i].clone();
        let ghost rd = r.deep_view();
        let mut p: usize = 0;
        loop
            invariant
                p <= r.len(),
                r.deep_view() == rd,
                forall|j: int| 0 <= j < p ==> text::lex_le(rd[j], x@),
            ensures
                p <= r.len(),
                r.deep_view() == rd,
                forall|j: int| 0 <= j < p ==> text::lex_le(rd[j], x@),
                p < rd.len() ==> !text::lex_le(rd[p as int], x@),
            decreases r.len() - p,
        {
            if p == r.len() {
                break;
            }
            if !text::str_lex_le(r[p].as_str(), x.as_str()) {
                break;
            }
            p += 1;
        }
        proof {
            assert(x@ == vd[i as int]);
        }
        r.insert(p, x);
        proof {
            let rd2 = r.deep_view();
            assert(rd2 =~= rd.insert(p as int, vd[i as int]));
            assert forall|a: int, b: int| 0 <= a < b < rd2.len() implies text::lex_le(
                rd2[a],
                rd2[b],
            ) by {
                if a < p && b == p {
                } else if a == p && b > p {
                    text::lex_le_total(rd[p as int], vd[i as int]);
                    if b - 1 > p {
                        text::lex_le_trans(vd[i as int], rd[p as int], rd[b - 1]);
                    }
                } else {
                }
            }
            assert(vd.take(i + 1).drop_last() =~= vd.take(i as int));
            assert(vd.take(i + 1) =~= vd.take(i as int).push(vd[i as int]));
        }
        i += 1;
    }
    proof {
        assert(vd.take(v.len() as int) =~= vd);
    }
    r
}

/// Group `files` into chunks by directory structure: one chunk per distinct
/// grouping key, alphabetical, each chunk's files sorted, every input file
/// in the chunk its key names. Empty input yields no chunks.
#[verifier::rlimit(80)]
pub fn auto_group_files(files: &Vec<String>) -> (r: Vec<ChunkPlan>)
    ensures
        is_auto_grouping(files.deep_view(), r.deep_view()),
{
    let ghost fv = files.deep_view();
    if files.len() == 0 {
        let r: Vec<ChunkPlan> = Vec::new();
        proof {
            assert(r.deep_view() =~= Seq::<ChunkPlanV>::empty());
        }
        return r;
    }
    let second = compute_use_second(files);
    let mut keys: Vec<String> = Vec::new();
    let mut i: usize = 0;
    while i < files.len()
        invariant
            i <= files.len(),
            fv == files.deep_view(),
            second == single_non_root_top(fv),
            strictly_sorted_strs(keys.deep_view()),
            forall|t: int|
                0 <= t < keys.deep_view().len() ==> #[trigger] key_from(
                    fv,
                    i as int,
                    keys.deep_view()[t],
                    second,
                ),
            forall|j: int|
                0 <= j < i ==> text::contains_str(
                    keys.deep_view(),
                    #[trigger] grouping_key_spec(fv[j], second),
                ),
        decreases files.len() - i,
    {
        let k = grouping_key(files[i].as_str(), second);
        let ghost kv = k@;
        let ghost okd = keys.deep_view();
        proof {
            assert(kv == grouping_key_spec(fv[i as int], second));
        }
        insert_sorted_distinct(&mut keys, k);
        proof {
            let nd = keys.deep_view();
            assert forall|t: int| 0 <= t < nd.len() implies #[trigger] key_from(
                fv,
                i + 1,
                nd[t],
                second,
            ) by {
                assert(text::contains_str(nd, nd[t]));
                if text::contains_str(okd, nd[t]) {
                    let w = choose|w: int| 0 <= w < okd.len() && okd[w] == nd[t];
                    assert(key_from(fv, i as int, okd[w], second));
                    let j = choose|j: int|
                        0 <= j < i && okd[w] == #[trigger] grouping_key_spec(fv[j], second);
                    assert(nd[t] == grouping_key_spec(fv[j], second));
                } else {
                    assert(nd[t] == kv);
                    assert(nd[t] == grouping_key_spec(fv[i as int], second));
                }
            }
            assert forall|j: int| 0 <= j < i + 1 implies text::contains_str(
                nd,
                #[trigger] grouping_key_spec(fv[j], second),
            ) by {
                if j < i {
                    assert(text::contains_str(okd, grouping_key_spec(fv[j], second)));
                }
            }
        }
        i += 1;
    }
    let ghost kd = keys.deep_view();
    let mut r: Vec<ChunkPlan> = Vec::new();
    let mut g: usize = 0;
    proof {
        assert(r.deep_view() =~= Seq::<ChunkPlanV>::empty());
    }
    while g < keys.len()
        invariant
            g <= keys.len(),
            fv == files.deep_view(),
            kd == keys.deep_view(),
            second == single_non_root_top(fv),
            strictly_sorted_strs(kd),
            forall|t: int|
                0 <= t < kd.len() ==> #[trigger] key_from(fv, fv.len() as int, kd[t], second),
            forall|j: int|
                0 <= j < fv.len() ==> text::contains_str(
                    kd,
                    #[trigger] grouping_key_spec(fv[j], second),
                ),
            r.deep_view().len() == g,
            forall|t: int| 0 <= t < g ==> (#[trigger] r.deep_view()[t]).name == kd[t],
            forall|t: int|
                0 <= t < g ==> (#[trigger] r.deep_view()[t]).files.to_multiset() == files_with_key(
                    fv,
                    kd[t],
                    second,
                ).to_multiset(),
            forall|t: int| 0 <= t < g ==> sorted_strs((#[trigger] r.deep_view()[t]).files),
            forall|t: int| 0 <= t < g ==> (#[trigger] r.deep_view()[t]).files.len() > 0,
        decreases keys.len() - g,
    {
        let ghost key = kd[g as int];
        let mut acc: Vec<String> = Vec::new();
        let mut j: usize = 0;
        proof {
            assert(fv.take(0) =~= Seq::<Seq<char>>::empty());
            assert(acc.deep_view() =~= files_with_key(fv.take(0), key, second));
        }
        while j < files.len()
            invariant
                j <= files.len(),
                fv == files.deep_view(),
                kd == keys.deep_view(),
                g < keys.len(),
                key == kd[g as int],
                second == single_non_root_top(fv),
                acc.deep_view() == files_with_key(fv.take(j as int), key, second),
            decreases files.len() - j,
        {
            let fk = grouping_key(files[j].as_str(), second);
            proof {
                lemma_files_with_key_step(fv, key, second, j as int);
            }
            if text::str_eq(fk.as_str(), keys[g].as_str()) {
                let ghost old_acc = acc.deep_view();
                acc.push(files[j].clone());
                proof {
                    assert(acc.deep_view() =~= old_acc.push(fv[j as int]));
                }
            }
            j += 1;
        }
        proof {
            assert(fv.take(files.len() as int) =~= fv);
        }
        let sorted_files = sort_strings(acc);
        let name = keys[g].clone();
        let ghost old_r = r.deep_view();
        r.push(ChunkPlan { name, files: sorted_files });
        proof {
            assert(r.deep_view() =~= old_r.push(
                ChunkPlanV { name: key, files: r.deep_view()[g as int].files },
            ));
            assert(key_from(fv, fv.len() as int, kd[g as int], second));
            let jw = choose|jw: int|
                0 <= jw < fv.len() && kd[g as int] == #[trigger] grouping_key_spec(
                    fv[jw],
                    second,
                );
            lemma_files_with_key_contains(fv, key, second, jw);
            let m = files_with_key(fv, key, second);
            assert(m.to_multiset().count(fv[jw]) > 0);
            assert(r.deep_view()[g as int].files.len() == r.deep_view()[
                g as int
            ].files.to_multiset().len());
            assert(m.len() == m.to_multiset().len());
        }
        g += 1;
    }
    proof {
        let rd = r.deep_view();
        assert forall|a: int, b: int| 0 <= a < b < rd.len() implies text::lex_le(
            (#[trigger] rd[a]).name,
            (#[trigger] rd[b]).name,
        ) && rd[a].name != rd[b].name by {
            assert(rd[a].name == kd[a]);
            assert(rd[b].name == kd[b]);
        }
        assert forall|i2: int| 0 <= i2 < fv.len() implies exists|gg: int|
            0 <= gg < rd.len() && rd[gg].name == #[trigger] grouping_key_spec(fv[i2], second) by {
            let t = choose|t: int|
                0 <= t < kd.len() && kd[t] == grouping_key_spec(fv[i2], second);
            assert(rd[t].name == grouping_key_spec(fv[i2], second));
        }
        assert(rd.len() > 0) by {
            assert(text::contains_str(kd, grouping_key_spec(fv[0], second)));
        }
        assert(forall|gg: int| 0 <= gg < rd.len() ==> (#[trigger] rd[gg].files).len() > 0);
        assert(forall|gg: int| 0 <= gg < rd.len() ==> sorted_strs(#[trigger] rd[gg].files));
        assert(forall|gg: int|
            0 <= gg < rd.len() ==> (#[trigger] rd[gg].files).to_multiset() == files_with_key(
                fv,
                rd[gg].name,
                second,
            ).to_multiset());
    }
    r
}

/// Every input file lands in exactly one output group: some group's files
/// contain it, and any two groups containing it are the same group.
pub proof fn lemma_auto_group_partition(files: Seq<Seq<char>>, groups: Seq<ChunkPlanV>, i: int)
    requires
        is_auto_grouping(files, groups),
        0 <= i < files.len(),
    ensures
        exists|g: int| 0 <= g < groups.len() && (#[trigger] groups[g].files).contains(files[i]),
        forall|g1: int, g2: int|
            0 <= g1 < groups.len() && 0 <= g2 < groups.len() && (#[trigger] groups[
                g1
            ].files).contains(files[i]) && (#[trigger] groups[g2].files).contains(files[i]) ==> g1
                == g2,
{
    broadcast use vstd::seq_lib::group_to_multiset_ensures;

    let second = single_non_root_top(files);
    let k = grouping_key_spec(files[i], second);
    let g = choose|g: int| 0 <= g < groups.len() && groups[g].name == k;
    lemma_files_with_key_contains(files, k, second, i);
    assert(files_with_key(files, k, second).to_multiset().count(files[i]) > 0);
    assert(groups[g].files.to_multiset().count(files[i]) > 0);
    assert(groups[g].files.contains(files[i]));
    assert forall|g1: int, g2: int|
        0 <= g1 < groups.len() && 0 <= g2 < groups.len() && (#[trigger] groups[g1].files).contains(
            files[i],
        ) && (#[trigger] groups[g2].files).contains(files[i]) implies g1 == g2 by {
        lemma_group_of_member(files, groups, i, g1);
        lemma_group_of_member(files, groups, i, g2);
        if g1 < g2 {
            assert(groups[g1].name != groups[g2].name);
        } else if g2 < g1 {
            assert(groups[g2].name != groups[g1].name);
        }
    }
}

/// With the changed files under a single non-root top-level directory,
/// grouping looks one level deeper: a file with three or more path segments
/// lands in exactly the group named by its second segment.
pub proof fn lemma_second_segment_grouping(files: Seq<Seq<char>>, groups: Seq<ChunkPlanV>, i: int)
    requires
        is_auto_grouping(files, groups),
        single_non_root_top(files),
        0 <= i < files.len(),
        segments(files[i]).len() >= 3,
    ensures
        grouping_key_spec(files[i], single_non_root_top(files)) == segments(files[i])[1],
        exists|g: int|
            0 <= g < groups.len() && (#[trigger] groups[g]).name == segments(files[i])[1]
                && groups[g].files.contains(files[i]),
{
    let second = single_non_root_top(files);
    assert(grouping_key_spec(files[i], second) == segments(files[i])[1]);
    lemma_auto_group_partition(files, groups, i);
    let g = choose|g: int|
        0 <= g < groups.len() && (#[trigger] groups[g].files).contains(files[i]);
    lemma_group_of_member(files, groups, i, g);
    assert(groups[g].name == segments(files[i])[1] && groups[g].files.contains(files[i]));
}

/// A group containing `files[i]` is named by that file's grouping key.
proof fn lemma_group_of_member(files: Seq<Seq<char>>, groups: Seq<ChunkPlanV>, i: int, g: int)
    requires
        is_auto_grouping(files, groups),
        0 <= i < files.len(),
        0 <= g < groups.len(),
        groups[g].files.contains(files[i]),
    ensures
        groups[g].name == grouping_key_spec(files[i], single_non_root_top(files)),
{
    broadcast use vstd::seq_lib::group_to_multiset_ensures;

    let second = single_non_root_top(files);
    let m = files_with_key(files, groups[g].name, second);
    assert(groups[g].files.to_multiset().count(files[i]) > 0);
    assert(m.to_multiset().count(files[i]) > 0);
    assert(m.contains(files[i]));
    let idx = choose|idx: int| 0 <= idx < m.len() && m[idx] == files[i];
    lemma_files_with_key_members(files, groups[g].name, second, idx);
}

} // verus!
