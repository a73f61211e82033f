//! Derived names and messages: ticket prefixes extracted from branch names,
//! commit messages and pull-request titles carrying that prefix, chunk branch
//! names, worktree directory paths, sync labels, and owner/repo parsing of a
//! GitHub remote URL. All of it is character-level string work with exact
//! specifications.

use vstd::prelude::*;
use vstd::string::StrSliceExecFns;
use vstd::string::StringExecFns;

use crate::error::ErrorV;
use crate::error::MergesError;
use crate::text;

verus! {

pub open spec fn is_upper(c: char) -> bool {
    65 <= (c as u32) <= 90
}

pub open spec fn is_digit(c: char) -> bool {
    48 <= (c as u32) <= 57
}

pub open spec fn is_ws(c: char) -> bool {
    c == ' ' || c == '\t' || c == '\n' || c == '\r'
}

/// Length of the run of uppercase ASCII letters in `s` starting at `from`.
pub open spec fn upper_run(s: Seq<char>, from: int) -> int
    decreases s.len() - from,
{
    if from < 0 || from >= s.len() || !is_upper(s[from]) {
        0
    } else {
        1 + upper_run(s, from + 1)
    }
}

/// Length of the run of ASCII digits in `s` starting at `from`.
pub open spec fn digit_run(s: Seq<char>, from: int) -> int
    decreases s.len() - from,
{
    if from < 0 || from >= s.len() || !is_digit(s[from]) {
        0
    } else {
        1 + digit_run(s, from + 1)
    }
}

proof fn lemma_upper_run(s: Seq<char>, from: int, k: int)
    requires
        0 <= from,
        0 <= k,
        from + k <= s.len(),
        forall|j: int| from <= j < from + k ==> is_upper(s[j]),
        from + k == s.len() || !is_upper(s[from + k]),
    ensures
        upper_run(s, from) == k,
    decreases k,
{
    if k > 0 {
        lemma_upper_run(s, from + 1, k - 1);
    }
}

proof fn lemma_digit_run(s: Seq<char>, from: int, k: int)
    requires
        0 <= from,
        0 <= k,
        from + k <= s.len(),
        forall|j: int| from <= j < from + k ==> is_digit(s[j]),
        from + k == s.len() || !is_digit(s[from + k]),
    ensures
        digit_run(s, from) == k,
    decreases k,
{
    if k > 0 {
        lemma_digit_run(s, from + 1, k - 1);
    }
}

/// The final `/`-separated segment of `s` (the whole of `s` when it holds no
/// slash, and empty when it ends in one).
pub open spec fn after_last_slash(s: Seq<char>) -> Seq<char>
    decreases s.len(),
{
    if s.len() == 0 {
        Seq::empty()
    } else if s.last() == '/' {
        Seq::empty()
    } else {
        after_last_slash(s.drop_last()).push(s.last())
    }
}

proof fn lemma_after_last_slash(s: Seq<char>, i: int)
    requires
        0 <= i <= s.len(),
        forall|j: int| i <= j < s.len() ==> s[j] != '/',
        i > 0 ==> s[i - 1] == '/',
    ensures
        after_last_slash(s) == s.skip(i),
    decreases s.len(),
{
    if s.len() == 0 {
        assert(s.skip(0) =~= Seq::<char>::empty());
    } else if s.last() == '/' {
        assert(i == s.len());
        assert(s.skip(i) =~= Seq::<char>::empty());
    } else {
        assert(i < s.len());
        lemma_after_last_slash(s.drop_last(), i);
        assert(s.skip(i) =~= s.drop_last().skip(i).push(s.last()));
    }
}

/// The ticket code at the head of a branch segment: a non-empty run of
/// uppercase letters, a hyphen, a non-empty run of digits, followed by
/// nothing or by `-` or `/`.
pub open spec fn ticket_of(name: Seq<char>) -> Option<Seq<char>> {
    let k = upper_run(name, 0);
    let m = digit_run(name, k + 1);
    if k == 0 {
        None
    } else if k == name.len() || name[k] != '-' {
        None
    } else if m == 0 {
        None
    } else if k + 1 + m == name.len() || name[k + 1 + m] == '-' || name[k + 1 + m] == '/' {
        Some(name.take(k + 1 + m))
    } else {
        None
    }
}

/// The ticket code of a branch name, read from its final `/`-separated
/// segment, e.g. `feature/ABC-123-poc` yields `ABC-123`.
pub open spec fn ticket_prefix_spec(branch: Seq<char>) -> Option<Seq<char>> {
    ticket_of(after_last_slash(branch))
}

/// Extract a ticket code such as `ABC-123` from the head of the last path
/// segment of `branch`, if one is present.
pub fn ticket_prefix(branch: &str) -> (r: Option<String>)
    ensures
        r.deep_view() == ticket_prefix_spec(branch@),
{
    let len = branch.unicode_len();
    let mut start: usize = len;
    loop
        invariant
            start <= len,
            len == branch@.len(),
            forall|j: int| start <= j < len ==> branch@[j] != '/',
        ensures
            start <= len,
            len == branch@.len(),
            forall|j: int| start <= j < len ==> branch@[j] != '/',
            start == 0 || branch@[start - 1] == '/',
        decreases start,
    {
        if start == 0 {
            break;
        }
        if branch.get_char(start - 1) == '/' {
            break;
        }
        start -= 1;
    }
    let name = branch.substring_char(start, len);
    proof {
        lemma_after_last_slash(branch@, start as int);
        assert(name@ =~= branch@.skip(start as int));
    }
    let nlen = name.unicode_len();
    let mut k: usize = 0;
    loop
        invariant
            k <= nlen,
            nlen == name@.len(),
            forall|j: int| 0 <= j < k ==> is_upper(name@[j]),
        ensures
            k <= nlen,
            nlen == name@.len(),
            forall|j: int| 0 <= j < k ==> is_upper(name@[j]),
            k == nlen || !is_upper(name@[k as int]),
        decreases nlen - k,
    {
        if k == nlen {
            break;
        }
        let c = name.get_char(k);
        if !(65 <= (c as u32) && (c as u32) <= 90) {
            break;
        }
        k += 1;
    }
    proof {
        lemma_upper_run(name@, 0, k as int);
    }
    if k == 0 {
        return None;
    }
    if k == nlen {
        return None;
    }
    if name.get_char(k) != '-' {
        return None;
    }
    let mut m: usize = 0;
    loop
        invariant
            k + 1 <= nlen,
            k + 1 + m <= nlen,
            nlen == name@.len(),
            forall|j: int| k + 1 <= j < k + 1 + m ==> is_digit(name@[j]),
        ensures
            k + 1 + m <= nlen,
            nlen == name@.len(),
            forall|j: int| k + 1 <= j < k + 1 + m ==> is_digit(name@[j]),
            k + 1 + m == nlen || !is_digit(name@[k + 1 + m]),
        decreases nlen - m,
    {
        if k + 1 + m == nlen {
            break;
        }
        let c = name.get_char(k + 1 + m);
        if !(48 <= (c as u32) && (c as u32) <= 57) {
            break;
        }
        m += 1;
    }
    proof {
        lemma_digit_run(name@, k + 1, m as int);
    }
    if m == 0 {
        return None;
    }
    let end = k + 1 + m;
    if end < nlen {
        let c = name.get_char(end);
        if !(c == '-' || c == '/') {
            return None;
        }
    }
    let t = name.substring_char(0, end);
    proof {
        assert(t@ =~= name@.take(end as int));
    }
    Some(String::from_str(t))
}

/// `body`, prefixed with the source branch's ticket code when there is one.
pub open spec fn with_ticket(branch: Seq<char>, body: Seq<char>) -> Seq<char> {
    match ticket_prefix_spec(branch) {
        Some(t) => t + " "@ + body,
        None => body,
    }
}

/// Build a commit message, prepending the ticket prefix found in
/// `source_branch`, if any.
pub fn commit_message(source_branch: &str, body: &str) -> (r: String)
    ensures
        r@ == with_ticket(source_branch@, body@),
{
    match ticket_prefix(source_branch) {
        Some(t) => {
            let mut r = t;
            r.append(" ");
            r.append(body);
            r
        },
        None => String::from_str(body),
    }
}

/// Build a pull-request title, prefixed exactly as commit messages are.
pub fn pr_title(source_branch: &str, body: &str) -> (r: String)
    ensures
        r@ == with_ticket(source_branch@, body@),
{
    commit_message(source_branch, body)
}

/// The sync column label: a check mark when up to date, otherwise the number
/// of commits the branch is behind.
pub open spec fn sync_label(behind: nat) -> Seq<char> {
    if behind == 0 {
        "✓ current"@
    } else {
        "↓ "@ + text::dec_rep(behind) + " behind"@
    }
}

pub fn sync_status(behind: u64) -> (r: String)
    ensures
        r@ == sync_label(behind as nat),
{
    if behind == 0 {
        String::from_str("✓ current")
    } else {
        let mut r = String::from_str("↓ ");
        let d = text::u64_to_dec(behind);
        r.append(d.as_str());
        r.append(" behind");
        r
    }
}

/// Relies on str::to_lowercase: the result is a function of the characters
/// alone, per the Unicode lowercasing the standard library documents.
#[verifier::external_body]
fn lowercase(s: &str) -> (r: String)
    ensures
        r@ == lower_of(s@),
{
    s.to_lowercase()
}

pub uninterp spec fn lower_of(s: Seq<char>) -> Seq<char>;

/// `s` with every occurrence of `from` replaced by `to`.
fn replace_char(s: &str, from: char, to: char) -> (r: String)
    ensures
        r@.len() == s@.len(),
        forall|i: int|
            0 <= i < s@.len() ==> r@[i] == (if s@[i] == from {
                to
            } else {
                s@[i]
            }),
{
    let len = s.unicode_len();
    let mut r = String::new();
    let mut i: usize = 0;
    while i < len
        invariant
            i <= len,
            len == s@.len(),
            r@.len() == i,
            forall|j: int|
                0 <= j < i ==> r@[j] == (if s@[j] == from {
                    to
                } else {
                    s@[j]
                }),
        decreases len - i,
    {
        let c = s.get_char(i);
        if c == from {
            text::push_char(&mut r, to);
        } else {
            text::push_char(&mut r, c);
        }
        i += 1;
    }
    r
}

/// Lowercased, with spaces turned into hyphens: the branch-name-safe form of
/// a chunk name.
pub open spec fn slug_of(name: Seq<char>) -> Seq<char> {
    Seq::new(
        lower_of(name).len(),
        |i: int|
            if lower_of(name)[i] == ' ' {
                '-'
            } else {
                lower_of(name)[i]
            },
    )
}

pub(crate) fn slug(name: &str) -> (r: String)
    ensures
        r@ == slug_of(name@),
{
    let low = lowercase(name);
    let r = replace_char(low.as_str(), ' ', '-');
    proof {
        assert(r@ =~= slug_of(name@));
    }
    r
}

/// The branch name a chunk materialises as:
/// `<source>-chunk-<ordinal>-<slug(name)>`.
pub open spec fn chunk_branch_spec(source: Seq<char>, n: nat, name: Seq<char>) -> Seq<char> {
    source + "-chunk-"@ + text::dec_rep(n) + "-"@ + slug_of(name)
}

pub fn chunk_branch_name(source: &str, n: u64, name: &str) -> (r: String)
    ensures
        r@ == chunk_branch_spec(source@, n as nat, name@),
{
    let mut r = String::from_str(source);
    r.append("-chunk-");
    let d = text::u64_to_dec(n);
    r.append(d.as_str());
    r.append("-");
    let s = slug(name);
    r.append(s.as_str());
    r
}

/// Chunk branch names with distinct ordinals differ, whatever the chunk
/// names: the ordinal's digits end where the following hyphen begins.
pub proof fn lemma_chunk_branch_distinct(
    source: Seq<char>,
    n1: nat,
    name1: Seq<char>,
    n2: nat,
    name2: Seq<char>,
)
    requires
        n1 != n2,
    ensures
        chunk_branch_spec(source, n1, name1) != chunk_branch_spec(source, n2, name2),
{
    let a = chunk_branch_spec(source, n1, name1);
    let b = chunk_branch_spec(source, n2, name2);
    if a == b {
        let p = source + "-chunk-"@;
        let d1 = text::dec_rep(n1);
        let d2 = text::dec_rep(n2);
        text::lemma_dec_rep_digits(n1);
        text::lemma_dec_rep_digits(n2);
        text::lemma_dec_rep_len(n1);
        text::lemma_dec_rep_len(n2);
        let t1 = d1 + "-"@ + slug_of(name1);
        let t2 = d2 + "-"@ + slug_of(name2);
        assert(a =~= p + t1);
        assert(b =~= p + t2);
        assert(t1 =~= t2) by {
            assert(t1.len() == t2.len());
            assert forall|i: int| 0 <= i < t1.len() implies t1[i] == t2[i] by {
                assert(t1[i] == (p + t1)[p.len() + i]);
                assert(t2[i] == (p + t2)[p.len() + i]);
            }
        }
        reveal_strlit("-");
        assert("-"@.len() == 1);
        assert(("-"@[0] as u32) == 45);
        if d1.len() == d2.len() {
            assert(d1 =~= d2) by {
                assert forall|i: int| 0 <= i < d1.len() implies d1[i] == d2[i] by {
                    assert(t1[i] == d1[i]);
                    assert(t2[i] == d2[i]);
                }
            }
            text::lemma_dec_rep_unique(n1, n2);
        } else if d1.len() < d2.len() {
            let k = d1.len() as int;
            assert(t1[k] == "-"@[0]);
            assert(t2[k] == d2[k]);
            assert(48 <= (d2[k] as u32) <= 57);
        } else {
            let k = d2.len() as int;
            assert(t2[k] == "-"@[0]);
            assert(t1[k] == d1[k]);
            assert(48 <= (d1[k] as u32) <= 57);
        }
    }
}

/// Branch name with every `/` turned into `-`: safe as a directory name.
pub open spec fn slash_dashed(s: Seq<char>) -> Seq<char> {
    Seq::new(
        s.len(),
        |i: int|
            if s[i] == '/' {
                '-'
            } else {
                s[i]
            },
    )
}

/// Where the worktree for `branch_name` lives: under the repository's own
/// metadata directory, so it is never tracked or listed as untracked.
pub open spec fn worktree_path_spec(root: Seq<char>, branch: Seq<char>) -> Seq<char> {
    root + "/.git/merges-worktrees/"@ + slash_dashed(branch)
}

pub fn worktree_path(root: &str, branch_name: &str) -> (r: String)
    ensures
        r@ == worktree_path_spec(root@, branch_name@),
{
    let mut r = String::from_str(root);
    r.append("/.git/merges-worktrees/");
    let safe = replace_char(branch_name, '/', '-');
    r.append(safe.as_str());
    proof {
        assert(safe@ =~= slash_dashed(branch_name@));
    }
    r
}

} // verus!
