//! Owner and repository name, read out of a GitHub remote URL in either its
//! SSH (`git@github.com:owner/repo.git`) or HTTPS
//! (`https://github.com/owner/repo`) form. Surrounding whitespace, repeated
//! `.git` suffixes and trailing slashes are shed first, as shell output tends
//! to carry them.

use vstd::prelude::*;
use vstd::string::StrSliceExecFns;
use vstd::string::StringExecFns;

use crate::error::ErrorV;
use crate::error::MergesError;
use crate::names::is_ws;
use crate::text;

verus! {

/// `s` with trailing whitespace removed.
pub open spec fn trim_end_ws(s: Seq<char>) -> Seq<char>
    decreases s.len(),
{
    if s.len() > 0 && is_ws(s.last()) {
        trim_end_ws(s.drop_last())
    } else {
        s
    }
}

/// `s` with leading whitespace removed.
pub open spec fn trim_start_ws(s: Seq<char>) -> Seq<char>
    decreases s.len(),
{
    if s.len() > 0 && is_ws(s[0]) {
        trim_start_ws(s.drop_first())
    } else {
        s
    }
}

/// `s` with every trailing repetition of `.git` removed.
pub open spec fn strip_git_suffixes(s: Seq<char>) -> Seq<char>
    decreases s.len(),
{
    if s.len() >= 4 && s.subrange(s.len() - 4, s.len() as int) == ".git"@ {
        strip_git_suffixes(s.take(s.len() - 4))
    } else {
        s
    }
}

/// `s` with trailing slashes removed.
pub open spec fn trim_end_slash(s: Seq<char>) -> Seq<char>
    decreases s.len(),
{
    if s.len() > 0 && s.last() == '/' {
        trim_end_slash(s.drop_last())
    } else {
        s
    }
}

/// The remote URL as compared against the two recognised shapes.
pub open spec fn stripped_url(url: Seq<char>) -> Seq<char> {
    trim_end_slash(strip_git_suffixes(trim_start_ws(trim_end_ws(url))))
}

/// Index of the first `/` in `s`, or `s.len()` when there is none.
pub open spec fn first_slash(s: Seq<char>) -> int
    decreases s.len(),
{
    if s.len() == 0 {
        0
    } else if s[0] == '/' {
        0
    } else {
        1 + first_slash(s.drop_first())
    }
}

/// Split `rest` at its first slash into owner and repository, when it has
/// one; the repository part keeps any further slashes.
pub open spec fn split_owner_repo(rest: Seq<char>) -> Option<(Seq<char>, Seq<char>)> {
    let i = first_slash(rest);
    if i < rest.len() {
        Some((rest.take(i), rest.skip(i + 1)))
    } else {
        None
    }
}

/// What `parse_github_owner_repo` returns: the owner/repo pair when the
/// stripped URL is an SSH or HTTPS GitHub URL with a slash after the host
/// part, and nothing otherwise.
pub open spec fn parse_remote_spec(url: Seq<char>) -> Option<(Seq<char>, Seq<char>)> {
    let s = stripped_url(url);
    if text::is_prefix_of("git@github.com:"@, s) {
        split_owner_repo(s.skip("git@github.com:"@.len() as int))
    } else if text::is_prefix_of("https://github.com/"@, s) {
        split_owner_repo(s.skip("https://github.com/"@.len() as int))
    } else {
        None
    }
}

proof fn lemma_trim_end_ws(s: Seq<char>, b: int)
    requires
        0 <= b <= s.len(),
        forall|j: int| b <= j < s.len() ==> is_ws(s[j]),
        b > 0 ==> !is_ws(s[b - 1]),
    ensures
        trim_end_ws(s) == s.take(b),
    decreases s.len(),
{
    if s.len() > 0 && is_ws(s.last()) {
        assert(b < s.len());
        lemma_trim_end_ws(s.drop_last(), b);
        assert(s.drop_last().take(b) =~= s.take(b));
    } else {
        assert(b == s.len());
        assert(s.take(b) =~= s);
    }
}

proof fn lemma_trim_start_ws(s: Seq<char>, a: int)
    requires
        0 <= a <= s.len(),
        forall|j: int| 0 <= j < a ==> is_ws(s[j]),
        a < s.len() ==> !is_ws(s[a]),
    ensures
        trim_start_ws(s) == s.skip(a),
    decreases s.len(),
{
    if s.len() > 0 && is_ws(s[0]) {
        assert(a > 0);
        lemma_trim_start_ws(s.drop_first(), a - 1);
        assert(s.drop_first().skip(a - 1) =~= s.skip(a));
    } else {
        assert(a == 0);
        assert(s.skip(0) =~= s);
    }
}

proof fn lemma_trim_end_slash(s: Seq<char>, b: int)
    requires
        0 <= b <= s.len(),
        forall|j: int| b <= j < s.len() ==> s[j] == '/',
        b > 0 ==> s[b - 1] != '/',
    ensures
        trim_end_slash(s) == s.take(b),
    decreases s.len(),
{
    if s.len() > 0 && s.last() == '/' {
        assert(b < s.len());
        lemma_trim_end_slash(s.drop_last(), b);
        assert(s.drop_last().take(b) =~= s.take(b));
    } else {
        assert(b == s.len());
        assert(s.take(b) =~= s);
    }
}

proof fn lemma_first_slash(s: Seq<char>, i: int)
    requires
        0 <= i <= s.len(),
        forall|j: int| 0 <= j < i ==> s[j] != '/',
        i < s.len() ==> s[i] == '/',
    ensures
        first_slash(s) == i,
    decreases s.len(),
{
    if s.len() == 0 {
    } else if s[0] == '/' {
        assert(i == 0);
    } else {
        assert(i > 0);
        lemma_first_slash(s.drop_first(), i - 1);
    }
}

/// Both leading and trailing whitespace removed.
fn trim_str<'a>(s: &'a str) -> (r: &'a str)
    ensures
        r@ == trim_start_ws(trim_end_ws(s@)),
{
    let len = s.unicode_len();
    let mut b: usize = len;
    loop
        invariant
            b <= len,
            len == s@.len(),
            forall|j: int| b <= j < len ==> is_ws(s@[j]),
        ensures
            b <= len,
            len == s@.len(),
            forall|j: int| b <= j < len ==> is_ws(s@[j]),
            b > 0 ==> !is_ws(s@[b - 1]),
        decreases b,
    {
        if b == 0 {
            break;
        }
        let c = s.get_char(b - 1);
        if !(c == ' ' || c == '\t' || c == '\n' || c == '\r') {
            break;
        }
        b -= 1;
    }
    let mut a: usize = 0;
    loop
        invariant
            a <= b,
            b <= len,
            len == s@.len(),
            forall|j: int| 0 <= j < a ==> is_ws(s@[j]),
        ensures
            a <= b,
            forall|j: int| 0 <= j < a ==> is_ws(s@[j]),
            a < b ==> !is_ws(s@[a as int]),
        decreases b - a,
    {
        if a == b {
            break;
        }
        let c = s.get_char(a);
        if !(c == ' ' || c == '\t' || c == '\n' || c == '\r') {
            break;
        }
        a += 1;
    }
    let r = s.substring_char(a, b);
    proof {
        lemma_trim_end_ws(s@, b as int);
        let t = s@.take(b as int);
        lemma_trim_start_ws(t, a as int);
        assert(r@ =~= t.skip(a as int));
    }
    r
}

/// Whether `s` ends with the four characters `.git`.
fn ends_with_git(s: &str) -> (r: bool)
    ensures
        r == (s@.len() >= 4 && s@.subrange(s@.len() - 4, s@.len() as int) == ".git"@),
{
    proof {
        reveal_strlit(".git");
    }
    let len = s.unicode_len();
    if len < 4 {
        return false;
    }
    let r = s.get_char(len - 4) == '.' && s.get_char(len - 3) == 'g' && s.get_char(len - 2) == 'i'
        && s.get_char(len - 1) == 't';
    proof {
        if r {
            assert(s@.subrange(s@.len() - 4, s@.len() as int) =~= ".git"@);
        } else {
            assert(s@.subrange(s@.len() - 4, s@.len() as int) != ".git"@) by {
                if s@.subrange(s@.len() - 4, s@.len() as int) == ".git"@ {
                    assert(s@[s@.len() - 4] == ".git"@[0]);
                    assert(s@[s@.len() - 3] == ".git"@[1]);
                    assert(s@[s@.len() - 2] == ".git"@[2]);
                    assert(s@[s@.len() - 1] == ".git"@[3]);
                }
            }
        }
    }
    r
}

/// Every trailing `.git` removed.
fn strip_git<'a>(s: &'a str) -> (r: &'a str)
    ensures
        r@ == strip_git_suffixes(s@),
{
    let mut cur = s;
    loop
        invariant
            strip_git_suffixes(s@) == strip_git_suffixes(cur@),
        ensures
            strip_git_suffixes(s@) == strip_git_suffixes(cur@),
            !(cur@.len() >= 4 && cur@.subrange(cur@.len() - 4, cur@.len() as int) == ".git"@),
        decreases cur@.len(),
    {
        if !ends_with_git(cur) {
            break;
        }
        let l = cur.unicode_len();
        let next = cur.substring_char(0, l - 4);
        proof {
            assert(next@ =~= cur@.take(cur@.len() - 4));
        }
        cur = next;
    }
    cur
}

/// Every trailing slash removed.
fn strip_end_slashes<'a>(s: &'a str) -> (r: &'a str)
    ensures
        r@ == trim_end_slash(s@),
{
    let len = s.unicode_len();
    let mut b: usize = len;
    loop
        invariant
            b <= len,
            len == s@.len(),
            forall|j: int| b <= j < len ==> s@[j] == '/',
        ensures
            b <= len,
            len == s@.len(),
            forall|j: int| b <= j < len ==> s@[j] == '/',
            b > 0 ==> s@[b - 1] != '/',
        decreases b,
    {
        if b == 0 {
            break;
        }
        if s.get_char(b - 1) != '/' {
            break;
        }
        b -= 1;
    }
    let r = s.substring_char(0, b);
    proof {
        lemma_trim_end_slash(s@, b as int);
        assert(r@ =~= s@.take(b as int));
    }
    r
}

/// Split the part of `s` after the host prefix of length `from` at its first
/// slash.
fn split_after(s: &str, from: usize) -> (r: Option<(String, String)>)
    requires
        from <= s@.len(),
    ensures
        match r {
            Some(p) => split_owner_repo(s@.skip(from as int)) == Some((p.0@, p.1@)),
            None => split_owner_repo(s@.skip(from as int)) is None,
        },
{
    let len = s.unicode_len();
    let ghost rest = s@.skip(from as int);
    let mut i: usize = from;
    loop
        invariant
            from <= i <= len,
            len == s@.len(),
            forall|j: int| from <= j < i ==> s@[j] != '/',
        ensures
            from <= i <= len,
            len == s@.len(),
            forall|j: int| from <= j < i ==> s@[j] != '/',
            i < len ==> s@[i as int] == '/',
        decreases len - i,
    {
        if i == len {
            break;
        }
        if s.get_char(i) == '/' {
            break;
        }
        i += 1;
    }
    proof {
        lemma_first_slash(rest, i - from);
    }
    if i == len {
        return None;
    }
    let owner = s.substring_char(from, i);
    let repo = s.substring_char(i + 1, len);
    proof {
        assert(owner@ =~= rest.take(i - from));
        assert(repo@ =~= rest.skip(i - from + 1));
    }
    Some((String::from_str(owner), String::from_str(repo)))
}

/// Parse `owner/repo` out of a GitHub remote URL, in SSH or HTTPS form.
pub fn parse_github_owner_repo(url: &str) -> (r: Result<(String, String), MergesError>)
    ensures
        match r {
            Ok(p) => parse_remote_spec(url@) == Some((p.0@, p.1@)),
            Err(e) => parse_remote_spec(url@) is None && e@ == (ErrorV::UnparsableRemote {
                url: url@,
            }),
        },
{
    let trimmed = trim_str(url);
    let no_git = strip_git(trimmed);
    let stripped = strip_end_slashes(no_git);
    proof {
        assert(stripped@ == stripped_url(url@));
        reveal_strlit("git@github.com:");
        reveal_strlit("https://github.com/");
    }
    if text::str_starts_with(stripped, "git@github.com:") {
        if let Some(p) = split_after(stripped, 15) {
            return Ok(p);
        }
    } else if text::str_starts_with(stripped, "https://github.com/") {
        if let Some(p) = split_after(stripped, 19) {
            return Ok(p);
        }
    }
    Err(MergesError::UnparsableRemote { url: String::from_str(url) })
}

} // verus!
