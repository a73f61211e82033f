//! Small verified string utilities: character-level equality and prefix
//! tests, lexicographic ordering, decimal rendering of integers, and helpers
//! for vectors of strings. Everything downstream that derives branch names,
//! commit messages or sorted groupings is specified in terms of these.

use vstd::prelude::*;
use vstd::string::StrSliceExecFns;
use vstd::string::StringExecFns;

verus! {

/// Relies on String::push: appends the given character to the end of the string.
#[verifier::external_body]
pub(crate) fn push_char(s: &mut String, c: char)
    ensures
        final(s)@ == old(s)@.push(c),
{
    s.push(c);
}

/// Character-for-character equality of two string slices.
pub fn str_eq(a: &str, b: &str) -> (r: bool)
    ensures
        r == (a@ == b@),
{
    let alen = a.unicode_len();
    let blen = b.unicode_len();
    if alen != blen {
        return false;
    }
    let mut i: usize = 0;
    while i < alen
        invariant
            i <= alen,
            alen == a@.len(),
            blen == b@.len(),
            alen == blen,
            forall|j: int| 0 <= j < i ==> a@[j] == b@[j],
        decreases alen - i,
    {
        if a.get_char(i) != b.get_char(i) {
            return false;
        }
        i += 1;
    }
    proof {
        assert(a@ =~= b@);
    }
    true
}

/// `p` is a prefix of `s`.
pub open spec fn is_prefix_of(p: Seq<char>, s: Seq<char>) -> bool {
    p.len() <= s.len() && forall|j: int| 0 <= j < p.len() ==> s[j] == p[j]
}

pub fn str_starts_with(s: &str, p: &str) -> (r: bool)
    ensures
        r == is_prefix_of(p@, s@),
{
    let slen = s.unicode_len();
    let plen = p.unicode_len();
    if plen > slen {
        return false;
    }
    let mut i: usize = 0;
    while i < plen
        invariant
            i <= plen,
            plen <= slen,
            slen == s@.len(),
            plen == p@.len(),
            forall|j: int| 0 <= j < i ==> s@[j] == p@[j],
        decreases plen - i,
    {
        if s.get_char(i) != p.get_char(i) {
            return false;
        }
        i += 1;
    }
    true
}

/// Membership of a string among the views of a vector of strings.
pub open spec fn contains_str(vs: Seq<Seq<char>>, x: Seq<char>) -> bool {
    exists|i: int| 0 <= i < vs.len() && vs[i] == x
}

pub fn vec_contains_str(v: &Vec<String>, x: &str) -> (r: bool)
    ensures
        r == contains_str(v.deep_view(), x@),
{
    let mut i: usize = 0;
    while i < v.len()
        invariant
            i <= v.len(),
            forall|j: int| 0 <= j < i ==> v.deep_view()[j] != x@,
        decreases v.len() - i,
    {
        if str_eq(v[i].as_str(), x) {
            assert(v.deep_view()[i as int] == x@);
            return true;
        }
        i += 1;
    }
    false
}

/// A copy of a vector of strings, equal element by element.
pub fn clone_string_vec(v: &Vec<String>) -> (r: Vec<String>)
    ensures
        r@ == v@,
{
    let r = v.clone();
    proof {
        assert(r@ =~= v@);
    }
    r
}

/// The given sequences joined with a comma and space between neighbours.
pub open spec fn join_comma(parts: Seq<Seq<char>>) -> Seq<char>
    decreases parts.len(),
{
    if parts.len() == 0 {
        Seq::empty()
    } else if parts.len() == 1 {
        parts[0]
    } else {
        join_comma(parts.drop_last()) + ", "@ + parts.last()
    }
}

/// The elements of `v` joined with a comma and space between neighbours.
pub fn join_commas(v: &Vec<String>) -> (r: String)
    ensures
        r@ == join_comma(v.deep_view()),
{
    let ghost dv = v.deep_view();
    if v.len() == 0 {
        return String::new();
    }
    let mut r = v[0].clone();
    let mut i: usize = 1;
    proof {
        assert(dv.take(1).len() == 1);
        assert(dv.take(1)[0] == dv[0]);
        assert(r@ == join_comma(dv.take(1)));
    }
    while i < v.len()
        invariant
            1 <= i <= v.len(),
            dv == v.deep_view(),
            r@ == join_comma(dv.take(i as int)),
        decreases v.len() - i,
    {
        proof {
            assert(dv.take(i + 1).drop_last() =~= dv.take(i as int));
            assert(dv.take(i + 1).last() == dv[i as int]);
        }
        r.append(", ");
        r.append(v[i].as_str());
        i += 1;
    }
    proof {
        assert(dv.take(v.len() as int) =~= dv);
    }
    r
}

/// The decimal digit character for `d`.
pub open spec fn dec_digit(d: nat) -> char
    recommends
        d < 10,
{
    (48 + d) as char
}

/// The usual decimal rendering of `n`, most significant digit first,
/// without leading zeros (except for `n == 0` itself).
pub open spec fn dec_rep(n: nat) -> Seq<char>
    decreases n,
{
    if n < 10 {
        seq![dec_digit(n)]
    } else {
        dec_rep(n / 10).push(dec_digit(n % 10))
    }
}

/// Every character of a decimal rendering is an ASCII digit.
pub proof fn lemma_dec_rep_digits(n: nat)
    ensures
        forall|i: int|
            0 <= i < dec_rep(n).len() ==> 48 <= (#[trigger] dec_rep(n)[i] as u32) <= 57,
    decreases n,
{
    if n < 10 {
        assert(dec_rep(n)[0] == dec_digit(n));
        assert((dec_digit(n) as u32) == 48 + n);
    } else {
        lemma_dec_rep_digits(n / 10);
        assert((dec_digit(n % 10) as u32) == 48 + n % 10);
        assert forall|i: int| 0 <= i < dec_rep(n).len() implies 48 <= (
        #[trigger] dec_rep(n)[i] as u32) <= 57 by {
            if i < dec_rep(n / 10).len() {
                assert(dec_rep(n)[i] == dec_rep(n / 10)[i]);
            } else {
                assert(dec_rep(n)[i] == dec_digit(n % 10));
            }
        }
    }
}

/// A decimal rendering is never empty.
pub proof fn lemma_dec_rep_len(n: nat)
    ensures
        dec_rep(n).len() >= 1,
    decreases n,
{
    if n >= 10 {
        lemma_dec_rep_len(n / 10);
    }
}

/// Distinct numbers render as distinct digit strings.
pub proof fn lemma_dec_rep_unique(n1: nat, n2: nat)
    requires
        dec_rep(n1) == dec_rep(n2),
    ensures
        n1 == n2,
    decreases n1,
{
    lemma_dec_rep_len(n1);
    lemma_dec_rep_len(n2);
    if n1 < 10 && n2 < 10 {
        assert(dec_rep(n1)[0] == dec_digit(n1));
        assert(dec_rep(n2)[0] == dec_digit(n2));
        assert((dec_digit(n1) as u32) == 48 + n1);
        assert((dec_digit(n2) as u32) == 48 + n2);
    } else if n1 < 10 {
        lemma_dec_rep_len(n2 / 10);
        assert(dec_rep(n2).len() >= 2);
    } else if n2 < 10 {
        lemma_dec_rep_len(n1 / 10);
        assert(dec_rep(n1).len() >= 2);
    } else {
        let s1 = dec_rep(n1 / 10);
        let s2 = dec_rep(n2 / 10);
        assert(dec_rep(n1).last() == dec_digit(n1 % 10));
        assert(dec_rep(n2).last() == dec_digit(n2 % 10));
        assert((dec_digit(n1 % 10) as u32) == 48 + n1 % 10);
        assert((dec_digit(n2 % 10) as u32) == 48 + n2 % 10);
        assert(n1 % 10 == n2 % 10);
        assert(s1 =~= dec_rep(n1).drop_last());
        assert(s2 =~= dec_rep(n2).drop_last());
        lemma_dec_rep_unique((n1 / 10) as nat, (n2 / 10) as nat);
    }
}

/// The reversal of a character sequence, in a shape that unfolds over `push`.
pub open spec fn rseq(s: Seq<char>) -> Seq<char>
    decreases s.len(),
{
    if s.len() == 0 {
        Seq::empty()
    } else {
        seq![s.last()] + rseq(s.drop_last())
    }
}

pub fn u64_to_dec(n: u64) -> (r: String)
    ensures
        r@ == dec_rep(n as nat),
{
    let mut digits: Vec<char> = Vec::new();
    let mut x: u64 = n;
    while x >= 10
        invariant
            dec_rep(n as nat) == dec_rep(x as nat) + rseq(digits@),
        decreases x,
    {
        let d: u64 = x % 10;
        let c: char = ((48 + d) as u8) as char;
        proof {
            assert(c == dec_digit((x % 10) as nat));
            assert(dec_rep(x as nat) == dec_rep((x / 10) as nat).push(dec_digit((x % 10) as nat)));
            assert(digits@.push(c).drop_last() =~= digits@);
            assert(rseq(digits@.push(c)) == seq![c] + rseq(digits@));
            assert(dec_rep((x / 10) as nat).push(c) + rseq(digits@) =~= dec_rep((x / 10) as nat)
                + (seq![c] + rseq(digits@)));
        }
        digits.push(c);
        x = x / 10;
    }
    let c0: char = ((48 + x) as u8) as char;
    proof {
        assert(c0 == dec_digit(x as nat));
        assert(dec_rep(x as nat) == seq![c0]);
        assert(digits@.push(c0).drop_last() =~= digits@);
        assert(rseq(digits@.push(c0)) == seq![c0] + rseq(digits@));
        assert(seq![c0] + rseq(digits@) =~= dec_rep(x as nat) + rseq(digits@));
    }
    digits.push(c0);
    let ghost all = digits@;
    let mut r = String::new();
    let mut i: usize = digits.len();
    proof {
        assert(digits@.subrange(0, i as int) =~= digits@);
        assert(r@ + rseq(digits@.subrange(0, i as int)) =~= dec_rep(n as nat));
    }
    while i > 0
        invariant
            i <= digits.len(),
            digits@ == all,
            r@ + rseq(digits@.subrange(0, i as int)) == dec_rep(n as nat),
        decreases i,
    {
        let c = digits[i - 1];
        proof {
            let pre = digits@.subrange(0, i as int);
            assert(pre.last() == c);
            assert(pre.drop_last() =~= digits@.subrange(0, i - 1));
            assert(rseq(pre) == seq![c] + rseq(digits@.subrange(0, i - 1)));
            assert(r@.push(c) + rseq(digits@.subrange(0, i - 1)) =~= r@ + rseq(pre));
        }
        push_char(&mut r, c);
        i = i - 1;
    }
    proof {
        assert(digits@.subrange(0, 0) =~= Seq::<char>::empty());
        assert(r@ + rseq(digits@.subrange(0, 0)) =~= r@);
    }
    r
}

/// Lexicographic order on character sequences, by code point. For ASCII (and
/// in fact for all of Unicode under UTF-8) this coincides with the byte order
/// `String` sorts by.
pub open spec fn lex_le(a: Seq<char>, b: Seq<char>) -> bool
    decreases a.len(),
{
    if a.len() == 0 {
        true
    } else if b.len() == 0 {
        false
    } else if (a[0] as u32) < (b[0] as u32) {
        true
    } else if (a[0] as u32) > (b[0] as u32) {
        false
    } else {
        lex_le(a.drop_first(), b.drop_first())
    }
}

pub proof fn lex_le_total(a: Seq<char>, b: Seq<char>)
    ensures
        lex_le(a, b) || lex_le(b, a),
    decreases a.len(),
{
    if a.len() != 0 && b.len() != 0 && !((a[0] as u32) < (b[0] as u32)) && !((a[0] as u32) > (
    b[0] as u32)) {
        lex_le_total(a.drop_first(), b.drop_first());
    }
}

pub proof fn lex_le_trans(a: Seq<char>, b: Seq<char>, c: Seq<char>)
    requires
        lex_le(a, b),
        lex_le(b, c),
    ensures
        lex_le(a, c),
    decreases a.len(),
{
    if a.len() != 0 && b.len() != 0 && c.len() != 0 {
        if !((a[0] as u32) < (b[0] as u32)) && !((a[0] as u32) > (b[0] as u32)) && !((
        b[0] as u32) < (c[0] as u32)) && !((b[0] as u32) > (c[0] as u32)) {
            lex_le_trans(a.drop_first(), b.drop_first(), c.drop_first());
        }
    }
}

pub proof fn lex_le_antisymm(a: Seq<char>, b: Seq<char>)
    requires
        lex_le(a, b),
        lex_le(b, a),
    ensures
        a == b,
    decreases a.len(),
{
    if a.len() == 0 {
        assert(b.len() == 0);
        assert(a =~= b);
    } else {
        assert(b.len() != 0);
        assert(!((a[0] as u32) < (b[0] as u32)) && !((a[0] as u32) > (b[0] as u32)));
        assert(a[0] == b[0]) by {
            vstd::utf8::char_u32_cast(a[0], a[0] as u32);
            vstd::utf8::char_u32_cast(b[0], b[0] as u32);
        }
        lex_le_antisymm(a.drop_first(), b.drop_first());
        assert(a =~= b) by {
            assert(forall|i: int|
                1 <= i < a.len() ==> a[i] == a.drop_first()[i - 1] && b[i] == b.drop_first()[i
                    - 1]);
        }
    }
}

pub fn str_lex_le(a: &str, b: &str) -> (r: bool)
    ensures
        r == lex_le(a@, b@),
{
    let alen = a.unicode_len();
    let blen = b.unicode_len();
    let mut i: usize = 0;
    proof {
        assert(a@.skip(0) =~= a@);
        assert(b@.skip(0) =~= b@);
    }
    loop
        invariant
            i <= alen,
            i <= blen,
            alen == a@.len(),
            blen == b@.len(),
            lex_le(a@, b@) == lex_le(a@.skip(i as int), b@.skip(i as int)),
        decreases alen - i,
    {
        if i >= alen {
            assert(a@.skip(i as int).len() == 0);
            return true;
        }
        if i >= blen {
            assert(b@.skip(i as int).len() == 0);
            assert(a@.skip(i as int).len() != 0);
            return false;
        }
        let ca = a.get_char(i);
        let cb = b.get_char(i);
        proof {
            assert(a@.skip(i as int)[0] == a@[i as int]);
            assert(b@.skip(i as int)[0] == b@[i as int]);
        }
        if (ca as u32) < (cb as u32) {
            return true;
        }
        if (ca as u32) > (cb as u32) {
            return false;
        }
        proof {
            assert(ca == cb);
            assert(a@.skip(i as int).drop_first() =~= a@.skip(i + 1));
            assert(b@.skip(i as int).drop_first() =~= b@.skip(i + 1));
        }
        i += 1;
    }
}

} // verus!
