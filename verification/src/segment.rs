//! Segment reduction: turning one path component into a route segment name.
//!
//! A component is reduced by removing every occurrence of `.page` and
//! `.route`, then truncating at the first remaining `.` (which strips a file
//! extension, so `index.page.tsx` becomes `index`).

use vstd::prelude::*;

verus! {

/// `s` with all non-overlapping occurrences of `pat` removed, scanning left
/// to right: the behaviour of `str::replace(pat, "")`.
pub open spec fn remove_all(s: Seq<char>, pat: Seq<char>) -> Seq<char>
    decreases s.len(),
{
    if pat.len() == 0 || s.len() < pat.len() {
        s
    } else if s.subrange(0, pat.len() as int) == pat {
        remove_all(s.skip(pat.len() as int), pat)
    } else {
        seq![s[0]] + remove_all(s.skip(1), pat)
    }
}

/// The prefix of `s` before its first '.', or all of `s` if it has none.
pub open spec fn before_dot(s: Seq<char>) -> Seq<char>
    decreases s.len(),
{
    if s.len() == 0 {
        s
    } else if s[0] == '.' {
        Seq::empty()
    } else {
        seq![s[0]] + before_dot(s.skip(1))
    }
}

/// The segment-reduction rule: every `.page` and `.route` occurrence is
/// stripped, then the component is truncated at the first remaining '.'.
pub open spec fn spec_reduce(s: Seq<char>) -> Seq<char> {
    before_dot(remove_all(remove_all(s, ".page"@), ".route"@))
}

/// `pat` occurs in `s` at character position `i`.
pub open spec fn match_at(s: Seq<char>, pat: Seq<char>, i: int) -> bool {
    0 <= i && i + pat.len() <= s.len() && s.subrange(i, i + pat.len()) == pat
}

/// Compares `s` at position `i` against `pat`, character by character.
fn matches_at(s: &str, n: usize, pat: &str, m: usize, i: usize) -> (r: bool)
    requires
        n == s@.len(),
        m == pat@.len(),
        i <= n,
    ensures
        r == match_at(s@, pat@, i as int),
{
    if n - i < m {
        return false;
    }
    let mut j: usize = 0;
    while j < m
        invariant
            n == s@.len(),
            m == pat@.len(),
            i <= n,
            i + m <= n,
            j <= m,
            forall|k: int| 0 <= k < j ==> s@[i + k] == pat@[k],
        decreases m - j,
    {
        if s.get_char(i + j) != pat.get_char(j) {
            proof {
                assert(s@.subrange(i as int, i + m as int)[j as int] != pat@[j as int]);
            }
            return false;
        }
        j = j + 1;
    }
    proof {
        assert(s@.subrange(i as int, i + m as int) =~= pat@);
    }
    true
}

/// Removing a pattern from a sequence that does not begin with it keeps the
/// first character and continues behind it.
proof fn lemma_remove_all_step(t: Seq<char>, pat: Seq<char>)
    requires
        t.len() >= 1,
        pat.len() >= 1,
        !(t.len() >= pat.len() && t.subrange(0, pat.len() as int) == pat),
    ensures
        remove_all(t, pat) == seq![t[0]] + remove_all(t.skip(1), pat),
{
    if t.len() < pat.len() {
        assert(remove_all(t, pat) == t);
        assert(t.skip(1).len() < pat.len());
        assert(remove_all(t.skip(1), pat) == t.skip(1));
        assert(t =~= seq![t[0]] + t.skip(1));
    }
}

/// Builds `s` with every occurrence of `pat` removed.
fn remove_pattern(s: &str, pat: &str) -> (r: String)
    requires
        pat@.len() >= 1,
    ensures
        r@ == remove_all(s@, pat@),
{
    let n = s.unicode_len();
    let m = pat.unicode_len();
    let mut r = String::new();
    let mut i: usize = 0;
    proof {
        assert(s@.skip(0) =~= s@);
        assert(r@ + remove_all(s@, pat@) =~= remove_all(s@, pat@));
    }
    while i < n
        invariant
            n == s@.len(),
            m == pat@.len(),
            m >= 1,
            i <= n,
            remove_all(s@, pat@) == r@ + remove_all(s@.skip(i as int), pat@),
        decreases n - i,
    {
        let ghost t = s@.skip(i as int);
        if matches_at(s, n, pat, m, i) {
            proof {
                assert(t.subrange(0, m as int) =~= s@.subrange(i as int, i + m as int));
                assert(t.len() >= m);
                assert(remove_all(t, pat@) == remove_all(t.skip(m as int), pat@));
                assert(t.skip(m as int) =~= s@.skip(i + m as int));
            }
            i = i + m;
        } else {
            let piece = s.substring_char(i, i + 1);
            r.append(piece);
            proof {
                assert(t.len() >= 1);
                if t.len() >= m {
                    assert(t.subrange(0, m as int) =~= s@.subrange(i as int, i + m as int));
                }
                lemma_remove_all_step(t, pat@);
                assert(t.skip(1) =~= s@.skip(i + 1 as int));
                assert(piece@ =~= seq![s@[i as int]]);
                assert(seq![t[0]] == piece@);
            }
            i = i + 1;
        }
    }
    proof {
        assert(s@.skip(n as int) =~= Seq::<char>::empty());
        assert(remove_all(s@.skip(n as int), pat@) =~= Seq::<char>::empty());
        assert(r@ + Seq::<char>::empty() =~= r@);
    }
    r
}

/// If no '.' stands before position `k` and `k` is the end or a '.', then
/// `before_dot` keeps exactly the first `k` characters.
proof fn lemma_before_dot_prefix(s: Seq<char>, k: int)
    requires
        0 <= k <= s.len(),
        forall|j: int| 0 <= j < k ==> s[j] != '.',
        k < s.len() ==> s[k] == '.',
    ensures
        before_dot(s) == s.subrange(0, k),
    decreases k,
{
    if k == 0 {
        assert(before_dot(s) =~= s.subrange(0, 0)) by {
            if s.len() > 0 {
                assert(s[0] == '.');
            }
        };
    } else {
        assert(s[0] != '.');
        lemma_before_dot_prefix(s.skip(1), k - 1);
        assert(seq![s[0]] + s.skip(1).subrange(0, k - 1) =~= s.subrange(0, k));
    }
}

/// Keeps the part of `s` before its first '.'.
fn truncate_at_dot(s: &str) -> (r: String)
    ensures
        r@ == before_dot(s@),
{
    let n = s.unicode_len();
    let mut k: usize = 0;
    while k < n && s.get_char(k) != '.'
        invariant
            n == s@.len(),
            k <= n,
            forall|j: int| 0 <= j < k ==> s@[j] != '.',
        decreases n - k,
    {
        k = k + 1;
    }
    let r = s.substring_char(0, k).to_owned();
    proof {
        lemma_before_dot_prefix(s@, k as int);
    }
    r
}

/// Reduces one path component to its route segment name.
pub fn reduce_segment(s: &str) -> (r: String)
    ensures
        r@ == spec_reduce(s@),
{
    proof {
        reveal_strlit(".page");
        reveal_strlit(".route");
    }
    let a = remove_pattern(s, ".page");
    let b = remove_pattern(a.as_str(), ".route");
    truncate_at_dot(b.as_str())
}

/// Character-for-character string equality.
pub fn str_equal(a: &str, b: &str) -> (r: bool)
    ensures
        r == (a@ == b@),
{
    let n = a.unicode_len();
    if n != b.unicode_len() {
        return false;
    }
    let mut i: usize = 0;
    while i < n
        invariant
            n == a@.len(),
            n == b@.len(),
            i <= n,
            forall|j: int| 0 <= j < i ==> a@[j] == b@[j],
        decreases n - i,
    {
        if a.get_char(i) != b.get_char(i) {
            return false;
        }
        i = i + 1;
    }
    proof {
        assert(a@ =~= b@);
    }
    true
}

} // verus!
