use vstd::prelude::*;
use crate::chars::{is_white_space, is_whitespace};

verus! {

/// Whether `pat` occurs in `s` starting at position `i`.
pub open spec fn occurs_at(s: Seq<char>, pat: Seq<char>, i: int) -> bool {
    0 <= i && i + pat.len() <= s.len() && s.subrange(i, i + pat.len()) == pat
}

/// Whether `pat` occurs anywhere in `s`.
pub open spec fn contains(s: Seq<char>, pat: Seq<char>) -> bool {
    exists|i: int| occurs_at(s, pat, i)
}

/// `s` with the occurrences of `pat` replaced by `rep`, found from the left
/// and never overlapping; an empty `pat` replaces nothing.
pub open spec fn replace_all(s: Seq<char>, pat: Seq<char>, rep: Seq<char>) -> Seq<char>
    decreases s.len(),
{
    if s.len() == 0 {
        s
    } else if pat.len() > 0 && occurs_at(s, pat, 0) {
        rep + replace_all(s.skip(pat.len() as int), pat, rep)
    } else {
        seq![s[0]] + replace_all(s.skip(1), pat, rep)
    }
}

/// Replacing by something no longer never lengthens, and shortens whenever
/// there is something to replace.
pub proof fn lemma_replace_len(s: Seq<char>, pat: Seq<char>, rep: Seq<char>)
    requires
        0 < pat.len(),
        rep.len() <= pat.len(),
    ensures
        replace_all(s, pat, rep).len() <= s.len(),
        rep.len() < pat.len() && contains(s, pat) ==> replace_all(s, pat, rep).len() < s.len(),
    decreases s.len(),
{
    if s.len() == 0 {
        if contains(s, pat) {
            let i = choose|i: int| occurs_at(s, pat, i);
            assert(false);
        }
    } else if occurs_at(s, pat, 0) {
        lemma_replace_len(s.skip(pat.len() as int), pat, rep);
    } else {
        lemma_replace_len(s.skip(1), pat, rep);
        if rep.len() < pat.len() && contains(s, pat) {
            let i = choose|i: int| occurs_at(s, pat, i);
            assert(i >= 1);
            assert(s.skip(1).subrange(i - 1, i - 1 + pat.len()) =~= s.subrange(i, i + pat.len()));
            assert(occurs_at(s.skip(1), pat, i - 1));
        }
    }
}

/// `s` after replacing `pat` by the shorter `rep` again and again, as long
/// as `pat` occurs.
pub open spec fn collapse(s: Seq<char>, pat: Seq<char>, rep: Seq<char>) -> Seq<char>
    decreases s.len(),
{
    if rep.len() < pat.len() && contains(s, pat) {
        proof {
            lemma_replace_len(s, pat, rep);
        }
        collapse(replace_all(s, pat, rep), pat, rep)
    } else {
        s
    }
}

/// What collapsing leaves holds no occurrence of the pattern.
pub proof fn lemma_collapse_free(s: Seq<char>, pat: Seq<char>, rep: Seq<char>)
    requires
        rep.len() < pat.len(),
    ensures
        !contains(collapse(s, pat, rep), pat),
    decreases s.len(),
{
    if contains(s, pat) {
        lemma_replace_len(s, pat, rep);
        lemma_collapse_free(replace_all(s, pat, rep), pat, rep);
    }
}

/// Whether `pat` occurs in `s` at `i`.
pub fn occurs_at_chars(s: &Vec<char>, pat: &Vec<char>, i: usize) -> (r: bool)
    requires
        i <= s@.len(),
    ensures
        r == occurs_at(s@, pat@, i as int),
{
    if pat.len() > s.len() - i {
        return false;
    }
    let mut k: usize = 0;
    while k < pat.len()
        invariant
            i <= s@.len(),
            pat@.len() <= s@.len() - i,
            k <= pat@.len(),
            forall|j: int| 0 <= j < k ==> s@[i + j] == pat@[j],
        decreases pat@.len() - k,
    {
        let n = s.len();
        assert(i + k < n);
        if s[i + k] != pat[k] {
            assert(s@.subrange(i as int, i + pat@.len())[k as int] != pat@[k as int]);
            return false;
        }
        k = k + 1;
    }
    assert(s@.subrange(i as int, i + pat@.len()) =~= pat@);
    true
}

/// Whether `pat` occurs anywhere in `s`.
pub fn contains_chars(s: &Vec<char>, pat: &Vec<char>) -> (r: bool)
    ensures
        r == contains(s@, pat@),
{
    let mut i: usize = 0;
    loop
        invariant
            i <= s@.len(),
            forall|j: int| 0 <= j < i ==> !occurs_at(s@, pat@, j),
        decreases s@.len() - i,
    {
        if occurs_at_chars(s, pat, i) {
            return true;
        }
        if i == s.len() {
            assert forall|j: int| !occurs_at(s@, pat@, j) by {
                if 0 <= j < i {
                } else if j == i {
                } else {
                }
            }
            return false;
        }
        i = i + 1;
    }
}

/// Appends the characters of `t` to `v`.
pub fn extend_chars(v: &mut Vec<char>, t: &Vec<char>)
    ensures
        final(v)@ == old(v)@ + t@,
{
    let mut k: usize = 0;
    while k < t.len()
        invariant
            k <= t@.len(),
            v@ == old(v)@ + t@.subrange(0, k as int),
        decreases t@.len() - k,
    {
        v.push(t[k]);
        assert(t@.subrange(0, k + 1) =~= t@.subrange(0, k as int).push(t@[k as int]));
        k = k + 1;
    }
    assert(t@.subrange(0, t@.len() as int) =~= t@);
}

/// The characters `v[lo..hi]`.
pub fn slice_chars(v: &Vec<char>, lo: usize, hi: usize) -> (r: Vec<char>)
    requires
        lo <= hi <= v@.len(),
    ensures
        r@ == v@.subrange(lo as int, hi as int),
{
    let mut r: Vec<char> = Vec::new();
    let mut k: usize = lo;
    while k < hi
        invariant
            lo <= k <= hi <= v@.len(),
            r@ == v@.subrange(lo as int, k as int),
        decreases hi - k,
    {
        r.push(v[k]);
        assert(v@.subrange(lo as int, k + 1) =~= v@.subrange(lo as int, k as int).push(
            v@[k as int],
        ));
        k = k + 1;
    }
    r
}

/// `s` with the occurrences of `pat` replaced by `rep` (`str::replace`).
pub fn replace_chars(s: &Vec<char>, pat: &Vec<char>, rep: &Vec<char>) -> (r: Vec<char>)
    requires
        pat@.len() > 0,
    ensures
        r@ == replace_all(s@, pat@, rep@),
{
    let mut out: Vec<char> = Vec::new();
    let mut i: usize = 0;
    assert(s@.skip(0) =~= s@);
    assert(out@ + replace_all(s@, pat@, rep@) =~= replace_all(s@, pat@, rep@));
    while i < s.len()
        invariant
            i <= s@.len(),
            pat@.len() > 0,
            out@ + replace_all(s@.skip(i as int), pat@, rep@) == replace_all(s@, pat@, rep@),
        decreases s@.len() - i,
    {
        let ghost rest = s@.skip(i as int);
        let ghost before = out@;
        if occurs_at_chars(s, pat, i) {
            assert(rest.subrange(0, pat@.len() as int) =~= s@.subrange(
                i as int,
                i + pat@.len(),
            ));
            assert(rest.skip(pat@.len() as int) =~= s@.skip(i + pat@.len()));
            extend_chars(&mut out, rep);
            assert(before + (rep@ + replace_all(s@.skip(i + pat@.len()), pat@, rep@)) =~= out@
                + replace_all(s@.skip(i + pat@.len()), pat@, rep@));
            i = i + pat.len();
        } else {
            proof {
                if i + pat@.len() <= s@.len() {
                    assert(rest.subrange(0, pat@.len() as int) =~= s@.subrange(
                        i as int,
                        i + pat@.len(),
                    ));
                }
            }
            assert(!occurs_at(rest, pat@, 0));
            assert(rest.skip(1) =~= s@.skip(i + 1));
            assert(rest[0] == s@[i as int]);
            out.push(s[i]);
            assert(before + (seq![s@[i as int]] + replace_all(s@.skip(i + 1), pat@, rep@))
                =~= out@ + replace_all(s@.skip(i + 1), pat@, rep@));
            i = i + 1;
        }
    }
    assert(s@.skip(i as int) =~= Seq::<char>::empty());
    assert(out@ + Seq::<char>::empty() =~= out@);
    out
}

/// Replaces `pat` by the shorter `rep` for as long as `pat` occurs.
pub fn collapse_chars(s: Vec<char>, pat: &Vec<char>, rep: &Vec<char>) -> (r: Vec<char>)
    requires
        rep@.len() < pat@.len(),
    ensures
        r@ == collapse(s@, pat@, rep@),
{
    let mut cur = s;
    while contains_chars(&cur, pat)
        invariant
            rep@.len() < pat@.len(),
            collapse(cur@, pat@, rep@) == collapse(s@, pat@, rep@),
        decreases cur@.len(),
    {
        proof {
            lemma_replace_len(cur@, pat@, rep@);
        }
        cur = replace_chars(&cur, pat, rep);
    }
    cur
}

/// The first position at or after `i` whose character is not white space,
/// or the length of `s`.
pub open spec fn first_non_ws(s: Seq<char>, i: int) -> int
    decreases s.len() - i,
{
    if i >= s.len() {
        s.len() as int
    } else if !is_white_space(s[i]) {
        i
    } else {
        first_non_ws(s, i + 1)
    }
}

/// The end of `s[..j]` once its trailing white space is taken off.
pub open spec fn end_non_ws(s: Seq<char>, j: int) -> int
    decreases j,
{
    if j <= 0 {
        0
    } else if !is_white_space(s[j - 1]) {
        j
    } else {
        end_non_ws(s, j - 1)
    }
}

pub proof fn lemma_first_non_ws(s: Seq<char>, i: int)
    requires
        0 <= i <= s.len(),
    ensures
        i <= first_non_ws(s, i) <= s.len(),
        first_non_ws(s, i) < s.len() ==> !is_white_space(s[first_non_ws(s, i)]),
    decreases s.len() - i,
{
    if i < s.len() && is_white_space(s[i]) {
        lemma_first_non_ws(s, i + 1);
    }
}

pub proof fn lemma_end_non_ws(s: Seq<char>, j: int)
    requires
        0 <= j <= s.len(),
    ensures
        0 <= end_non_ws(s, j) <= j,
        end_non_ws(s, j) > 0 ==> !is_white_space(s[end_non_ws(s, j) - 1]),
        forall|k: int| end_non_ws(s, j) <= k < j ==> is_white_space(s[k]),
    decreases j,
{
    if j > 0 && is_white_space(s[j - 1]) {
        lemma_end_non_ws(s, j - 1);
    }
}

/// `s` without white space at either end.
pub open spec fn trim(s: Seq<char>) -> Seq<char> {
    let a = first_non_ws(s, 0);
    let b = end_non_ws(s, s.len() as int);
    if a < b {
        s.subrange(a, b)
    } else {
        Seq::empty()
    }
}

/// The first position at or after `i` that is not white space.
pub fn skip_ws(s: &Vec<char>, i: usize) -> (r: usize)
    requires
        i <= s@.len(),
    ensures
        r == first_non_ws(s@, i as int),
{
    let mut k = i;
    while k < s.len()
        invariant
            i <= k <= s@.len(),
            first_non_ws(s@, k as int) == first_non_ws(s@, i as int),
        decreases s@.len() - k,
    {
        if !is_whitespace(s[k]) {
            return k;
        }
        k = k + 1;
    }
    k
}

/// The end of `s[..j]` without its trailing white space.
pub fn skip_ws_back(s: &Vec<char>, j: usize) -> (r: usize)
    requires
        j <= s@.len(),
    ensures
        r == end_non_ws(s@, j as int),
{
    let mut k = j;
    while k > 0
        invariant
            k <= j <= s@.len(),
            end_non_ws(s@, k as int) == end_non_ws(s@, j as int),
        decreases k,
    {
        if !is_whitespace(s[k - 1]) {
            return k;
        }
        k = k - 1;
    }
    k
}

} // verus!
