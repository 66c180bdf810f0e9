//! Character-sequence utilities shared by the resolver, the template
//! renderer and the walk planner: conversions between `str`/`String` and
//! `Vec<char>`, string equality, and first-occurrence pattern search.

use vstd::prelude::*;

verus! {

/// The pattern `pat` occurs in `t` starting at position `i`.
pub open spec fn match_at(t: Seq<char>, pat: Seq<char>, i: int) -> bool {
    0 <= i && i + pat.len() <= t.len() && t.subrange(i, i + pat.len() as int) == pat
}

/// Position of the first occurrence of `pat` in `t`, if any.
pub open spec fn find_first(t: Seq<char>, pat: Seq<char>) -> Option<int>
    decreases t.len(),
{
    if pat.len() == 0 || t.len() < pat.len() {
        None
    } else if t.subrange(0, pat.len() as int) == pat {
        Some(0)
    } else {
        match find_first(t.skip(1), pat) {
            None => None,
            Some(j) => Some(j + 1),
        }
    }
}

/// A match of `pat` inside `t.skip(1)` is a match inside `t` shifted by one.
proof fn lemma_match_at_skip(t: Seq<char>, pat: Seq<char>, i: int)
    requires
        t.len() >= 1,
        0 <= i,
    ensures
        match_at(t.skip(1), pat, i) <==> match_at(t, pat, i + 1),
{
    if 0 <= i && i + pat.len() <= t.skip(1).len() {
        assert(t.skip(1).subrange(i, i + pat.len() as int) =~= t.subrange(
            i + 1,
            i + 1 + pat.len() as int,
        ));
    }
}

/// `find_first` returns the least matching position, or `None` exactly when
/// no position matches.
pub proof fn lemma_find_first(t: Seq<char>, pat: Seq<char>)
    requires
        pat.len() > 0,
    ensures
        match find_first(t, pat) {
            Some(i) => match_at(t, pat, i) && (forall|k: int|
                0 <= k < i ==> !match_at(t, pat, k)),
            None => forall|k: int| !match_at(t, pat, k),
        },
    decreases t.len(),
{
    if t.len() < pat.len() {
        assert forall|k: int| !match_at(t, pat, k) by {
            if 0 <= k && k + pat.len() <= t.len() {
                assert(false);
            }
        }
    } else if t.subrange(0, pat.len() as int) == pat {
        assert(match_at(t, pat, 0));
    } else {
        lemma_find_first(t.skip(1), pat);
        match find_first(t.skip(1), pat) {
            None => {
                assert forall|k: int| !match_at(t, pat, k) by {
                    if match_at(t, pat, k) {
                        if k == 0 {
                            assert(t.subrange(0, pat.len() as int) == pat);
                        } else {
                            lemma_match_at_skip(t, pat, k - 1);
                        }
                    }
                }
            },
            Some(j) => {
                lemma_match_at_skip(t, pat, j);
                assert(match_at(t, pat, j + 1));
                assert forall|k: int| 0 <= k < j + 1 implies !match_at(t, pat, k) by {
                    if match_at(t, pat, k) {
                        if k == 0 {
                            assert(t.subrange(0, pat.len() as int) == pat);
                        } else {
                            lemma_match_at_skip(t, pat, k - 1);
                        }
                    }
                }
            },
        }
    }
}

/// If `i` is a matching position with no earlier match, it is the one that
/// `find_first` returns.
pub proof fn lemma_find_first_unique(t: Seq<char>, pat: Seq<char>, i: int)
    requires
        pat.len() > 0,
        match_at(t, pat, i),
        forall|k: int| 0 <= k < i ==> !match_at(t, pat, k),
    ensures
        find_first(t, pat) == Some(i),
{
    lemma_find_first(t, pat);
    match find_first(t, pat) {
        None => {
            assert(!match_at(t, pat, i));
        },
        Some(j) => {
            if j < i {
                assert(!match_at(t, pat, j));
            }
            if i < j {
                assert(!match_at(t, pat, i));
            }
        },
    }
}

/// `t` with every occurrence of `pat` replaced by `sub`, scanning left to
/// right and never rescanning substituted text.
pub open spec fn replace_all(t: Seq<char>, pat: Seq<char>, sub: Seq<char>) -> Seq<char>
    decreases t.len(),
{
    if pat.len() == 0 || t.len() < pat.len() {
        t
    } else if t.subrange(0, pat.len() as int) == pat {
        sub + replace_all(t.skip(pat.len() as int), pat, sub)
    } else {
        seq![t[0]] + replace_all(t.skip(1), pat, sub)
    }
}

/// `replace_all` in terms of the first occurrence of the pattern: everything
/// before it is kept, the occurrence becomes `sub`, and the rest is replaced
/// recursively.
pub proof fn lemma_replace_step(t: Seq<char>, pat: Seq<char>, sub: Seq<char>)
    requires
        pat.len() > 0,
    ensures
        match find_first(t, pat) {
            None => replace_all(t, pat, sub) == t,
            Some(i) => replace_all(t, pat, sub) == t.take(i) + sub + replace_all(
                t.skip(i + pat.len() as int),
                pat,
                sub,
            ),
        },
    decreases t.len(),
{
    lemma_find_first(t, pat);
    if t.len() < pat.len() {
    } else if t.subrange(0, pat.len() as int) == pat {
        assert(match_at(t, pat, 0));
        assert(find_first(t, pat) == Some(0int));
        assert(t.take(0) + sub + replace_all(t.skip(pat.len() as int), pat, sub) =~= sub
            + replace_all(t.skip(pat.len() as int), pat, sub));
    } else {
        lemma_replace_step(t.skip(1), pat, sub);
        match find_first(t.skip(1), pat) {
            None => {
                assert(find_first(t, pat) is None);
                assert(seq![t[0]] + t.skip(1) =~= t);
            },
            Some(j) => {
                assert(find_first(t, pat) == Some(j + 1));
                assert(j >= 0) by {
                    lemma_find_first(t.skip(1), pat);
                }
                assert(seq![t[0]] + t.skip(1).take(j) =~= t.take(j + 1));
                assert(t.skip(1).skip(j + pat.len() as int) =~= t.skip(j + 1 + pat.len() as int));
                assert(seq![t[0]] + (t.skip(1).take(j) + sub + replace_all(
                    t.skip(1).skip(j + pat.len() as int),
                    pat,
                    sub,
                )) =~= t.take(j + 1) + sub + replace_all(t.skip(j + 1 + pat.len() as int), pat, sub));
            },
        }
    }
}

/// Appends `src[from..to]` to `out`.
pub fn append_range(out: &mut Vec<char>, src: &Vec<char>, from: usize, to: usize)
    requires
        from <= to <= src@.len(),
    ensures
        final(out)@ == old(out)@ + src@.subrange(from as int, to as int),
{
    let mut i: usize = from;
    while i < to
        invariant
            from <= i <= to <= src@.len(),
            out@ == old(out)@ + src@.subrange(from as int, i as int),
        decreases to - i,
    {
        out.push(src[i]);
        i = i + 1;
        assert(out@ =~= old(out)@ + src@.subrange(from as int, i as int));
    }
}

/// The suffix `src[from..]` as a fresh vector.
pub fn tail_from(src: &Vec<char>, from: usize) -> (r: Vec<char>)
    requires
        from <= src@.len(),
    ensures
        r@ == src@.skip(from as int),
{
    let mut r: Vec<char> = Vec::new();
    append_range(&mut r, src, from, src.len());
    proof {
        assert(r@ =~= src@.skip(from as int));
    }
    r
}

/// `t` with every occurrence of `pat` replaced by `sub`, as `replace_all`
/// describes it.
pub fn replace_chars(t: &Vec<char>, pat: &Vec<char>, sub: &Vec<char>) -> (r: Vec<char>)
    requires
        pat@.len() > 0,
    ensures
        r@ == replace_all(t@, pat@, sub@),
{
    let mut out: Vec<char> = Vec::new();
    let mut rest: Vec<char> = tail_from(t, 0);
    proof {
        assert(rest@ =~= t@);
    }
    loop
        invariant
            pat@.len() > 0,
            replace_all(t@, pat@, sub@) == out@ + replace_all(rest@, pat@, sub@),
        decreases rest@.len(),
    {
        match scan_first(&rest, pat) {
            None => {
                proof {
                    lemma_replace_step(rest@, pat@, sub@);
                }
                let end = rest.len();
                append_range(&mut out, &rest, 0, end);
                proof {
                    assert(rest@.subrange(0, rest@.len() as int) =~= rest@);
                }
                return out;
            },
            Some(i) => {
                proof {
                    lemma_replace_step(rest@, pat@, sub@);
                    lemma_find_first(rest@, pat@);
                }
                let rlen = rest.len();
                proof {
                    assert(match_at(rest@, pat@, i as int));
                    assert(i + pat@.len() <= rlen);
                }
                let ghost prev = rest@;
                let ghost prev_out = out@;
                append_range(&mut out, &rest, 0, i);
                append_range(&mut out, sub, 0, sub.len());
                let next = tail_from(&rest, i + pat.len());
                proof {
                    assert(sub@.subrange(0, sub@.len() as int) =~= sub@);
                    assert(prev.subrange(0, i as int) =~= prev.take(i as int));
                    assert(out@ =~= prev_out + prev.take(i as int) + sub@);
                    assert(replace_all(t@, pat@, sub@) == out@ + replace_all(
                        next@,
                        pat@,
                        sub@,
                    ));
                }
                rest = next;
            },
        }
    }
}

/// The characters of `s`, in order, as a vector.
pub fn to_chars(s: &str) -> (v: Vec<char>)
    ensures
        v@ == s@,
{
    let n = s.unicode_len();
    let mut v: Vec<char> = Vec::new();
    let mut i: usize = 0;
    while i < n
        invariant
            n == s@.len(),
            i <= n,
            v@ == s@.take(i as int),
        decreases n - i,
    {
        v.push(s.get_char(i));
        i = i + 1;
        assert(v@ =~= s@.take(i as int));
    }
    assert(v@ =~= s@);
    v
}

/// Relies on std's `String::push`: appends the character to the end of the
/// string.
#[verifier::external_body]
fn push_char(s: &mut String, c: char)
    ensures
        final(s)@ == old(s)@.push(c),
{
    s.push(c);
}

/// The characters of `v`, in order, as an owned string.
pub fn chars_to_string(v: &Vec<char>) -> (s: String)
    ensures
        s@ == v@,
{
    let mut s = String::new();
    let mut i: usize = 0;
    while i < v.len()
        invariant
            i <= v@.len(),
            s@ == v@.take(i as int),
        decreases v@.len() - i,
    {
        push_char(&mut s, v[i]);
        i = i + 1;
        assert(s@ =~= v@.take(i as int));
    }
    assert(s@ =~= v@);
    s
}

/// String equality over the character sequences of two slices.
pub fn str_eq(a: &str, b: &str) -> (r: bool)
    ensures
        r == (a@ == b@),
{
    let na = a.unicode_len();
    let nb = b.unicode_len();
    if na != nb {
        proof {
            assert(a@ != b@);
        }
        return false;
    }
    let mut i: usize = 0;
    while i < na
        invariant
            na == a@.len(),
            na == b@.len(),
            i <= na,
            forall|k: int| 0 <= k < i ==> a@[k] == b@[k],
        decreases na - i,
    {
        if a.get_char(i) != b.get_char(i) {
            proof {
                assert(a@[i as int] != b@[i as int]);
            }
            return false;
        }
        i = i + 1;
    }
    proof {
        assert(a@ =~= b@);
    }
    true
}

/// Equality between a character vector and the characters of a slice.
pub fn chars_eq_str(a: &Vec<char>, b: &str) -> (r: bool)
    ensures
        r == (a@ == b@),
{
    let nb = b.unicode_len();
    if a.len() != nb {
        proof {
            assert(a@ != b@);
        }
        return false;
    }
    let mut i: usize = 0;
    while i < nb
        invariant
            nb == b@.len(),
            nb == a@.len(),
            i <= nb,
            forall|k: int| 0 <= k < i ==> a@[k] == b@[k],
        decreases nb - i,
    {
        if a[i] != b.get_char(i) {
            proof {
                assert(a@[i as int] != b@[i as int]);
            }
            return false;
        }
        i = i + 1;
    }
    proof {
        assert(a@ =~= b@);
    }
    true
}

/// First occurrence of `pat` in `t`, as `find_first` describes it.
pub fn scan_first(t: &Vec<char>, pat: &Vec<char>) -> (r: Option<usize>)
    requires
        pat@.len() > 0,
    ensures
        match r {
            Some(i) => find_first(t@, pat@) == Some(i as int),
            None => find_first(t@, pat@) is None,
        },
{
    if t.len() < pat.len() {
        proof {
            lemma_find_first(t@, pat@);
            if find_first(t@, pat@) is Some {
                let i = find_first(t@, pat@)->Some_0;
                assert(match_at(t@, pat@, i));
            }
        }
        return None;
    }
    let n = t.len();
    let m = pat.len();
    let stop = n - m;
    let mut i: usize = 0;
    while i <= stop
        invariant
            n == t@.len(),
            m == pat@.len(),
            m > 0,
            stop == n - m,
            i <= stop + 1,
            forall|k: int| 0 <= k < i ==> !match_at(t@, pat@, k),
        decreases stop + 1 - i,
    {
        let mut j: usize = 0;
        let mut matched = true;
        while j < m
            invariant
                n == t@.len(),
                m == pat@.len(),
                m > 0,
                i + m <= n,
                j <= m,
                matched ==> forall|k: int| 0 <= k < j ==> t@[i + k] == pat@[k],
                !matched ==> exists|k: int| 0 <= k < pat@.len() && t@[i + k] != pat@[k],
            decreases pat@.len() - j,
        {
            if t[i + j] != pat[j] {
                proof {
                    assert(t@[i + j] != pat@[j as int]);
                }
                matched = false;
                j = pat.len();
            } else {
                j = j + 1;
            }
        }
        if matched {
            proof {
                assert(t@.subrange(i as int, i + pat@.len() as int) =~= pat@);
                assert(match_at(t@, pat@, i as int));
                lemma_find_first_unique(t@, pat@, i as int);
            }
            return Some(i);
        }
        proof {
            if match_at(t@, pat@, i as int) {
                let k = choose|k: int| 0 <= k < pat@.len() && t@[i + k] != pat@[k];
                assert(t@.subrange(i as int, i + pat@.len() as int)[k] == t@[i + k]);
                assert(false);
            }
        }
        i = i + 1;
    }
    proof {
        lemma_find_first(t@, pat@);
        if find_first(t@, pat@) is Some {
            let m = find_first(t@, pat@)->Some_0;
            assert(match_at(t@, pat@, m));
        }
    }
    None
}

} // verus!
