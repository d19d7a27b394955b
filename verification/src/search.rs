//! Searching, trimming and splitting character sequences, as `str::find`,
//! `str::trim`, `str::trim_start_matches` and `str::lines` do it.
use crate::lexar::chars::{is_whitespace, is_ws};
use vstd::prelude::*;

verus! {

/// `pat` occurs in `s` starting at position `i`.
pub open spec fn occurs_at(s: Seq<char>, pat: Seq<char>, i: int) -> bool {
    0 <= i && i + pat.len() <= s.len() && s.subrange(i, i + pat.len()) == pat
}

/// The first position at or after `from` where `pat` occurs in `s`.
pub open spec fn find_from(s: Seq<char>, pat: Seq<char>, from: int) -> Option<int>
    decreases s.len() + 1 - from,
{
    if from < 0 || from + pat.len() > s.len() {
        None
    } else if occurs_at(s, pat, from) {
        Some(from)
    } else {
        find_from(s, pat, from + 1)
    }
}

/// The first position where `pat` occurs in `s` (`str::find`).
pub open spec fn find(s: Seq<char>, pat: Seq<char>) -> Option<int> {
    find_from(s, pat, 0)
}

/// `s` begins with `pat`.
pub open spec fn starts_with(s: Seq<char>, pat: Seq<char>) -> bool {
    occurs_at(s, pat, 0)
}

/// `s` without its leading whitespace (`str::trim_start`).
pub open spec fn trim_start(s: Seq<char>) -> Seq<char>
    decreases s.len(),
{
    if s.len() > 0 && is_ws(s[0]) {
        trim_start(s.drop_first())
    } else {
        s
    }
}

/// `s` without its trailing whitespace (`str::trim_end`).
pub open spec fn trim_end(s: Seq<char>) -> Seq<char>
    decreases s.len(),
{
    if s.len() > 0 && is_ws(s.last()) {
        trim_end(s.drop_last())
    } else {
        s
    }
}

/// `s` without leading and trailing whitespace (`str::trim`).
pub open spec fn trim(s: Seq<char>) -> Seq<char> {
    trim_end(trim_start(s))
}

/// `s` with every leading repetition of `pat` removed
/// (`str::trim_start_matches` with a non-empty string pattern).
pub open spec fn strip_prefixes(s: Seq<char>, pat: Seq<char>) -> Seq<char>
    decreases s.len(),
{
    if pat.len() > 0 && starts_with(s, pat) {
        strip_prefixes(s.skip(pat.len() as int), pat)
    } else {
        s
    }
}

/// A found position is at or after `from`, and `pat` occurs there.
pub proof fn lemma_find_from_found(s: Seq<char>, pat: Seq<char>, from: int)
    ensures
        find_from(s, pat, from) matches Some(k) ==> from <= k && occurs_at(s, pat, k),
    decreases s.len() + 1 - from,
{
    if from >= 0 && from + pat.len() <= s.len() && !occurs_at(s, pat, from) {
        lemma_find_from_found(s, pat, from + 1);
    }
}

/// Seen from inside the slice `s[lo..hi]`, an occurrence at its position
/// `i` is an occurrence in `s` at `lo + i` that ends by `hi`.
proof fn lemma_occurs_in_slice(s: Seq<char>, pat: Seq<char>, lo: int, hi: int, i: int)
    requires
        0 <= lo <= hi <= s.len(),
        0 <= i,
    ensures
        occurs_at(s.subrange(lo, hi), pat, i) <==> (lo + i + pat.len() <= hi && occurs_at(s, pat, lo + i)),
{
    if lo + i + pat.len() <= hi {
        assert(s.subrange(lo, hi).subrange(i, i + pat.len()) =~= s.subrange(lo + i, lo + i + pat.len()));
    }
}

/// Whether `pat` occurs in `s` at `i`.
pub fn occurs_at_exec(s: &Vec<char>, pat: &Vec<char>, i: usize) -> (r: bool)
    ensures
        r == occurs_at(s@, pat@, i as int),
{
    if i > s.len() || pat.len() > s.len() - i {
        return false;
    }
    let mut k: usize = 0;
    while k < pat.len()
        invariant
            k <= pat.len(),
            i + pat.len() <= s.len(),
            forall|j: int| 0 <= j < k ==> s@[i + j] == pat@[j],
        decreases pat.len() - k,
    {
        if s[i + k] != pat[k] {
            assert(s@.subrange(i as int, i + pat.len())[k as int] != pat@[k as int]);
            return false;
        }
        k = k + 1;
    }
    assert(s@.subrange(i as int, i + pat.len()) =~= pat@);
    true
}

/// The first position at or after `from` where `pat` occurs in `s`.
pub fn find_from_exec(s: &Vec<char>, pat: &Vec<char>, from: usize) -> (r: Option<usize>)
    ensures
        match r {
            Some(k) => find_from(s@, pat@, from as int) == Some(k as int),
            None => find_from(s@, pat@, from as int) is None,
        },
{
    let mut i = from;
    while i <= s.len() && pat.len() <= s.len() - i
        invariant
            from <= i,
            find_from(s@, pat@, from as int) == find_from(s@, pat@, i as int),
        decreases s.len() + 1 - i,
    {
        if occurs_at_exec(s, pat, i) {
            return Some(i);
        }
        if i == s.len() {
            assert(s@.subrange(i as int, i as int) =~= pat@);
            return None;
        }
        i = i + 1;
    }
    None
}

/// The start of `trim_start(s[lo..hi])` in `s`.
pub fn trim_start_at(s: &Vec<char>, lo: usize, hi: usize) -> (a: usize)
    requires
        lo <= hi <= s.len(),
    ensures
        lo <= a <= hi,
        s@.subrange(a as int, hi as int) == trim_start(s@.subrange(lo as int, hi as int)),
{
    let mut a = lo;
    while a < hi && is_whitespace(s[a])
        invariant
            lo <= a <= hi <= s.len(),
            trim_start(s@.subrange(lo as int, hi as int)) == trim_start(s@.subrange(a as int, hi as int)),
        decreases hi - a,
    {
        assert(s@.subrange(a as int, hi as int).drop_first() =~= s@.subrange(a + 1, hi as int));
        a = a + 1;
    }
    a
}

/// The end of `trim_end(s[lo..hi])` in `s`.
pub fn trim_end_at(s: &Vec<char>, lo: usize, hi: usize) -> (b: usize)
    requires
        lo <= hi <= s.len(),
    ensures
        lo <= b <= hi,
        s@.subrange(lo as int, b as int) == trim_end(s@.subrange(lo as int, hi as int)),
{
    let mut b = hi;
    while b > lo && is_whitespace(s[b - 1])
        invariant
            lo <= b <= hi <= s.len(),
            trim_end(s@.subrange(lo as int, hi as int)) == trim_end(s@.subrange(lo as int, b as int)),
        decreases b - lo,
    {
        assert(s@.subrange(lo as int, b as int).drop_last() =~= s@.subrange(lo as int, b - 1));
        b = b - 1;
    }
    b
}

/// The bounds of `trim(s[lo..hi])` in `s`.
pub fn trim_at(s: &Vec<char>, lo: usize, hi: usize) -> (r: (usize, usize))
    requires
        lo <= hi <= s.len(),
    ensures
        lo <= r.0 <= r.1 <= hi,
        s@.subrange(r.0 as int, r.1 as int) == trim(s@.subrange(lo as int, hi as int)),
{
    let a = trim_start_at(s, lo, hi);
    let b = trim_end_at(s, a, hi);
    (a, b)
}

/// The start of `strip_prefixes(s[lo..hi], pat)` in `s`.
pub fn strip_prefixes_at(s: &Vec<char>, pat: &Vec<char>, lo: usize, hi: usize) -> (a: usize)
    requires
        lo <= hi <= s.len(),
        pat.len() > 0,
    ensures
        lo <= a <= hi,
        s@.subrange(a as int, hi as int) == strip_prefixes(s@.subrange(lo as int, hi as int), pat@),
{
    let mut a = lo;
    loop
        invariant
            lo <= a <= hi <= s.len(),
            pat.len() > 0,
            strip_prefixes(s@.subrange(lo as int, hi as int), pat@) == strip_prefixes(
                s@.subrange(a as int, hi as int),
                pat@,
            ),
        decreases hi - a,
    {
        proof {
            lemma_occurs_in_slice(s@, pat@, a as int, hi as int, 0);
        }
        if pat.len() <= hi - a && occurs_at_exec(s, pat, a) {
            assert(s@.subrange(a as int, hi as int).skip(pat.len() as int) =~= s@.subrange(
                a + pat.len(),
                hi as int,
            ));
            a = a + pat.len();
        } else {
            return a;
        }
    }
}


/// A line without the `\r` of a `\r\n` line ending.
pub open spec fn drop_cr(line: Seq<char>) -> Seq<char> {
    if line.len() > 0 && line.last() == '\r' {
        line.drop_last()
    } else {
        line
    }
}

/// The lines of `s` as `str::lines` gives them: `s` split after each
/// `\n`, with the `\r` of a `\r\n` dropped and no empty line after a final
/// line ending.
pub open spec fn lines(s: Seq<char>) -> Seq<Seq<char>>
    decreases s.len(),
{
    if s.len() == 0 {
        Seq::empty()
    } else {
        match find(s, seq!['\n']) {
            Some(k) => {
                proof {
                    lemma_find_from_found(s, seq!['\n'], 0);
                }
                seq![drop_cr(s.subrange(0, k))] + lines(s.subrange(k + 1, s.len() as int))
            },
            None => seq![s],
        }
    }
}

/// Searching `s` from `lo + i` is searching its suffix from `i`.
proof fn lemma_find_from_suffix(s: Seq<char>, pat: Seq<char>, lo: int, i: int)
    requires
        0 <= lo <= s.len(),
        0 <= i,
    ensures
        find_from(s, pat, lo + i) == (match find_from(s.subrange(lo, s.len() as int), pat, i) {
            Some(k) => Some(lo + k),
            None => None,
        }),
    decreases s.len() + 1 - (lo + i),
{
    lemma_occurs_in_slice(s, pat, lo, s.len() as int, i);
    if lo + i + pat.len() <= s.len() && !occurs_at(s, pat, lo + i) {
        lemma_find_from_suffix(s, pat, lo, i + 1);
    }
}

/// The bounds in `s` of its line `n` (counted from 0), if it has one.
pub fn line_bounds(s: &Vec<char>, n: usize) -> (r: Option<(usize, usize)>)
    ensures
        match r {
            Some((a, b)) => n < lines(s@).len() && a <= b <= s.len() && s@.subrange(a as int, b as int)
                == lines(s@)[n as int],
            None => n >= lines(s@).len(),
        },
{
    let mut newline: Vec<char> = Vec::new();
    newline.push('\n');
    assert(newline@ =~= seq!['\n']);
    let mut st: usize = 0;
    let mut ln: usize = 0;
    assert(s@.subrange(0, s@.len() as int) =~= s@);
    loop
        invariant
            st <= s.len(),
            ln <= n,
            newline@ == seq!['\n'],
            ln <= lines(s@).len(),
            lines(s@).skip(ln as int) == lines(s@.subrange(st as int, s@.len() as int)),
        decreases s.len() - st,
    {
        let ghost rest = s@.subrange(st as int, s@.len() as int);
        if st == s.len() {
            assert(lines(rest).len() == 0);
            return None;
        }
        proof {
            lemma_find_from_suffix(s@, newline@, st as int, 0);
            lemma_find_from_found(rest, newline@, 0);
        }
        match find_from_exec(s, &newline, st) {
            Some(k) => {
                let ghost line = drop_cr(s@.subrange(st as int, k as int));
                assert(rest.subrange(0, k - st) =~= s@.subrange(st as int, k as int));
                assert(rest.subrange(k - st + 1, rest.len() as int) =~= s@.subrange(k + 1, s@.len() as int));
                assert(lines(rest) == seq![line] + lines(s@.subrange(k + 1, s@.len() as int)));
                if ln == n {
                    let end = if k > st && s[k - 1] == '\r' {
                        k - 1
                    } else {
                        k
                    };
                    assert(s@.subrange(st as int, end as int) =~= line);
                    assert(lines(s@).skip(ln as int)[0] == line);
                    return Some((st, end));
                }
                assert(lines(s@).skip(ln + 1) =~= lines(s@).skip(ln as int).skip(1));
                assert((seq![line] + lines(s@.subrange(k + 1, s@.len() as int))).skip(1) =~= lines(
                    s@.subrange(k + 1, s@.len() as int),
                ));
                st = k + 1;
                ln = ln + 1;
            },
            None => {
                assert(lines(rest) == seq![rest]);
                if ln == n {
                    assert(lines(s@).skip(ln as int)[0] == rest);
                    return Some((st, s.len()));
                }
                return None;
            },
        }
    }
}

} // verus!
