//! Character scanning primitives: whitespace classification, first-occurrence
//! pattern search, and whitespace trimming, each with a specification-level
//! definition and a verified executable counterpart.

use vstd::prelude::*;

verus! {

/// The whitespace characters the recognizers split and trim on.
pub open spec fn is_ws(c: char) -> bool {
    c == ' ' || c == '\t' || c == '\n' || c == '\r'
}

/// Executable mirror of [`is_ws`].
pub fn is_ws_char(c: char) -> (b: bool)
    ensures
        b == is_ws(c),
{
    c == ' ' || c == '\t' || c == '\n' || c == '\r'
}

/// The pattern `pat` occurs in `s` starting at position `i`.
pub open spec fn pat_at(s: Seq<char>, i: int, pat: Seq<char>) -> bool {
    &&& 0 <= i
    &&& i + pat.len() <= s.len()
    &&& forall|k: int| 0 <= k < pat.len() ==> s[i + k] == pat[k]
}

/// `j` is the first position at or after `from` where `pat` occurs in `s`.
pub open spec fn is_first_pat(s: Seq<char>, from: int, pat: Seq<char>, j: int) -> bool {
    &&& from <= j
    &&& pat_at(s, j, pat)
    &&& forall|k: int| from <= k < j ==> !pat_at(s, k, pat)
}

/// `pat` occurs somewhere in `s` at or after `from`.
pub open spec fn has_pat(s: Seq<char>, from: int, pat: Seq<char>) -> bool {
    exists|j: int| from <= j && pat_at(s, j, pat)
}

/// The first position at or after `from` where `pat` occurs in `s`.
/// Meaningful only when `has_pat(s, from, pat)` holds.
pub open spec fn find_pat(s: Seq<char>, from: int, pat: Seq<char>) -> int {
    choose|j: int| is_first_pat(s, from, pat, j)
}

/// Any occurrence of `pat` yields a first occurrence.
pub proof fn lemma_first_pat_exists(s: Seq<char>, from: int, pat: Seq<char>, j: int)
    requires
        from <= j,
        pat_at(s, j, pat),
    ensures
        exists|j0: int| is_first_pat(s, from, pat, j0),
    decreases j - from,
{
    if pat_at(s, from, pat) {
        assert(is_first_pat(s, from, pat, from));
    } else {
        lemma_first_pat_exists(s, from + 1, pat, j);
        let j0 = choose|j0: int| #[trigger] is_first_pat(s, from + 1, pat, j0);
        assert(is_first_pat(s, from, pat, j0));
    }
}

/// Under `has_pat`, `find_pat` is the first occurrence.
pub proof fn lemma_find_pat(s: Seq<char>, from: int, pat: Seq<char>)
    requires
        has_pat(s, from, pat),
    ensures
        is_first_pat(s, from, pat, find_pat(s, from, pat)),
{
    let j = choose|j: int| from <= j && pat_at(s, j, pat);
    lemma_first_pat_exists(s, from, pat, j);
}

/// First occurrences are unique.
pub proof fn lemma_first_pat_unique(s: Seq<char>, from: int, pat: Seq<char>, j1: int, j2: int)
    requires
        is_first_pat(s, from, pat, j1),
        is_first_pat(s, from, pat, j2),
    ensures
        j1 == j2,
{
    if j1 < j2 {
        assert(!pat_at(s, j1, pat));
    }
    if j2 < j1 {
        assert(!pat_at(s, j2, pat));
    }
}

/// A found first occurrence pins down both `has_pat` and `find_pat`.
pub proof fn lemma_found_first_pat(s: Seq<char>, from: int, pat: Seq<char>, j: int)
    requires
        is_first_pat(s, from, pat, j),
    ensures
        has_pat(s, from, pat),
        find_pat(s, from, pat) == j,
{
    assert(from <= j && pat_at(s, j, pat));
    lemma_find_pat(s, from, pat);
    lemma_first_pat_unique(s, from, pat, j, find_pat(s, from, pat));
}

/// `j` is where a scan for the next whitespace character, started at `from`,
/// stops: every character in `[from, j)` is non-whitespace, and `j` is either
/// the end of `s` or a whitespace position.
pub open spec fn is_ws_scan(s: Seq<char>, from: int, j: int) -> bool {
    &&& from <= j <= s.len()
    &&& forall|k: int| from <= k < j ==> !is_ws(s[k])
    &&& j < s.len() ==> is_ws(s[j])
}

/// The stopping point of a whitespace scan started at `from`.
pub open spec fn ws_scan(s: Seq<char>, from: int) -> int {
    choose|j: int| is_ws_scan(s, from, j)
}

/// A whitespace scan always has a stopping point, and `ws_scan` is it.
pub proof fn lemma_ws_scan(s: Seq<char>, from: int)
    requires
        0 <= from <= s.len(),
    ensures
        is_ws_scan(s, from, ws_scan(s, from)),
    decreases s.len() - from,
{
    if from == s.len() || is_ws(s[from]) {
        assert(is_ws_scan(s, from, from));
    } else {
        lemma_ws_scan(s, from + 1);
        let j = ws_scan(s, from + 1);
        assert(is_ws_scan(s, from, j));
    }
}

/// Whitespace-scan stopping points are unique.
pub proof fn lemma_ws_scan_unique(s: Seq<char>, from: int, j1: int, j2: int)
    requires
        is_ws_scan(s, from, j1),
        is_ws_scan(s, from, j2),
    ensures
        j1 == j2,
{
    if j1 < j2 {
        assert(!is_ws(s[j1]));
    }
    if j2 < j1 {
        assert(!is_ws(s[j2]));
    }
}

/// `s` with leading whitespace removed.
pub open spec fn trim_front(s: Seq<char>) -> Seq<char>
    decreases s.len(),
{
    if s.len() > 0 && is_ws(s[0]) {
        trim_front(s.drop_first())
    } else {
        s
    }
}

/// `s` with trailing whitespace removed.
pub open spec fn trim_back(s: Seq<char>) -> Seq<char>
    decreases s.len(),
{
    if s.len() > 0 && is_ws(s.last()) {
        trim_back(s.drop_last())
    } else {
        s
    }
}

/// `s` with surrounding whitespace removed.
pub open spec fn trim_ws(s: Seq<char>) -> Seq<char> {
    trim_back(trim_front(s))
}

/// `trim_front` keeps exactly the suffix that starts at the first
/// non-whitespace character.
pub proof fn lemma_trim_front_range(s: Seq<char>, lo: int)
    requires
        0 <= lo <= s.len(),
        forall|k: int| 0 <= k < lo ==> is_ws(s[k]),
        lo < s.len() ==> !is_ws(s[lo]),
    ensures
        trim_front(s) == s.subrange(lo, s.len() as int),
    decreases lo,
{
    if lo == 0 {
        assert(trim_front(s) =~= s.subrange(0, s.len() as int));
    } else {
        let d = s.drop_first();
        assert(forall|k: int| 0 <= k < lo - 1 ==> is_ws(d[k]));
        lemma_trim_front_range(d, lo - 1);
        assert(d.subrange(lo - 1, d.len() as int) =~= s.subrange(lo, s.len() as int));
    }
}

/// `trim_back` keeps exactly the prefix that ends after the last
/// non-whitespace character.
pub proof fn lemma_trim_back_range(s: Seq<char>, hi: int)
    requires
        0 <= hi <= s.len(),
        forall|k: int| hi <= k < s.len() ==> is_ws(s[k]),
        hi > 0 ==> !is_ws(s[hi - 1]),
    ensures
        trim_back(s) == s.subrange(0, hi),
    decreases s.len() - hi,
{
    if hi == s.len() {
        assert(trim_back(s) =~= s.subrange(0, hi));
    } else {
        let d = s.drop_last();
        assert(is_ws(s.last()));
        assert(forall|k: int| hi <= k < d.len() ==> is_ws(d[k]));
        lemma_trim_back_range(d, hi);
        assert(d.subrange(0, hi) =~= s.subrange(0, hi));
    }
}

/// Collects the characters of `s` into a vector.
pub fn chars_of(s: &str) -> (v: Vec<char>)
    ensures
        v@ == s@,
{
    let n: usize = s.unicode_len();
    let mut v: Vec<char> = Vec::new();
    let mut i: usize = 0;
    while i < n
        invariant
            i <= n,
            n == s@.len(),
            v@ == s@.subrange(0, i as int),
        decreases n - i,
    {
        let c: char = s.get_char(i);
        v.push(c);
        i = i + 1;
        proof {
            assert(v@ =~= s@.subrange(0, i as int));
        }
    }
    proof {
        assert(v@ =~= s@);
    }
    v
}

/// A one-character search pattern.
pub fn pattern1(a: char) -> (p: Vec<char>)
    ensures
        p@ == seq![a],
{
    let mut p: Vec<char> = Vec::new();
    p.push(a);
    proof {
        assert(p@ =~= seq![a]);
    }
    p
}

/// A two-character search pattern.
pub fn pattern2(a: char, b: char) -> (p: Vec<char>)
    ensures
        p@ == seq![a, b],
{
    let mut p: Vec<char> = Vec::new();
    p.push(a);
    p.push(b);
    proof {
        assert(p@ =~= seq![a, b]);
    }
    p
}

/// A three-character search pattern.
pub fn pattern3(a: char, b: char, c: char) -> (p: Vec<char>)
    ensures
        p@ == seq![a, b, c],
{
    let mut p: Vec<char> = Vec::new();
    p.push(a);
    p.push(b);
    p.push(c);
    proof {
        assert(p@ =~= seq![a, b, c]);
    }
    p
}

/// Finds the first occurrence of `pat` in `chars` at or after `from`.
pub fn find_pattern(chars: &Vec<char>, from: usize, pat: &Vec<char>) -> (r: Option<usize>)
    requires
        pat@.len() >= 1,
    ensures
        match r {
            Some(j) => is_first_pat(chars@, from as int, pat@, j as int),
            None => !has_pat(chars@, from as int, pat@),
        },
{
    let n: usize = chars.len();
    let m: usize = pat.len();
    if m > n || from > n - m {
        proof {
            assert forall|j: int| from <= j implies !pat_at(chars@, j, pat@) by {
                assert(j + pat@.len() > chars@.len());
            }
        }
        return None;
    }
    let last: usize = n - m;
    let mut j: usize = from;
    while j <= last
        invariant
            from <= j,
            j <= last + 1,
            last == n - m,
            1 <= m <= n,
            m == pat@.len(),
            n == chars@.len(),
            forall|k: int| from <= k < j ==> !pat_at(chars@, k, pat@),
        decreases last + 1 - j,
    {
        let mut k: usize = 0;
        while k < m && chars[j + k] == pat[k]
            invariant
                0 <= k <= m,
                j + m <= n,
                m == pat@.len(),
                n == chars@.len(),
                forall|kk: int| 0 <= kk < k ==> chars@[j as int + kk] == pat@[kk],
            decreases m - k,
        {
            k = k + 1;
        }
        if k == m {
            proof {
                assert(pat_at(chars@, j as int, pat@));
            }
            return Some(j);
        }
        proof {
            assert(chars@[j as int + k as int] != pat@[k as int]);
            assert(!pat_at(chars@, j as int, pat@));
        }
        j = j + 1;
    }
    proof {
        assert forall|j0: int| from <= j0 implies !pat_at(chars@, j0, pat@) by {
            if j0 <= last as int {
                assert(!pat_at(chars@, j0, pat@));
            } else {
                assert(j0 + pat@.len() > chars@.len());
            }
        }
    }
    None
}

/// Decides whether `pat` occurs in `chars` exactly at position `i`.
pub fn pat_here(chars: &Vec<char>, i: usize, pat: &Vec<char>) -> (b: bool)
    requires
        pat@.len() >= 1,
    ensures
        b == pat_at(chars@, i as int, pat@),
{
    let n: usize = chars.len();
    let m: usize = pat.len();
    if m > n || i > n - m {
        proof {
            assert(i + pat@.len() > chars@.len());
        }
        return false;
    }
    let mut k: usize = 0;
    while k < m && chars[i + k] == pat[k]
        invariant
            0 <= k <= m,
            i + m <= n,
            m == pat@.len(),
            n == chars@.len(),
            forall|kk: int| 0 <= kk < k ==> chars@[i as int + kk] == pat@[kk],
        decreases m - k,
    {
        k = k + 1;
    }
    if k == m {
        proof {
            assert(pat_at(chars@, i as int, pat@));
        }
        true
    } else {
        proof {
            assert(chars@[i as int + k as int] != pat@[k as int]);
            assert(!pat_at(chars@, i as int, pat@));
        }
        false
    }
}

/// Scans from `from` to the next whitespace character (or the end of `chars`).
pub fn scan_to_ws(chars: &Vec<char>, from: usize) -> (j: usize)
    requires
        from <= chars@.len(),
    ensures
        is_ws_scan(chars@, from as int, j as int),
        from <= j <= chars@.len(),
{
    let n: usize = chars.len();
    let mut j: usize = from;
    while j < n
        invariant
            from <= j <= n,
            n == chars@.len(),
            forall|k: int| from <= k < j ==> !is_ws(chars@[k]),
        decreases n - j,
    {
        if is_ws_char(chars[j]) {
            return j;
        }
        j = j + 1;
    }
    j
}

/// Skips whitespace forward from `start`, stopping before `end`.
fn skip_ws_forward(chars: &Vec<char>, start: usize, end: usize) -> (lo: usize)
    requires
        start <= end <= chars@.len(),
    ensures
        start <= lo <= end,
        forall|k: int| start <= k < lo ==> is_ws(chars@[k]),
        lo < end ==> !is_ws(chars@[lo as int]),
{
    let mut lo: usize = start;
    while lo < end
        invariant
            start <= lo <= end,
            end <= chars@.len(),
            forall|k: int| start <= k < lo ==> is_ws(chars@[k]),
        decreases end - lo,
    {
        if !is_ws_char(chars[lo]) {
            return lo;
        }
        lo = lo + 1;
    }
    lo
}

/// Skips whitespace backward from `end`, stopping at or after `lo`.
fn skip_ws_backward(chars: &Vec<char>, lo: usize, end: usize) -> (hi: usize)
    requires
        lo <= end <= chars@.len(),
    ensures
        lo <= hi <= end,
        forall|k: int| hi <= k < end ==> is_ws(chars@[k]),
        hi > lo ==> !is_ws(chars@[hi - 1]),
{
    let mut hi: usize = end;
    while hi > lo
        invariant
            lo <= hi <= end,
            end <= chars@.len(),
            forall|k: int| hi <= k < end ==> is_ws(chars@[k]),
        decreases hi,
    {
        if !is_ws_char(chars[hi - 1]) {
            return hi;
        }
        hi = hi - 1;
    }
    hi
}

/// Shrinks `[start, end)` to the subrange left after trimming surrounding
/// whitespace from `chars[start..end]`.
pub fn trim_range(chars: &Vec<char>, start: usize, end: usize) -> (r: (usize, usize))
    requires
        start <= end <= chars@.len(),
    ensures
        start <= r.0 <= r.1 <= end,
        trim_ws(chars@.subrange(start as int, end as int)) == chars@.subrange(
            r.0 as int,
            r.1 as int,
        ),
{
    let ghost s = chars@.subrange(start as int, end as int);
    let lo: usize = skip_ws_forward(chars, start, end);
    let hi: usize = if lo < end {
        skip_ws_backward(chars, lo + 1, end)
    } else {
        lo
    };
    proof {
        assert(forall|k: int| 0 <= k < lo - start ==> is_ws(s[k]));
        assert(lo - start < s.len() ==> !is_ws(s[lo - start]));
        lemma_trim_front_range(s, lo - start);
        let f = s.subrange(lo - start, s.len() as int);
        assert(f =~= chars@.subrange(lo as int, end as int));
        assert(forall|k: int| hi - lo <= k < f.len() ==> is_ws(f[k]));
        assert(hi - lo > 0 ==> !is_ws(f[hi - lo - 1]));
        lemma_trim_back_range(f, hi - lo);
        assert(f.subrange(0, hi - lo) =~= chars@.subrange(lo as int, hi as int));
        assert(trim_ws(s) == chars@.subrange(lo as int, hi as int));
    }
    (lo, hi)
}

} // verus!
