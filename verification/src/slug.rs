//! Deriving a page's file slug from its title: the title splits on
//! whitespace and on `/`, `-`, `:`; each piece keeps only its alphabetic and
//! decimal-digit characters, lowercased; empty pieces drop out and the rest
//! join with underscores.

use vstd::prelude::*;

use crate::scan::chars_of;

verus! {

/// What `char::to_lowercase` yields for `c`: a function of the character
/// alone, left unwritten here (the Unicode case-folding tables).
pub uninterp spec fn lower_chars(c: char) -> Seq<char>;

/// Whether `c` is alphabetic in the Unicode sense, left unwritten here.
pub uninterp spec fn unicode_alpha(c: char) -> bool;

/// Whether `c` has the Unicode white-space property, left unwritten here.
pub uninterp spec fn unicode_ws(c: char) -> bool;

/// Relies on char::to_lowercase: the result depends on the character alone.
#[verifier::external_body]
fn char_to_lowercase(c: char) -> (r: Vec<char>)
    ensures
        r@ == lower_chars(c),
{
    c.to_lowercase().collect()
}

/// Relies on char::is_alphabetic: the result depends on the character alone.
#[verifier::external_body]
fn char_is_alphabetic(c: char) -> (b: bool)
    ensures
        b == unicode_alpha(c),
{
    c.is_alphabetic()
}

/// Relies on char::is_whitespace: the result depends on the character
/// alone; the ASCII whitespace characters have the property.
#[verifier::external_body]
fn char_is_whitespace(c: char) -> (b: bool)
    ensures
        b == unicode_ws(c),
        c == ' ' || c == '\t' || c == '\n' || c == '\r' ==> b,
{
    c.is_whitespace()
}

/// Relies on String::from_iter over characters: collecting yields exactly
/// the characters in order.
#[verifier::external_body]
fn chars_to_string(v: &Vec<char>) -> (s: String)
    ensures
        s@ == v@,
{
    v.iter().collect()
}

/// A decimal digit.
pub open spec fn is_digit10(c: char) -> bool {
    c == '0' || c == '1' || c == '2' || c == '3' || c == '4' || c == '5' || c == '6' || c == '7'
        || c == '8' || c == '9'
}

/// Executable mirror of [`is_digit10`].
fn digit10(c: char) -> (b: bool)
    ensures
        b == is_digit10(c),
{
    c == '0' || c == '1' || c == '2' || c == '3' || c == '4' || c == '5' || c == '6' || c == '7'
        || c == '8' || c == '9'
}

/// A character the title splits on.
pub open spec fn is_sep(c: char) -> bool {
    unicode_ws(c) || c == '/' || c == '-' || c == ':'
}

/// A character a slug keeps (before lowercasing).
pub open spec fn is_kept(c: char) -> bool {
    unicode_alpha(c) || is_digit10(c)
}

/// The kept characters of one piece, lowercased and concatenated.
pub open spec fn kept_lower(w: Seq<char>) -> Seq<char>
    decreases w.len(),
{
    if w.len() == 0 {
        Seq::empty()
    } else if is_kept(w[0]) {
        lower_chars(w[0]) + kept_lower(w.drop_first())
    } else {
        kept_lower(w.drop_first())
    }
}

/// Appending one character to a piece appends its contribution.
proof fn lemma_kept_lower_snoc(w: Seq<char>, c: char)
    ensures
        kept_lower(w.push(c)) == kept_lower(w) + (if is_kept(c) {
            lower_chars(c)
        } else {
            Seq::<char>::empty()
        }),
    decreases w.len(),
{
    reveal_with_fuel(kept_lower, 3);
    let p = w.push(c);
    if w.len() == 0 {
        assert(p[0] == c);
        assert(p.drop_first() =~= Seq::<char>::empty());
        if is_kept(c) {
            assert(kept_lower(p) =~= kept_lower(w) + lower_chars(c));
        } else {
            assert(kept_lower(p) =~= kept_lower(w));
        }
    } else {
        assert(p[0] == w[0]);
        assert(p.drop_first() =~= w.drop_first().push(c));
        lemma_kept_lower_snoc(w.drop_first(), c);
        if is_kept(c) {
            assert(kept_lower(p) =~= kept_lower(w) + lower_chars(c));
        } else {
            assert(kept_lower(p) =~= kept_lower(w));
        }
    }
}

/// `j` is where a scan for the next separator, started at `from`, stops.
pub open spec fn is_sep_scan(s: Seq<char>, from: int, j: int) -> bool {
    &&& from <= j <= s.len()
    &&& forall|k: int| from <= k < j ==> !is_sep(s[k])
    &&& j < s.len() ==> is_sep(s[j])
}

/// The stopping point of a separator scan started at `from`.
pub open spec fn sep_scan(s: Seq<char>, from: int) -> int {
    choose|j: int| is_sep_scan(s, from, j)
}

/// A separator scan always has a stopping point, and `sep_scan` is it.
pub proof fn lemma_sep_scan(s: Seq<char>, from: int)
    requires
        0 <= from <= s.len(),
    ensures
        is_sep_scan(s, from, sep_scan(s, from)),
    decreases s.len() - from,
{
    if from == s.len() || is_sep(s[from]) {
        assert(is_sep_scan(s, from, from));
    } else {
        lemma_sep_scan(s, from + 1);
        let j = sep_scan(s, from + 1);
        assert(is_sep_scan(s, from, j));
    }
}

/// Separator-scan stopping points are unique.
pub proof fn lemma_sep_scan_unique(s: Seq<char>, from: int, j1: int, j2: int)
    requires
        is_sep_scan(s, from, j1),
        is_sep_scan(s, from, j2),
    ensures
        j1 == j2,
{
    if j1 < j2 {
        assert(!is_sep(s[j1]));
    }
    if j2 < j1 {
        assert(!is_sep(s[j2]));
    }
}

/// The processed pieces of the title from position `i` on: each piece's
/// kept-and-lowercased text, the empty ones dropped.
pub open spec fn slug_parts(s: Seq<char>, i: int) -> Seq<Seq<char>>
    decreases s.len() - i,
{
    if !(0 <= i <= s.len()) {
        Seq::empty()
    } else {
        let j = sep_scan(s, i);
        proof {
            lemma_sep_scan(s, i);
        }
        let w = kept_lower(s.subrange(i, j));
        let rest = if j == s.len() {
            Seq::<Seq<char>>::empty()
        } else {
            slug_parts(s, j + 1)
        };
        if w.len() == 0 {
            rest
        } else {
            seq![w] + rest
        }
    }
}

/// The pieces joined with single underscores.
pub open spec fn join_underscore(parts: Seq<Seq<char>>) -> Seq<char>
    decreases parts.len(),
{
    if parts.len() == 0 {
        Seq::empty()
    } else if parts.len() == 1 {
        parts[0]
    } else {
        parts[0] + seq!['_'] + join_underscore(parts.drop_first())
    }
}

/// What [`title_to_slug`] returns.
pub open spec fn slug_of(s: Seq<char>) -> Seq<char> {
    join_underscore(slug_parts(s, 0))
}

/// Every part a slug splits into is non-empty.
proof fn lemma_slug_parts_nonempty(s: Seq<char>, i: int)
    ensures
        forall|q: int| 0 <= q < slug_parts(s, i).len() ==> #[trigger] slug_parts(s, i)[q].len()
            > 0,
    decreases s.len() - i,
{
    if 0 <= i <= s.len() {
        lemma_sep_scan(s, i);
        let j = sep_scan(s, i);
        let w = kept_lower(s.subrange(i, j));
        let rest = if j == s.len() {
            Seq::<Seq<char>>::empty()
        } else {
            slug_parts(s, j + 1)
        };
        if j < s.len() {
            lemma_slug_parts_nonempty(s, j + 1);
        }
        let parts = slug_parts(s, i);
        assert forall|q: int| 0 <= q < parts.len() implies #[trigger] parts[q].len() > 0 by {
            if w.len() == 0 {
                assert(parts[q] == rest[q]);
            } else if q == 0 {
                assert(parts[q] == w);
            } else {
                assert(parts[q] == rest[q - 1]);
            }
        }
    }
}

/// A join of non-empty parts is empty exactly when there are no parts.
proof fn lemma_join_empty(parts: Seq<Seq<char>>)
    requires
        forall|q: int| 0 <= q < parts.len() ==> #[trigger] parts[q].len() > 0,
    ensures
        join_underscore(parts).len() == 0 <==> parts.len() == 0,
{
    if parts.len() == 1 {
        assert(parts[0].len() > 0);
    }
    if parts.len() > 1 {
        assert(parts[0].len() > 0);
    }
}

/// Scans from `from` to the next separator (or the end of `chars`).
fn scan_to_sep(chars: &Vec<char>, from: usize) -> (j: usize)
    requires
        from <= chars@.len(),
    ensures
        is_sep_scan(chars@, from as int, j as int),
        from <= j <= chars@.len(),
{
    let n: usize = chars.len();
    let mut j: usize = from;
    while j < n
        invariant
            from <= j <= n,
            n == chars@.len(),
            forall|k: int| from <= k < j ==> !is_sep(chars@[k]),
        decreases n - j,
    {
        let c: char = chars[j];
        if char_is_whitespace(c) || c == '/' || c == '-' || c == ':' {
            return j;
        }
        j = j + 1;
    }
    j
}

/// Joins the processed pieces of `title` from position `i` on.
fn slug_tail(title: &str, chars: &Vec<char>, i: usize) -> (r: Vec<char>)
    requires
        chars@ == title@,
        i <= chars@.len(),
    ensures
        r@ == join_underscore(slug_parts(title@, i as int)),
    decreases chars@.len() - i,
{
    let ghost s = title@;
    let n: usize = chars.len();
    let j: usize = scan_to_sep(chars, i);
    proof {
        lemma_sep_scan(s, i as int);
        lemma_sep_scan_unique(s, i as int, j as int, sep_scan(s, i as int));
    }
    let mut w: Vec<char> = Vec::new();
    let mut q: usize = i;
    while q < j
        invariant
            i <= q <= j <= n,
            n == chars@.len(),
            chars@ == s,
            w@ == kept_lower(s.subrange(i as int, q as int)),
        decreases j - q,
    {
        let c: char = chars[q];
        proof {
            lemma_kept_lower_snoc(s.subrange(i as int, q as int), s[q as int]);
            assert(s.subrange(i as int, q as int).push(s[q as int]) =~= s.subrange(
                i as int,
                q as int + 1,
            ));
        }
        if char_is_alphabetic(c) || digit10(c) {
            let mut lc: Vec<char> = char_to_lowercase(c);
            w.append(&mut lc);
        }
        q = q + 1;
    }
    proof {
        lemma_slug_parts_nonempty(s, i as int);
    }
    if j == n {
        proof {
            if w@.len() == 0 {
                assert(join_underscore(slug_parts(s, i as int)) =~= w@);
            } else {
                assert(join_underscore(seq![w@] + Seq::<Seq<char>>::empty()) == w@);
            }
        }
        return w;
    }
    let mut rest: Vec<char> = slug_tail(title, chars, j + 1);
    proof {
        lemma_slug_parts_nonempty(s, j as int + 1);
        lemma_join_empty(slug_parts(s, j as int + 1));
    }
    if w.len() == 0 {
        return rest;
    }
    if rest.len() == 0 {
        proof {
            assert(slug_parts(s, j as int + 1) =~= Seq::<Seq<char>>::empty());
            assert(join_underscore(seq![w@] + Seq::<Seq<char>>::empty()) == w@);
        }
        return w;
    }
    let ghost w0 = w@;
    let ghost parts = seq![w0] + slug_parts(s, j as int + 1);
    w.push('_');
    w.append(&mut rest);
    proof {
        assert(parts.drop_first() =~= slug_parts(s, j as int + 1));
        assert(w@ =~= w0 + seq!['_'] + join_underscore(slug_parts(s, j as int + 1)));
        assert(w@ == join_underscore(parts));
    }
    w
}

/// Derives a page's file slug from its title.
pub fn title_to_slug(title: &str) -> (r: String)
    ensures
        r@ == slug_of(title@),
{
    let chars: Vec<char> = chars_of(title);
    let joined: Vec<char> = slug_tail(title, &chars, 0);
    chars_to_string(&joined)
}

} // verus!
