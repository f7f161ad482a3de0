//! The specification-level parser: a recursive mathematical definition of
//! what [`crate::parse_string::parse`] returns for every input. The
//! dispatcher walks the text once; at each position it first tries the
//! construct recognizers (each keyed on its leading delimiter), and on
//! failure lets the character join the current literal run.

use vstd::prelude::*;

use crate::expression::Expr;
use crate::scan::{find_pat, has_pat, is_ws, lemma_find_pat, lemma_ws_scan, pat_at, trim_ws, ws_scan};

verus! {

/// `**`, the bold delimiter.
pub open spec fn pat_star2() -> Seq<char> {
    seq!['*', '*']
}

/// `((`, the block-reference opener.
pub open spec fn pat_oparen2() -> Seq<char> {
    seq!['(', '(']
}

/// `))`, the block-reference closer.
pub open spec fn pat_cparen2() -> Seq<char> {
    seq![')', ')']
}

/// `[[`, the link opener.
pub open spec fn pat_obrack2() -> Seq<char> {
    seq!['[', '[']
}

/// `]]`, the link closer.
pub open spec fn pat_cbrack2() -> Seq<char> {
    seq![']', ']']
}

/// `[`, the markdown-link label opener.
pub open spec fn pat_obrack1() -> Seq<char> {
    seq!['[']
}

/// `]`, the markdown-link label closer.
pub open spec fn pat_cbrack1() -> Seq<char> {
    seq![']']
}

/// `(`, the markdown-link URL opener.
pub open spec fn pat_oparen1() -> Seq<char> {
    seq!['(']
}

/// `)`, the markdown-link URL closer.
pub open spec fn pat_cparen1() -> Seq<char> {
    seq![')']
}

/// `{{`, the directive opener.
pub open spec fn pat_obrace2() -> Seq<char> {
    seq!['{', '{']
}

/// `}}`, the directive closer.
pub open spec fn pat_cbrace2() -> Seq<char> {
    seq!['}', '}']
}

/// `::`, the attribute delimiter.
pub open spec fn pat_colon2() -> Seq<char> {
    seq![':', ':']
}

/// A single backtick.
pub open spec fn pat_btick1() -> Seq<char> {
    seq!['`']
}

/// A triple backtick.
pub open spec fn pat_btick3() -> Seq<char> {
    seq!['`', '`', '`']
}

/// The `http://` scheme prefix.
pub open spec fn pat_http() -> Seq<char> {
    seq!['h', 't', 't', 'p', ':', '/', '/']
}

/// The `https://` scheme prefix.
pub open spec fn pat_https() -> Seq<char> {
    seq!['h', 't', 't', 'p', 's', ':', '/', '/']
}

/// The one directive name with dedicated semantics.
pub open spec fn table_name() -> Seq<char> {
    seq!['t', 'a', 'b', 'l', 'e']
}

/// Triple backtick at `i`: a verbatim span to the next triple backtick, or to
/// the end of the input when none follows.
pub open spec fn try_triple(s: Seq<char>, i: int) -> Option<(Expr, int)> {
    if pat_at(s, i, pat_btick3()) {
        if has_pat(s, i + 3, pat_btick3()) {
            let j = find_pat(s, i + 3, pat_btick3());
            Some((Expr::TripleBacktick(s.subrange(i + 3, j)), j + 3 - i))
        } else {
            Some((Expr::TripleBacktick(s.subrange(i + 3, s.len() as int)), s.len() - i))
        }
    } else {
        None
    }
}

/// Single backtick at `i`: a verbatim span to the next backtick, or to the
/// end of the input when none follows. Tried only after [`try_triple`].
pub open spec fn try_single(s: Seq<char>, i: int) -> Option<(Expr, int)> {
    if 0 <= i < s.len() && s[i] == '`' {
        if has_pat(s, i + 1, pat_btick1()) {
            let j = find_pat(s, i + 1, pat_btick1());
            Some((Expr::SingleBacktick(s.subrange(i + 1, j)), j + 1 - i))
        } else {
            Some((Expr::SingleBacktick(s.subrange(i + 1, s.len() as int)), s.len() - i))
        }
    } else {
        None
    }
}

/// `((id))` at `i`: the payload runs to the first `))`.
pub open spec fn try_blockref(s: Seq<char>, i: int) -> Option<(Expr, int)> {
    if pat_at(s, i, pat_oparen2()) && has_pat(s, i + 2, pat_cparen2()) {
        let j = find_pat(s, i + 2, pat_cparen2());
        Some((Expr::BlockRef(s.subrange(i + 2, j)), j + 2 - i))
    } else {
        None
    }
}

/// `[title](url)` or `![alt](url)` at `i`: a bracketed label ending at the
/// first `]`, which must be followed immediately by a parenthesized URL.
pub open spec fn try_mdlink(s: Seq<char>, i: int) -> Option<(Expr, int)> {
    if 0 <= i < s.len() && (s[i] == '[' || (s[i] == '!' && pat_at(s, i + 1, pat_obrack1()))) {
        let b = if s[i] == '!' {
            i + 1
        } else {
            i
        };
        if has_pat(s, b + 1, pat_cbrack1()) {
            let j = find_pat(s, b + 1, pat_cbrack1());
            if pat_at(s, j + 1, pat_oparen1()) && has_pat(s, j + 2, pat_cparen1()) {
                let k = find_pat(s, j + 2, pat_cparen1());
                if s[i] == '!' {
                    Some(
                        (
                            Expr::Image { alt: s.subrange(b + 1, j), url: s.subrange(j + 2, k) },
                            k + 1 - i,
                        ),
                    )
                } else {
                    Some(
                        (
                            Expr::MarkdownLink {
                                title: s.subrange(b + 1, j),
                                url: s.subrange(j + 2, k),
                            },
                            k + 1 - i,
                        ),
                    )
                }
            } else {
                None
            }
        } else {
            None
        }
    } else {
        None
    }
}

/// `[[title]]` at `i`: the payload runs to the first `]]`, so single `[` and
/// `]` characters inside are tolerated.
pub open spec fn try_link(s: Seq<char>, i: int) -> Option<(Expr, int)> {
    if pat_at(s, i, pat_obrack2()) && has_pat(s, i + 2, pat_cbrack2()) {
        let j = find_pat(s, i + 2, pat_cbrack2());
        Some((Expr::Link(s.subrange(i + 2, j)), j + 2 - i))
    } else {
        None
    }
}

/// `#[[title]]`, `#word` or `#.word` at `i`. The word form runs to the next
/// whitespace character; a leading dot is stripped and flagged.
pub open spec fn try_hashtag(s: Seq<char>, i: int) -> Option<(Expr, int)> {
    if 0 <= i < s.len() && s[i] == '#' {
        if pat_at(s, i + 1, pat_obrack2()) && has_pat(s, i + 3, pat_cbrack2()) {
            let j = find_pat(s, i + 3, pat_cbrack2());
            Some((Expr::Hashtag(s.subrange(i + 3, j), false), j + 2 - i))
        } else {
            let e = ws_scan(s, i + 1);
            if e == i + 1 {
                None
            } else if s[i + 1] == '.' {
                Some((Expr::Hashtag(s.subrange(i + 2, e), true), e - i))
            } else {
                Some((Expr::Hashtag(s.subrange(i + 1, e), false), e - i))
            }
        }
    } else {
        None
    }
}

/// `{{ name }}` at `i`: the content up to the first `}}` is trimmed; a
/// `[[...]]` wrapper is stripped; the name `table` selects [`Expr::Table`].
pub open spec fn try_brace(s: Seq<char>, i: int) -> Option<(Expr, int)> {
    if pat_at(s, i, pat_obrace2()) && has_pat(s, i + 2, pat_cbrace2()) {
        let j = find_pat(s, i + 2, pat_cbrace2());
        let t = trim_ws(s.subrange(i + 2, j));
        let name = if t.len() >= 4 && pat_at(t, 0, pat_obrack2()) && pat_at(
            t,
            t.len() - 2,
            pat_cbrack2(),
        ) {
            t.subrange(2, t.len() - 2)
        } else {
            t
        };
        if name == table_name() {
            Some((Expr::Table, j + 2 - i))
        } else {
            Some((Expr::BraceDirective(name), j + 2 - i))
        }
    } else {
        None
    }
}

/// A bare URL at `i`: a scheme prefix followed by a run of non-whitespace
/// characters; one trailing `.` is left out and re-emitted as literal text.
pub open spec fn try_hyperlink(s: Seq<char>, i: int) -> Option<(Expr, int)> {
    if pat_at(s, i, pat_http()) || pat_at(s, i, pat_https()) {
        let e = ws_scan(s, i);
        if s[e - 1] == '.' {
            Some((Expr::RawHyperlink(s.subrange(i, e - 1)), e - 1 - i))
        } else {
            Some((Expr::RawHyperlink(s.subrange(i, e)), e - i))
        }
    } else {
        None
    }
}

/// One inline recognizer attempt at position `i`, in priority order. Bold is
/// handled by the dispatcher itself (its payload is parsed recursively); the
/// attribute and blockquote forms apply only at the head of a block and are
/// handled by [`parse_top`].
pub open spec fn try_tok(s: Seq<char>, i: int) -> Option<(Expr, int)> {
    if try_triple(s, i) is Some {
        try_triple(s, i)
    } else if try_single(s, i) is Some {
        try_single(s, i)
    } else if try_blockref(s, i) is Some {
        try_blockref(s, i)
    } else if try_mdlink(s, i) is Some {
        try_mdlink(s, i)
    } else if try_link(s, i) is Some {
        try_link(s, i)
    } else if try_hashtag(s, i) is Some {
        try_hashtag(s, i)
    } else if try_brace(s, i) is Some {
        try_brace(s, i)
    } else {
        try_hyperlink(s, i)
    }
}

/// `**` opens at `i` and a closing `**` follows.
pub open spec fn bold_at(s: Seq<char>, i: int) -> bool {
    pat_at(s, i, pat_star2()) && has_pat(s, i + 2, pat_star2())
}

/// A successful recognizer consumes at least one character, stays within
/// the input, and never yields a literal-text node nor an attribute node
/// (the attribute form belongs to the whole-block parse alone).
pub proof fn lemma_try_tok_bounds(s: Seq<char>, i: int)
    requires
        0 <= i < s.len(),
        try_tok(s, i) is Some,
    ensures
        ({
            let (e, n) = try_tok(s, i)->Some_0;
            1 <= n && i + n <= s.len() && !(e is Text) && !(e is Attribute)
        }),
{
    if try_triple(s, i) is Some {
        if has_pat(s, i + 3, pat_btick3()) {
            lemma_find_pat(s, i + 3, pat_btick3());
        }
    } else if try_single(s, i) is Some {
        if has_pat(s, i + 1, pat_btick1()) {
            lemma_find_pat(s, i + 1, pat_btick1());
        }
    } else if try_blockref(s, i) is Some {
        lemma_find_pat(s, i + 2, pat_cparen2());
    } else if try_mdlink(s, i) is Some {
        let b = if s[i] == '!' {
            i + 1
        } else {
            i
        };
        lemma_find_pat(s, b + 1, pat_cbrack1());
        let j = find_pat(s, b + 1, pat_cbrack1());
        lemma_find_pat(s, j + 2, pat_cparen1());
    } else if try_link(s, i) is Some {
        lemma_find_pat(s, i + 2, pat_cbrack2());
    } else if try_hashtag(s, i) is Some {
        if pat_at(s, i + 1, pat_obrack2()) && has_pat(s, i + 3, pat_cbrack2()) {
            lemma_find_pat(s, i + 3, pat_cbrack2());
        } else {
            lemma_ws_scan(s, i + 1);
        }
    } else if try_brace(s, i) is Some {
        lemma_find_pat(s, i + 2, pat_cbrace2());
    } else if try_hyperlink(s, i) is Some {
        lemma_ws_scan(s, i);
        let e = ws_scan(s, i);
        assert(!is_ws('h') && !is_ws('t') && !is_ws('p') && !is_ws(':') && !is_ws('/') && !is_ws(
            's',
        ));
        if pat_at(s, i, pat_http()) {
            assert forall|m: int| 0 <= m < 7 implies !is_ws(pat_http()[m]) by {}
            if e < i + 7 {
                assert(s[e] == pat_http()[e - i]);
                assert(false);
            }
        } else {
            assert forall|m: int| 0 <= m < 8 implies !is_ws(pat_https()[m]) by {}
            if e < i + 8 {
                assert(s[e] == pat_https()[e - i]);
                assert(false);
            }
        }
    }
}

/// Lets `c` join the literal run at the head of `rest`, or start a new one.
pub open spec fn prepend_text(c: char, rest: Seq<Expr>) -> Seq<Expr> {
    if rest.len() > 0 {
        match rest[0] {
            Expr::Text(t) => seq![Expr::Text(seq![c] + t)] + rest.drop_first(),
            _ => seq![Expr::Text(seq![c])] + rest,
        }
    } else {
        seq![Expr::Text(seq![c])]
    }
}

/// The inline dispatcher, scanning `s` from position `i`: recognizers are
/// tried at each position in priority order; a character no recognizer
/// claims becomes literal text, coalesced with its neighbours.
pub open spec fn parse_from(s: Seq<char>, i: int) -> Seq<Expr>
    decreases s.len() - i,
{
    if !(0 <= i < s.len()) {
        Seq::empty()
    } else if bold_at(s, i) {
        let j = find_pat(s, i + 2, pat_star2());
        proof {
            lemma_find_pat(s, i + 2, pat_star2());
        }
        seq![Expr::Bold(parse_from(s.subrange(i + 2, j), 0))] + parse_from(s, j + 2)
    } else {
        match try_tok(s, i) {
            Some((e, n)) => {
                proof {
                    lemma_try_tok_bounds(s, i);
                }
                seq![e] + parse_from(s, i + n)
            },
            None => prepend_text(s[i], parse_from(s, i + 1)),
        }
    }
}

/// The attribute pre-scan succeeds when the input holds a `::` and no
/// backtick stands before the first one.
pub open spec fn attr_prescan(s: Seq<char>) -> bool {
    has_pat(s, 0, pat_colon2()) && (forall|m: int|
        0 <= m < find_pat(s, 0, pat_colon2()) ==> s[m] != '`')
}

/// Where the attribute name ends: the first `::`.
pub open spec fn attr_name_end(s: Seq<char>) -> int {
    find_pat(s, 0, pat_colon2())
}

/// Where the attribute value starts: after the `::`, one following space
/// being absorbed into the delimiter.
pub open spec fn attr_value_start(s: Seq<char>) -> int {
    let k = attr_name_end(s);
    if k + 2 < s.len() && s[k + 2] == ' ' {
        k + 3
    } else {
        k + 2
    }
}

/// The input opens a blockquote: `>` followed by a single space, at position
/// zero of the whole block only.
pub open spec fn blockquote_at_start(s: Seq<char>) -> bool {
    s.len() >= 2 && s[0] == '>' && s[1] == ' '
}

/// The whole-block parse. The attribute form is tried first, then the
/// blockquote form, both only here — never inside recursive re-entry — and
/// otherwise the inline dispatcher runs over the whole input.
pub open spec fn parse_top(s: Seq<char>) -> Seq<Expr> {
    if attr_prescan(s) {
        let k = attr_name_end(s);
        let v = attr_value_start(s);
        seq![
            (Expr::Attribute {
                name: s.subrange(0, k),
                value: parse_from(s.subrange(v, s.len() as int), 0),
            }),
        ]
    } else if blockquote_at_start(s) {
        seq![Expr::BlockQuote(parse_from(s.subrange(2, s.len() as int), 0))]
    } else {
        parse_from(s, 0)
    }
}

/// Joins a pending literal run onto a parsed tail: an empty run vanishes, a
/// run before a literal head coalesces with it, and otherwise the run stands
/// as its own text node.
pub open spec fn prepend_lits(pre: Seq<char>, rest: Seq<Expr>) -> Seq<Expr> {
    if pre.len() == 0 {
        rest
    } else if rest.len() > 0 {
        match rest[0] {
            Expr::Text(t) => seq![Expr::Text(pre + t)] + rest.drop_first(),
            _ => seq![Expr::Text(pre)] + rest,
        }
    } else {
        seq![Expr::Text(pre)]
    }
}

/// Extending the pending run by one character commutes with joining it on.
pub proof fn lemma_prepend_lits_snoc(pre: Seq<char>, c: char, rest: Seq<Expr>)
    ensures
        prepend_lits(pre, prepend_text(c, rest)) == prepend_lits(pre.push(c), rest),
{
    if pre.len() == 0 {
        if rest.len() > 0 {
            match rest[0] {
                Expr::Text(t) => {
                    assert(seq![c] + t =~= (Seq::<char>::empty().push(c)) + t);
                    assert(pre.push(c) =~= seq![c]);
                    assert(prepend_lits(pre, prepend_text(c, rest)) =~= prepend_lits(
                        pre.push(c),
                        rest,
                    ));
                },
                _ => {
                    assert(pre.push(c) =~= seq![c]);
                    assert(prepend_lits(pre, prepend_text(c, rest)) =~= prepend_lits(
                        pre.push(c),
                        rest,
                    ));
                },
            }
        } else {
            assert(pre.push(c) =~= seq![c]);
            assert(prepend_lits(pre, prepend_text(c, rest)) =~= prepend_lits(pre.push(c), rest));
        }
    } else {
        if rest.len() > 0 {
            match rest[0] {
                Expr::Text(t) => {
                    assert(pre + (seq![c] + t) =~= (pre.push(c)) + t);
                    assert(prepend_lits(pre, prepend_text(c, rest)) =~= prepend_lits(
                        pre.push(c),
                        rest,
                    ));
                },
                _ => {
                    assert((prepend_text(c, rest))[0] == Expr::Text(seq![c]));
                    assert(pre + seq![c] =~= pre.push(c));
                    assert((seq![Expr::Text(pre + seq![c])] + rest) =~= (seq![
                        Expr::Text(pre.push(c)),
                    ] + rest));
                    assert((prepend_text(c, rest)).drop_first() =~= rest);
                    assert(prepend_lits(pre, prepend_text(c, rest)) =~= prepend_lits(
                        pre.push(c),
                        rest,
                    ));
                },
            }
        } else {
            assert(prepend_text(c, rest) =~= seq![Expr::Text(seq![c])]);
            assert(pre + seq![c] =~= pre.push(c));
            assert(prepend_lits(pre, prepend_text(c, rest)) =~= prepend_lits(pre.push(c), rest));
        }
    }
}

/// Joining a pending run onto a recognized (non-literal) node flushes the
/// run as one text node before it.
pub proof fn lemma_prepend_lits_tok(pre: Seq<char>, e: Expr, rest: Seq<Expr>)
    requires
        !(e is Text),
    ensures
        pre.len() == 0 ==> prepend_lits(pre, seq![e] + rest) == seq![e] + rest,
        pre.len() > 0 ==> prepend_lits(pre, seq![e] + rest) == seq![Expr::Text(pre), e] + rest,
{
    assert((seq![e] + rest)[0] == e);
    if pre.len() > 0 {
        assert((seq![Expr::Text(pre)] + (seq![e] + rest)) =~= seq![Expr::Text(pre), e] + rest);
    }
}

} // verus!
