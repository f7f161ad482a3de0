//! The executable parser: one pass over a block's text, proved to return
//! exactly what the specification-level parser [`crate::model::parse_top`]
//! describes, for every input.

use vstd::prelude::*;

pub use crate::expression::Expression;

use crate::expression::{expr_view, exprs_view, lemma_exprs_view_push, Expr};
use crate::model::{
    attr_prescan, attr_value_start, blockquote_at_start, bold_at, lemma_prepend_lits_snoc,
    lemma_prepend_lits_tok, lemma_try_tok_bounds, parse_from, parse_top, pat_btick1, pat_btick3,
    pat_cbrack1, pat_cbrack2, pat_cbrace2, pat_colon2, pat_cparen1, pat_cparen2, pat_http,
    pat_https, pat_obrack2, pat_obrace2, pat_star2, prepend_lits, prepend_text, table_name,
    try_blockref, try_brace, try_hashtag, try_hyperlink, try_link, try_mdlink, try_single,
    try_tok, try_triple,
};
use crate::scan::{
    chars_of, find_pattern, is_ws, lemma_found_first_pat, lemma_ws_scan, lemma_ws_scan_unique,
    pat_at, pat_here, pattern1, pattern2, pattern3, scan_to_ws, trim_range, trim_ws, ws_scan,
};

verus! {

/// Returned only for a caller contract violation; the parser itself never
/// fails, so [`parse`] in fact always returns `Ok`. Malformed markup
/// degrades to literal text instead of erring.
#[derive(Debug, PartialEq)]
pub struct ParseError;

/// The executable `http://` prefix.
fn http_pattern() -> (p: Vec<char>)
    ensures
        p@ == pat_http(),
{
    let mut p: Vec<char> = Vec::new();
    p.push('h');
    p.push('t');
    p.push('t');
    p.push('p');
    p.push(':');
    p.push('/');
    p.push('/');
    proof {
        assert(p@ =~= pat_http());
    }
    p
}

/// The executable `https://` prefix.
fn https_pattern() -> (p: Vec<char>)
    ensures
        p@ == pat_https(),
{
    let mut p: Vec<char> = Vec::new();
    p.push('h');
    p.push('t');
    p.push('t');
    p.push('p');
    p.push('s');
    p.push(':');
    p.push('/');
    p.push('/');
    proof {
        assert(p@ =~= pat_https());
    }
    p
}

fn try_triple_exec(input: &str, chars: &Vec<char>, i: usize) -> (r: Option<(Expression, usize)>)
    requires
        chars@ == input@,
        i < chars@.len(),
    ensures
        r matches Some(p) ==> try_triple(input@, i as int) == Some((p.0@, p.1 as int)),
        r is None ==> try_triple(input@, i as int) is None,
{
    let bt3: Vec<char> = pattern3('`', '`', '`');
    if !pat_here(chars, i, &bt3) {
        return None;
    }
    let n: usize = chars.len();
    match find_pattern(chars, i + 3, &bt3) {
        Some(j) => {
            proof {
                lemma_found_first_pat(input@, i as int + 3, pat_btick3(), j as int);
            }
            let content: String = input.substring_char(i + 3, j).to_owned();
            Some((Expression::TripleBacktick(content), j + 3 - i))
        },
        None => {
            let content: String = input.substring_char(i + 3, n).to_owned();
            Some((Expression::TripleBacktick(content), n - i))
        },
    }
}

fn try_single_exec(input: &str, chars: &Vec<char>, i: usize) -> (r: Option<(Expression, usize)>)
    requires
        chars@ == input@,
        i < chars@.len(),
    ensures
        r matches Some(p) ==> try_single(input@, i as int) == Some((p.0@, p.1 as int)),
        r is None ==> try_single(input@, i as int) is None,
{
    if chars[i] != '`' {
        return None;
    }
    let bt1: Vec<char> = pattern1('`');
    let n: usize = chars.len();
    match find_pattern(chars, i + 1, &bt1) {
        Some(j) => {
            proof {
                lemma_found_first_pat(input@, i as int + 1, pat_btick1(), j as int);
            }
            let content: String = input.substring_char(i + 1, j).to_owned();
            Some((Expression::SingleBacktick(content), j + 1 - i))
        },
        None => {
            let content: String = input.substring_char(i + 1, n).to_owned();
            Some((Expression::SingleBacktick(content), n - i))
        },
    }
}

fn try_blockref_exec(input: &str, chars: &Vec<char>, i: usize) -> (r: Option<(Expression, usize)>)
    requires
        chars@ == input@,
        i < chars@.len(),
    ensures
        r matches Some(p) ==> try_blockref(input@, i as int) == Some((p.0@, p.1 as int)),
        r is None ==> try_blockref(input@, i as int) is None,
{
    let _n: usize = chars.len();
    let op: Vec<char> = pattern2('(', '(');
    if !pat_here(chars, i, &op) {
        return None;
    }
    let cp: Vec<char> = pattern2(')', ')');
    match find_pattern(chars, i + 2, &cp) {
        Some(j) => {
            proof {
                lemma_found_first_pat(input@, i as int + 2, pat_cparen2(), j as int);
            }
            let content: String = input.substring_char(i + 2, j).to_owned();
            Some((Expression::BlockRef(content), j + 2 - i))
        },
        None => None,
    }
}

fn try_mdlink_exec(input: &str, chars: &Vec<char>, i: usize) -> (r: Option<(Expression, usize)>)
    requires
        chars@ == input@,
        i < chars@.len(),
    ensures
        r matches Some(p) ==> try_mdlink(input@, i as int) == Some((p.0@, p.1 as int)),
        r is None ==> try_mdlink(input@, i as int) is None,
{
    let _n: usize = chars.len();
    let ob: Vec<char> = pattern1('[');
    let bang: bool = chars[i] == '!';
    if bang && !pat_here(chars, i + 1, &ob) {
        return None;
    }
    if !bang && chars[i] != '[' {
        return None;
    }
    let b: usize = if bang {
        i + 1
    } else {
        i
    };
    let cb: Vec<char> = pattern1(']');
    match find_pattern(chars, b + 1, &cb) {
        None => None,
        Some(j) => {
            proof {
                lemma_found_first_pat(input@, b as int + 1, pat_cbrack1(), j as int);
            }
            let opn: Vec<char> = pattern1('(');
            if !pat_here(chars, j + 1, &opn) {
                return None;
            }
            let cpn: Vec<char> = pattern1(')');
            match find_pattern(chars, j + 2, &cpn) {
                None => None,
                Some(k) => {
                    proof {
                        lemma_found_first_pat(input@, j as int + 2, pat_cparen1(), k as int);
                    }
                    let label: String = input.substring_char(b + 1, j).to_owned();
                    let url: String = input.substring_char(j + 2, k).to_owned();
                    if bang {
                        Some((Expression::Image { alt: label, url: url }, k + 1 - i))
                    } else {
                        Some((Expression::MarkdownLink { title: label, url: url }, k + 1 - i))
                    }
                },
            }
        },
    }
}

fn try_link_exec(input: &str, chars: &Vec<char>, i: usize) -> (r: Option<(Expression, usize)>)
    requires
        chars@ == input@,
        i < chars@.len(),
    ensures
        r matches Some(p) ==> try_link(input@, i as int) == Some((p.0@, p.1 as int)),
        r is None ==> try_link(input@, i as int) is None,
{
    let _n: usize = chars.len();
    let ob: Vec<char> = pattern2('[', '[');
    if !pat_here(chars, i, &ob) {
        return None;
    }
    let cb: Vec<char> = pattern2(']', ']');
    match find_pattern(chars, i + 2, &cb) {
        Some(j) => {
            proof {
                lemma_found_first_pat(input@, i as int + 2, pat_cbrack2(), j as int);
            }
            let content: String = input.substring_char(i + 2, j).to_owned();
            Some((Expression::Link(content), j + 2 - i))
        },
        None => None,
    }
}

fn try_hashtag_exec(input: &str, chars: &Vec<char>, i: usize) -> (r: Option<(Expression, usize)>)
    requires
        chars@ == input@,
        i < chars@.len(),
    ensures
        r matches Some(p) ==> try_hashtag(input@, i as int) == Some((p.0@, p.1 as int)),
        r is None ==> try_hashtag(input@, i as int) is None,
{
    let _n: usize = chars.len();
    if chars[i] != '#' {
        return None;
    }
    let ob2: Vec<char> = pattern2('[', '[');
    let cb2: Vec<char> = pattern2(']', ']');
    if pat_here(chars, i + 1, &ob2) {
        match find_pattern(chars, i + 3, &cb2) {
            Some(j) => {
                proof {
                    lemma_found_first_pat(input@, i as int + 3, pat_cbrack2(), j as int);
                }
                let tag: String = input.substring_char(i + 3, j).to_owned();
                return Some((Expression::Hashtag(tag, false), j + 2 - i));
            },
            None => {},
        }
    }
    let e: usize = scan_to_ws(chars, i + 1);
    proof {
        lemma_ws_scan(input@, i as int + 1);
        lemma_ws_scan_unique(input@, i as int + 1, e as int, ws_scan(input@, i as int + 1));
    }
    if e == i + 1 {
        return None;
    }
    if chars[i + 1] == '.' {
        let tag: String = input.substring_char(i + 2, e).to_owned();
        Some((Expression::Hashtag(tag, true), e - i))
    } else {
        let tag: String = input.substring_char(i + 1, e).to_owned();
        Some((Expression::Hashtag(tag, false), e - i))
    }
}

fn try_brace_exec(input: &str, chars: &Vec<char>, i: usize) -> (r: Option<(Expression, usize)>)
    requires
        chars@ == input@,
        i < chars@.len(),
    ensures
        r matches Some(p) ==> try_brace(input@, i as int) == Some((p.0@, p.1 as int)),
        r is None ==> try_brace(input@, i as int) is None,
{
    let _n: usize = chars.len();
    let ob: Vec<char> = pattern2('{', '{');
    if !pat_here(chars, i, &ob) {
        return None;
    }
    let cbr: Vec<char> = pattern2('}', '}');
    match find_pattern(chars, i + 2, &cbr) {
        None => None,
        Some(j) => {
            proof {
                lemma_found_first_pat(input@, i as int + 2, pat_cbrace2(), j as int);
            }
            let lohi: (usize, usize) = trim_range(chars, i + 2, j);
            let lo: usize = lohi.0;
            let hi: usize = lohi.1;
            let ghost t = trim_ws(input@.subrange(i as int + 2, j as int));
            let stripped: bool = hi - lo >= 4 && chars[lo] == '[' && chars[lo + 1] == '['
                && chars[hi - 2] == ']' && chars[hi - 1] == ']';
            let nl: usize = if stripped {
                lo + 2
            } else {
                lo
            };
            let nh: usize = if stripped {
                hi - 2
            } else {
                hi
            };
            proof {
                assert(t == input@.subrange(lo as int, hi as int));
                if stripped {
                    assert forall|k: int| 0 <= k < 2 implies t[0 + k] == pat_obrack2()[k] by {
                        if k == 0 {
                            assert(t[0] == input@[lo as int]);
                        }
                        if k == 1 {
                            assert(t[1] == input@[lo as int + 1]);
                        }
                    }
                    assert(pat_at(t, 0, pat_obrack2()));
                    assert forall|k: int| 0 <= k < 2 implies t[t.len() - 2 + k]
                        == pat_cbrack2()[k] by {
                        if k == 0 {
                            assert(t[t.len() - 2] == input@[hi as int - 2]);
                        }
                        if k == 1 {
                            assert(t[t.len() - 1] == input@[hi as int - 1]);
                        }
                    }
                    assert(pat_at(t, t.len() - 2, pat_cbrack2()));
                } else {
                    if t.len() >= 4 && pat_at(t, 0, pat_obrack2()) && pat_at(
                        t,
                        t.len() - 2,
                        pat_cbrack2(),
                    ) {
                        assert(t[0int] == pat_obrack2()[0]);
                        assert(t[1int] == pat_obrack2()[1]);
                        assert(t[t.len() - 2 + 0] == pat_cbrack2()[0]);
                        assert(t[t.len() - 2 + 1] == pat_cbrack2()[1]);
                        assert(false);
                    }
                }
            }
            let ghost gname = if t.len() >= 4 && pat_at(t, 0, pat_obrack2()) && pat_at(
                t,
                t.len() - 2,
                pat_cbrack2(),
            ) {
                t.subrange(2, t.len() - 2)
            } else {
                t
            };
            proof {
                if stripped {
                    assert(t.subrange(2, t.len() - 2) =~= input@.subrange(
                        nl as int,
                        nh as int,
                    ));
                }
                assert(gname == input@.subrange(nl as int, nh as int));
            }
            let is_table: bool = nh - nl == 5 && chars[nl] == 't' && chars[nl + 1] == 'a'
                && chars[nl + 2] == 'b' && chars[nl + 3] == 'l' && chars[nl + 4] == 'e';
            proof {
                if is_table {
                    assert forall|q: int| 0 <= q < 5 implies gname[q] == table_name()[q] by {
                        if q == 0 {
                            assert(gname[0] == input@[nl as int]);
                        }
                        if q == 1 {
                            assert(gname[1] == input@[nl as int + 1]);
                        }
                        if q == 2 {
                            assert(gname[2] == input@[nl as int + 2]);
                        }
                        if q == 3 {
                            assert(gname[3] == input@[nl as int + 3]);
                        }
                        if q == 4 {
                            assert(gname[4] == input@[nl as int + 4]);
                        }
                    }
                    assert(gname =~= table_name());
                } else {
                    if gname == table_name() {
                        assert(gname.len() == 5);
                        assert(input@[nl as int] == gname[0]);
                        assert(input@[nl as int + 1] == gname[1]);
                        assert(input@[nl as int + 2] == gname[2]);
                        assert(input@[nl as int + 3] == gname[3]);
                        assert(input@[nl as int + 4] == gname[4]);
                        assert(false);
                    }
                }
            }
            if is_table {
                Some((Expression::Table, j + 2 - i))
            } else {
                let name: String = input.substring_char(nl, nh).to_owned();
                Some((Expression::BraceDirective(name), j + 2 - i))
            }
        },
    }
}

fn try_hyperlink_exec(input: &str, chars: &Vec<char>, i: usize) -> (r: Option<
    (Expression, usize),
>)
    requires
        chars@ == input@,
        i < chars@.len(),
    ensures
        r matches Some(p) ==> try_hyperlink(input@, i as int) == Some((p.0@, p.1 as int)),
        r is None ==> try_hyperlink(input@, i as int) is None,
{
    let _n: usize = chars.len();
    let hp: Vec<char> = http_pattern();
    let hps: Vec<char> = https_pattern();
    let is7: bool = pat_here(chars, i, &hp);
    let is8: bool = pat_here(chars, i, &hps);
    if !is7 && !is8 {
        return None;
    }
    let e: usize = scan_to_ws(chars, i);
    proof {
        lemma_ws_scan(input@, i as int);
        lemma_ws_scan_unique(input@, i as int, e as int, ws_scan(input@, i as int));
        assert(!is_ws('h') && !is_ws('t') && !is_ws('p') && !is_ws(':') && !is_ws('/') && !is_ws(
            's',
        ));
        if is7 {
            assert forall|m: int| 0 <= m < 7 implies !is_ws(pat_http()[m]) by {}
            if (e as int) < i as int + 7 {
                assert(input@[i as int + (e as int - i as int)] == pat_http()[e as int
                    - i as int]);
                assert(false);
            }
        } else {
            assert forall|m: int| 0 <= m < 8 implies !is_ws(pat_https()[m]) by {}
            if (e as int) < i as int + 8 {
                assert(input@[i as int + (e as int - i as int)] == pat_https()[e as int
                    - i as int]);
                assert(false);
            }
        }
    }
    if chars[e - 1] == '.' {
        let url: String = input.substring_char(i, e - 1).to_owned();
        Some((Expression::RawHyperlink(url), e - 1 - i))
    } else {
        let url: String = input.substring_char(i, e).to_owned();
        Some((Expression::RawHyperlink(url), e - i))
    }
}

/// Tries each inline recognizer at position `i`, in priority order.
fn try_token(input: &str, chars: &Vec<char>, i: usize) -> (r: Option<(Expression, usize)>)
    requires
        chars@ == input@,
        i < chars@.len(),
    ensures
        r matches Some(p) ==> try_tok(input@, i as int) == Some((p.0@, p.1 as int)),
        r is None ==> try_tok(input@, i as int) is None,
{
    let r1: Option<(Expression, usize)> = try_triple_exec(input, chars, i);
    if r1.is_some() {
        return r1;
    }
    let r2: Option<(Expression, usize)> = try_single_exec(input, chars, i);
    if r2.is_some() {
        return r2;
    }
    let r3: Option<(Expression, usize)> = try_blockref_exec(input, chars, i);
    if r3.is_some() {
        return r3;
    }
    let r4: Option<(Expression, usize)> = try_mdlink_exec(input, chars, i);
    if r4.is_some() {
        return r4;
    }
    let r5: Option<(Expression, usize)> = try_link_exec(input, chars, i);
    if r5.is_some() {
        return r5;
    }
    let r6: Option<(Expression, usize)> = try_hashtag_exec(input, chars, i);
    if r6.is_some() {
        return r6;
    }
    let r7: Option<(Expression, usize)> = try_brace_exec(input, chars, i);
    if r7.is_some() {
        return r7;
    }
    try_hyperlink_exec(input, chars, i)
}

/// The nodes that a flush appends: the pending literal run (when
/// non-empty) as one text node, then the recognized node.
pub open spec fn flush_seq(s: Seq<char>, p: int, i: int, ev: Expr) -> Seq<Expr> {
    if p < i {
        seq![Expr::Text(s.subrange(p, i)), ev]
    } else {
        seq![ev]
    }
}

/// Flushes the pending literal run `input[p..i]` and appends the recognized
/// node `e` to the output.
fn emit_token(input: &str, out: &mut Vec<Expression>, p: usize, i: usize, e: Expression)
    requires
        p <= i <= input@.len(),
    ensures
        exprs_view(final(out)@) == exprs_view(old(out)@) + flush_seq(
            input@,
            p as int,
            i as int,
            expr_view(e),
        ),
{
    let ghost ev = expr_view(e);
    let ghost o_start = out@;
    if p < i {
        let lit: String = input.substring_char(p, i).to_owned();
        let tnode: Expression = Expression::Text(lit);
        let ghost o0 = out@;
        proof {
            lemma_exprs_view_push(o0, tnode);
            assert(expr_view(tnode) == Expr::Text(input@.subrange(p as int, i as int)));
        }
        out.push(tnode);
    }
    let ghost o1 = out@;
    proof {
        lemma_exprs_view_push(o1, e);
    }
    out.push(e);
    proof {
        assert(exprs_view(out@) =~= exprs_view(o_start) + flush_seq(
            input@,
            p as int,
            i as int,
            ev,
        ));
    }
}

/// Parses inline markup: the re-entry point used for bold payloads,
/// blockquote bodies and attribute values, where the attribute and
/// blockquote forms no longer apply.
#[verifier::rlimit(100)]
pub fn parse_inline(input: &str) -> (out: Vec<Expression>)
    ensures
        exprs_view(out@) == parse_from(input@, 0),
    decreases input@.len(),
{
    let ghost s = input@;
    let chars: Vec<char> = chars_of(input);
    let n: usize = chars.len();
    let mut out: Vec<Expression> = Vec::new();
    let mut i: usize = 0;
    let mut p: usize = 0;
    while i < n
        invariant
            p <= i <= n,
            n == s.len(),
            s == input@,
            chars@ == s,
            parse_from(s, 0) == exprs_view(out@) + prepend_lits(
                s.subrange(p as int, i as int),
                parse_from(s, i as int),
            ),
        decreases n - i,
    {
        let ghost gp = p as int;
        let ghost gi = i as int;
        let ghost pre = s.subrange(gp, gi);
        let star: Vec<char> = pattern2('*', '*');
        let bold_tok: Option<(Expression, usize)> = if pat_here(&chars, i, &star) {
            match find_pattern(&chars, i + 2, &star) {
                Some(j) => {
                    proof {
                        lemma_found_first_pat(s, i as int + 2, pat_star2(), j as int);
                    }
                    let interior: &str = input.substring_char(i + 2, j);
                    let children: Vec<Expression> = parse_inline(interior);
                    Some((Expression::Bold(children), j + 2 - i))
                },
                None => None,
            }
        } else {
            None
        };
        match bold_tok {
            Some(tok) => {
                let e: Expression = tok.0;
                let nt: usize = tok.1;
                let ghost ev = expr_view(e);
                let ghost tail = parse_from(s, gi + nt as int);
                proof {
                    assert(bold_at(s, gi));
                    assert(parse_from(s, gi) == seq![ev] + tail);
                    assert(!(ev is Text));
                    lemma_prepend_lits_tok(pre, ev, tail);
                    assert(prepend_lits(pre, seq![ev] + tail) =~= flush_seq(s, gp, gi, ev)
                        + tail);
                }
                emit_token(input, &mut out, p, i, e);
                i = i + nt;
                p = i;
                proof {
                    assert(exprs_view(out@) + tail =~= parse_from(s, 0));
                    assert(s.subrange(i as int, i as int).len() == 0);
                    assert(prepend_lits(s.subrange(i as int, i as int), parse_from(s, i as int))
                        == tail);
                }
            },
            None => {
                let tok: Option<(Expression, usize)> = try_token(input, &chars, i);
                match tok {
                    Some(tk) => {
                        let e: Expression = tk.0;
                        let nt: usize = tk.1;
                        let ghost ev = expr_view(e);
                        let ghost tail = parse_from(s, gi + nt as int);
                        proof {
                            assert(!bold_at(s, gi));
                            lemma_try_tok_bounds(s, gi);
                            assert(parse_from(s, gi) == seq![ev] + tail);
                            assert(!(ev is Text));
                            lemma_prepend_lits_tok(pre, ev, tail);
                            assert(prepend_lits(pre, seq![ev] + tail) =~= flush_seq(
                                s,
                                gp,
                                gi,
                                ev,
                            ) + tail);
                        }
                        emit_token(input, &mut out, p, i, e);
                        i = i + nt;
                        p = i;
                        proof {
                            assert(exprs_view(out@) + tail =~= parse_from(s, 0));
                            assert(s.subrange(i as int, i as int).len() == 0);
                            assert(prepend_lits(
                                s.subrange(i as int, i as int),
                                parse_from(s, i as int),
                            ) == tail);
                        }
                    },
                    None => {
                        proof {
                            assert(!bold_at(s, gi));
                            assert(parse_from(s, gi) == prepend_text(
                                s[gi],
                                parse_from(s, gi + 1),
                            ));
                            lemma_prepend_lits_snoc(pre, s[gi], parse_from(s, gi + 1));
                            assert(pre.push(s[gi]) =~= s.subrange(gp, gi + 1));
                        }
                        i = i + 1;
                    },
                }
            },
        }
    }
    proof {
        assert(parse_from(s, n as int) == Seq::<Expr>::empty());
    }
    if p < n {
        let ghost pre = s.subrange(p as int, n as int);
        let lit: String = input.substring_char(p, n).to_owned();
        let tnode: Expression = Expression::Text(lit);
        let ghost o0 = out@;
        proof {
            lemma_exprs_view_push(o0, tnode);
            assert(expr_view(tnode) == Expr::Text(pre));
            assert(prepend_lits(pre, Seq::<Expr>::empty()) == seq![Expr::Text(pre)]);
        }
        out.push(tnode);
        proof {
            assert(exprs_view(out@) =~= exprs_view(o0) + seq![Expr::Text(pre)]);
            assert(exprs_view(out@) =~= parse_from(s, 0));
        }
    } else {
        proof {
            assert(s.subrange(p as int, n as int).len() == 0);
            assert(exprs_view(out@) + Seq::<Expr>::empty() =~= exprs_view(out@));
        }
    }
    out
}

/// Parses one block's raw text into its sequence of expression nodes.
///
/// The attribute form is recognized only here, at the head of the block, and
/// only when no backtick stands before the first `::`; the blockquote form
/// only when the block opens with `>` and a space, and it wraps the whole
/// remainder of the block. Parsing is total: every input, malformed markup
/// included, yields `Ok`.
pub fn parse(input: &str) -> (r: Result<Vec<Expression>, ParseError>)
    ensures
        r matches Ok(es) && exprs_view(es@) == parse_top(input@),
{
    let ghost s = input@;
    let chars: Vec<char> = chars_of(input);
    let n: usize = chars.len();
    let colons: Vec<char> = pattern2(':', ':');
    match find_pattern(&chars, 0, &colons) {
        Some(k) => {
            proof {
                lemma_found_first_pat(s, 0, pat_colon2(), k as int);
            }
            let bt: Vec<char> = pattern1('`');
            let btf: Option<usize> = find_pattern(&chars, 0, &bt);
            let clean: bool = match btf {
                Some(b) => b >= k,
                None => true,
            };
            if clean {
                proof {
                    assert forall|m: int| 0 <= m < k as int implies s[m] != '`' by {
                        if s[m] == '`' {
                            assert forall|kk: int| 0 <= kk < 1 implies s[m + kk]
                                == pat_btick1()[kk] by {}
                            assert(pat_at(s, m, pat_btick1()));
                            assert(false);
                        }
                    }
                    assert(attr_prescan(s));
                }
                let vstart: usize = if k + 2 < n && chars[k + 2] == ' ' {
                    k + 3
                } else {
                    k + 2
                };
                proof {
                    assert(vstart as int == attr_value_start(s));
                }
                let name: String = input.substring_char(0, k).to_owned();
                let vtext: &str = input.substring_char(vstart, n);
                let value: Vec<Expression> = parse_inline(vtext);
                let anode: Expression = Expression::Attribute { name: name, value: value };
                let ghost av = expr_view(anode);
                let mut out: Vec<Expression> = Vec::new();
                proof {
                    lemma_exprs_view_push(Seq::<Expression>::empty(), anode);
                }
                out.push(anode);
                proof {
                    assert(exprs_view(out@) =~= seq![av]);
                    assert(exprs_view(out@) == parse_top(s));
                }
                return Ok(out);
            }
            proof {
                match btf {
                    Some(b) => {
                        assert(s[b as int + 0] == pat_btick1()[0]);
                        assert(s[b as int] == '`');
                        assert(!attr_prescan(s));
                    },
                    None => {
                        assert(false);
                    },
                }
            }
        },
        None => {
            proof {
                assert(!attr_prescan(s));
            }
        },
    }
    if n >= 2 && chars[0] == '>' && chars[1] == ' ' {
        proof {
            assert(blockquote_at_start(s));
        }
        let btext: &str = input.substring_char(2, n);
        let children: Vec<Expression> = parse_inline(btext);
        let bnode: Expression = Expression::BlockQuote(children);
        let ghost bv = expr_view(bnode);
        let mut out: Vec<Expression> = Vec::new();
        proof {
            lemma_exprs_view_push(Seq::<Expression>::empty(), bnode);
        }
        out.push(bnode);
        proof {
            assert(exprs_view(out@) =~= seq![bv]);
            assert(exprs_view(out@) == parse_top(s));
        }
        return Ok(out);
    }
    proof {
        assert(!blockquote_at_start(s));
    }
    let out: Vec<Expression> = parse_inline(input);
    Ok(out)
}

} // verus!
