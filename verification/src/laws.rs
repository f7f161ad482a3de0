//! The laws the parser obeys, stated and proved over the
//! specification-level model: literal fallback for unrecognizable input,
//! exact reconstruction of the input from the parsed tree on lossless
//! inputs (so no unmatched delimiter ever disappears, and nested payloads
//! reproduce their spans), and the opacity of backtick spans.

use vstd::prelude::*;

use crate::expression::{render_expr, render_exprs, Expr};
use crate::model::{
    attr_name_end, attr_prescan, attr_value_start, blockquote_at_start, bold_at,
    lemma_try_tok_bounds, parse_from, parse_top, pat_btick1, pat_btick3, pat_cbrack1, pat_cbrack2,
    pat_colon2, pat_cparen1, pat_cparen2, pat_http, pat_https, pat_obrack1, pat_obrack2,
    pat_obrace2, pat_oparen1, pat_oparen2, pat_star2, prepend_text, try_blockref, try_brace,
    try_hashtag, try_hyperlink, try_link, try_mdlink, try_single, try_tok, try_triple,
};
use crate::scan::{
    find_pat, has_pat, is_first_pat, lemma_find_pat, lemma_found_first_pat, lemma_ws_scan, pat_at,
};

verus! {

/// The four-character stub shared by both URL schemes.
pub open spec fn scheme_stub() -> Seq<char> {
    seq!['h', 't', 't', 'p']
}

/// Nothing in `s` is recognizable: no backtick or hashtag character, none of
/// the two-character delimiters `((`, `**`, `[[`, `{{`, `::` or `](`, no
/// URL scheme stub, and no blockquote opening.
pub open spec fn plain_text(s: Seq<char>) -> bool {
    &&& forall|i: int| 0 <= i < s.len() ==> (#[trigger] s[i]) != '`' && s[i] != '#'
    &&& forall|i: int|
        0 <= i < s.len() - 1 ==> !(((#[trigger] s[i]) == '(' && s[i + 1] == '(') || (s[i] == '*'
            && s[i + 1] == '*') || (s[i] == '[' && s[i + 1] == '[') || (s[i] == '{' && s[i + 1]
            == '{') || (s[i] == ':' && s[i + 1] == ':') || (s[i] == ']' && s[i + 1] == '('))
    &&& forall|i: int| 0 <= i ==> !pat_at(s, i, scheme_stub())
    &&& !(s.len() >= 2 && s[0] == '>' && s[1] == ' ')
}

/// On plain text no recognizer fires at any position.
proof fn lemma_plain_no_tok(s: Seq<char>, i: int)
    requires
        plain_text(s),
        0 <= i < s.len(),
    ensures
        try_tok(s, i) is None,
        !bold_at(s, i),
{
    if pat_at(s, i, pat_star2()) {
        assert(s[i + 0] == pat_star2()[0]);
        assert(s[i + 1] == pat_star2()[1]);
        assert(false);
    }
    if pat_at(s, i, pat_btick3()) {
        assert(s[i + 0] == pat_btick3()[0]);
        assert(false);
    }
    if pat_at(s, i, pat_oparen2()) {
        assert(s[i + 0] == pat_oparen2()[0]);
        assert(s[i + 1] == pat_oparen2()[1]);
        assert(false);
    }
    if pat_at(s, i, pat_obrack2()) {
        assert(s[i + 0] == pat_obrack2()[0]);
        assert(s[i + 1] == pat_obrack2()[1]);
        assert(false);
    }
    if pat_at(s, i, pat_obrace2()) {
        assert(s[i + 0] == pat_obrace2()[0]);
        assert(s[i + 1] == pat_obrace2()[1]);
        assert(false);
    }
    if pat_at(s, i, pat_http()) {
        assert forall|k: int| 0 <= k < 4 implies s[i + k] == scheme_stub()[k] by {
            assert(s[i + k] == pat_http()[k]);
        }
        assert(pat_at(s, i, scheme_stub()));
        assert(false);
    }
    if pat_at(s, i, pat_https()) {
        assert forall|k: int| 0 <= k < 4 implies s[i + k] == scheme_stub()[k] by {
            assert(s[i + k] == pat_https()[k]);
        }
        assert(pat_at(s, i, scheme_stub()));
        assert(false);
    }
    // The markdown-link form needs a `]` immediately followed by `(`.
    if s[i] == '[' || (s[i] == '!' && pat_at(s, i + 1, pat_obrack1())) {
        let b: int = if s[i] == '!' {
            i + 1
        } else {
            i
        };
        if has_pat(s, b + 1, pat_cbrack1()) {
            lemma_find_pat(s, b + 1, pat_cbrack1());
            let j = find_pat(s, b + 1, pat_cbrack1());
            if pat_at(s, j + 1, pat_oparen1()) {
                assert(s[j + 0] == pat_cbrack1()[0]);
                assert(s[j + 1] == pat_oparen1()[0]);
                assert(false);
            }
        }
    }
    assert(try_triple(s, i) is None);
    assert(try_single(s, i) is None);
    assert(try_blockref(s, i) is None);
    assert(try_mdlink(s, i) is None);
    assert(try_link(s, i) is None);
    assert(try_hashtag(s, i) is None);
    assert(try_brace(s, i) is None);
    assert(try_hyperlink(s, i) is None);
}

/// On plain text the dispatcher from `i` yields one literal node holding the
/// rest of the input (or nothing at the end).
proof fn lemma_plain_parse_from(s: Seq<char>, i: int)
    requires
        plain_text(s),
        0 <= i <= s.len(),
    ensures
        i == s.len() ==> parse_from(s, i) == Seq::<Expr>::empty(),
        i < s.len() ==> parse_from(s, i) == seq![Expr::Text(s.subrange(i, s.len() as int))],
    decreases s.len() - i,
{
    if i < s.len() {
        lemma_plain_no_tok(s, i);
        lemma_plain_parse_from(s, i + 1);
        if i + 1 == s.len() {
            assert(seq![s[i]] =~= s.subrange(i, s.len() as int));
            assert(parse_from(s, i) =~= seq![Expr::Text(s.subrange(i, s.len() as int))]);
        } else {
            let t = s.subrange(i + 1, s.len() as int);
            assert(seq![s[i]] + t =~= s.subrange(i, s.len() as int));
            assert(parse_from(s, i) =~= seq![Expr::Text(s.subrange(i, s.len() as int))]);
        }
    }
}

/// LAW (literal fallback): an input in which nothing is recognizable parses
/// to exactly one text node equal to the whole input.
pub proof fn lemma_plain_text_single_node(s: Seq<char>)
    requires
        plain_text(s),
        s.len() > 0,
    ensures
        parse_top(s) == seq![Expr::Text(s)],
{
    if has_pat(s, 0, pat_colon2()) {
        let j = choose|j: int| 0 <= j && #[trigger] pat_at(s, j, pat_colon2());
        assert(s[j + 0] == pat_colon2()[0]);
        assert(s[j + 1] == pat_colon2()[1]);
        assert(false);
    }
    assert(!attr_prescan(s));
    assert(!blockquote_at_start(s));
    lemma_plain_parse_from(s, 0);
    assert(s.subrange(0, s.len() as int) =~= s);
}

/// LAW (escaping, single backtick): wherever the dispatcher stands on a
/// single-backtick span — whatever the span holds: `::`, `[[`, `#`, `**` —
/// the whole span becomes exactly one verbatim node, and scanning resumes
/// after the closing backtick.
pub proof fn lemma_single_backtick_escapes(s: Seq<char>, i: int, j: int)
    requires
        0 <= i < s.len(),
        s[i] == '`',
        !pat_at(s, i, pat_btick3()),
        is_first_pat(s, i + 1, pat_btick1(), j),
    ensures
        parse_from(s, i) == seq![Expr::SingleBacktick(s.subrange(i + 1, j))] + parse_from(
            s,
            j + 1,
        ),
{
    lemma_found_first_pat(s, i + 1, pat_btick1(), j);
    if pat_at(s, i, pat_star2()) {
        assert(s[i + 0] == pat_star2()[0]);
        assert(false);
    }
    assert(!bold_at(s, i));
    assert(try_triple(s, i) is None);
    assert(try_tok(s, i) == try_single(s, i));
    assert(i + (j + 1 - i) == j + 1);
}

/// LAW (escaping, triple backtick): a triple-backtick span becomes exactly
/// one verbatim node, whatever it holds, and scanning resumes after the
/// closing delimiter.
pub proof fn lemma_triple_backtick_escapes(s: Seq<char>, i: int, j: int)
    requires
        pat_at(s, i, pat_btick3()),
        is_first_pat(s, i + 3, pat_btick3(), j),
    ensures
        parse_from(s, i) == seq![Expr::TripleBacktick(s.subrange(i + 3, j))] + parse_from(
            s,
            j + 3,
        ),
{
    lemma_found_first_pat(s, i + 3, pat_btick3(), j);
    assert(s[i + 0] == pat_btick3()[0]);
    if pat_at(s, i, pat_star2()) {
        assert(s[i + 0] == pat_star2()[0]);
        assert(false);
    }
    assert(!bold_at(s, i));
    assert(try_tok(s, i) == try_triple(s, i));
    assert(i + (j + 3 - i) == j + 3);
}

/// LAW (escaping, unterminated spans): a backtick span that never closes
/// runs to the end of the input and still becomes one verbatim node.
pub proof fn lemma_single_backtick_unterminated(s: Seq<char>, i: int)
    requires
        0 <= i < s.len(),
        s[i] == '`',
        !pat_at(s, i, pat_btick3()),
        !has_pat(s, i + 1, pat_btick1()),
    ensures
        parse_from(s, i) == seq![Expr::SingleBacktick(s.subrange(i + 1, s.len() as int))],
{
    if pat_at(s, i, pat_star2()) {
        assert(s[i + 0] == pat_star2()[0]);
        assert(false);
    }
    assert(!bold_at(s, i));
    assert(try_triple(s, i) is None);
    assert(try_tok(s, i) == try_single(s, i));
    assert(i + (s.len() - i) == s.len());
    assert(parse_from(s, s.len() as int) == Seq::<Expr>::empty());
    assert(seq![Expr::SingleBacktick(s.subrange(i + 1, s.len() as int))] + Seq::<Expr>::empty()
        =~= seq![Expr::SingleBacktick(s.subrange(i + 1, s.len() as int))]);
}

/// LAW (escaping, unterminated spans): the same for a triple-backtick span.
pub proof fn lemma_triple_backtick_unterminated(s: Seq<char>, i: int)
    requires
        pat_at(s, i, pat_btick3()),
        !has_pat(s, i + 3, pat_btick3()),
    ensures
        parse_from(s, i) == seq![Expr::TripleBacktick(s.subrange(i + 3, s.len() as int))],
{
    assert(s[i + 0] == pat_btick3()[0]);
    if pat_at(s, i, pat_star2()) {
        assert(false);
    }
    assert(!bold_at(s, i));
    assert(try_tok(s, i) == try_triple(s, i));
    assert(i + (s.len() - i) == s.len());
    assert(parse_from(s, s.len() as int) == Seq::<Expr>::empty());
    assert(seq![Expr::TripleBacktick(s.subrange(i + 3, s.len() as int))] + Seq::<Expr>::empty()
        =~= seq![Expr::TripleBacktick(s.subrange(i + 3, s.len() as int))]);
}

/// The inline dispatcher never yields an attribute node.
proof fn lemma_parse_from_no_attribute(s: Seq<char>, i: int)
    ensures
        forall|q: int|
            0 <= q < parse_from(s, i).len() ==> !(#[trigger] parse_from(s, i)[q] is Attribute),
    decreases s.len() - i,
{
    let out = parse_from(s, i);
    if !(0 <= i < s.len()) {
    } else if bold_at(s, i) {
        lemma_find_pat(s, i + 2, pat_star2());
        let j = find_pat(s, i + 2, pat_star2());
        lemma_parse_from_no_attribute(s, j + 2);
        assert forall|q: int| 0 <= q < out.len() implies !(#[trigger] out[q] is Attribute) by {
            if q > 0 {
                assert(out[q] == parse_from(s, j + 2)[q - 1]);
            }
        }
    } else if try_tok(s, i) is Some {
        lemma_try_tok_bounds(s, i);
        let (e, n) = try_tok(s, i)->Some_0;
        lemma_parse_from_no_attribute(s, i + n);
        assert forall|q: int| 0 <= q < out.len() implies !(#[trigger] out[q] is Attribute) by {
            if q > 0 {
                assert(out[q] == parse_from(s, i + n)[q - 1]);
            }
        }
    } else {
        lemma_parse_from_no_attribute(s, i + 1);
        let rest = parse_from(s, i + 1);
        assert forall|q: int| 0 <= q < out.len() implies !(#[trigger] out[q] is Attribute) by {
            if rest.len() > 0 && rest[0] is Text {
                if q > 0 {
                    assert(out[q] == rest.drop_first()[q - 1]);
                    assert(out[q] == rest[q]);
                }
            } else {
                if q > 0 {
                    assert(out[q] == rest[q - 1]);
                }
            }
        }
    }
}

/// LAW (attribute placement): a block yields at most one attribute node,
/// and only as its first top-level node.
pub proof fn lemma_attribute_only_first(s: Seq<char>)
    ensures
        forall|q: int|
            0 <= q < parse_top(s).len() && #[trigger] parse_top(s)[q] is Attribute ==> q == 0,
{
    if attr_prescan(s) {
    } else if blockquote_at_start(s) {
    } else {
        lemma_parse_from_no_attribute(s, 0);
    }
}

/// The inputs on which parsing is exactly lossless: no backtick (an
/// unterminated span would reconstruct with an added closer), no `{{`
/// (directive content is trimmed and canonicalized), and no `#[[` (the
/// bracketed hashtag form drops its brackets).
pub open spec fn faithful(s: Seq<char>) -> bool {
    &&& forall|i: int| 0 <= i < s.len() ==> (#[trigger] s[i]) != '`'
    &&& forall|i: int| 0 <= i < s.len() - 1 ==> !((#[trigger] s[i]) == '{' && s[i + 1] == '{')
    &&& forall|i: int|
        0 <= i < s.len() - 2 ==> !((#[trigger] s[i]) == '#' && s[i + 1] == '[' && s[i + 2]
            == '[')
}

/// Rendering distributes over a cons.
proof fn lemma_render_cons(e: Expr, rest: Seq<Expr>)
    ensures
        render_exprs(seq![e] + rest) == render_expr(e) + render_exprs(rest),
{
    assert((seq![e] + rest)[0] == e);
    assert((seq![e] + rest).drop_first() =~= rest);
}

/// Rendering turns a prepended character back into that character.
proof fn lemma_render_prepend(c: char, rest: Seq<Expr>)
    ensures
        render_exprs(prepend_text(c, rest)) == seq![c] + render_exprs(rest),
{
    if rest.len() > 0 {
        match rest[0] {
            Expr::Text(t) => {
                assert(prepend_text(c, rest) == seq![Expr::Text(seq![c] + t)]
                    + rest.drop_first());
                lemma_render_cons(Expr::Text(seq![c] + t), rest.drop_first());
                lemma_render_cons(Expr::Text(t), rest.drop_first());
                assert(rest =~= seq![Expr::Text(t)] + rest.drop_first());
                assert((seq![c] + t) + render_exprs(rest.drop_first()) =~= seq![c] + (t
                    + render_exprs(rest.drop_first())));
            },
            _ => {
                lemma_render_cons(Expr::Text(seq![c]), rest);
            },
        }
    } else {
        assert(prepend_text(c, rest) == seq![Expr::Text(seq![c])]);
        lemma_render_cons(Expr::Text(seq![c]), Seq::<Expr>::empty());
        assert(render_exprs(prepend_text(c, rest)) =~= seq![c] + render_exprs(rest));
    }
}

/// A subrange of a faithful input is faithful.
proof fn lemma_faithful_subrange(s: Seq<char>, lo: int, hi: int)
    requires
        faithful(s),
        0 <= lo <= hi <= s.len(),
    ensures
        faithful(s.subrange(lo, hi)),
{
    let t = s.subrange(lo, hi);
    assert forall|i: int| 0 <= i < t.len() implies (#[trigger] t[i]) != '`' by {
        assert(t[i] == s[lo + i]);
    }
    assert forall|i: int| 0 <= i < t.len() - 1 implies !((#[trigger] t[i]) == '{' && t[i + 1]
        == '{') by {
        assert(t[i] == s[lo + i]);
        assert(t[i + 1] == s[lo + i + 1]);
    }
    assert forall|i: int| 0 <= i < t.len() - 2 implies !((#[trigger] t[i]) == '#' && t[i + 1]
        == '[' && t[i + 2] == '[') by {
        assert(t[i] == s[lo + i]);
        assert(t[i + 1] == s[lo + i + 1]);
        assert(t[i + 2] == s[lo + i + 2]);
    }
}

/// LAW (nesting, and nothing disappears): on a faithful input, rendering
/// what the dispatcher parses from position `i` reproduces exactly the
/// scanned span. At `i == 0` this is the nesting law: the children parsed
/// from a bold, blockquote or attribute-value payload, rendered back to
/// text by concatenation, reproduce the original inner span.
#[verifier::rlimit(100)]
pub proof fn lemma_children_reproduce_span(s: Seq<char>, i: int)
    requires
        faithful(s),
        0 <= i <= s.len(),
    ensures
        render_exprs(parse_from(s, i)) == s.subrange(i, s.len() as int),
    decreases s.len() - i,
{
    let all = s.subrange(i, s.len() as int);
    if i == s.len() {
        assert(all =~= Seq::<char>::empty());
        assert(render_exprs(parse_from(s, i)) =~= all);
    } else if bold_at(s, i) {
        lemma_find_pat(s, i + 2, pat_star2());
        let j = find_pat(s, i + 2, pat_star2());
        let interior = s.subrange(i + 2, j);
        lemma_faithful_subrange(s, i + 2, j);
        lemma_children_reproduce_span(interior, 0);
        assert(interior.subrange(0, interior.len() as int) =~= interior);
        lemma_children_reproduce_span(s, j + 2);
        let node = Expr::Bold(parse_from(interior, 0));
        lemma_render_cons(node, parse_from(s, j + 2));
        assert(s[i + 0] == pat_star2()[0]);
        assert(s[i + 1] == pat_star2()[1]);
        assert(s[j + 0] == pat_star2()[0]);
        assert(s[j + 1] == pat_star2()[1]);
        assert(render_expr(node) =~= s.subrange(i, j + 2));
        assert(render_expr(node) + render_exprs(parse_from(s, j + 2)) =~= all);
    } else if try_tok(s, i) is Some {
        lemma_try_tok_bounds(s, i);
        let (e, n) = try_tok(s, i)->Some_0;
        lemma_children_reproduce_span(s, i + n);
        lemma_render_cons(e, parse_from(s, i + n));
        assert(s[i] != '`');
        if pat_at(s, i, pat_btick3()) {
            assert(s[i + 0] == pat_btick3()[0]);
            assert(false);
        }
        assert(try_triple(s, i) is None);
        assert(try_single(s, i) is None);
        if try_blockref(s, i) is Some {
            lemma_find_pat(s, i + 2, pat_cparen2());
            let j = find_pat(s, i + 2, pat_cparen2());
            assert(s[i + 0] == pat_oparen2()[0]);
            assert(s[i + 1] == pat_oparen2()[1]);
            assert(s[j + 0] == pat_cparen2()[0]);
            assert(s[j + 1] == pat_cparen2()[1]);
            assert(render_expr(e) =~= s.subrange(i, i + n));
        } else if try_mdlink(s, i) is Some {
            let b: int = if s[i] == '!' {
                i + 1
            } else {
                i
            };
            lemma_find_pat(s, b + 1, pat_cbrack1());
            let j = find_pat(s, b + 1, pat_cbrack1());
            lemma_find_pat(s, j + 2, pat_cparen1());
            let k = find_pat(s, j + 2, pat_cparen1());
            assert(s[j + 0] == pat_cbrack1()[0]);
            assert(s[j + 1] == pat_oparen1()[0]);
            assert(s[k + 0] == pat_cparen1()[0]);
            if s[i] == '!' {
                assert(s[i + 1 + 0] == pat_obrack1()[0]);
                assert(render_expr(e) =~= s.subrange(i, i + n));
            } else {
                assert(render_expr(e) =~= s.subrange(i, i + n));
            }
        } else if try_link(s, i) is Some {
            lemma_find_pat(s, i + 2, pat_cbrack2());
            let j = find_pat(s, i + 2, pat_cbrack2());
            assert(s[i + 0] == pat_obrack2()[0]);
            assert(s[i + 1] == pat_obrack2()[1]);
            assert(s[j + 0] == pat_cbrack2()[0]);
            assert(s[j + 1] == pat_cbrack2()[1]);
            assert(render_expr(e) =~= s.subrange(i, i + n));
        } else if try_hashtag(s, i) is Some {
            if pat_at(s, i + 1, pat_obrack2()) && has_pat(s, i + 3, pat_cbrack2()) {
                assert(s[i + 1 + 0] == pat_obrack2()[0]);
                assert(s[i + 1 + 1] == pat_obrack2()[1]);
                assert(false);
            }
            lemma_ws_scan(s, i + 1);
            assert(render_expr(e) =~= s.subrange(i, i + n));
        } else if try_brace(s, i) is Some {
            assert(s[i + 0] == pat_obrace2()[0]);
            assert(s[i + 1] == pat_obrace2()[1]);
            assert(false);
        } else {
            lemma_ws_scan(s, i);
            assert(render_expr(e) =~= s.subrange(i, i + n));
        }
        assert(s.subrange(i, i + n) + s.subrange(i + n, s.len() as int) =~= all);
    } else {
        lemma_children_reproduce_span(s, i + 1);
        lemma_render_prepend(s[i], parse_from(s, i + 1));
        assert(seq![s[i]] + s.subrange(i + 1, s.len() as int) =~= all);
    }
}

/// LAW (nothing disappears, whole block): on a faithful input — with, if an
/// attribute is recognized, no space straight after its `::` delimiter,
/// since that one space is absorbed — rendering the whole parse reproduces
/// the input exactly. Unmatched delimiters in particular never vanish.
pub proof fn lemma_render_round_trip(s: Seq<char>)
    requires
        faithful(s),
        attr_prescan(s) ==> !(attr_name_end(s) + 2 < s.len() && s[attr_name_end(s) + 2] == ' '),
    ensures
        render_exprs(parse_top(s)) == s,
{
    if attr_prescan(s) {
        lemma_find_pat(s, 0, pat_colon2());
        let k = attr_name_end(s);
        assert(attr_value_start(s) == k + 2);
        let tail = s.subrange(k + 2, s.len() as int);
        lemma_faithful_subrange(s, k + 2, s.len() as int);
        lemma_children_reproduce_span(tail, 0);
        assert(tail.subrange(0, tail.len() as int) =~= tail);
        let node = Expr::Attribute { name: s.subrange(0, k), value: parse_from(tail, 0) };
        lemma_render_cons(node, Seq::<Expr>::empty());
        assert(parse_top(s) == seq![node] + Seq::<Expr>::empty());
        assert(s[k + 0] == pat_colon2()[0]);
        assert(s[k + 1] == pat_colon2()[1]);
        assert(render_expr(node) =~= s);
        assert(render_exprs(parse_top(s)) =~= s);
    } else if blockquote_at_start(s) {
        let tail = s.subrange(2, s.len() as int);
        lemma_faithful_subrange(s, 2, s.len() as int);
        lemma_children_reproduce_span(tail, 0);
        assert(tail.subrange(0, tail.len() as int) =~= tail);
        let node = Expr::BlockQuote(parse_from(tail, 0));
        lemma_render_cons(node, Seq::<Expr>::empty());
        assert(parse_top(s) == seq![node] + Seq::<Expr>::empty());
        assert(render_expr(node) =~= s);
        assert(render_exprs(parse_top(s)) =~= s);
    } else {
        lemma_children_reproduce_span(s, 0);
        assert(s.subrange(0, s.len() as int) =~= s);
    }
}

} // verus!
