//! The expression tree a parsed block turns into: an executable node type
//! holding owned text, a specification-level mirror over character sequences,
//! and the rendering function that maps a tree back to markup text.

use vstd::prelude::*;

verus! {

/// Specification-level expression node: the mathematical model of one parsed
/// construct, over sequences of characters.
#[verifier::ext_equal]
pub enum Expr {
    /// A literal run of text; adjacent literal characters are coalesced.
    Text(Seq<char>),
    /// `((id))`: a reference to another block, payload verbatim.
    BlockRef(Seq<char>),
    /// `[[title]]`: a page link, payload verbatim.
    Link(Seq<char>),
    /// `#tag`, `#.tag` or `#[[tag]]`; the flag marks the dotted form.
    Hashtag(Seq<char>, bool),
    /// `{{name}}`: an opaque directive.
    BraceDirective(Seq<char>),
    /// `{{table}}`: a directive with dedicated rendering semantics downstream.
    Table,
    /// `![alt](url)`.
    Image { alt: Seq<char>, url: Seq<char> },
    /// `[title](url)`.
    MarkdownLink { title: Seq<char>, url: Seq<char> },
    /// A bare URL recognized in running text.
    RawHyperlink(Seq<char>),
    /// `**...**`; the payload is itself parsed.
    Bold(Seq<Expr>),
    /// `> ...` at the start of a block; the payload is itself parsed.
    BlockQuote(Seq<Expr>),
    /// `` `...` ``: a verbatim span, never parsed further.
    SingleBacktick(Seq<char>),
    /// ```` ```...``` ````: a verbatim span, never parsed further.
    TripleBacktick(Seq<char>),
    /// `name:: value`, recognized only at the head of a block; the value is
    /// itself parsed.
    Attribute { name: Seq<char>, value: Seq<Expr> },
}

/// One parsed construct of a block, holding owned text.
#[derive(Debug, PartialEq)]
pub enum Expression {
    /// A literal run of text; adjacent literal characters are coalesced.
    Text(String),
    /// `((id))`: a reference to another block, payload verbatim.
    BlockRef(String),
    /// `[[title]]`: a page link, payload verbatim.
    Link(String),
    /// `#tag`, `#.tag` or `#[[tag]]`; the flag marks the dotted form.
    Hashtag(String, bool),
    /// `{{name}}`: an opaque directive.
    BraceDirective(String),
    /// `{{table}}`: a directive with dedicated rendering semantics downstream.
    Table,
    /// `![alt](url)`.
    Image { alt: String, url: String },
    /// `[title](url)`.
    MarkdownLink { title: String, url: String },
    /// A bare URL recognized in running text.
    RawHyperlink(String),
    /// `**...**`; the payload is itself parsed.
    Bold(Vec<Expression>),
    /// `> ...` at the start of a block; the payload is itself parsed.
    BlockQuote(Vec<Expression>),
    /// `` `...` ``: a verbatim span, never parsed further.
    SingleBacktick(String),
    /// ```` ```...``` ````: a verbatim span, never parsed further.
    TripleBacktick(String),
    /// `name:: value`, recognized only at the head of a block; the value is
    /// itself parsed.
    Attribute { name: String, value: Vec<Expression> },
}

/// The model value an [`Expression`] stands for.
pub open spec fn expr_view(e: Expression) -> Expr
    decreases e, 1int,
{
    match e {
        Expression::Text(t) => Expr::Text(t@),
        Expression::BlockRef(t) => Expr::BlockRef(t@),
        Expression::Link(t) => Expr::Link(t@),
        Expression::Hashtag(t, dotted) => Expr::Hashtag(t@, dotted),
        Expression::BraceDirective(t) => Expr::BraceDirective(t@),
        Expression::Table => Expr::Table,
        Expression::Image { alt, url } => Expr::Image { alt: alt@, url: url@ },
        Expression::MarkdownLink { title, url } => Expr::MarkdownLink {
            title: title@,
            url: url@,
        },
        Expression::RawHyperlink(t) => Expr::RawHyperlink(t@),
        Expression::Bold(cs) => Expr::Bold(exprs_view(cs@)),
        Expression::BlockQuote(cs) => Expr::BlockQuote(exprs_view(cs@)),
        Expression::SingleBacktick(t) => Expr::SingleBacktick(t@),
        Expression::TripleBacktick(t) => Expr::TripleBacktick(t@),
        Expression::Attribute { name, value } => Expr::Attribute {
            name: name@,
            value: exprs_view(value@),
        },
    }
}

/// The model values a sequence of [`Expression`]s stands for.
pub open spec fn exprs_view(s: Seq<Expression>) -> Seq<Expr>
    decreases s, 0int,
{
    if s.len() == 0 {
        Seq::empty()
    } else {
        seq![expr_view(s[0])] + exprs_view(s.drop_first())
    }
}

impl View for Expression {
    type V = Expr;

    open spec fn view(&self) -> Expr {
        expr_view(*self)
    }
}

/// `exprs_view` maps the view over the sequence element by element.
pub proof fn lemma_exprs_view_points(s: Seq<Expression>)
    ensures
        exprs_view(s).len() == s.len(),
        forall|i: int| 0 <= i < s.len() ==> exprs_view(s)[i] == expr_view(s[i]),
    decreases s.len(),
{
    if s.len() > 0 {
        lemma_exprs_view_points(s.drop_first());
    }
}

/// Pushing a node onto a sequence pushes its view onto the sequence's view.
pub proof fn lemma_exprs_view_push(s: Seq<Expression>, e: Expression)
    ensures
        exprs_view(s.push(e)) == exprs_view(s).push(expr_view(e)),
{
    lemma_exprs_view_points(s.push(e));
    lemma_exprs_view_points(s);
    assert(exprs_view(s.push(e)) =~= exprs_view(s).push(expr_view(e)));
}

/// Maps a model node back to the markup text it stands for. Most constructs
/// reproduce exactly the span they were parsed from; a brace directive, a
/// table and a bracketed hashtag reproduce a canonical spelling instead.
pub open spec fn render_expr(e: Expr) -> Seq<char>
    decreases e, 1int,
{
    match e {
        Expr::Text(t) => t,
        Expr::BlockRef(t) => seq!['(', '('] + t + seq![')', ')'],
        Expr::Link(t) => seq!['[', '['] + t + seq![']', ']'],
        Expr::Hashtag(t, dotted) => if dotted {
            seq!['#', '.'] + t
        } else {
            seq!['#'] + t
        },
        Expr::BraceDirective(t) => seq!['{', '{'] + t + seq!['}', '}'],
        Expr::Table => seq!['{', '{', 't', 'a', 'b', 'l', 'e', '}', '}'],
        Expr::Image { alt, url } => seq!['!', '['] + alt + seq![']', '('] + url + seq![')'],
        Expr::MarkdownLink { title, url } => seq!['['] + title + seq![']', '('] + url + seq![')'],
        Expr::RawHyperlink(t) => t,
        Expr::Bold(cs) => seq!['*', '*'] + render_exprs(cs) + seq!['*', '*'],
        Expr::BlockQuote(cs) => seq!['>', ' '] + render_exprs(cs),
        Expr::SingleBacktick(t) => seq!['`'] + t + seq!['`'],
        Expr::TripleBacktick(t) => seq!['`', '`', '`'] + t + seq!['`', '`', '`'],
        Expr::Attribute { name, value } => name + seq![':', ':'] + render_exprs(value),
    }
}

/// Maps a sequence of model nodes back to markup text by concatenation.
pub open spec fn render_exprs(es: Seq<Expr>) -> Seq<char>
    decreases es, 0int,
{
    if es.len() == 0 {
        Seq::empty()
    } else {
        render_expr(es[0]) + render_exprs(es.drop_first())
    }
}

} // verus!
