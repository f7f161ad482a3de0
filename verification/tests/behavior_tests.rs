use roam_markup::parse_string::{parse, Expression};
use roam_markup::slug::title_to_slug;

/// Renders a parsed tree back to markup text, for round-trip checks on
/// inputs whose parse is lossless.
fn render(nodes: &[Expression]) -> String {
    let mut out = String::new();
    for node in nodes {
        match node {
            Expression::Text(t) => out.push_str(t),
            Expression::BlockRef(t) => out.push_str(&format!("(({}))", t)),
            Expression::Link(t) => out.push_str(&format!("[[{}]]", t)),
            Expression::Hashtag(t, dotted) => {
                if *dotted {
                    out.push_str(&format!("#.{}", t))
                } else {
                    out.push_str(&format!("#{}", t))
                }
            }
            Expression::BraceDirective(t) => out.push_str(&format!("{{{{{}}}}}", t)),
            Expression::Table => out.push_str("{{table}}"),
            Expression::Image { alt, url } => out.push_str(&format!("![{}]({})", alt, url)),
            Expression::MarkdownLink { title, url } => {
                out.push_str(&format!("[{}]({})", title, url))
            }
            Expression::RawHyperlink(t) => out.push_str(t),
            Expression::Bold(children) => out.push_str(&format!("**{}**", render(children))),
            Expression::BlockQuote(children) => out.push_str(&format!("> {}", render(children))),
            Expression::SingleBacktick(t) => out.push_str(&format!("`{}`", t)),
            Expression::TripleBacktick(t) => out.push_str(&format!("```{}```", t)),
            Expression::Attribute { name, value } => {
                out.push_str(&format!("{}::{}", name, render(value)))
            }
        }
    }
    out
}

#[test]
fn empty_input() {
    assert_eq!(parse("").unwrap(), vec![]);
}

#[test]
fn plain_round_trip() {
    // Literal fallback: nothing recognizable, one text node with the input.
    let input = "just plain words, nothing special.";
    assert_eq!(parse(input).unwrap(), vec![Expression::Text(input.to_string())]);
}

#[test]
fn unmatched_delimiters_survive() {
    // Unmatched delimiters never disappear from the reconstructed text.
    for input in [
        "an [ unmatched { brace > here",
        "((unclosed",
        "**no closer",
        "[[no close",
        "a ) stray ] closers }",
    ] {
        let nodes = parse(input).unwrap();
        assert_eq!(nodes, vec![Expression::Text(input.to_string())]);
        assert_eq!(render(&nodes), input);
    }
}

#[test]
fn nested_children_reproduce_spans() {
    // Bold, blockquote and attribute-value children, rendered back by
    // concatenation, reproduce their original inner spans.
    let bold = parse("--- **a [[link]] b** ---").unwrap();
    match &bold[1] {
        Expression::Bold(children) => assert_eq!(render(children), "a [[link]] b"),
        other => panic!("expected bold, got {:?}", other),
    }
    let quote = parse("> quoting ((someone)) now").unwrap();
    match &quote[0] {
        Expression::BlockQuote(children) => assert_eq!(render(children), "quoting ((someone)) now"),
        other => panic!("expected blockquote, got {:?}", other),
    }
    let attr = parse("Key::some [[value]] text").unwrap();
    match &attr[0] {
        Expression::Attribute { name, value } => {
            assert_eq!(name, "Key");
            assert_eq!(render(value), "some [[value]] text");
        }
        other => panic!("expected attribute, got {:?}", other),
    }
}

#[test]
fn faithful_whole_block_round_trip() {
    for input in [
        "a [[link]] and ((ref)) **bold** end",
        "> quoted **text** with [[links]]",
        "see [docs](https://docs.example.org) now",
        "tagged #one and #.two here",
        "go to https://example.org/x today",
    ] {
        let nodes = parse(input).unwrap();
        assert_eq!(render(&nodes), input);
    }
}

#[test]
fn backtick_span_escapes_constructs() {
    // Constructs inside a backtick span of either length never produce
    // nodes: the span is one verbatim node.
    let input = "`:: [[x]] #y **z**`";
    assert_eq!(
        parse(input).unwrap(),
        vec![Expression::SingleBacktick(":: [[x]] #y **z**".to_string())]
    );
    let input3 = "```a ** [[b]] :: #c```";
    assert_eq!(
        parse(input3).unwrap(),
        vec![Expression::TripleBacktick("a ** [[b]] :: #c".to_string())]
    );
}

#[test]
fn attribute_blocked_by_earlier_backtick() {
    // A `::` after a backtick span is invisible to the attribute pre-scan.
    let nodes = parse("a `x` b:: c").unwrap();
    assert_eq!(nodes[0], Expression::Text("a ".to_string()));
    assert_eq!(nodes[1], Expression::SingleBacktick("x".to_string()));
    assert_eq!(nodes[2], Expression::Text(" b:: c".to_string()));
}

#[test]
fn unterminated_backticks_run_to_end() {
    assert_eq!(parse("`abc").unwrap(), vec![Expression::SingleBacktick("abc".to_string())]);
    assert_eq!(parse("```abc").unwrap(), vec![Expression::TripleBacktick("abc".to_string())]);
}

#[test]
fn table_without_spaces() {
    assert_eq!(parse("{{table}}").unwrap(), vec![Expression::Table]);
}

#[test]
fn markdown_link_needs_url() {
    let input = "[a](";
    assert_eq!(parse(input).unwrap(), vec![Expression::Text(input.to_string())]);
}

#[test]
fn hashtag_lone_dot() {
    assert_eq!(parse("#.").unwrap(), vec![Expression::Hashtag("".to_string(), true)]);
}

#[test]
fn hashtag_needs_word() {
    assert_eq!(parse("# x").unwrap(), vec![Expression::Text("# x".to_string())]);
}

#[test]
fn attribute_at_end() {
    assert_eq!(
        parse("Key::").unwrap(),
        vec![Expression::Attribute { name: "Key".to_string(), value: vec![] }]
    );
}

#[test]
fn slug_basic() {
    assert_eq!(title_to_slug("My Title"), "my_title");
}

#[test]
fn slug_lowercases() {
    // Would fail if lowercasing handed its argument back unchanged.
    assert_eq!(title_to_slug("AbC"), "abc");
}

#[test]
fn slug_splits_on_punctuation() {
    assert_eq!(title_to_slug("Projects/Rewrite everything"), "projects_rewrite_everything");
    assert_eq!(title_to_slug("John 13:18-30 - Judas"), "john_13_18_30_judas");
}

#[test]
fn slug_drops_other_characters() {
    // A character that is neither separator nor alphanumeric vanishes.
    assert_eq!(title_to_slug("v1.2"), "v12");
    assert_eq!(title_to_slug("!!!"), "");
}

#[test]
fn slug_collapses_empty_pieces() {
    assert_eq!(title_to_slug("a--b"), "a_b");
    assert_eq!(title_to_slug("  spaced  out  "), "spaced_out");
}
