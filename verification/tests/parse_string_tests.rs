use roam_markup::parse_string::{parse, Expression};

#[test]
fn word() {
    let input = "word";
    assert_eq!(parse(input).unwrap(), vec![Expression::Text("word".to_string())])
}

#[test]
fn words() {
    let input = "two words";
    assert_eq!(parse(input).unwrap(), vec![Expression::Text("two words".to_string())])
}

#[test]
fn surrounding_whitespace() {
    let input = "  two words  ";
    assert_eq!(parse(input).unwrap(), vec![Expression::Text("  two words  ".to_string())])
}

#[test]
fn block_ref() {
    let input = "((a ref))";
    assert_eq!(parse(input).unwrap(), vec![Expression::BlockRef("a ref".to_string())])
}

#[test]
fn link() {
    let input = "[[a title]]";
    assert_eq!(parse(input).unwrap(), vec![Expression::Link("a title".to_string())])
}

#[test]
fn hashtag_simple() {
    let input = "#tag";
    assert_eq!(parse(input).unwrap(), vec![Expression::Hashtag("tag".to_string(), false)])
}

#[test]
fn hashtag_with_link() {
    let input = "#[[a tag]]";
    assert_eq!(parse(input).unwrap(), vec![Expression::Hashtag("a tag".to_string(), false)])
}

#[test]
fn hashtag_with_dot() {
    let input = "#.tag";
    assert_eq!(parse(input).unwrap(), vec![Expression::Hashtag("tag".to_string(), true)])
}

#[test]
fn other_brace() {
    let input = "{{ something-else }}";
    assert_eq!(
        parse(input).unwrap(),
        vec![Expression::BraceDirective("something-else".to_string())]
    )
}

#[test]
fn table_brace() {
    let input = "{{ table }}";
    assert_eq!(parse(input).unwrap(), vec![Expression::Table])
}

#[test]
fn hashtag_brace() {
    // This isn't valid in Roam, so it doesn't parse out the hashtag.
    let input = "{{ #table}}";
    assert_eq!(parse(input).unwrap(), vec![Expression::BraceDirective("#table".to_string())])
}

#[test]
fn link_with_enclosed_bracket() {
    let input = "[[ab[cd]ef]]";
    assert_eq!(parse(input).unwrap(), vec![Expression::Link("ab[cd]ef".to_string())])
}

#[test]
fn table_link_brace() {
    let input = "{{[[table]]}}";
    assert_eq!(parse(input).unwrap(), vec![Expression::Table])
}

#[test]
fn other_link_brace() {
    let input = "{{[[something-else]]}}";
    assert_eq!(
        parse(input).unwrap(),
        vec![Expression::BraceDirective("something-else".to_string())]
    )
}

#[test]
fn multiword_with_links() {
    let input = "I want an [[astrolabe]] of my own";
    assert_eq!(
        parse(input).unwrap(),
        vec![
            Expression::Text("I want an ".to_string()),
            Expression::Link("astrolabe".to_string()),
            Expression::Text(" of my own".to_string())
        ]
    )
}

#[test]
fn single_brace() {
    let input = "this is not [a brace ] but [[this is]]";
    assert_eq!(
        parse(input).unwrap(),
        vec![
            Expression::Text("this is not [a brace ] but ".to_string()),
            Expression::Link("this is".to_string())
        ]
    )
}

#[test]
fn single_bracket() {
    let input = "this is not {a bracket } but [[this is a]]link";
    assert_eq!(
        parse(input).unwrap(),
        vec![
            Expression::Text("this is not {a bracket } but ".to_string()),
            Expression::Link("this is a".to_string()),
            Expression::Text("link".to_string())
        ]
    )
}

#[test]
fn fake_bold() {
    let input = "this is *not* bold";
    assert_eq!(parse(input).unwrap(), vec![Expression::Text("this is *not* bold".to_string())]);
}

#[test]
fn image() {
    let input =
    "![](https://firebasestorage.googleapis.com/v0/b/firescript-577a2.appspot.com/o/some-id?abc)";
    assert_eq!(
        parse(input).unwrap(),
        vec![Expression::Image {
      alt: "".to_string(),
      url: "https://firebasestorage.googleapis.com/v0/b/firescript-577a2.appspot.com/o/some-id?abc".to_string()
    }]
    )
}

#[test]
fn image_with_alt() {
    let input =
    "![some alt text](https://firebasestorage.googleapis.com/v0/b/firescript-577a2.appspot.com/o/some-id?abc)";
    assert_eq!(
        parse(input).unwrap(),
        vec![Expression::Image {
      alt: "some alt text".to_string(),
      url: "https://firebasestorage.googleapis.com/v0/b/firescript-577a2.appspot.com/o/some-id?abc".to_string()
    }]
    )
}

#[test]
fn real_world_1() {
    let input = r##"An initially \"honest\" signal becomes dishonest."##;
    assert_eq!(
        parse(input).unwrap(),
        vec![Expression::Text(
            r##"An initially \"honest\" signal becomes dishonest."##.to_string()
        )]
    )
}

#[test]
fn plaintext_link() {
    let input = r##"Source: https://a.website.com/is-post"##;
    assert_eq!(
        parse(input).unwrap(),
        vec![
            Expression::Text(r##"Source: "##.to_string()),
            Expression::RawHyperlink("https://a.website.com/is-post".to_string())
        ]
    )
}

#[test]
fn plaintext_link_entire_string() {
    let input = "https://www.example.com/def/ghi?abc=def#an-anchor";
    assert_eq!(parse(input).unwrap(), vec![Expression::RawHyperlink(input.to_string())]);
}

#[test]
fn plaintext_link_omits_trailing_character() {
    let input = "at https://www.example.com/def.";
    assert_eq!(
        parse(input).unwrap(),
        vec![
            Expression::Text("at ".to_string()),
            Expression::RawHyperlink("https://www.example.com/def".to_string()),
            Expression::Text(".".to_string())
        ]
    );
}

#[test]
fn plaintext_link_omits_trailing_character2() {
    let input = "at https://www.example.com/def/ghi?abc=def#an-anchor.";
    assert_eq!(
        parse(input).unwrap(),
        vec![
            Expression::Text("at ".to_string()),
            Expression::RawHyperlink(
                "https://www.example.com/def/ghi?abc=def#an-anchor".to_string()
            ),
            Expression::Text(".".to_string())
        ]
    );
}

#[test]
fn markdown_link() {
    let input =
        r##"For actually communicating, [spiped](https://www.tarsnap.com/spiped.html) is nice"##;
    assert_eq!(
        parse(input).unwrap(),
        vec![
            Expression::Text("For actually communicating, ".to_string()),
            Expression::MarkdownLink {
                title: "spiped".to_string(),
                url: "https://www.tarsnap.com/spiped.html".to_string()
            },
            Expression::Text(" is nice".to_string())
        ]
    )
}

#[test]
fn attribute_simple() {
    let input = "Source:: some blog";
    assert_eq!(
        parse(input).unwrap(),
        vec![Expression::Attribute {
            name: "Source".to_string(),
            value: vec![Expression::Text("some blog".to_string())]
        }]
    )
}

#[test]
fn attribute_nospace() {
    let input = "Source::some blog";
    assert_eq!(
        parse(input).unwrap(),
        vec![Expression::Attribute {
            name: "Source".to_string(),
            value: vec![Expression::Text("some blog".to_string())]
        }]
    )
}

#[test]
fn attribute_complex() {
    let input = " My Score:: too [[high]] to count";
    assert_eq!(
        parse(input).unwrap(),
        vec![Expression::Attribute {
            name: " My Score".to_string(),
            value: vec![
                Expression::Text("too ".to_string()),
                Expression::Link("high".to_string()),
                Expression::Text(" to count".to_string())
            ]
        }]
    )
}

#[test]
fn attribute_extra_colons() {
    let input = " My Score::: too :: high :: to count";
    assert_eq!(
        parse(input).unwrap(),
        vec![Expression::Attribute {
            name: " My Score".to_string(),
            value: vec![Expression::Text(": too :: high :: to count".to_string()),]
        }]
    )
}

#[test]
fn attribute_backticks_1() {
    // Do not parse it as an attribute if the :: is inside backticks
    let input = " My Score ` :: too [[high]] to count`";
    assert_eq!(
        parse(input).unwrap(),
        vec![
            Expression::Text(" My Score ".to_string()),
            Expression::SingleBacktick(" :: too [[high]] to count".to_string())
        ]
    )
}

#[test]
fn attribute_backticks_2() {
    // This feels weird but it matches Roam's behavior.
    // Understandable since it's difficult to parse otherwise
    let input = "My `Score`:: too [[high]] to count";
    assert_eq!(
        parse(input).unwrap(),
        vec![
            Expression::Text("My ".to_string()),
            Expression::SingleBacktick("Score".to_string()),
            Expression::Text(":: too ".to_string()),
            Expression::Link("high".to_string()),
            Expression::Text(" to count".to_string())
        ]
    )
}

#[test]
fn exclamation_point() {
    let input = "This is exciting!";
    assert_eq!(parse(input).unwrap(), vec![Expression::Text("This is exciting!".to_string())]);
}

#[test]
fn real_world_2() {
    let input = "Added support for switchable transition styles to [[svelte-zoomable]]";
    assert_eq!(
        parse(input).unwrap(),
        vec![
            Expression::Text("Added support for switchable transition styles to ".to_string()),
            Expression::Link("svelte-zoomable".to_string())
        ]
    )
}

#[test]
fn real_world_3() {
    let input = "Include `hostnames;` inside the block to let it do wildcard matches on hostnames.";
    assert_eq!(
        parse(input).unwrap(),
        vec![
            Expression::Text("Include ".to_string()),
            Expression::SingleBacktick("hostnames;".to_string()),
            Expression::Text(
                " inside the block to let it do wildcard matches on hostnames.".to_string()
            )
        ]
    )
}

#[test]
fn real_world_4() {
    let input = r##"**Algorithm - Difference Engine** #roam/templates"##;
    assert_eq!(
        parse(input).unwrap(),
        vec![
            Expression::Bold(vec![Expression::Text("Algorithm - Difference Engine".to_string())]),
            Expression::Text(" ".to_string()),
            Expression::Hashtag("roam/templates".to_string(), false),
        ]
    )
}

#[test]
fn real_world_5() {
    let input = r##"{{[[TODO]]}} [[Projects/Rewrite everything]]"##;
    assert_eq!(
        parse(input).unwrap(),
        vec![
            Expression::BraceDirective("TODO".to_string()),
            Expression::Text(" ".to_string()),
            Expression::Link("Projects/Rewrite everything".to_string()),
        ]
    )
}

#[test]
fn real_world_6() {
    let input = r##"{{[[TODO]]}}[[Projects/Rewrite everything]]"##;
    assert_eq!(
        parse(input).unwrap(),
        vec![
            Expression::BraceDirective("TODO".to_string()),
            Expression::Link("Projects/Rewrite everything".to_string()),
        ]
    )
}

#[test]
fn real_world_7() {
    let input =
        r##"([Location 1062](https://readwise.io/to_kindle?action=open&asin=2232&location=1062))"##;
    assert_eq!(
        parse(input).unwrap(),
        vec![
            Expression::Text("(".to_string()),
            Expression::MarkdownLink {
                title: "Location 1062".to_string(),
                url: "https://readwise.io/to_kindle?action=open&asin=2232&location=1062"
                    .to_string()
            },
            Expression::Text(")".to_string()),
        ]
    )
}

#[test]
fn real_world_8() {
    let input = r##"--- **John 13:18-30 - Judas and Jesus** ---"##;
    assert_eq!(
        parse(input).unwrap(),
        vec![
            Expression::Text("--- ".to_string()),
            Expression::Bold(vec![Expression::Text(
                "John 13:18-30 - Judas and Jesus".to_string()
            )]),
            Expression::Text(" ---".to_string())
        ]
    )
}

#[test]
fn triple_backtick_1() {
    let input = r##"```javascript\nmap $regex_domain $domain {\n  app defaultskin;\n  tm defaultskin;\n  www defaultskin;\n  '' defaultskin;\n  dev defaultskin;\n  default $regex_domain;\n}```"##;
    assert_eq!(
        parse(input).unwrap(),
        vec![Expression::TripleBacktick(
            r##"javascript\nmap $regex_domain $domain {\n  app defaultskin;\n  tm defaultskin;\n  www defaultskin;\n  '' defaultskin;\n  dev defaultskin;\n  default $regex_domain;\n}"##.to_string()
        )]
    )
}

#[test]
fn triple_backtick_2() {
    let input = r##"```css\nbackground: #203;\ncolor: #ffc;\ntext-shadow: 0 0 .1em, 0 0 .3em;```"##;
    assert_eq!(
        parse(input).unwrap(),
        vec![Expression::TripleBacktick(
            r##"css\nbackground: #203;\ncolor: #ffc;\ntext-shadow: 0 0 .1em, 0 0 .3em;"##
                .to_string()
        )]
    )
}

#[test]
fn todo() {
    let input = r##"{{[[TODO]]}} Get things done"##;
    assert_eq!(
        parse(input).unwrap(),
        vec![
            Expression::BraceDirective("TODO".to_string()),
            Expression::Text(" Get things done".to_string())
        ]
    )
}

#[test]
fn unicode() {
    let input = r##"client’s merkle tree"##;
    assert_eq!(parse(input).unwrap(), vec![Expression::Text("client’s merkle tree".to_string())])
}

#[test]
fn blockquote_simple() {
    let input = r##"> Some text"##;
    assert_eq!(
        parse(input).unwrap(),
        vec![Expression::BlockQuote(vec![Expression::Text("Some text".to_string())])]
    );
}

#[test]
fn blockquote_with_nested_styles() {
    let input = r##"> [[Some]] **text**"##;
    assert_eq!(
        parse(input).unwrap(),
        vec![Expression::BlockQuote(vec![
            Expression::Link("Some".to_string()),
            Expression::Text(" ".to_string()),
            Expression::Bold(vec![Expression::Text("text".to_string())])
        ])]
    );
}

#[test]
fn blockquote_fake_1() {
    let input = r##" > Some text"##;
    assert_eq!(parse(input).unwrap(), vec![Expression::Text(" > Some text".to_string())]);
}

#[test]
fn blockquote_fake_2() {
    let input = r##"Some text
> and another"##;
    assert_eq!(
        parse(input).unwrap(),
        vec![Expression::Text("Some text\n> and another".to_string())]
    );
}
