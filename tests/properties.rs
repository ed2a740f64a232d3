use mfm::merge::{merge_text, merge_text_inline, merge_text_simple};
use mfm::node::{
    Block, Bold, Center, CodeBlock, EmojiCode, Fn, Hashtag, Inline, InlineCode, Italic, Link,
    MathBlock, MathInline, Mention, Node, Plain, Quote, Search, Simple, Small, Strike, Text,
    UnicodeEmoji, Url,
};
use mfm::parser::FullParser;
use mfm::printer::{stringify_inline, stringify_node, stringify_simple};

fn text(s: &str) -> Text {
    Text { text: s.to_string() }
}

fn itext(s: &str) -> Inline {
    Inline::Text(text(s))
}

fn ntext(s: &str) -> Node {
    Node::Inline(itext(s))
}

fn inlines_merged(v: &[Inline]) -> bool {
    for w in v.windows(2) {
        if matches!(w[0], Inline::Text(_)) && matches!(w[1], Inline::Text(_)) {
            return false;
        }
    }
    v.iter().all(|n| match n {
        Inline::Bold(Bold(c))
        | Inline::Small(Small(c))
        | Inline::Italic(Italic(c))
        | Inline::Strike(Strike(c)) => inlines_merged(c),
        Inline::Link(l) => inlines_merged(&l.children),
        Inline::Fn(f) => inlines_merged(&f.children),
        Inline::Plain(p) => p.0.len() == 1,
        _ => true,
    })
}

fn nodes_merged(v: &[Node]) -> bool {
    for w in v.windows(2) {
        if matches!(w[0], Node::Inline(Inline::Text(_)))
            && matches!(w[1], Node::Inline(Inline::Text(_)))
        {
            return false;
        }
    }
    v.iter().all(|n| match n {
        Node::Block(Block::Quote(q)) => nodes_merged(&q.0),
        Node::Block(Block::Center(c)) => inlines_merged(&c.0),
        Node::Inline(i) => inlines_merged(std::slice::from_ref(i)),
        _ => true,
    })
}

fn depth(v: &[Node]) -> usize {
    v.iter()
        .map(|n| match n {
            Node::Block(Block::Quote(q)) => 1 + depth(&q.0),
            Node::Block(Block::Center(c)) => 1 + inline_depth(&c.0),
            Node::Inline(i) => inline_depth(std::slice::from_ref(i)),
            _ => 0,
        })
        .max()
        .unwrap_or(0)
}

fn inline_depth(v: &[Inline]) -> usize {
    v.iter()
        .map(|n| match n {
            Inline::Bold(Bold(c))
            | Inline::Small(Small(c))
            | Inline::Italic(Italic(c))
            | Inline::Strike(Strike(c)) => 1 + inline_depth(c),
            Inline::Link(l) => 1 + inline_depth(&l.children),
            Inline::Fn(f) => 1 + inline_depth(&f.children),
            _ => 0,
        })
        .max()
        .unwrap_or(0)
}

#[test]
fn total_on_empty_and_single_characters() {
    assert_eq!(mfm::parse("").unwrap(), vec![]);
    assert_eq!(mfm::parse_simple("").unwrap(), vec![]);
    for c in ["a", ">", "*", "_", "~", "`", "$", "[", "<", ":", "@", "#", "\n", "\\", "😇"] {
        let r = mfm::parse(c).unwrap();
        assert_eq!(r.len(), 1);
        assert_eq!(mfm::parse_simple(c).unwrap().len(), 1);
    }
}

#[test]
fn total_on_adversarial_nesting() {
    let quotes = ">".repeat(3000) + " abc";
    let r = mfm::parse(&quotes).unwrap();
    assert!(depth(&r) <= 20);
    let bolds = "<b>".repeat(500) + "x" + &"</b>".repeat(500);
    let r = mfm::parse(&bolds).unwrap();
    assert!(depth(&r) <= 20);
    assert!(nodes_merged(&r));
}

#[test]
fn merged_text_at_every_level() {
    for input in [
        "abc",
        "a **b** c ~~d~~ e",
        "<small>1**2**3<i>4</i>5</small>",
        "> a\n> **b** c\n\nd",
        "<center>\nx <b>y</b> z\n</center>",
        "$[spin.speed=1s a **b** c]",
        "[a **b** c](https://example.com)",
    ] {
        assert!(nodes_merged(&mfm::parse(input).unwrap()), "{}", input);
    }
}

#[test]
fn round_trip_quote() {
    let r = mfm::parse("> abc").unwrap();
    assert_eq!(r, vec![Node::Block(Block::Quote(Quote(vec![ntext("abc")])))]);
    assert_eq!(mfm::to_string(r), "> abc");
}

#[test]
fn round_trip_code_block() {
    let r = mfm::parse("```\nabc\n```").unwrap();
    assert_eq!(
        r,
        vec![Node::Block(Block::CodeBlock(CodeBlock { code: "abc".to_string(), lang: None }))]
    );
    assert_eq!(mfm::to_string(r), "```\nabc\n```");
}

#[test]
fn round_trip_math_block() {
    let r = mfm::parse("\\[\ny = 2x + 1\n\\]").unwrap();
    assert_eq!(
        r,
        vec![Node::Block(Block::MathBlock(MathBlock { formula: "y = 2x + 1".to_string() }))]
    );
    assert_eq!(mfm::to_string(r), "\\[\ny = 2x + 1\n\\]");
}

#[test]
fn round_trip_bold_fn_and_silent_link() {
    for input in ["**abc**", "$[tada Hello]", "?[Ai](https://example.com)"] {
        assert_eq!(mfm::to_string(mfm::parse(input).unwrap()), input);
    }
    assert_eq!(
        mfm::parse("?[Ai](https://example.com)").unwrap(),
        vec![Node::Inline(Inline::Link(Link {
            url: "https://example.com".to_string(),
            silent: true,
            children: vec![itext("Ai")],
        }))]
    );
}

#[test]
fn plain_is_printed_in_two_line_form() {
    let r = mfm::parse("a\n<plain>Hello</plain>\nb").unwrap();
    assert_eq!(
        r,
        vec![
            ntext("a\n"),
            Node::Inline(Inline::Plain(Plain(vec![text("Hello")]))),
            ntext("\nb"),
        ]
    );
    assert_eq!(mfm::to_string(r), "a\n<plain>\nHello\n</plain>\nb");
}

#[test]
fn triple_asterisk_desugars_to_tada() {
    let r = mfm::parse("***abc***").unwrap();
    assert_eq!(
        r,
        vec![Node::Inline(Inline::Fn(Fn {
            name: "tada".to_string(),
            args: vec![],
            children: vec![itext("abc")],
        }))]
    );
    assert_eq!(mfm::to_string(r), "$[tada abc]");
}

#[test]
fn emphasis_after_word_character_stays_text() {
    assert_eq!(mfm::parse("before*abc*after").unwrap(), vec![ntext("before*abc*after")]);
    assert_eq!(mfm::parse("123*abc*123").unwrap(), vec![ntext("123*abc*123")]);
    assert_eq!(
        mfm::parse("あいう*abc*えお").unwrap(),
        vec![
            ntext("あいう"),
            Node::Inline(Inline::Italic(Italic(vec![itext("abc")]))),
            ntext("えお"),
        ]
    );
}

#[test]
fn nest_limit_two_keeps_third_quote_literal() {
    assert_eq!(
        mfm::parse_with_nest_limit(">>> abc", 2).unwrap(),
        vec![Node::Block(Block::Quote(Quote(vec![Node::Block(Block::Quote(Quote(vec![
            ntext("> abc")
        ])))])))]
    );
}

#[test]
fn nest_limit_zero_and_one_keep_content_literal() {
    for limit in [0, 1] {
        assert_eq!(
            mfm::parse_with_nest_limit("<b>**x**</b>", limit).unwrap(),
            vec![Node::Inline(Inline::Bold(Bold(vec![itext("**x**")])))]
        );
        assert_eq!(
            mfm::parse_with_nest_limit(">> a", limit).unwrap(),
            vec![Node::Block(Block::Quote(Quote(vec![ntext("> a")])))]
        );
    }
}

#[test]
fn empty_single_quote_line_is_text() {
    assert_eq!(mfm::parse("> ").unwrap(), vec![ntext("> ")]);
    assert_eq!(mfm::parse(">").unwrap(), vec![ntext(">")]);
}

#[test]
fn parser_struct_default_and_new() {
    let p = FullParser::default();
    assert_eq!(p.parse("**a**"), vec![Node::Inline(Inline::Bold(Bold(vec![itext("a")])))]);
    let p = FullParser::new(1);
    assert_eq!(p.parse("**<i>a</i>**"), vec![Node::Inline(Inline::Bold(Bold(vec![itext(
        "<i>a</i>"
    )])))]);
}

#[test]
fn prints_each_block_form() {
    let nodes = vec![
        Node::Block(Block::Search(Search {
            query: "q".to_string(),
            content: "q [検索]".to_string(),
        })),
        Node::Block(Block::CodeBlock(CodeBlock {
            code: "x".to_string(),
            lang: Some("rs".to_string()),
        })),
        Node::Block(Block::MathBlock(MathBlock { formula: "f".to_string() })),
        Node::Block(Block::Center(Center(vec![itext("c")]))),
        Node::Block(Block::Quote(Quote(vec![ntext("a\nb")]))),
    ];
    assert_eq!(
        mfm::to_string(nodes),
        "q [検索]\n```rs\nx\n```\n\\[\nf\n\\]\n<center>\nc\n</center>\n> a\n> b"
    );
}

#[test]
fn prints_each_inline_form() {
    let inlines = vec![
        Inline::UnicodeEmoji(UnicodeEmoji { emoji: "😇".to_string() }),
        Inline::EmojiCode(EmojiCode { name: "e".to_string() }),
        Inline::Small(Small(vec![itext("s")])),
        Inline::Italic(Italic(vec![itext("i")])),
        Inline::Strike(Strike(vec![itext("k")])),
        Inline::InlineCode(InlineCode { code: "c".to_string() }),
        Inline::MathInline(MathInline { formula: "m".to_string() }),
        Inline::Mention(Mention {
            username: "u".to_string(),
            host: Some("h.example".to_string()),
            acct: "@u@h.example".to_string(),
        }),
        Inline::Hashtag(Hashtag { hashtag: "t".to_string() }),
        Inline::Url(Url { url: "https://a.example".to_string(), brackets: true }),
        Inline::Url(Url { url: "https://b.example".to_string(), brackets: false }),
        Inline::Link(Link {
            url: "https://c.example".to_string(),
            silent: false,
            children: vec![itext("l")],
        }),
        Inline::Fn(Fn {
            name: "spin".to_string(),
            args: vec![("speed".to_string(), Some("1s".to_string())), ("x".to_string(), None)],
            children: vec![itext("f")],
        }),
    ];
    let nodes: Vec<Node> = inlines.into_iter().map(Node::Inline).collect();
    assert_eq!(
        mfm::to_string(nodes),
        "😇:e:<small>s</small><i>i</i>~~k~~`c`\\(m\\)@u@h.example#t<https://a.example>\
         https://b.example[l](https://c.example)$[spin.speed=1s,x f]"
    );
}

#[test]
fn line_breaks_only_around_blocks() {
    let q = || Node::Block(Block::Quote(Quote(vec![ntext("q")])));
    assert_eq!(mfm::to_string(vec![ntext("a"), ntext("b")]), "ab");
    assert_eq!(mfm::to_string(vec![ntext("a"), q(), ntext("b")]), "a\n> q\nb");
    assert_eq!(mfm::to_string(vec![q(), q()]), "> q\n> q");
    assert_eq!(mfm::to_string(vec![]), "");
    assert_eq!(mfm::printer::stringify_tree(vec![q(), ntext("x")]), "> q\nx");
}

#[test]
fn empty_quote_content_prints_marker() {
    let q = Node::Block(Block::Quote(Quote(vec![])));
    assert_eq!(mfm::to_string(vec![q]), "> ");
}

#[test]
fn merge_joins_adjacent_text_and_drops_empty() {
    let b = || Node::Inline(Inline::Bold(Bold(vec![itext("x")])));
    assert_eq!(
        merge_text(vec![ntext("a"), ntext(""), ntext("b"), b(), ntext("c"), ntext("d")]),
        vec![ntext("ab"), b(), ntext("cd")]
    );
    assert_eq!(merge_text(vec![ntext("")]), vec![]);
    assert_eq!(merge_text(vec![]), vec![]);
    assert_eq!(
        merge_text_inline(vec![itext("x"), itext("y")]),
        vec![itext("xy")]
    );
    let e = Simple::EmojiCode(EmojiCode { name: "e".to_string() });
    assert_eq!(
        merge_text_simple(vec![Simple::Text(text("a")), e.clone(), Simple::Text(text("b")), Simple::Text(text("c"))]),
        vec![Simple::Text(text("a")), e, Simple::Text(text("bc"))]
    );
}

#[test]
fn simple_grammar_reads_emoji_only() {
    assert_eq!(
        mfm::parse_simple("a😇:b: <b>c</b>").unwrap(),
        vec![
            Simple::Text(text("a")),
            Simple::UnicodeEmoji(UnicodeEmoji { emoji: "😇".to_string() }),
            Simple::EmojiCode(EmojiCode { name: "b".to_string() }),
            Simple::Text(text(" <b>c</b>")),
        ]
    );
    assert_eq!(
        mfm::parse_simple("☀\u{fe0f}x").unwrap(),
        vec![
            Simple::UnicodeEmoji(UnicodeEmoji { emoji: "☀\u{fe0f}".to_string() }),
            Simple::Text(text("x")),
        ]
    );
    assert_eq!(mfm::parse_simple(":a:b").unwrap(), vec![Simple::Text(text(":a:b"))]);
}

#[test]
fn mentions_with_and_without_host() {
    assert_eq!(
        mfm::parse("@ai@misskey.example.").unwrap(),
        vec![
            Node::Inline(Inline::Mention(Mention {
                username: "ai".to_string(),
                host: Some("misskey.example".to_string()),
                acct: "@ai@misskey.example".to_string(),
            })),
            ntext("."),
        ]
    );
    assert_eq!(mfm::parse("a@b").unwrap(), vec![ntext("a@b")]);
}

#[test]
fn hashtags_and_urls() {
    assert_eq!(mfm::parse("#123").unwrap(), vec![ntext("#123")]);
    assert_eq!(
        mfm::parse("#tag!").unwrap(),
        vec![Node::Inline(Inline::Hashtag(Hashtag { hashtag: "tag".to_string() })), ntext("!")]
    );
    assert_eq!(
        mfm::parse("see https://a.example/x.").unwrap(),
        vec![
            ntext("see "),
            Node::Inline(Inline::Url(Url { url: "https://a.example/x".to_string(), brackets: false })),
            ntext("."),
        ]
    );
    assert_eq!(
        mfm::parse("<http://a.example/(x)>").unwrap(),
        vec![Node::Inline(Inline::Url(Url { url: "http://a.example/(x)".to_string(), brackets: true }))]
    );
}

#[test]
fn inline_code_math_and_search() {
    assert_eq!(
        mfm::parse("`a` \\(b\\)").unwrap(),
        vec![
            Node::Inline(Inline::InlineCode(InlineCode { code: "a".to_string() })),
            ntext(" "),
            Node::Inline(Inline::MathInline(MathInline { formula: "b".to_string() })),
        ]
    );
    assert_eq!(
        mfm::parse("cats Search").unwrap(),
        vec![Node::Block(Block::Search(Search {
            query: "cats".to_string(),
            content: "cats Search".to_string(),
        }))]
    );
    assert_eq!(mfm::parse("cats SEARCH").unwrap(), vec![ntext("cats SEARCH")]);
    assert_eq!(mfm::parse("x [sEaRcH]").unwrap(), vec![ntext("x [sEaRcH]")]);
    assert_eq!(mfm::parse("cats searching").unwrap(), vec![ntext("cats searching")]);
}

#[test]
fn fn_arguments_are_read_in_order() {
    assert_eq!(
        mfm::parse("$[x.a,b=c-d.e y]").unwrap(),
        vec![Node::Inline(Inline::Fn(Fn {
            name: "x".to_string(),
            args: vec![("a".to_string(), None), ("b".to_string(), Some("c-d.e".to_string()))],
            children: vec![itext("y")],
        }))]
    );
    assert_eq!(mfm::parse("$[x. y]").unwrap(), vec![ntext("$[x. y]")]);
}

#[test]
fn prints_single_nodes() {
    assert_eq!(stringify_inline(&Inline::Bold(Bold(vec![itext("b")]))), "**b**");
    assert_eq!(
        stringify_node(&Node::Inline(Inline::Plain(Plain(vec![text("p")])))),
        "<plain>\np\n</plain>"
    );
    assert_eq!(stringify_node(&Node::Block(Block::Quote(Quote(vec![ntext("x\ny")])))), "> x\n> y");
    assert_eq!(stringify_simple(&Simple::EmojiCode(EmojiCode { name: "e".to_string() })), ":e:");
    assert_eq!(stringify_simple(&Simple::Text(text("t"))), "t");
    assert_eq!(
        stringify_simple(&Simple::UnicodeEmoji(UnicodeEmoji { emoji: "😇".to_string() })),
        "😇"
    );
}

#[test]
fn helpers_under_util_paths() {
    assert_eq!(mfm::util::merge_text(vec![ntext("a"), ntext("b")]), vec![ntext("ab")]);
    assert_eq!(mfm::util::stringify_tree(vec![ntext("a")]), "a");
}

#[test]
fn crlf_is_one_line_break_in_blocks() {
    assert_eq!(
        mfm::parse("> a\r\n> b").unwrap(),
        vec![Node::Block(Block::Quote(Quote(vec![ntext("a\nb")])))]
    );
    assert_eq!(
        mfm::parse("```\r\nabc\r\n```").unwrap(),
        vec![Node::Block(Block::CodeBlock(CodeBlock { code: "abc".to_string(), lang: None }))]
    );
    assert_eq!(
        mfm::parse("```js\r\nx\r\n```\r\ny").unwrap(),
        vec![
            Node::Block(Block::CodeBlock(CodeBlock {
                code: "x".to_string(),
                lang: Some("js".to_string()),
            })),
            ntext("y"),
        ]
    );
    assert_eq!(
        mfm::parse("\\[\r\nf\r\n\\]").unwrap(),
        vec![Node::Block(Block::MathBlock(MathBlock { formula: "f".to_string() }))]
    );
    assert_eq!(
        mfm::parse("a\r\n<center>\r\nb\r\n</center>").unwrap(),
        vec![ntext("a"), Node::Block(Block::Center(Center(vec![itext("b")])))]
    );
    assert_eq!(
        mfm::parse("q 検索\r\nz").unwrap(),
        vec![
            Node::Block(Block::Search(Search {
                query: "q".to_string(),
                content: "q 検索".to_string(),
            })),
            ntext("z"),
        ]
    );
}

#[test]
fn crlf_around_plain_text() {
    assert_eq!(
        mfm::parse("<plain>\r\nx\r\n</plain>").unwrap(),
        vec![Node::Inline(Inline::Plain(Plain(vec![text("x")])))]
    );
    assert_eq!(mfm::parse("a\rb").unwrap(), vec![ntext("a\rb")]);
}

#[test]
fn trees_clone_to_equal_trees() {
    let input = "> a **b** $[x.k=v c]\n<center>\n[l](https://a.example) <s>d</s>\n</center>";
    let tree = mfm::parse(input).unwrap();
    let copy = tree.clone();
    assert_eq!(copy, tree);
    assert_eq!(mfm::to_string(copy), mfm::to_string(tree));
}

#[test]
fn plain_prints_only_its_first_text() {
    let two = Node::Inline(Inline::Plain(Plain(vec![text("a"), text("b")])));
    assert_eq!(mfm::to_string(vec![two]), "<plain>\na\n</plain>");
    let none = Node::Inline(Inline::Plain(Plain(vec![])));
    assert_eq!(mfm::to_string(vec![none]), "<plain>\n\n</plain>");
}

#[test]
fn blank_quote_line_between_breaks_is_text() {
    assert_eq!(mfm::parse("\n> \n").unwrap(), vec![ntext("\n> \n")]);
    assert_eq!(mfm::parse("\r\n>\t\r\nx").unwrap(), vec![ntext("\r\n>\t\r\nx")]);
    assert_eq!(mfm::parse("\n\n>\u{3000}").unwrap(), vec![ntext("\n\n>\u{3000}")]);
}

#[test]
fn text_converts_to_and_from_nodes() {
    assert_eq!(Node::from(text("a")), ntext("a"));
    assert_eq!(Inline::from(text("a")), itext("a"));
    assert_eq!(Simple::from(text("a")), Simple::Text(text("a")));
    assert_eq!(Text::try_from(ntext("a")), Ok(text("a")));
    assert_eq!(Text::try_from(Node::Inline(Inline::Bold(Bold(vec![])))), Err(()));
    assert_eq!(Text::try_from(itext("b")), Ok(text("b")));
    assert_eq!(Text::try_from(Simple::EmojiCode(EmojiCode { name: "e".to_string() })), Err(()));
}

#[test]
fn leaves_and_parser_copy() {
    let m = Mention {
        username: "u".to_string(),
        host: Some("h".to_string()),
        acct: "@u@h".to_string(),
    };
    assert_eq!(m.clone(), m);
    let c = CodeBlock { code: "c".to_string(), lang: None };
    assert_eq!(c.clone(), c);
    let p = Plain(vec![text("x")]);
    assert_eq!(p.clone(), p);
    let parser = FullParser::new(3);
    let copy = parser;
    assert_eq!(copy.parse("**a**"), parser.parse("**a**"));
}
