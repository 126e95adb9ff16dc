use mdviewer::document::MdDocument;
use mdviewer::node::MdNode;
use mdviewer::renderer::{
    render, render_blockquote, render_code, render_emphasis, render_heading, render_inline_code,
    render_link, render_nodes, render_paragraph, render_strong, render_text, RenderOptions,
};
use mdviewer::style::RenderStyles;
use nu_ansi_term::{Color, Style};

fn opts(width: usize, term_width: usize) -> RenderOptions {
    RenderOptions {
        width,
        term_width,
        styles: RenderStyles::default(),
    }
}

fn text(s: &str) -> MdNode {
    MdNode::Text(s.to_string())
}

/// Removes ANSI escape sequences (ESC through the following `m`).
fn strip_ansi(s: &str) -> String {
    let mut out = String::new();
    let mut in_esc = false;
    for c in s.chars() {
        if in_esc {
            in_esc = c != 'm';
        } else if c == '\u{1b}' {
            in_esc = true;
        } else {
            out.push(c);
        }
    }
    out
}

#[test]
fn heading_single_node() {
    let o = opts(80, 80);
    let node = MdNode::Heading(2, vec![text("Hi")]);
    assert_eq!(render(&node, &o), "\u{1b}[1;35m## Hi\u{1b}[0m\n");
}

#[test]
fn heading_via_public_helper() {
    let o = opts(80, 80);
    let children = vec![text("Hi")];
    assert_eq!(render_heading(2, &children, &o), "\u{1b}[1;35m## Hi\u{1b}[0m\n");
}

#[test]
fn paragraph_single_node() {
    let o = opts(80, 80);
    let node = MdNode::Paragraph(vec![text("Body text")]);
    assert_eq!(render(&node, &o), "Body text\n");
    let children = vec![text("Body text")];
    assert_eq!(render_paragraph(&children, &o), "Body text\n");
}

#[test]
fn text_single_node() {
    let o = opts(80, 80);
    assert_eq!(render(&text("hello"), &o), "hello");
    assert_eq!(render_text("hello", &o), "hello");
}

#[test]
fn emphasis_single_node() {
    let o = opts(80, 80);
    let node = MdNode::Emphasis(vec![text("hi")]);
    assert_eq!(render(&node, &o), "\u{1b}[3mhi\u{1b}[0m");
    let children = vec![text("hi")];
    assert_eq!(render_emphasis(&children, &o), "\u{1b}[3mhi\u{1b}[0m");
}

#[test]
fn strong_single_node() {
    let o = opts(80, 80);
    let node = MdNode::Strong(vec![text("hi")]);
    assert_eq!(render(&node, &o), "\u{1b}[1mhi\u{1b}[0m");
    let children = vec![text("hi")];
    assert_eq!(render_strong(&children, &o), "\u{1b}[1mhi\u{1b}[0m");
}

#[test]
fn break_single_node() {
    let o = opts(80, 80);
    assert_eq!(render(&MdNode::Break, &o), "\n");
}

#[test]
fn blockquote_single_node() {
    let o = opts(80, 80);
    let node = MdNode::BlockQuote(vec![text("quoted")]);
    assert_eq!(render(&node, &o), "\u{258e} quoted\n");
    let children = vec![text("quoted")];
    assert_eq!(render_blockquote(&children, &o), "\u{258e} quoted\n");
}

#[test]
fn blockquote_wraps_at_terminal_width() {
    // The block quote uses the ambient terminal width, not the
    // configured wrap width.
    let o = opts(80, 10);
    let node = MdNode::BlockQuote(vec![text("one two three")]);
    assert_eq!(render(&node, &o), "\u{258e} one two\n\u{258e} three\n");
}

#[test]
fn inline_code_single_node() {
    let o = opts(80, 80);
    let node = MdNode::InlineCode("x+1".to_string());
    assert_eq!(render(&node, &o), "\u{1b}[100;91mx+1\u{1b}[0m");
    assert_eq!(render_inline_code("x+1", &o), "\u{1b}[100;91mx+1\u{1b}[0m");
}

#[test]
fn code_block_three_lines() {
    let o = opts(80, 80);
    let node = MdNode::Code(Some("rust".to_string()), "fn main() {}".to_string());
    let out = render(&node, &o);
    let expected = "\u{1b}[91m\u{256d}\u{1b}[0m \u{1b}[1mrust\u{1b}[0m\n\
                    \u{1b}[91m\u{2502} \u{1b}[0mfn main() {}\n\
                    \u{1b}[91m\u{2570}\u{1b}[0m\n";
    assert_eq!(out, expected);
    let lines: Vec<&str> = out.lines().collect();
    assert_eq!(lines.len(), 3);
    assert!(lines[0].contains('\u{256d}') && lines[0].contains("rust"));
    assert!(lines[1].contains('\u{2502}') && lines[1].contains("fn main() {}"));
    assert!(lines[2].contains('\u{2570}'));
}

#[test]
fn code_block_without_language() {
    let o = opts(80, 80);
    let node = MdNode::Code(None, "x".to_string());
    let out = render(&node, &o);
    let lang: Option<String> = None;
    assert_eq!(render_code(&lang, "x", &o), out);
    assert_eq!(
        out,
        "\u{1b}[91m\u{256d}\u{1b}[0m \u{1b}[1m\u{1b}[0m\n\u{1b}[91m\u{2502} \u{1b}[0mx\n\u{1b}[91m\u{2570}\u{1b}[0m\n"
    );
}

#[test]
fn link_renders_url_only() {
    let o = opts(80, 80);
    let node = MdNode::Link("http://example.com".to_string(), vec![text("click")]);
    let out = render(&node, &o);
    assert_eq!(out, "\u{1b}[4;34mhttp://example.com\u{1b}[0m");
    assert!(!out.contains("click"));
    assert_eq!(render_link("http://example.com", &o), out);
}

#[test]
fn unsupported_renders_empty() {
    let o = opts(80, 80);
    assert_eq!(render(&MdNode::Unsupported, &o), "");
}

#[test]
fn unsupported_does_not_affect_siblings() {
    let o = opts(80, 80);
    let with_unsupported = MdNode::Root(vec![text("a"), MdNode::Unsupported, text("b")]);
    assert_eq!(render(&with_unsupported, &o), "a\n\nb");
    let without = MdNode::Root(vec![text("a"), text("b")]);
    assert_eq!(render(&without, &o), "a\nb");
}

#[test]
fn root_heading_then_paragraph() {
    let o = opts(80, 80);
    let node = MdNode::Root(vec![
        MdNode::Heading(1, vec![text("Title")]),
        MdNode::Paragraph(vec![text("Body text")]),
    ]);
    assert_eq!(
        render(&node, &o),
        "\u{1b}[1;35m# Title\u{1b}[0m\n\nBody text\n"
    );
}

#[test]
fn render_nodes_joins_with_separator() {
    let o = opts(80, 80);
    let nodes = vec![text("a"), text("b"), text("c")];
    assert_eq!(render_nodes(&nodes, "\n", &o), "a\nb\nc");
    assert_eq!(render_nodes(&nodes, "", &o), "abc");
}

#[test]
fn wrap_is_greedy_and_respects_width() {
    let o = opts(10, 80);
    let out = o.wrap("one two three four");
    assert_eq!(out, "one two\nthree four");
    for line in out.lines() {
        assert!(line.chars().count() <= 10);
    }
}

#[test]
fn wrap_preserves_words() {
    let o = opts(7, 80);
    let out = o.wrap("alpha  beta\ngamma");
    let normalized: Vec<&str> = out.split_whitespace().collect();
    assert_eq!(normalized, vec!["alpha", "beta", "gamma"]);
}

#[test]
fn wrap_keeps_hard_breaks() {
    let o = opts(80, 80);
    assert_eq!(o.wrap("a\nb"), "a\nb");
}

#[test]
fn styled_text_wraps_like_plain_text() {
    // The escape sequences contribute zero display width: break
    // positions match those of the stripped text.
    let o = opts(7, 80);
    let node = MdNode::Paragraph(vec![
        text("aaa "),
        MdNode::Emphasis(vec![text("bbb")]),
        text(" ccc"),
    ]);
    let styled = render(&node, &o);
    assert_eq!(styled, "aaa \u{1b}[3mbbb\u{1b}[0m\nccc\n");
    let plain = o.wrap("aaa bbb ccc");
    assert_eq!(strip_ansi(&styled), format!("{plain}\n"));
}

#[test]
fn render_is_deterministic() {
    let o = opts(80, 80);
    let node = MdNode::Root(vec![
        MdNode::Heading(3, vec![text("T")]),
        MdNode::Paragraph(vec![text("body"), MdNode::Strong(vec![text("x")])]),
        MdNode::Code(Some("c".to_string()), "int x;".to_string()),
    ]);
    assert_eq!(render(&node, &o), render(&node, &o));
}

#[test]
fn options_cap_width_at_120() {
    let o = RenderOptions::with_term_width(200);
    assert_eq!(o.width, 120);
    assert_eq!(o.term_width, 200);
    let narrow = RenderOptions::with_term_width(60);
    assert_eq!(narrow.width, 60);
}

#[test]
fn document_renders_to_lines() {
    let doc = MdDocument::new(MdNode::Root(vec![
        MdNode::Heading(1, vec![text("Title")]),
        MdNode::Paragraph(vec![text("Body text")]),
    ]));
    let o = opts(80, 80);
    let lines = doc.render(&o);
    assert_eq!(
        lines,
        vec![
            "\u{1b}[1;35m# Title\u{1b}[0m".to_string(),
            String::new(),
            "Body text".to_string(),
        ]
    );
}

#[test]
fn styles_match_reference_ansi_library() {
    // The registry's escape sequences agree byte for byte with the ones
    // nu-ansi-term produces for the same styles.
    let o = opts(80, 80);
    assert_eq!(
        render_heading(2, &vec![text("Hi")], &o),
        format!("{}\n", Style::default().fg(Color::Purple).bold().paint("## Hi"))
    );
    assert_eq!(
        render_emphasis(&vec![text("hi")], &o),
        Style::default().italic().paint("hi").to_string()
    );
    assert_eq!(
        render_strong(&vec![text("hi")], &o),
        Style::default().bold().paint("hi").to_string()
    );
    assert_eq!(
        render_link("http://x", &o),
        Style::default().fg(Color::Blue).underline().paint("http://x").to_string()
    );
    assert_eq!(
        render_inline_code("x", &o),
        Style::default().fg(Color::LightRed).on(Color::DarkGray).paint("x").to_string()
    );
}

#[test]
fn empty_inputs() {
    let o = opts(80, 80);
    assert_eq!(render(&MdNode::Root(vec![]), &o), "");
    assert_eq!(render(&MdNode::Paragraph(vec![]), &o), "\n");
    assert_eq!(o.wrap(""), "");
    let doc = MdDocument::new(MdNode::Root(vec![]));
    assert_eq!(doc.render(&o), Vec::<String>::new());
}

#[test]
fn wrap_keeps_spacing_within_a_line() {
    let o = opts(80, 80);
    assert_eq!(o.wrap("a  b   c"), "a  b   c");
}

#[test]
fn wrap_keeps_leading_and_trims_trailing_spaces() {
    let o = opts(80, 80);
    assert_eq!(o.wrap("  foo bar"), "  foo bar");
    assert_eq!(o.wrap("foo bar  "), "foo bar");
    assert_eq!(o.wrap("foo  \nbar"), "foo\nbar");
}

#[test]
fn wrap_drops_spaces_only_at_inserted_breaks() {
    let o = opts(5, 80);
    assert_eq!(o.wrap("ab  cd"), "ab\ncd");
}

#[test]
fn code_block_keeps_indentation() {
    let o = opts(80, 80);
    let node = MdNode::Code(None, "fn f() {\n    let x = 1;\n}".to_string());
    let out = render(&node, &o);
    let body: Vec<String> = out.lines().map(strip_ansi).collect();
    assert_eq!(body[1], "\u{2502} fn f() {");
    assert_eq!(body[2], "\u{2502}     let x = 1;");
    assert_eq!(body[3], "\u{2502} }");
}

#[test]
fn document_lines_treat_crlf_as_one_break() {
    let doc = MdDocument::new(MdNode::Text("a\r\nb".to_string()));
    let o = opts(80, 80);
    assert_eq!(doc.render(&o), vec!["a".to_string(), "b".to_string()]);
}

#[test]
fn escape_between_spaces_is_no_break_point() {
    // An escape sequence standing alone between spaces is part of the
    // separator, not a zero-width word: break positions match those of
    // the stripped text exactly.
    let o = opts(1, 80);
    let styled = o.wrap("x \u{1b}[3m y");
    assert_eq!(strip_ansi(&styled), o.wrap("x  y"));
    assert_eq!(styled, "x\u{1b}[3m\ny");
}

#[test]
fn styled_space_in_paragraph_wraps_like_plain() {
    let o = opts(1, 80);
    let node = MdNode::Paragraph(vec![
        text("a "),
        MdNode::InlineCode(" ".to_string()),
        text(" b"),
    ]);
    let styled = render(&node, &o);
    assert_eq!(strip_ansi(&styled), "a\nb\n");
    assert_eq!(strip_ansi(&styled), format!("{}\n", o.wrap("a    b")));
}

#[test]
fn escapes_always_pass_through() {
    // Escape characters survive every form of separator dropping:
    // alone, leading, and trailing.
    let o = opts(10, 80);
    assert_eq!(o.wrap("\u{1b}[3m"), "\u{1b}[3m");
    assert_eq!(o.wrap("a \u{1b}[3m"), "a\u{1b}[3m");
    assert_eq!(
        o.wrap("\u{1b}[3mx y\u{1b}[0m"),
        "\u{1b}[3mx y\u{1b}[0m"
    );
}

#[test]
fn overflowing_leading_spaces_are_dropped() {
    // Leading spaces that would push the first word past the limit are
    // dropped, keeping the width bound; fitting ones stay.
    let o = opts(2, 80);
    assert_eq!(o.wrap(" ab"), "ab");
    assert_eq!(o.wrap(" a"), " a");
}

#[test]
fn break_inside_paragraph_is_a_hard_break() {
    let o = opts(80, 80);
    let node = MdNode::Paragraph(vec![text("a"), MdNode::Break, text("b")]);
    assert_eq!(render(&node, &o), "a\nb\n");
}

#[test]
fn nested_inline_styles() {
    let o = opts(80, 80);
    let node = MdNode::Strong(vec![MdNode::Emphasis(vec![text("x")])]);
    assert_eq!(render(&node, &o), "\u{1b}[1m\u{1b}[3mx\u{1b}[0m\u{1b}[0m");
}

#[test]
fn long_word_stands_alone() {
    // A word wider than the limit is never broken inside: it stands on
    // its own line.
    let o = opts(4, 80);
    assert_eq!(o.wrap("aa extraordinary bb"), "aa\nextraordinary\nbb");
}
