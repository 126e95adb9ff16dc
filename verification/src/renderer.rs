//! The render engine: the recursive transformation from a document tree
//! to a single styled, width-wrapped output string, together with the
//! render options that parameterize it.
use vstd::prelude::*;
use vstd::string::StrSliceExecFns;
use crate::node::MdNode;
use crate::style::{RenderStyles, default_styles, painted, paint_chars};
use crate::text::{append_chars, chars_to_string, repeat_char, str_to_chars};
use crate::wrap::{wrap_chars, wrap_spec};

verus! {

/// Immutable configuration for one render: the configured wrap width,
/// the ambient terminal width (used by block quotes and code blocks),
/// and the style registry.
pub struct RenderOptions {
    pub width: usize,
    pub term_width: usize,
    pub styles: RenderStyles,
}

/// The widest line the configured width may resolve to.
pub const MAX_RENDER_WIDTH: usize = 120;

impl RenderOptions {
    /// Options resolved from the ambient terminal width: the wrap width
    /// is that width capped at `MAX_RENDER_WIDTH` columns, and the styles
    /// are the default registry.
    pub fn with_term_width(term_width: usize) -> (r: RenderOptions)
        ensures
            r.term_width == term_width,
            term_width <= MAX_RENDER_WIDTH ==> r.width == term_width,
            term_width > MAX_RENDER_WIDTH ==> r.width == MAX_RENDER_WIDTH,
            r.styles == default_styles(),
    {
        let width = if term_width < MAX_RENDER_WIDTH {
            term_width
        } else {
            MAX_RENDER_WIDTH
        };
        RenderOptions { width, term_width, styles: RenderStyles::default() }
    }

    /// Wraps `s` at the configured width, with no indent prefixes.
    pub fn wrap(&self, s: &str) -> (r: String)
        ensures
            r@ == wrap_spec(s@, self.width as int, Seq::empty(), Seq::empty()),
    {
        let chars = str_to_chars(s);
        let empty: Vec<char> = Vec::new();
        let out = wrap_chars(&chars, self.width, &empty, &empty);
        chars_to_string(&out)
    }
}

/// The indent prefixed to every line of a block quote.
pub open spec fn quote_indent() -> Seq<char> {
    seq!['\u{258e}', ' ']
}

/// The glyph opening a code block frame.
pub open spec fn code_top_glyph() -> char {
    '\u{256d}'
}

/// The glyph closing a code block frame.
pub open spec fn code_bottom_glyph() -> char {
    '\u{2570}'
}

/// The bar glyph prefixed to each code block body line.
pub open spec fn code_bar_glyph() -> char {
    '\u{2502}'
}

/// What `render` returns for `node` under the options `o`, by node kind:
/// - `Root`: the children's renderings joined with single newlines;
/// - `Heading`: `depth` `#` characters, a space and the inline children,
///   styled as a heading, wrapped at the configured width, plus a newline;
/// - `Paragraph`: the inline children wrapped at the configured width,
///   plus a newline;
/// - `Text`: the literal value, unchanged;
/// - `Emphasis` / `Strong`: the inline children styled, unwrapped;
/// - `Break`: a single newline;
/// - `BlockQuote`: the children wrapped at the ambient terminal width
///   with the quote indent on every line, plus a newline;
/// - `InlineCode`: the literal value styled as inline code;
/// - `Code`: a framed block: a border-styled opening glyph, a space and
///   the bold language label; the literal value wrapped at the ambient
///   terminal width with a border-styled bar prefix on every line; a
///   border-styled closing glyph; each part on its own line;
/// - `Link`: only the URL, styled as a link (the label is discarded);
/// - any other kind: the empty string.
pub open spec fn render_spec(node: MdNode, o: RenderOptions) -> Seq<char>
    decreases node, 0int,
{
    match node {
        MdNode::Root(children) => render_nodes_spec(children@, 0, seq!['\n'], o),
        MdNode::Heading(depth, children) => heading_spec(
            depth,
            render_nodes_spec(children@, 0, Seq::empty(), o),
            o,
        ),
        MdNode::Paragraph(children) => paragraph_spec(
            render_nodes_spec(children@, 0, Seq::empty(), o),
            o,
        ),
        MdNode::Text(value) => value@,
        MdNode::Emphasis(children) => painted(
            o.styles.emphasis_style,
            render_nodes_spec(children@, 0, Seq::empty(), o),
        ),
        MdNode::Strong(children) => painted(
            o.styles.bold_style,
            render_nodes_spec(children@, 0, Seq::empty(), o),
        ),
        MdNode::Break => seq!['\n'],
        MdNode::BlockQuote(children) => blockquote_spec(
            render_nodes_spec(children@, 0, Seq::empty(), o),
            o,
        ),
        MdNode::InlineCode(value) => painted(o.styles.inline_code_style, value@),
        MdNode::Code(lang, value) => code_spec(
            match lang {
                Some(l) => l@,
                None => Seq::empty(),
            },
            value@,
            o,
        ),
        MdNode::Link(url, _children) => painted(o.styles.link_style, url@),
        MdNode::Unsupported => Seq::empty(),
    }
}

/// A heading over already-rendered inline content.
pub open spec fn heading_spec(depth: u8, content: Seq<char>, o: RenderOptions) -> Seq<char> {
    let line = Seq::new(depth as nat, |k: int| '#') + seq![' '] + content;
    let styled = painted(o.styles.heading_style, line);
    wrap_spec(styled, o.width as int, Seq::empty(), Seq::empty()) + seq!['\n']
}

/// A paragraph over already-rendered inline content.
pub open spec fn paragraph_spec(content: Seq<char>, o: RenderOptions) -> Seq<char> {
    wrap_spec(content, o.width as int, Seq::empty(), Seq::empty()) + seq!['\n']
}

/// A block quote over already-rendered content.
pub open spec fn blockquote_spec(content: Seq<char>, o: RenderOptions) -> Seq<char> {
    wrap_spec(content, o.term_width as int, quote_indent(), quote_indent()) + seq!['\n']
}

/// A framed code block over the language label and the literal value.
pub open spec fn code_spec(label: Seq<char>, value: Seq<char>, o: RenderOptions) -> Seq<char> {
    let border = painted(o.styles.code_block_border_style, seq![code_bar_glyph(), ' ']);
    painted(o.styles.code_block_border_style, seq![code_top_glyph()]) + seq![' '] + painted(
        o.styles.bold_style,
        label,
    ) + seq!['\n'] + wrap_spec(value, o.term_width as int, border, border) + seq!['\n'] + painted(
        o.styles.code_block_border_style,
        seq![code_bottom_glyph()],
    ) + seq!['\n']
}

/// The renderings of `nodes[i..]`, joined with `sep`.
pub open spec fn render_nodes_spec(nodes: Seq<MdNode>, i: int, sep: Seq<char>, o: RenderOptions) -> Seq<
    char,
>
    decreases nodes, nodes.len() - i,
{
    if i < 0 || i >= nodes.len() {
        Seq::empty()
    } else if i == nodes.len() - 1 {
        render_spec(nodes[i], o)
    } else {
        render_spec(nodes[i], o) + sep + render_nodes_spec(nodes, i + 1, sep, o)
    }
}

/// Renders `node` under the options `opt`, appending to `out`.
fn render_into(out: &mut Vec<char>, node: &MdNode, opt: &RenderOptions)
    ensures
        final(out)@ == old(out)@ + render_spec(*node, *opt),
    decreases *node, 0int,
{
    match node {
        MdNode::Root(children) => {
            let sep = vec!['\n'];
            assert(sep@ =~= seq!['\n']);
            render_nodes_into(out, children, &sep, opt);
        },
        MdNode::Heading(depth, children) => {
            let mut content: Vec<char> = Vec::new();
            let sep: Vec<char> = Vec::new();
            render_nodes_into(&mut content, children, &sep, opt);
            heading_into(out, *depth, &content, opt);
        },
        MdNode::Paragraph(children) => {
            let mut content: Vec<char> = Vec::new();
            let sep: Vec<char> = Vec::new();
            render_nodes_into(&mut content, children, &sep, opt);
            paragraph_into(out, &content, opt);
        },
        MdNode::Text(value) => {
            let chars = str_to_chars(value.as_str());
            append_chars(out, &chars);
            assert(out@ =~= old(out)@ + render_spec(*node, *opt));
        },
        MdNode::Emphasis(children) => {
            let mut content: Vec<char> = Vec::new();
            let sep: Vec<char> = Vec::new();
            render_nodes_into(&mut content, children, &sep, opt);
            let styled = paint_chars(&opt.styles.emphasis_style, &content);
            append_chars(out, &styled);
            assert(out@ =~= old(out)@ + render_spec(*node, *opt));
        },
        MdNode::Strong(children) => {
            let mut content: Vec<char> = Vec::new();
            let sep: Vec<char> = Vec::new();
            render_nodes_into(&mut content, children, &sep, opt);
            let styled = paint_chars(&opt.styles.bold_style, &content);
            append_chars(out, &styled);
            assert(out@ =~= old(out)@ + render_spec(*node, *opt));
        },
        MdNode::Break => {
            out.push('\n');
            assert(out@ =~= old(out)@ + render_spec(*node, *opt));
        },
        MdNode::BlockQuote(children) => {
            let mut content: Vec<char> = Vec::new();
            let sep: Vec<char> = Vec::new();
            render_nodes_into(&mut content, children, &sep, opt);
            blockquote_into(out, &content, opt);
        },
        MdNode::InlineCode(value) => {
            let chars = str_to_chars(value.as_str());
            let styled = paint_chars(&opt.styles.inline_code_style, &chars);
            append_chars(out, &styled);
            assert(out@ =~= old(out)@ + render_spec(*node, *opt));
        },
        MdNode::Code(lang, value) => {
            let label: Vec<char> = match lang {
                Some(l) => str_to_chars(l.as_str()),
                None => Vec::new(),
            };
            let value_chars = str_to_chars(value.as_str());
            code_into(out, &label, &value_chars, opt);
            assert(out@ =~= old(out)@ + render_spec(*node, *opt));
        },
        MdNode::Link(url, _children) => {
            let chars = str_to_chars(url.as_str());
            let styled = paint_chars(&opt.styles.link_style, &chars);
            append_chars(out, &styled);
            assert(out@ =~= old(out)@ + render_spec(*node, *opt));
        },
        MdNode::Unsupported => {
            assert(out@ =~= old(out)@ + render_spec(*node, *opt));
        },
    }
}

/// Appends a heading built from already-rendered inline content.
fn heading_into(out: &mut Vec<char>, depth: u8, content: &Vec<char>, opt: &RenderOptions)
    ensures
        final(out)@ == old(out)@ + heading_spec(depth, content@, *opt),
{
    let mut line = repeat_char('#', depth as usize);
    line.push(' ');
    append_chars(&mut line, content);
    assert(line@ =~= Seq::new(depth as nat, |k: int| '#') + seq![' '] + content@);
    let styled = paint_chars(&opt.styles.heading_style, &line);
    let empty: Vec<char> = Vec::new();
    let wrapped = wrap_chars(&styled, opt.width, &empty, &empty);
    append_chars(out, &wrapped);
    out.push('\n');
    assert(out@ =~= old(out)@ + heading_spec(depth, content@, *opt));
}

/// Appends a paragraph built from already-rendered inline content.
fn paragraph_into(out: &mut Vec<char>, content: &Vec<char>, opt: &RenderOptions)
    ensures
        final(out)@ == old(out)@ + paragraph_spec(content@, *opt),
{
    let empty: Vec<char> = Vec::new();
    let wrapped = wrap_chars(content, opt.width, &empty, &empty);
    append_chars(out, &wrapped);
    out.push('\n');
    assert(out@ =~= old(out)@ + paragraph_spec(content@, *opt));
}

/// Appends a block quote built from already-rendered content.
fn blockquote_into(out: &mut Vec<char>, content: &Vec<char>, opt: &RenderOptions)
    ensures
        final(out)@ == old(out)@ + blockquote_spec(content@, *opt),
{
    let indent = vec!['\u{258e}', ' '];
    assert(indent@ =~= quote_indent());
    let wrapped = wrap_chars(content, opt.term_width, &indent, &indent);
    append_chars(out, &wrapped);
    out.push('\n');
    assert(out@ =~= old(out)@ + blockquote_spec(content@, *opt));
}

/// Appends a framed code block from its language label and literal value.
fn code_into(out: &mut Vec<char>, label: &Vec<char>, value: &Vec<char>, opt: &RenderOptions)
    ensures
        final(out)@ == old(out)@ + code_spec(label@, value@, *opt),
{
    let top = vec!['\u{256d}'];
    let styled_top = paint_chars(&opt.styles.code_block_border_style, &top);
    append_chars(out, &styled_top);
    out.push(' ');
    let styled_label = paint_chars(&opt.styles.bold_style, label);
    append_chars(out, &styled_label);
    out.push('\n');
    let bar = vec!['\u{2502}', ' '];
    assert(bar@ =~= seq![code_bar_glyph(), ' ']);
    let border = paint_chars(&opt.styles.code_block_border_style, &bar);
    let wrapped = wrap_chars(value, opt.term_width, &border, &border);
    append_chars(out, &wrapped);
    out.push('\n');
    let bottom = vec!['\u{2570}'];
    let styled_bottom = paint_chars(&opt.styles.code_block_border_style, &bottom);
    append_chars(out, &styled_bottom);
    out.push('\n');
    assert(top@ =~= seq![code_top_glyph()]);
    assert(bottom@ =~= seq![code_bottom_glyph()]);
    assert(out@ =~= old(out)@ + code_spec(label@, value@, *opt));
}

/// Renders every node of `nodes` into `out`, joined with `sep`.
fn render_nodes_into(out: &mut Vec<char>, nodes: &Vec<MdNode>, sep: &Vec<char>, opt: &RenderOptions)
    ensures
        final(out)@ == old(out)@ + render_nodes_spec(nodes@, 0, sep@, *opt),
    decreases nodes@, nodes@.len(),
{
    let mut i: usize = 0;
    while i < nodes.len()
        invariant
            i <= nodes.len(),
            out@ + render_nodes_spec(nodes@, i as int, sep@, *opt) == old(out)@ + render_nodes_spec(
                nodes@,
                0,
                sep@,
                *opt,
            ),
        decreases nodes@.len() - i,
    {
        render_into(out, &nodes[i], opt);
        if i + 1 < nodes.len() {
            append_chars(out, sep);
        }
        i += 1;
    }
    assert(out@ =~= old(out)@ + render_nodes_spec(nodes@, 0, sep@, *opt));
}

/// Renders the document tree rooted at `node` to a single string.
pub fn render(node: &MdNode, opt: &RenderOptions) -> (r: String)
    ensures
        r@ == render_spec(*node, *opt),
{
    let mut out: Vec<char> = Vec::new();
    render_into(&mut out, node, opt);
    chars_to_string(&out)
}

/// Renders the nodes `nodes`, joined with the separator `sep`.
pub fn render_nodes(nodes: &Vec<MdNode>, sep: &str, opt: &RenderOptions) -> (r: String)
    ensures
        r@ == render_nodes_spec(nodes@, 0, sep@, *opt),
{
    let mut out: Vec<char> = Vec::new();
    let sep_chars = str_to_chars(sep);
    render_nodes_into(&mut out, nodes, &sep_chars, opt);
    chars_to_string(&out)
}

/// Renders a heading of the given depth over its inline children.
pub fn render_heading(depth: u8, children: &Vec<MdNode>, opt: &RenderOptions) -> (r: String)
    ensures
        r@ == render_spec(MdNode::Heading(depth, *children), *opt),
{
    let mut content: Vec<char> = Vec::new();
    let sep: Vec<char> = Vec::new();
    render_nodes_into(&mut content, children, &sep, opt);
    let mut out: Vec<char> = Vec::new();
    heading_into(&mut out, depth, &content, opt);
    chars_to_string(&out)
}

/// Renders a paragraph over its inline children.
pub fn render_paragraph(children: &Vec<MdNode>, opt: &RenderOptions) -> (r: String)
    ensures
        r@ == render_spec(MdNode::Paragraph(*children), *opt),
{
    let mut content: Vec<char> = Vec::new();
    let sep: Vec<char> = Vec::new();
    render_nodes_into(&mut content, children, &sep, opt);
    let mut out: Vec<char> = Vec::new();
    paragraph_into(&mut out, &content, opt);
    chars_to_string(&out)
}

/// Renders a text node: the literal value, unchanged.
pub fn render_text(value: &str, _opt: &RenderOptions) -> (r: String)
    ensures
        r@ == value@,
{
    let chars = str_to_chars(value);
    chars_to_string(&chars)
}

/// Renders emphasized inline children.
pub fn render_emphasis(children: &Vec<MdNode>, opt: &RenderOptions) -> (r: String)
    ensures
        r@ == render_spec(MdNode::Emphasis(*children), *opt),
{
    let mut content: Vec<char> = Vec::new();
    let sep: Vec<char> = Vec::new();
    render_nodes_into(&mut content, children, &sep, opt);
    let styled = paint_chars(&opt.styles.emphasis_style, &content);
    chars_to_string(&styled)
}

/// Renders strongly emphasized inline children.
pub fn render_strong(children: &Vec<MdNode>, opt: &RenderOptions) -> (r: String)
    ensures
        r@ == render_spec(MdNode::Strong(*children), *opt),
{
    let mut content: Vec<char> = Vec::new();
    let sep: Vec<char> = Vec::new();
    render_nodes_into(&mut content, children, &sep, opt);
    let styled = paint_chars(&opt.styles.bold_style, &content);
    chars_to_string(&styled)
}

/// Renders an inline code span.
pub fn render_inline_code(value: &str, opt: &RenderOptions) -> (r: String)
    ensures
        r@ == painted(opt.styles.inline_code_style, value@),
{
    let chars = str_to_chars(value);
    let styled = paint_chars(&opt.styles.inline_code_style, &chars);
    chars_to_string(&styled)
}

/// Renders a block quote over its children.
pub fn render_blockquote(children: &Vec<MdNode>, opt: &RenderOptions) -> (r: String)
    ensures
        r@ == render_spec(MdNode::BlockQuote(*children), *opt),
{
    let mut content: Vec<char> = Vec::new();
    let sep: Vec<char> = Vec::new();
    render_nodes_into(&mut content, children, &sep, opt);
    let mut out: Vec<char> = Vec::new();
    blockquote_into(&mut out, &content, opt);
    chars_to_string(&out)
}

/// Renders a fenced code block from its language label and value.
pub fn render_code(lang: &Option<String>, value: &str, opt: &RenderOptions) -> (r: String)
    ensures
        r@ == code_spec(
            match *lang {
                Some(l) => l@,
                None => Seq::empty(),
            },
            value@,
            *opt,
        ),
{
    let label: Vec<char> = match lang {
        Some(l) => str_to_chars(l.as_str()),
        None => Vec::new(),
    };
    let value_chars = str_to_chars(value);
    let mut out: Vec<char> = Vec::new();
    code_into(&mut out, &label, &value_chars, opt);
    chars_to_string(&out)
}

/// Renders a link: only the styled URL; the label children are discarded.
pub fn render_link(url: &str, opt: &RenderOptions) -> (r: String)
    ensures
        r@ == painted(opt.styles.link_style, url@),
{
    let chars = str_to_chars(url);
    let styled = paint_chars(&opt.styles.link_style, &chars);
    chars_to_string(&styled)
}

} // verus!
