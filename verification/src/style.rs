//! The style registry: a fixed mapping from semantic roles to terminal
//! text styles, and the application of a style to a run of text as an
//! in-band ANSI escape sequence (SGR prefix, text, reset suffix).
use vstd::prelude::*;
use crate::text::append_chars;

verus! {

/// A terminal foreground/background color, restricted to the palette the
/// default registry uses.
#[derive(Clone, Copy, Debug)]
pub enum TermColor {
    Purple,
    Blue,
    LightRed,
    DarkGray,
}

/// A terminal text style: optional foreground and background colors and
/// the bold / italic / underline attributes.
#[derive(Clone, Copy, Debug)]
pub struct TextStyle {
    pub fg: Option<TermColor>,
    pub bg: Option<TermColor>,
    pub bold: bool,
    pub italic: bool,
    pub underline: bool,
}

/// The SGR code digits selecting `c` as the foreground color.
pub open spec fn fg_code(c: TermColor) -> Seq<char> {
    match c {
        TermColor::Purple => seq!['3', '5'],
        TermColor::Blue => seq!['3', '4'],
        TermColor::LightRed => seq!['9', '1'],
        TermColor::DarkGray => seq!['9', '0'],
    }
}

/// The SGR code digits selecting `c` as the background color.
pub open spec fn bg_code(c: TermColor) -> Seq<char> {
    match c {
        TermColor::Purple => seq!['4', '5'],
        TermColor::Blue => seq!['4', '4'],
        TermColor::LightRed => seq!['1', '0', '1'],
        TermColor::DarkGray => seq!['1', '0', '0'],
    }
}

/// A plain style selects nothing and paints text unchanged.
pub open spec fn is_plain(st: TextStyle) -> bool {
    !st.bold && !st.italic && !st.underline && st.fg is None && st.bg is None
}

/// The list of SGR codes a style selects: attribute codes first, then the
/// background, then the foreground.
pub open spec fn style_code_list(st: TextStyle) -> Seq<Seq<char>> {
    (if st.bold {
        seq![seq!['1']]
    } else {
        Seq::<Seq<char>>::empty()
    }) + (if st.italic {
        seq![seq!['3']]
    } else {
        Seq::<Seq<char>>::empty()
    }) + (if st.underline {
        seq![seq!['4']]
    } else {
        Seq::<Seq<char>>::empty()
    }) + (match st.bg {
        Some(c) => seq![bg_code(c)],
        None => Seq::<Seq<char>>::empty(),
    }) + (match st.fg {
        Some(c) => seq![fg_code(c)],
        None => Seq::<Seq<char>>::empty(),
    })
}

/// The given code groups joined with `;` separators.
pub open spec fn join_codes(parts: Seq<Seq<char>>) -> Seq<char>
    decreases parts.len(),
{
    if parts.len() == 0 {
        Seq::empty()
    } else if parts.len() == 1 {
        parts[0]
    } else {
        parts[0] + seq![';'] + join_codes(parts.drop_first())
    }
}

/// The escape sequence written before text painted with `st`; empty for a
/// plain style.
pub open spec fn style_prefix(st: TextStyle) -> Seq<char> {
    if is_plain(st) {
        Seq::empty()
    } else {
        seq!['\u{1b}', '['] + join_codes(style_code_list(st)) + seq!['m']
    }
}

/// The reset sequence written after text painted with `st`; empty for a
/// plain style.
pub open spec fn style_suffix(st: TextStyle) -> Seq<char> {
    if is_plain(st) {
        Seq::empty()
    } else {
        seq!['\u{1b}', '[', '0', 'm']
    }
}

/// The text `s` with the style `st` applied in-band.
pub open spec fn painted(st: TextStyle, s: Seq<char>) -> Seq<char> {
    style_prefix(st) + s + style_suffix(st)
}

proof fn lemma_join_codes_push(parts: Seq<Seq<char>>, last: Seq<char>)
    ensures
        parts.len() == 0 ==> join_codes(parts.push(last)) == last,
        parts.len() > 0 ==> join_codes(parts.push(last)) == join_codes(parts) + seq![';'] + last,
    decreases parts.len(),
{
    if parts.len() == 0 {
        assert(parts.push(last)[0] == last);
    } else {
        lemma_join_codes_push(parts.drop_first(), last);
        assert(parts.push(last).drop_first() =~= parts.drop_first().push(last));
        if parts.len() == 1 {
            assert(join_codes(parts.push(last)) == parts[0] + seq![';'] + last);
        } else {
            assert(join_codes(parts) + seq![';'] + last =~= parts[0] + seq![';'] + (join_codes(
                parts.drop_first(),
            ) + seq![';'] + last));
        }
    }
}

/// True exactly when the style selects some attribute or color.
fn style_is_styled(st: &TextStyle) -> (b: bool)
    ensures
        b == !is_plain(*st),
{
    st.bold || st.italic || st.underline || st.fg.is_some() || st.bg.is_some()
}

fn fg_code_vec(c: TermColor) -> (v: Vec<char>)
    ensures
        v@ == fg_code(c),
{
    match c {
        TermColor::Purple => vec!['3', '5'],
        TermColor::Blue => vec!['3', '4'],
        TermColor::LightRed => vec!['9', '1'],
        TermColor::DarkGray => vec!['9', '0'],
    }
}

fn bg_code_vec(c: TermColor) -> (v: Vec<char>)
    ensures
        v@ == bg_code(c),
{
    match c {
        TermColor::Purple => vec!['4', '5'],
        TermColor::Blue => vec!['4', '4'],
        TermColor::LightRed => vec!['1', '0', '1'],
        TermColor::DarkGray => vec!['1', '0', '0'],
    }
}

/// The code groups of `st`, as vectors of characters.
fn style_code_parts(st: &TextStyle) -> (parts: Vec<Vec<char>>)
    ensures
        parts@.map_values(|p: Vec<char>| p@) == style_code_list(*st),
{
    let mut parts: Vec<Vec<char>> = Vec::new();
    if st.bold {
        parts.push(vec!['1']);
    }
    if st.italic {
        parts.push(vec!['3']);
    }
    if st.underline {
        parts.push(vec!['4']);
    }
    match st.bg {
        Some(c) => parts.push(bg_code_vec(c)),
        None => (),
    }
    match st.fg {
        Some(c) => parts.push(fg_code_vec(c)),
        None => (),
    }
    assert(parts@.map_values(|p: Vec<char>| p@) =~~= style_code_list(*st));
    parts
}

/// Appends `join_codes(style_code_list(st))` to `out`.
fn append_joined_codes(out: &mut Vec<char>, st: &TextStyle)
    ensures
        final(out)@ == old(out)@ + join_codes(style_code_list(*st)),
{
    let parts = style_code_parts(st);
    let ghost views = parts@.map_values(|p: Vec<char>| p@);
    let mut i: usize = 0;
    while i < parts.len()
        invariant
            i <= parts.len(),
            views == parts@.map_values(|p: Vec<char>| p@),
            out@ == old(out)@ + join_codes(views.subrange(0, i as int)),
        decreases parts.len() - i,
    {
        if i > 0 {
            out.push(';');
        }
        append_chars(out, &parts[i]);
        proof {
            lemma_join_codes_push(views.subrange(0, i as int), views[i as int]);
            assert(views.subrange(0, i + 1) =~= views.subrange(0, i as int).push(views[i as int]));
            assert(out@ =~= old(out)@ + join_codes(views.subrange(0, i + 1)));
        }
        i += 1;
    }
    assert(views.subrange(0, parts.len() as int) =~= views);
}

/// Applies the style `st` to the characters `s`: the SGR prefix, then the
/// text, then the reset suffix (nothing is added for a plain style).
pub fn paint_chars(st: &TextStyle, s: &Vec<char>) -> (r: Vec<char>)
    ensures
        r@ == painted(*st, s@),
{
    let mut out: Vec<char> = Vec::new();
    if style_is_styled(st) {
        out.push('\u{1b}');
        out.push('[');
        append_joined_codes(&mut out, st);
        out.push('m');
        assert(out@ =~= style_prefix(*st));
    }
    append_chars(&mut out, s);
    if style_is_styled(st) {
        out.push('\u{1b}');
        out.push('[');
        out.push('0');
        out.push('m');
    }
    assert(out@ =~= painted(*st, s@));
    out
}

/// The fixed mapping from semantic roles to terminal text styles.
pub struct RenderStyles {
    pub heading_style: TextStyle,
    pub emphasis_style: TextStyle,
    pub bold_style: TextStyle,
    pub link_style: TextStyle,
    pub inline_code_style: TextStyle,
    pub code_block_border_style: TextStyle,
}

/// A style with nothing selected.
pub open spec fn plain_style() -> TextStyle {
    TextStyle { fg: None, bg: None, bold: false, italic: false, underline: false }
}

/// The registry's fixed default styles.
pub open spec fn default_styles() -> RenderStyles {
    RenderStyles {
        heading_style: TextStyle {
            fg: Some(TermColor::Purple),
            bg: None,
            bold: true,
            italic: false,
            underline: false,
        },
        emphasis_style: TextStyle { fg: None, bg: None, bold: false, italic: true, underline: false },
        bold_style: TextStyle { fg: None, bg: None, bold: true, italic: false, underline: false },
        link_style: TextStyle {
            fg: Some(TermColor::Blue),
            bg: None,
            bold: false,
            italic: false,
            underline: true,
        },
        inline_code_style: TextStyle {
            fg: Some(TermColor::LightRed),
            bg: Some(TermColor::DarkGray),
            bold: false,
            italic: false,
            underline: false,
        },
        code_block_border_style: TextStyle {
            fg: Some(TermColor::LightRed),
            bg: None,
            bold: false,
            italic: false,
            underline: false,
        },
    }
}

impl Default for RenderStyles {
    /// The fixed default registry: purple bold headings, italic emphasis,
    /// bold strong text, blue underlined links, light-red-on-gray inline
    /// code, and light red code-block borders.
    fn default() -> (r: RenderStyles)
        ensures
            r == default_styles(),
    {
        RenderStyles {
            heading_style: TextStyle {
                fg: Some(TermColor::Purple),
                bg: None,
                bold: true,
                italic: false,
                underline: false,
            },
            emphasis_style: TextStyle {
                fg: None,
                bg: None,
                bold: false,
                italic: true,
                underline: false,
            },
            bold_style: TextStyle {
                fg: None,
                bg: None,
                bold: true,
                italic: false,
                underline: false,
            },
            link_style: TextStyle {
                fg: Some(TermColor::Blue),
                bg: None,
                bold: false,
                italic: false,
                underline: true,
            },
            inline_code_style: TextStyle {
                fg: Some(TermColor::LightRed),
                bg: Some(TermColor::DarkGray),
                bold: false,
                italic: false,
                underline: false,
            },
            code_block_border_style: TextStyle {
                fg: Some(TermColor::LightRed),
                bg: None,
                bold: false,
                italic: false,
                underline: false,
            },
        }
    }
}

} // verus!
