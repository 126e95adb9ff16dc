//! The text wrapper: greedy word wrapping to a display-column limit, with
//! optional per-line indent prefixes. Non-printing ANSI escape sequences
//! (from ESC up to the terminating `m`) count as zero display width and
//! never make a break point of their own: a run of spaces with escape
//! sequences among them is one separator, so styled text wraps exactly
//! like its unstyled equivalent. Whitespace is kept as it stands within a
//! line; where a separator is dropped — at a break the wrapper inserts,
//! right before a hard newline, at the end of the text, or leading a line
//! it would overflow — its spaces go but its escape characters still pass
//! through.
use vstd::prelude::*;
use crate::text::append_chars;

verus! {

/// Characters at which a line may be broken: a space (soft) or an
/// existing newline (hard).
pub open spec fn is_break_char(c: char) -> bool {
    c == ' ' || c == '\n'
}

/// The characters of `s` from position `i` on with every escape sequence
/// removed; `in_esc` says whether position `i` lies inside one. An escape
/// sequence runs from an ESC character up to and including the next `m`.
pub open spec fn strip_from(s: Seq<char>, i: int, in_esc: bool) -> Seq<char>
    decreases s.len() - i,
{
    if i < 0 || i >= s.len() {
        Seq::empty()
    } else if in_esc {
        strip_from(s, i + 1, s[i] != 'm')
    } else if s[i] == '\u{1b}' {
        strip_from(s, i + 1, true)
    } else {
        seq![s[i]] + strip_from(s, i + 1, false)
    }
}

/// `s` with every escape sequence removed: what the terminal prints.
pub open spec fn stripped(s: Seq<char>) -> Seq<char> {
    strip_from(s, 0, false)
}

/// The characters of `s` from position `i` on that belong to escape
/// sequences: what `strip_from` removes.
pub open spec fn invisible_from(s: Seq<char>, i: int, in_esc: bool) -> Seq<char>
    decreases s.len() - i,
{
    if i < 0 || i >= s.len() {
        Seq::empty()
    } else if in_esc {
        seq![s[i]] + invisible_from(s, i + 1, s[i] != 'm')
    } else if s[i] == '\u{1b}' {
        seq![s[i]] + invisible_from(s, i + 1, true)
    } else {
        invisible_from(s, i + 1, false)
    }
}

/// The escape-sequence characters of `s`: what stripping removes.
pub open spec fn invisible(s: Seq<char>) -> Seq<char> {
    invisible_from(s, 0, false)
}

/// The display width of `s`: each printed character counts as one
/// column and escape sequences contribute zero. (Characters that a
/// terminal draws two columns wide are still counted once: the measure
/// is printed characters, not exact terminal columns.)
pub open spec fn visible_width(s: Seq<char>) -> int {
    stripped(s).len() as int
}

/// The position of the first break character at or after `i`, or the end
/// of `s`.
pub open spec fn word_end(s: Seq<char>, i: int) -> int
    decreases s.len() - i,
{
    if i < 0 || i >= s.len() {
        s.len() as int
    } else if is_break_char(s[i]) {
        i
    } else {
        word_end(s, i + 1)
    }
}

pub proof fn lemma_word_end_bounds(s: Seq<char>, i: int)
    requires
        0 <= i <= s.len(),
    ensures
        i <= word_end(s, i) <= s.len(),
        i < s.len() && !is_break_char(s[i]) ==> i < word_end(s, i),
        forall|k: int| i <= k < word_end(s, i) ==> !is_break_char(s[k]),
        word_end(s, i) < s.len() ==> is_break_char(s[word_end(s, i)]),
    decreases s.len() - i,
{
    if i < s.len() && !is_break_char(s[i]) {
        lemma_word_end_bounds(s, i + 1);
    }
}

/// The end of the separator region at `i`: spaces and zero-width runs of
/// non-break characters (escape sequences) in any order. The region ends
/// at a newline, at the end of `s`, or before a run of non-break
/// characters with positive visible width — a word.
pub open spec fn sep_end(s: Seq<char>, i: int) -> int
    decreases s.len() - i,
{
    if i < 0 || i >= s.len() {
        s.len() as int
    } else if s[i] == ' ' {
        sep_end(s, i + 1)
    } else if s[i] == '\n' {
        i
    } else {
        let j = word_end(s, i);
        proof {
            lemma_word_end_bounds(s, i);
        }
        if visible_width(s.subrange(i, j)) == 0 {
            sep_end(s, j)
        } else {
            i
        }
    }
}

pub proof fn lemma_sep_end_bounds(s: Seq<char>, i: int)
    requires
        0 <= i <= s.len(),
    ensures
        i <= sep_end(s, i) <= s.len(),
        i < s.len() && s[i] == ' ' ==> i < sep_end(s, i),
        sep_end(s, i) < s.len() ==> s[sep_end(s, i)] == '\n' || (!is_break_char(s[sep_end(s, i)])
            && visible_width(s.subrange(sep_end(s, i), word_end(s, sep_end(s, i)))) > 0),
        sep_end(s, i) == i ==> i == s.len() || s[i] == '\n' || !is_break_char(s[i]),
    decreases s.len() - i,
{
    if i < s.len() {
        if s[i] == ' ' {
            lemma_sep_end_bounds(s, i + 1);
        } else if s[i] != '\n' {
            lemma_word_end_bounds(s, i);
            let j = word_end(s, i);
            if visible_width(s.subrange(i, j)) == 0 {
                lemma_sep_end_bounds(s, j);
            }
        }
    }
}

/// The wrapped form of `s` from position `i` on. `limit` is the column
/// limit, `ind` the indent prefixed to every further output line, `cur`
/// the visible width already on the current output line, and `has_word`
/// whether a word already stands on it. A newline always breaks. A
/// separator region before a word passes through when the word fits
/// after it; otherwise its spaces are dropped — replaced by a break and
/// the indent where a word already stands on the line, or by nothing at
/// the head of a line — while its escape characters always pass through,
/// as does a separator ending its line. A word is never broken inside.
pub open spec fn wrap_from(
    s: Seq<char>,
    i: int,
    limit: int,
    ind: Seq<char>,
    cur: int,
    has_word: bool,
) -> Seq<char>
    decreases s.len() - i,
{
    if i < 0 || i >= s.len() {
        Seq::empty()
    } else if s[i] == '\n' {
        seq!['\n'] + ind + wrap_from(s, i + 1, limit, ind, visible_width(ind), false)
    } else {
        let k = sep_end(s, i);
        let sep = s.subrange(i, k);
        proof {
            lemma_sep_end_bounds(s, i);
            lemma_word_end_bounds(s, k);
        }
        if k >= s.len() || s[k] == '\n' {
            invisible(sep) + wrap_from(s, k, limit, ind, cur, has_word)
        } else {
            let j = word_end(s, k);
            let w = s.subrange(k, j);
            if cur + visible_width(sep) + visible_width(w) <= limit {
                sep + w + wrap_from(s, j, limit, ind, cur + visible_width(sep) + visible_width(w), true)
            } else if !has_word {
                invisible(sep) + w + wrap_from(s, j, limit, ind, cur + visible_width(w), true)
            } else {
                invisible(sep) + seq!['\n'] + ind + w + wrap_from(
                    s,
                    j,
                    limit,
                    ind,
                    visible_width(ind) + visible_width(w),
                    true,
                )
            }
        }
    }
}

/// The wrapped form of `text` at column limit `limit`: `first_ind` is
/// prefixed to the first output line and `rest_ind` to every further one.
pub open spec fn wrap_spec(
    text: Seq<char>,
    limit: int,
    first_ind: Seq<char>,
    rest_ind: Seq<char>,
) -> Seq<char> {
    first_ind + wrap_from(text, 0, limit, rest_ind, visible_width(first_ind), false)
}

/// Counts the display columns of `v`: characters outside escape
/// sequences.
pub fn visible_count(v: &Vec<char>) -> (n: usize)
    ensures
        n as int == visible_width(v@),
{
    let mut n: usize = 0;
    let mut i: usize = 0;
    let mut in_esc = false;
    while i < v.len()
        invariant
            i <= v.len(),
            n <= i,
            n + strip_from(v@, i as int, in_esc).len() == stripped(v@).len(),
        decreases v.len() - i,
    {
        let c = v[i];
        if in_esc {
            in_esc = c != 'm';
        } else if c == '\u{1b}' {
            in_esc = true;
        } else {
            n += 1;
        }
        i += 1;
    }
    n
}

/// Copies `text[from..to]` into a fresh vector.
fn copy_range(text: &Vec<char>, from: usize, to: usize) -> (r: Vec<char>)
    requires
        from <= to <= text@.len(),
    ensures
        r@ == text@.subrange(from as int, to as int),
{
    let mut r: Vec<char> = Vec::new();
    let mut k: usize = from;
    while k < to
        invariant
            from <= k <= to <= text@.len(),
            r@ == text@.subrange(from as int, k as int),
        decreases to - k,
    {
        r.push(text[k]);
        assert(text@.subrange(from as int, k + 1) =~= text@.subrange(from as int, k as int).push(
            text@[k as int],
        ));
        k += 1;
    }
    r
}

/// Appends the escape-sequence characters of `src` to `out`.
fn append_invisible(out: &mut Vec<char>, src: &Vec<char>)
    ensures
        final(out)@ == old(out)@ + invisible(src@),
{
    let mut i: usize = 0;
    let mut in_esc = false;
    while i < src.len()
        invariant
            i <= src.len(),
            out@ + invisible_from(src@, i as int, in_esc) == old(out)@ + invisible(src@),
        decreases src.len() - i,
    {
        let c = src[i];
        if in_esc {
            out.push(c);
            in_esc = c != 'm';
        } else if c == '\u{1b}' {
            out.push(c);
            in_esc = true;
        }
        i += 1;
    }
}

/// Finds the end of the separator region at `i`: past spaces and runs of
/// non-break characters without visible width.
fn scan_sep_end(text: &Vec<char>, i: usize) -> (k: usize)
    requires
        i <= text@.len(),
    ensures
        k as int == sep_end(text@, i as int),
        i <= k <= text@.len(),
{
    let mut k: usize = i;
    proof {
        lemma_sep_end_bounds(text@, i as int);
    }
    loop
        invariant
            i <= k <= text@.len(),
            sep_end(text@, i as int) == sep_end(text@, k as int),
        decreases text@.len() - k,
    {
        proof {
            lemma_sep_end_bounds(text@, k as int);
        }
        if k == text.len() || text[k] == '\n' {
            return k;
        }
        if text[k] == ' ' {
            k = k + 1;
        } else {
            let j = scan_word_end(text, k);
            let w = copy_range(text, k, j);
            let vis_w = visible_count(&w);
            if vis_w == 0 {
                proof {
                    lemma_word_end_bounds(text@, k as int);
                }
                k = j;
            } else {
                return k;
            }
        }
    }
}

/// Finds the end of the word at `i`: the first break character after it.
fn scan_word_end(text: &Vec<char>, i: usize) -> (j: usize)
    requires
        i <= text@.len(),
    ensures
        j as int == word_end(text@, i as int),
        i <= j <= text@.len(),
{
    let mut j: usize = i;
    proof {
        lemma_word_end_bounds(text@, i as int);
    }
    while j < text.len() && text[j] != ' ' && text[j] != '\n'
        invariant
            i <= j <= text@.len(),
            word_end(text@, i as int) == word_end(text@, j as int),
        decreases text@.len() - j,
    {
        proof {
            lemma_word_end_bounds(text@, j as int);
        }
        j += 1;
    }
    j
}

/// Wraps the characters of `text` at column limit `limit`, prefixing
/// `first_ind` to the first output line and `rest_ind` to every further
/// one.
pub fn wrap_chars(text: &Vec<char>, limit: usize, first_ind: &Vec<char>, rest_ind: &Vec<char>) -> (r:
    Vec<char>)
    ensures
        r@ == wrap_spec(text@, limit as int, first_ind@, rest_ind@),
{
    let mut out: Vec<char> = Vec::new();
    append_chars(&mut out, first_ind);
    let ind_vis = visible_count(rest_ind);
    let first_vis = visible_count(first_ind);
    // `cur` mirrors the spec's running width while it fits in usize;
    // once the width passed `limit` only that fact matters, and `over`
    // records it.
    let ghost mut cur: int = first_vis as int;
    let mut cur_e: usize = 0;
    let mut over = false;
    if first_vis <= limit {
        cur_e = first_vis;
    } else {
        over = true;
    }
    let mut has_word = false;
    let mut i: usize = 0;
    while i < text.len()
        invariant
            i <= text.len(),
            ind_vis as int == visible_width(rest_ind@),
            if cur <= limit {
                !over && cur_e as int == cur
            } else {
                over
            },
            out@ + wrap_from(text@, i as int, limit as int, rest_ind@, cur, has_word) == wrap_spec(
                text@,
                limit as int,
                first_ind@,
                rest_ind@,
            ),
        decreases text.len() - i,
    {
        let c = text[i];
        if c == '\n' {
            out.push('\n');
            append_chars(&mut out, rest_ind);
            proof {
                cur = visible_width(rest_ind@);
                assert(out@ + wrap_from(text@, i + 1, limit as int, rest_ind@, cur, false)
                    =~= wrap_spec(text@, limit as int, first_ind@, rest_ind@));
            }
            if ind_vis <= limit {
                cur_e = ind_vis;
                over = false;
            } else {
                over = true;
            }
            has_word = false;
            i += 1;
        } else {
            proof {
                lemma_sep_end_bounds(text@, i as int);
            }
            let k = scan_sep_end(text, i);
            let sep = copy_range(text, i, k);
            let vis_sep = visible_count(&sep);
            if k == text.len() || text[k] == '\n' {
                append_invisible(&mut out, &sep);
                proof {
                    assert(out@ + wrap_from(text@, k as int, limit as int, rest_ind@, cur, has_word)
                        =~= wrap_spec(text@, limit as int, first_ind@, rest_ind@));
                }
                i = k;
            } else {
                let j = scan_word_end(text, k);
                proof {
                    lemma_word_end_bounds(text@, k as int);
                }
                let w = copy_range(text, k, j);
                let vis_w = visible_count(&w);
                let fits = !over && vis_sep <= limit - cur_e && vis_w <= limit - cur_e - vis_sep;
                assert(fits == (cur + vis_sep as int + vis_w as int <= limit as int));
                if fits {
                    append_chars(&mut out, &sep);
                    append_chars(&mut out, &w);
                    proof {
                        cur = cur + vis_sep as int + vis_w as int;
                        assert(out@ + wrap_from(text@, j as int, limit as int, rest_ind@, cur, true)
                            =~= wrap_spec(text@, limit as int, first_ind@, rest_ind@));
                    }
                    cur_e = cur_e + vis_sep + vis_w;
                } else if !has_word {
                    append_invisible(&mut out, &sep);
                    append_chars(&mut out, &w);
                    proof {
                        cur = cur + vis_w as int;
                        assert(out@ + wrap_from(text@, j as int, limit as int, rest_ind@, cur, true)
                            =~= wrap_spec(text@, limit as int, first_ind@, rest_ind@));
                    }
                    if !over && vis_w <= limit && cur_e <= limit - vis_w {
                        cur_e = cur_e + vis_w;
                    } else {
                        over = true;
                        cur_e = 0;
                    }
                } else {
                    append_invisible(&mut out, &sep);
                    out.push('\n');
                    append_chars(&mut out, rest_ind);
                    append_chars(&mut out, &w);
                    proof {
                        cur = visible_width(rest_ind@) + vis_w as int;
                        assert(out@ + wrap_from(text@, j as int, limit as int, rest_ind@, cur, true)
                            =~= wrap_spec(text@, limit as int, first_ind@, rest_ind@));
                    }
                    if vis_w <= limit && ind_vis <= limit - vis_w {
                        cur_e = ind_vis + vis_w;
                        over = false;
                    } else {
                        over = true;
                        cur_e = 0;
                    }
                }
                has_word = true;
                i = j;
            }
        }
    }
    assert(out@ =~= wrap_spec(text@, limit as int, first_ind@, rest_ind@));
    out
}

} // verus!
