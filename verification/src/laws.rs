//! Global properties of the wrapper and the render engine, stated and
//! proved over the same spec functions the executable contracts use.
use vstd::prelude::*;
use crate::document::{lemma_line_break_bounds, line_break, split_lines};
use crate::node::MdNode;
use crate::renderer::{render_nodes_spec, render_spec, RenderOptions};
use crate::style::{bg_code, fg_code, is_plain, join_codes, painted, style_code_list, style_prefix, style_suffix, TermColor, TextStyle};
use crate::wrap::{
    invisible,
    invisible_from,
    is_break_char,
    lemma_sep_end_bounds,
    lemma_word_end_bounds,
    sep_end,
    strip_from,
    stripped,
    visible_width,
    word_end,
    wrap_from,
    wrap_spec,
};

verus! {

/// `s` holds no escape character at or after position `i`: it prints as
/// it is.
pub open spec fn esc_free_from(s: Seq<char>, i: int) -> bool {
    forall|k: int| i <= k < s.len() ==> s[k] != '\u{1b}'
}

/// `s` holds no escape character: plain text.
pub open spec fn esc_free(s: Seq<char>) -> bool {
    esc_free_from(s, 0)
}

/// For plain text, stripping escape sequences changes nothing: the tail
/// of `s` from `i` is its own stripped form.
proof fn lemma_strip_esc_free(s: Seq<char>, i: int)
    requires
        0 <= i <= s.len(),
        esc_free_from(s, i),
    ensures
        strip_from(s, i, false) == s.subrange(i, s.len() as int),
    decreases s.len() - i,
{
    if i < s.len() {
        lemma_strip_esc_free(s, i + 1);
        assert(strip_from(s, i, false) =~= s.subrange(i, s.len() as int));
    } else {
        assert(strip_from(s, i, false) =~= s.subrange(i, s.len() as int));
    }
}

/// Every word of `s` at or after `i` spans at most `limit` characters:
/// from any position inside a word, its end comes within `limit`.
pub open spec fn words_within(s: Seq<char>, i: int, limit: int) -> bool {
    forall|k: int|
        i <= k < s.len() && !is_break_char(s[k]) ==> word_end(s, k) - k <= limit
}

/// Every line of `out` fits in `limit` columns, counting every character
/// as one column, when the current line already holds `cur` columns.
pub open spec fn plain_lines_fit(out: Seq<char>, cur: int, limit: int) -> bool
    decreases out.len(),
{
    if out.len() == 0 {
        cur <= limit
    } else if out[0] == '\n' {
        cur <= limit && plain_lines_fit(out.drop_first(), 0, limit)
    } else {
        plain_lines_fit(out.drop_first(), cur + 1, limit)
    }
}

/// Prepending a newline-free piece `w` to `out` shifts the first line's
/// budget by `w.len()`.
proof fn lemma_plain_fit_prepend(w: Seq<char>, out: Seq<char>, cur: int, limit: int)
    requires
        forall|k: int| 0 <= k < w.len() ==> w[k] != '\n',
    ensures
        plain_lines_fit(w + out, cur, limit) == plain_lines_fit(out, cur + w.len(), limit),
    decreases w.len(),
{
    if w.len() == 0 {
        assert(w + out =~= out);
    } else {
        assert((w + out).drop_first() =~= w.drop_first() + out);
        lemma_plain_fit_prepend(w.drop_first(), out, cur + 1, limit);
    }
}

/// For plain text, there is nothing invisible to keep: the escape
/// characters of the tail of `s` from `i` are none.
proof fn lemma_invisible_esc_free(s: Seq<char>, i: int)
    requires
        0 <= i <= s.len(),
        esc_free_from(s, i),
    ensures
        invisible_from(s, i, false) == Seq::<char>::empty(),
    decreases s.len() - i,
{
    if i < s.len() {
        lemma_invisible_esc_free(s, i + 1);
    }
}

/// In plain text a separator region is a run of spaces: zero-width runs
/// of non-break characters do not exist there.
proof fn lemma_sep_esc_free(s: Seq<char>, i: int)
    requires
        0 <= i <= s.len(),
        esc_free_from(s, i),
    ensures
        forall|t: int| i <= t < sep_end(s, i) ==> s[t] == ' ',
    decreases s.len() - i,
{
    if i < s.len() {
        if s[i] == ' ' {
            lemma_sep_esc_free(s, i + 1);
        } else if s[i] != '\n' {
            lemma_word_end_bounds(s, i);
            let j = word_end(s, i);
            let w = s.subrange(i, j);
            assert(esc_free_from(w, 0));
            assert(visible_width(w) == w.len()) by {
                lemma_strip_esc_free(w, 0);
                assert(stripped(w) =~= w.subrange(0, w.len() as int));
                assert(w.subrange(0, w.len() as int) =~= w);
            }
        }
    }
}

/// Greedy wrapping of plain text whose words all fit keeps every output
/// line within `limit` columns, with no indents in play.
proof fn lemma_wrap_from_fits(s: Seq<char>, i: int, limit: int, cur: int, has_word: bool)
    requires
        0 <= i <= s.len(),
        esc_free_from(s, i),
        words_within(s, i, limit),
        has_word ==> cur <= limit,
        !has_word ==> cur == 0,
        0 <= limit,
    ensures
        plain_lines_fit(wrap_from(s, i, limit, Seq::empty(), cur, has_word), cur, limit),
    decreases s.len() - i,
{
    let e = Seq::<char>::empty();
    assert(visible_width(e) == 0) by {
        lemma_strip_esc_free(e, 0);
        assert(stripped(e) =~= e);
    }
    if i >= s.len() {
    } else if s[i] == '\n' {
        lemma_wrap_from_fits(s, i + 1, limit, 0, false);
        let rest = wrap_from(s, i + 1, limit, e, 0, false);
        assert((seq!['\n'] + e + rest).drop_first() =~= rest);
    } else {
        lemma_sep_end_bounds(s, i);
        let k = sep_end(s, i);
        let sep = s.subrange(i, k);
        lemma_sep_esc_free(s, i);
        assert(esc_free_from(sep, 0));
        lemma_invisible_esc_free(sep, 0);
        assert(invisible(sep) == e);
        assert(visible_width(sep) == sep.len()) by {
            lemma_strip_esc_free(sep, 0);
            assert(stripped(sep) =~= sep.subrange(0, sep.len() as int));
            assert(sep.subrange(0, sep.len() as int) =~= sep);
        }
        assert(forall|t: int| 0 <= t < sep.len() ==> sep[t] != '\n');
        if k >= s.len() || s[k] == '\n' {
            lemma_wrap_from_fits(s, k, limit, cur, has_word);
            assert(invisible(sep) + wrap_from(s, k, limit, e, cur, has_word) =~= wrap_from(
                s,
                k,
                limit,
                e,
                cur,
                has_word,
            ));
        } else {
            lemma_word_end_bounds(s, k);
            let j = word_end(s, k);
            let w = s.subrange(k, j);
            assert(esc_free_from(w, 0));
            assert(visible_width(w) == w.len()) by {
                lemma_strip_esc_free(w, 0);
                assert(stripped(w) =~= w.subrange(0, w.len() as int));
                assert(w.subrange(0, w.len() as int) =~= w);
            }
            assert(w.len() <= limit);
            assert(forall|t: int| 0 <= t < w.len() ==> w[t] != '\n');
            if cur + sep.len() + w.len() <= limit {
                lemma_wrap_from_fits(s, j, limit, cur + sep.len() + w.len() as int, true);
                let rest = wrap_from(s, j, limit, e, cur + sep.len() + w.len() as int, true);
                lemma_plain_fit_prepend(w, rest, cur + sep.len(), limit);
                lemma_plain_fit_prepend(sep, w + rest, cur, limit);
                assert(sep + w + rest =~= sep + (w + rest));
            } else if !has_word {
                lemma_wrap_from_fits(s, j, limit, cur + w.len() as int, true);
                let rest = wrap_from(s, j, limit, e, cur + w.len() as int, true);
                lemma_plain_fit_prepend(w, rest, cur, limit);
                assert(invisible(sep) + w + rest =~= w + rest);
            } else {
                lemma_wrap_from_fits(s, j, limit, w.len() as int, true);
                let rest = wrap_from(s, j, limit, e, w.len() as int, true);
                lemma_plain_fit_prepend(w, rest, 0, limit);
                assert((seq!['\n'] + e + w + rest).drop_first() =~= w + rest);
                assert(invisible(sep) + seq!['\n'] + e + w + rest =~= seq!['\n'] + e + w + rest);
            }
        }
    }
}

/// For all `limit >= 0` and all plain-text input whose words fit within
/// the limit, every line of the wrapped output has at most `limit`
/// columns.
pub proof fn lemma_wrap_plain_fits(text: Seq<char>, limit: int)
    requires
        esc_free(text),
        words_within(text, 0, limit),
        0 <= limit,
    ensures
        plain_lines_fit(wrap_spec(text, limit, Seq::empty(), Seq::empty()), 0, limit),
{
    let e = Seq::<char>::empty();
    assert(visible_width(e) == 0) by {
        lemma_strip_esc_free(e, 0);
        assert(stripped(e) =~= e);
    }
    lemma_wrap_from_fits(text, 0, limit, 0, false);
    assert(e + wrap_from(text, 0, limit, e, 0, false) =~= wrap_from(text, 0, limit, e, 0, false));
}

/// `line_break` looks only forward: positions past a prefix `a` behave
/// as in the suffix alone.
proof fn lemma_line_break_shift(a: Seq<char>, b: Seq<char>, k: int)
    requires
        0 <= k <= b.len(),
    ensures
        line_break(a + b, a.len() + k) == a.len() + line_break(b, k),
    decreases b.len() - k,
{
    if k < b.len() {
        assert((a + b)[a.len() + k] == b[k]);
        if b[k] != '\n' {
            lemma_line_break_shift(a, b, k + 1);
        }
    }
}

/// `split_lines` looks only forward: positions past a prefix `a` behave
/// as in the suffix alone.
proof fn lemma_split_lines_shift(a: Seq<char>, b: Seq<char>, k: int)
    requires
        0 <= k <= b.len(),
    ensures
        split_lines(a + b, a.len() + k) == split_lines(b, k),
    decreases b.len() - k,
{
    if k < b.len() {
        lemma_line_break_shift(a, b, k);
        lemma_line_break_bounds(b, k);
        let j = line_break(b, k);
        assert((a + b).subrange(a.len() + k, a.len() + j) =~= b.subrange(k, j));
        if j > k {
            assert((a + b)[a.len() + j - 1] == b[j - 1]);
            assert((a + b).subrange(a.len() + k, a.len() + j - 1) =~= b.subrange(k, j - 1));
        }
        if j < b.len() {
            lemma_split_lines_shift(a, b, j + 1);
        }
        assert(split_lines(a + b, a.len() + k) =~= split_lines(b, k));
    }
}

/// Under `plain_lines_fit`, the first line of `out` spans at most
/// `limit - cur` characters, and past it the budget starts afresh.
proof fn lemma_plain_fit_first_line(out: Seq<char>, cur: int, limit: int)
    requires
        plain_lines_fit(out, cur, limit),
    ensures
        cur + line_break(out, 0) <= limit,
        line_break(out, 0) < out.len() ==> plain_lines_fit(
            out.subrange(line_break(out, 0) + 1, out.len() as int),
            0,
            limit,
        ),
    decreases out.len(),
{
    if out.len() == 0 {
    } else if out[0] == '\n' {
        assert(out.subrange(1, out.len() as int) =~= out.drop_first());
    } else {
        let tail = out.subrange(1, out.len() as int);
        assert(out.drop_first() =~= tail);
        lemma_plain_fit_first_line(tail, cur + 1, limit);
        assert(line_break(out, 0) == 1 + line_break(tail, 0)) by {
            lemma_line_break_shift(out.subrange(0, 1), tail, 0);
            assert(out.subrange(0, 1) + tail =~= out);
        }
        let j = line_break(out, 0);
        lemma_line_break_bounds(tail, 0);
        if j < out.len() {
            assert(out.subrange(j + 1, out.len() as int) =~= tail.subrange(j, tail.len() as int));
        }
    }
}

/// Under `plain_lines_fit` with a fresh budget, every line of `out`
/// spans at most `limit` characters.
proof fn lemma_plain_fit_all_lines(out: Seq<char>, limit: int)
    requires
        plain_lines_fit(out, 0, limit),
    ensures
        forall|t: int|
            0 <= t < split_lines(out, 0).len() ==> #[trigger] split_lines(out, 0)[t].len()
                <= limit,
    decreases out.len(),
{
    if out.len() > 0 {
        lemma_line_break_bounds(out, 0);
        lemma_plain_fit_first_line(out, 0, limit);
        let j = line_break(out, 0);
        let first = if j > 0 && out[j - 1] == '\r' {
            out.subrange(0, j - 1)
        } else {
            out.subrange(0, j)
        };
        assert(first.len() <= j);
        if j < out.len() {
            let tail = out.subrange(j + 1, out.len() as int);
            lemma_plain_fit_all_lines(tail, limit);
            lemma_split_lines_shift(out.subrange(0, j + 1), tail, 0);
            assert(out.subrange(0, j + 1) + tail =~= out);
            assert(split_lines(out, j + 1) == split_lines(tail, 0));
            assert(split_lines(out, 0) == seq![first] + split_lines(tail, 0));
            assert forall|t: int| 0 <= t < split_lines(out, 0).len() implies #[trigger] split_lines(
                out,
                0,
            )[t].len() <= limit by {
                if t > 0 {
                    assert(split_lines(out, 0)[t] == split_lines(tail, 0)[t - 1]);
                }
            }
        } else {
            assert(split_lines(out, 0) =~= seq![first]);
        }
    }
}

/// For all `limit >= 0` and plain-text input whose words all fit, each
/// line of the wrapped output holds at most `limit` characters.
pub proof fn lemma_wrap_plain_line_lengths(text: Seq<char>, limit: int)
    requires
        esc_free(text),
        words_within(text, 0, limit),
        0 <= limit,
    ensures
        forall|t: int|
            0 <= t < split_lines(wrap_spec(text, limit, Seq::empty(), Seq::empty()), 0).len()
                ==> #[trigger] split_lines(wrap_spec(text, limit, Seq::empty(), Seq::empty()), 0)[t].len()
                <= limit,
{
    lemma_wrap_plain_fits(text, limit);
    lemma_plain_fit_all_lines(wrap_spec(text, limit, Seq::empty(), Seq::empty()), limit);
}

/// The words of `s` from position `i` on: its maximal runs of non-break
/// characters, in order. This is the whitespace-normalized content of
/// `s`: what survives when runs of spaces and line breaks collapse.
pub open spec fn words_of(s: Seq<char>, i: int) -> Seq<Seq<char>>
    decreases s.len() - i, 1int,
{
    if i < 0 || i >= s.len() {
        Seq::empty()
    } else if is_break_char(s[i]) {
        words_of(s, i + 1)
    } else {
        let j = word_end(s, i);
        proof {
            lemma_word_end_bounds(s, i);
        }
        seq![s.subrange(i, j)] + words_of(s, j)
    }
}

/// `word_end` looks only forward: positions past a prefix `a` behave as
/// in the suffix alone.
proof fn lemma_word_end_shift(a: Seq<char>, b: Seq<char>, k: int)
    requires
        0 <= k <= b.len(),
    ensures
        word_end(a + b, a.len() + k) == a.len() + word_end(b, k),
    decreases b.len() - k,
{
    if k < b.len() {
        assert((a + b)[a.len() + k] == b[k]);
        if !is_break_char(b[k]) {
            lemma_word_end_shift(a, b, k + 1);
        }
    }
}

/// `words_of` looks only forward: positions past a prefix `a` behave as
/// in the suffix alone.
proof fn lemma_words_of_shift(a: Seq<char>, b: Seq<char>, k: int)
    requires
        0 <= k <= b.len(),
    ensures
        words_of(a + b, a.len() + k) == words_of(b, k),
    decreases b.len() - k,
{
    if k < b.len() {
        assert((a + b)[a.len() + k] == b[k]);
        if is_break_char(b[k]) {
            lemma_words_of_shift(a, b, k + 1);
        } else {
            lemma_word_end_shift(a, b, k);
            lemma_word_end_bounds(b, k);
            let j = word_end(b, k);
            assert((a + b).subrange(a.len() + k, a.len() + j) =~= b.subrange(k, j));
            lemma_words_of_shift(a, b, j);
            assert(words_of(a + b, a.len() + k) =~= words_of(b, k));
        }
    }
}

/// Prepending one break character leaves the word sequence unchanged.
proof fn lemma_words_of_break_prefix(c: char, rest: Seq<char>)
    requires
        is_break_char(c),
    ensures
        words_of(seq![c] + rest, 0) == words_of(rest, 0),
{
    assert((seq![c] + rest)[0] == c);
    lemma_words_of_shift(seq![c], rest, 0);
}

/// Prepending a nonempty break-free word `w` to output that is empty or
/// opens with a break prepends exactly that word.
proof fn lemma_words_of_word_prefix(w: Seq<char>, rest: Seq<char>)
    requires
        w.len() > 0,
        forall|k: int| 0 <= k < w.len() ==> !is_break_char(w[k]),
        rest.len() == 0 || is_break_char(rest[0]),
    ensures
        words_of(w + rest, 0) == seq![w] + words_of(rest, 0),
{
    let x = w + rest;
    assert(word_end(x, 0) == w.len()) by {
        assert forall|k: int| 0 <= k < w.len() implies !is_break_char(x[k]) by {
            assert(x[k] == w[k]);
        }
        if rest.len() > 0 {
            assert(x[w.len() as int] == rest[0]);
        }
        lemma_word_end_from_all_nonbreak(x, 0, w.len() as int);
    }
    assert(x.subrange(0, w.len() as int) =~= w);
    lemma_words_of_shift(w, rest, 0);
    assert(words_of(x, 0) =~= seq![w] + words_of(rest, 0));
}

/// From a run of non-break characters `[i, j)`, with `j` at the end or on
/// a break, `word_end(s, i)` is exactly `j`.
proof fn lemma_word_end_from_all_nonbreak(s: Seq<char>, i: int, j: int)
    requires
        0 <= i <= j <= s.len(),
        forall|k: int| i <= k < j ==> !is_break_char(s[k]),
        j == s.len() || is_break_char(s[j]),
    ensures
        word_end(s, i) == j,
    decreases j - i,
{
    if i < j {
        lemma_word_end_from_all_nonbreak(s, i + 1, j);
    }
}

/// Skipping break characters does not change the words.
proof fn lemma_words_of_skip_breaks(s: Seq<char>, i: int, k: int)
    requires
        0 <= i <= k <= s.len(),
        forall|t: int| i <= t < k ==> is_break_char(s[t]),
    ensures
        words_of(s, i) == words_of(s, k),
    decreases k - i,
{
    if i < k {
        lemma_words_of_skip_breaks(s, i + 1, k);
    }
}

/// Prepending a run of break characters leaves the word sequence
/// unchanged.
proof fn lemma_words_of_breaks_prefix(g: Seq<char>, rest: Seq<char>)
    requires
        forall|t: int| 0 <= t < g.len() ==> is_break_char(g[t]),
    ensures
        words_of(g + rest, 0) == words_of(rest, 0),
    decreases g.len(),
{
    if g.len() == 0 {
        assert(g + rest =~= rest);
    } else {
        assert(g + rest =~= seq![g[0]] + (g.drop_first() + rest));
        lemma_words_of_break_prefix(g[0], g.drop_first() + rest);
        assert forall|t: int| 0 <= t < g.drop_first().len() implies is_break_char(
            g.drop_first()[t],
        ) by {
            assert(g.drop_first()[t] == g[t + 1]);
        }
        lemma_words_of_breaks_prefix(g.drop_first(), rest);
    }
}

/// Plain wrapped output continuing a line that already holds a word,
/// from a position at a break or the end, is empty or opens with a
/// separator.
proof fn lemma_wrap_from_opens_with_break(s: Seq<char>, i: int, limit: int, cur: int)
    requires
        0 <= i <= s.len(),
        esc_free_from(s, i),
        i == s.len() || is_break_char(s[i]),
    ensures
        wrap_from(s, i, limit, Seq::empty(), cur, true).len() == 0 || is_break_char(
            wrap_from(s, i, limit, Seq::empty(), cur, true)[0],
        ),
    decreases s.len() - i,
{
    let e = Seq::<char>::empty();
    if i < s.len() {
        if s[i] == '\n' {
            assert((seq!['\n'] + e + wrap_from(s, i + 1, limit, e, visible_width(e), false))[0]
                == '\n');
        } else {
            lemma_sep_end_bounds(s, i);
            let k = sep_end(s, i);
            let sep = s.subrange(i, k);
            lemma_sep_esc_free(s, i);
            assert(esc_free_from(sep, 0));
            lemma_invisible_esc_free(sep, 0);
            assert(invisible(sep) == e);
            if k >= s.len() || s[k] == '\n' {
                lemma_wrap_from_opens_with_break(s, k, limit, cur);
                assert(invisible(sep) + wrap_from(s, k, limit, e, cur, true) =~= wrap_from(
                    s,
                    k,
                    limit,
                    e,
                    cur,
                    true,
                ));
            } else {
                lemma_word_end_bounds(s, k);
                let j = word_end(s, k);
                let w = s.subrange(k, j);
                if cur + visible_width(sep) + visible_width(w) <= limit {
                    assert((sep + w + wrap_from(
                        s,
                        j,
                        limit,
                        e,
                        cur + visible_width(sep) + visible_width(w),
                        true,
                    ))[0] == s[i]);
                } else {
                    let rest = wrap_from(
                        s,
                        j,
                        limit,
                        e,
                        visible_width(e) + visible_width(w),
                        true,
                    );
                    assert(invisible(sep) + seq!['\n'] + e + w + rest =~= seq!['\n'] + (w + rest));
                    assert((seq!['\n'] + (w + rest))[0] == '\n');
                }
            }
        }
    }
}

/// Greedy wrapping of plain text with no indents reorders nothing and
/// loses nothing: the words of the output are exactly the words of the
/// input from `i`.
proof fn lemma_wrap_from_words(s: Seq<char>, i: int, limit: int, cur: int, has_word: bool)
    requires
        0 <= i <= s.len(),
        esc_free_from(s, i),
    ensures
        words_of(wrap_from(s, i, limit, Seq::empty(), cur, has_word), 0) == words_of(s, i),
    decreases s.len() - i,
{
    let e = Seq::<char>::empty();
    if i >= s.len() {
    } else if s[i] == '\n' {
        lemma_wrap_from_words(s, i + 1, limit, visible_width(e), false);
        let rest = wrap_from(s, i + 1, limit, e, visible_width(e), false);
        assert(seq!['\n'] + e + rest =~= seq!['\n'] + rest);
        lemma_words_of_break_prefix('\n', rest);
    } else {
        lemma_sep_end_bounds(s, i);
        let k = sep_end(s, i);
        let sep = s.subrange(i, k);
        lemma_sep_esc_free(s, i);
        assert(esc_free_from(sep, 0));
        lemma_invisible_esc_free(sep, 0);
        assert(invisible(sep) == e);
        assert(forall|t: int| i <= t < k ==> is_break_char(s[t]));
        lemma_words_of_skip_breaks(s, i, k);
        assert(forall|t: int| 0 <= t < sep.len() ==> is_break_char(sep[t]));
        if k >= s.len() || s[k] == '\n' {
            lemma_wrap_from_words(s, k, limit, cur, has_word);
            assert(invisible(sep) + wrap_from(s, k, limit, e, cur, has_word) =~= wrap_from(
                s,
                k,
                limit,
                e,
                cur,
                has_word,
            ));
        } else {
            lemma_word_end_bounds(s, k);
            let j = word_end(s, k);
            let w = s.subrange(k, j);
            assert(w.len() > 0);
            assert(forall|t: int| 0 <= t < w.len() ==> !is_break_char(w[t]));
            assert(words_of(s, k) == seq![w] + words_of(s, j));
            if cur + visible_width(sep) + visible_width(w) <= limit {
                lemma_wrap_from_words(s, j, limit, cur + visible_width(sep) + visible_width(w), true);
                let rest = wrap_from(s, j, limit, e, cur + visible_width(sep) + visible_width(w), true);
                lemma_wrap_from_opens_with_break(s, j, limit, cur + visible_width(sep) + visible_width(w));
                lemma_words_of_word_prefix(w, rest);
                assert(sep + w + rest =~= sep + (w + rest));
                lemma_words_of_breaks_prefix(sep, w + rest);
            } else if !has_word {
                lemma_wrap_from_words(s, j, limit, cur + visible_width(w), true);
                let rest = wrap_from(s, j, limit, e, cur + visible_width(w), true);
                lemma_wrap_from_opens_with_break(s, j, limit, cur + visible_width(w));
                lemma_words_of_word_prefix(w, rest);
                assert(invisible(sep) + w + rest =~= w + rest);
            } else {
                lemma_wrap_from_words(s, j, limit, visible_width(e) + visible_width(w), true);
                let rest = wrap_from(s, j, limit, e, visible_width(e) + visible_width(w), true);
                lemma_wrap_from_opens_with_break(s, j, limit, visible_width(e) + visible_width(w));
                lemma_words_of_word_prefix(w, rest);
                assert(invisible(sep) + seq!['\n'] + e + w + rest =~= seq!['\n'] + (w + rest));
                lemma_words_of_break_prefix('\n', w + rest);
            }
        }
    }
}

/// For all `limit` and all plain-text input, concatenating the wrapped
/// lines (that is, reading the output across its inserted breaks)
/// reproduces the whitespace-normalized input: the same words in the
/// same order.
pub proof fn lemma_wrap_preserves_words(text: Seq<char>, limit: int)
    requires
        esc_free(text),
    ensures
        words_of(wrap_spec(text, limit, Seq::empty(), Seq::empty()), 0) == words_of(text, 0),
{
    let e = Seq::<char>::empty();
    lemma_wrap_from_words(text, 0, limit, visible_width(e), false);
    assert(e + wrap_from(text, 0, limit, e, visible_width(e), false) =~= wrap_from(
        text,
        0,
        limit,
        e,
        visible_width(e),
        false,
    ));
}

/// The escape state after reading `a`, starting from `st`: true when a
/// begun escape sequence has not yet met its terminating `m`.
pub open spec fn esc_state_of(a: Seq<char>, st: bool) -> bool
    decreases a.len(),
{
    if a.len() == 0 {
        st
    } else if st {
        esc_state_of(a.drop_first(), a[0] != 'm')
    } else {
        esc_state_of(a.drop_first(), a[0] == '\u{1b}')
    }
}

/// Stripping only looks forward: the tail from `i` strips as the suffix
/// starting at `i` does.
proof fn lemma_strip_skip(s: Seq<char>, i: int, st: bool)
    requires
        0 <= i <= s.len(),
    ensures
        strip_from(s, i, st) == strip_from(s.subrange(i, s.len() as int), 0, st),
    decreases s.len() - i,
{
    let sub = s.subrange(i, s.len() as int);
    if i < s.len() {
        assert(sub[0] == s[i]);
        let st2 = if st {
            s[i] != 'm'
        } else {
            s[i] == '\u{1b}'
        };
        lemma_strip_skip(s, i + 1, st2);
        lemma_strip_skip(sub, 1, st2);
        assert(sub.subrange(1, sub.len() as int) =~= s.subrange(i + 1, s.len() as int));
        if !st && s[i] != '\u{1b}' {
            assert(strip_from(s, i, st) =~= strip_from(sub, 0, st));
        }
    }
}

/// Stripping distributes over concatenation, the second part starting in
/// the state the first part ends in.
proof fn lemma_strip_concat(a: Seq<char>, b: Seq<char>, st: bool)
    ensures
        strip_from(a + b, 0, st) == strip_from(a, 0, st) + strip_from(b, 0, esc_state_of(a, st)),
    decreases a.len(),
{
    let x = a + b;
    if a.len() == 0 {
        assert(x =~= b);
        assert(strip_from(x, 0, st) =~= strip_from(a, 0, st) + strip_from(b, 0, esc_state_of(a, st)));
    } else {
        assert(x[0] == a[0]);
        let st2 = if st {
            a[0] != 'm'
        } else {
            a[0] == '\u{1b}'
        };
        lemma_strip_skip(x, 1, st2);
        assert(x.subrange(1, x.len() as int) =~= a.drop_first() + b);
        lemma_strip_concat(a.drop_first(), b, st2);
        lemma_strip_skip(a, 1, st2);
        assert(a.subrange(1, a.len() as int) =~= a.drop_first());
        if !st && a[0] != '\u{1b}' {
            assert(strip_from(x, 0, st) =~= strip_from(a, 0, st) + strip_from(
                b,
                0,
                esc_state_of(a, st),
            ));
        }
    }
}

/// A root with a heading and then a paragraph renders as the heading's
/// lines, a single separating newline, then the paragraph's lines; the
/// heading part itself ends in a newline, so a blank line stands between
/// the two, and the paragraph part ends in a trailing newline of its
/// own.
pub proof fn lemma_root_heading_then_paragraph(
    children: Vec<MdNode>,
    depth: u8,
    heading_children: Vec<MdNode>,
    paragraph_children: Vec<MdNode>,
    o: RenderOptions,
)
    requires
        children@ == seq![
            MdNode::Heading(depth, heading_children),
            MdNode::Paragraph(paragraph_children),
        ],
    ensures
        render_spec(MdNode::Root(children), o) == render_spec(
            MdNode::Heading(depth, heading_children),
            o,
        ) + seq!['\n'] + render_spec(MdNode::Paragraph(paragraph_children), o),
        render_spec(MdNode::Heading(depth, heading_children), o).last() == '\n',
        render_spec(MdNode::Paragraph(paragraph_children), o).last() == '\n',
{
    let h = render_spec(MdNode::Heading(depth, heading_children), o);
    let p = render_spec(MdNode::Paragraph(paragraph_children), o);
    assert(children@.len() == 2);
    assert(children@[0] == MdNode::Heading(depth, heading_children));
    assert(children@[1] == MdNode::Paragraph(paragraph_children));
    assert(render_nodes_spec(children@, 1, seq!['\n'], o) == p);
    assert(render_nodes_spec(children@, 0, seq!['\n'], o) == h + seq!['\n'] + p);
    assert(h.last() == '\n');
    assert(p.last() == '\n');
}

/// The SGR code digits never hold an `m` or an escape character.
proof fn lemma_color_code_chars(c: TermColor)
    ensures
        forall|t: int|
            0 <= t < fg_code(c).len() ==> #[trigger] fg_code(c)[t] != 'm' && fg_code(c)[t]
                != '\u{1b}',
        forall|t: int|
            0 <= t < bg_code(c).len() ==> #[trigger] bg_code(c)[t] != 'm' && bg_code(c)[t]
                != '\u{1b}',
{
}

/// No character of a style's joined code groups is an `m` or an escape
/// character.
proof fn lemma_join_codes_chars(parts: Seq<Seq<char>>)
    requires
        forall|a: int, t: int|
            0 <= a < parts.len() && 0 <= t < parts[a].len() ==> #[trigger] parts[a][t] != 'm'
                && parts[a][t] != '\u{1b}',
    ensures
        forall|t: int|
            0 <= t < join_codes(parts).len() ==> #[trigger] join_codes(parts)[t] != 'm'
                && join_codes(parts)[t] != '\u{1b}',
    decreases parts.len(),
{
    if parts.len() >= 2 {
        assert forall|a: int, t: int|
            0 <= a < parts.drop_first().len() && 0 <= t < parts.drop_first()[a].len() implies #[trigger] parts.drop_first()[a][t]
            != 'm' && parts.drop_first()[a][t] != '\u{1b}' by {
            assert(parts.drop_first()[a] == parts[a + 1]);
        }
        lemma_join_codes_chars(parts.drop_first());
        let out = join_codes(parts);
        assert forall|t: int| 0 <= t < out.len() implies #[trigger] out[t] != 'm' && out[t]
            != '\u{1b}' by {
            if t < parts[0].len() {
                assert(out[t] == parts[0][t]);
            } else if t == parts[0].len() {
                assert(out[t] == ';');
            } else {
                assert(out[t] == join_codes(parts.drop_first())[t - parts[0].len() - 1]);
            }
        }
    }
}

proof fn lemma_style_codes_chars(st: TextStyle)
    ensures
        forall|t: int|
            0 <= t < join_codes(style_code_list(st)).len() ==> #[trigger] join_codes(
                style_code_list(st),
            )[t] != 'm' && join_codes(style_code_list(st))[t] != '\u{1b}',
{
    let l = style_code_list(st);
    assert forall|a: int, t: int|
        0 <= a < l.len() && 0 <= t < l[a].len() implies #[trigger] l[a][t] != 'm' && l[a][t]
        != '\u{1b}' by {
        match st.bg {
            Some(c) => lemma_color_code_chars(c),
            None => {},
        }
        match st.fg {
            Some(c) => lemma_color_code_chars(c),
            None => {},
        }
    }
    lemma_join_codes_chars(l);
}

/// An open escape sequence swallows everything up to its closing `m`:
/// the stripping continues after it in the closed state.
proof fn lemma_strip_run(cs: Seq<char>, tail: Seq<char>)
    requires
        forall|t: int| 0 <= t < cs.len() ==> #[trigger] cs[t] != 'm',
    ensures
        strip_from(cs + seq!['m'] + tail, 0, true) == strip_from(tail, 0, false),
    decreases cs.len(),
{
    let y = cs + seq!['m'] + tail;
    if cs.len() == 0 {
        assert(y =~= seq!['m'] + tail);
        assert(y[0] == 'm');
        lemma_strip_skip(y, 1, false);
        assert(y.subrange(1, y.len() as int) =~= tail);
    } else {
        assert(y[0] == cs[0]);
        lemma_strip_skip(y, 1, true);
        assert(y.subrange(1, y.len() as int) =~= cs.drop_first() + seq!['m'] + tail);
        assert forall|t: int| 0 <= t < cs.drop_first().len() implies #[trigger] cs.drop_first()[t]
            != 'm' by {
            assert(cs.drop_first()[t] == cs[t + 1]);
        }
        lemma_strip_run(cs.drop_first(), tail);
    }
}

/// Styling adds nothing visible: a painted run, stripped of escape
/// sequences, is the run itself stripped, provided any escapes already
/// inside the run are closed. In particular the painted run has the
/// same display width as the plain one.
pub proof fn lemma_stripped_painted(st: TextStyle, s: Seq<char>)
    requires
        esc_state_of(s, false) == false,
    ensures
        stripped(painted(st, s)) == stripped(s),
        visible_width(painted(st, s)) == visible_width(s),
{
    if is_plain(st) {
        assert(painted(st, s) =~= s);
    } else {
        let codes = join_codes(style_code_list(st));
        let prefix = style_prefix(st);
        let suffix = style_suffix(st);
        let x = painted(st, s);
        assert(x[0] == '\u{1b}');
        lemma_strip_skip(x, 1, true);
        let cs1 = seq!['['] + codes;
        assert(x.subrange(1, x.len() as int) =~= cs1 + seq!['m'] + (s + suffix));
        lemma_style_codes_chars(st);
        assert forall|t: int| 0 <= t < cs1.len() implies #[trigger] cs1[t] != 'm' by {
            if t > 0 {
                assert(cs1[t] == codes[t - 1]);
            }
        }
        lemma_strip_run(cs1, s + suffix);
        lemma_strip_concat(s, suffix, false);
        assert(suffix[0] == '\u{1b}');
        lemma_strip_skip(suffix, 1, true);
        assert(suffix.subrange(1, suffix.len() as int) =~= seq!['[', '0'] + seq!['m']
            + Seq::<char>::empty());
        let cs2 = seq!['[', '0'];
        assert(forall|t: int| 0 <= t < cs2.len() ==> #[trigger] cs2[t] != 'm');
        lemma_strip_run(cs2, Seq::<char>::empty());
        assert(strip_from(suffix, 0, false) =~= Seq::<char>::empty());
        assert(stripped(x) =~= stripped(s));
    }
}

/// Rendering is a pure function of the tree and the options: any two
/// renders of the same inputs are byte-identical.
pub proof fn lemma_render_deterministic(
    node: MdNode,
    o: RenderOptions,
    first: Seq<char>,
    second: Seq<char>,
)
    requires
        first == render_spec(node, o),
        second == render_spec(node, o),
    ensures
        first == second,
{
}

} // verus!
