//! The document entry point: owns a parsed tree and renders it to output
//! lines. Acquisition (reading a file, parsing markup) happens outside;
//! this component only consumes the resulting tree.
use vstd::prelude::*;
use crate::node::MdNode;
use crate::renderer::{render, render_spec, RenderOptions};
use crate::text::{chars_to_string, str_to_chars};

verus! {

/// A parsed document, ready to render.
pub struct MdDocument {
    pub ast: MdNode,
}

impl MdDocument {
    /// Wraps an externally parsed tree.
    pub fn new(ast: MdNode) -> (r: MdDocument)
        ensures
            r.ast == ast,
    {
        MdDocument { ast }
    }

    /// Renders the owned tree under the options `opt` and splits the
    /// result into its lines, ready to be emitted one by one.
    pub fn render(&self, opt: &RenderOptions) -> (lines: Vec<String>)
        ensures
            lines@.map_values(|l: String| l@) == split_lines(render_spec(self.ast, *opt), 0),
    {
        let out = render(&self.ast, opt);
        let chars = str_to_chars(out.as_str());
        split_into_lines(&chars)
    }
}

/// Splits `chars` at newlines into its lines, as `split_lines` describes.
pub fn split_into_lines(chars: &Vec<char>) -> (lines: Vec<String>)
    ensures
        lines@.map_values(|l: String| l@) == split_lines(chars@, 0),
{
    let mut lines: Vec<String> = Vec::new();
    let mut i: usize = 0;
    while i < chars.len()
        invariant
            i <= chars.len(),
            lines@.map_values(|l: String| l@) + split_lines(chars@, i as int) == split_lines(
                chars@,
                0,
            ),
        decreases chars.len() - i,
    {
        let mut j: usize = i;
        proof {
            lemma_line_break_bounds(chars@, i as int);
        }
        while j < chars.len() && chars[j] != '\n'
            invariant
                i <= j <= chars.len(),
                line_break(chars@, i as int) == line_break(chars@, j as int),
            decreases chars.len() - j,
        {
            proof {
                lemma_line_break_bounds(chars@, j as int);
            }
            j += 1;
        }
        assert(j as int == line_break(chars@, i as int));
        let j2: usize = if j > i && chars[j - 1] == '\r' {
            j - 1
        } else {
            j
        };
        let mut w: Vec<char> = Vec::new();
        let mut k: usize = i;
        while k < j2
            invariant
                i <= k <= j2 <= chars.len(),
                w@ == chars@.subrange(i as int, k as int),
            decreases j2 - k,
        {
            w.push(chars[k]);
            assert(chars@.subrange(i as int, k + 1) =~= chars@.subrange(i as int, k as int).push(
                chars@[k as int],
            ));
            k += 1;
        }
        let line = chars_to_string(&w);
        lines.push(line);
        proof {
            assert(lines@.map_values(|l: String| l@) =~= lines@.drop_last().map_values(
                |l: String| l@,
            ).push(chars@.subrange(i as int, j2 as int)));
            if j < chars.len() {
                assert(lines@.map_values(|l: String| l@) + split_lines(chars@, j + 1)
                    =~= split_lines(chars@, 0));
            } else {
                assert(lines@.map_values(|l: String| l@) + split_lines(chars@, chars@.len() as int)
                    =~= split_lines(chars@, 0));
            }
        }
        if j < chars.len() {
            i = j + 1;
        } else {
            i = j;
        }
    }
    assert(lines@.map_values(|l: String| l@) =~= split_lines(chars@, 0));
    lines
}

/// The position of the first newline at or after `i`, or the end of `s`.
pub open spec fn line_break(s: Seq<char>, i: int) -> int
    decreases s.len() - i,
{
    if i < 0 || i >= s.len() {
        s.len() as int
    } else if s[i] == '\n' {
        i
    } else {
        line_break(s, i + 1)
    }
}

pub proof fn lemma_line_break_bounds(s: Seq<char>, i: int)
    requires
        0 <= i <= s.len(),
    ensures
        i <= line_break(s, i) <= s.len(),
    decreases s.len() - i,
{
    if i < s.len() && s[i] != '\n' {
        lemma_line_break_bounds(s, i + 1);
    }
}

/// The lines of `s` from position `i` on: the maximal newline-free
/// segments, each shorn of a carriage return closing it (so `\r\n`
/// counts as one break), a trailing newline not opening an empty final
/// line.
pub open spec fn split_lines(s: Seq<char>, i: int) -> Seq<Seq<char>>
    decreases s.len() - i, 1int,
{
    if i < 0 || i >= s.len() {
        Seq::empty()
    } else {
        let j = line_break(s, i);
        proof {
            lemma_line_break_bounds(s, i);
        }
        let body = if j > i && s[j - 1] == '\r' {
            s.subrange(i, j - 1)
        } else {
            s.subrange(i, j)
        };
        if j >= s.len() {
            seq![body]
        } else {
            seq![body] + split_lines(s, j + 1)
        }
    }
}

} // verus!
