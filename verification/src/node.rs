//! The document tree: an immutable, externally-supplied value the render
//! engine consumes read-only. Any kind outside the supported set is
//! carried as `Unsupported` and renders as the empty string.
use vstd::prelude::*;

verus! {

/// One node of a parsed document tree.
#[derive(Debug)]
pub enum MdNode {
    /// The root of the tree: an ordered sequence of block-level children.
    Root(Vec<MdNode>),
    /// A heading with its depth (1-6) and inline children.
    Heading(u8, Vec<MdNode>),
    /// A paragraph of inline children.
    Paragraph(Vec<MdNode>),
    /// A literal text run.
    Text(String),
    /// Emphasized inline children.
    Emphasis(Vec<MdNode>),
    /// Strongly emphasized inline children.
    Strong(Vec<MdNode>),
    /// A forced line break.
    Break,
    /// A quoted block of children.
    BlockQuote(Vec<MdNode>),
    /// A literal inline code span.
    InlineCode(String),
    /// A fenced code block: optional language label and literal value.
    Code(Option<String>, String),
    /// A link: destination URL and label children.
    Link(String, Vec<MdNode>),
    /// Any node kind outside the supported set.
    Unsupported,
}

} // verus!
