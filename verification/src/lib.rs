pub mod text;
pub mod style;
pub mod node;
pub mod wrap;
pub mod renderer;
pub mod document;
pub mod laws;
