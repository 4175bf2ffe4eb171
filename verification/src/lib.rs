//! Layout of bracketed, separator-delimited lists for a source-code
//! pretty-printer.
//!
//! A list arrives as the kinds of its children together with one rendered
//! fragment per child. The library decides whether the list stays on one line
//! or is broken over several indented lines, and produces the text of either
//! layout, placing separators, trailing separators and comments.

pub mod node;
pub mod text;
pub mod join;
pub mod context;
pub mod utils;
pub mod layout;
pub mod args;
pub mod laws;
