//! Doc-comment extraction for C headers and Markdown rendering of the result.

pub mod text;
pub mod types;
pub mod parser;
pub mod scanner;
pub mod writer;
pub mod discovery;
