//! A converter from Obsidian-flavoured Markdown to HTML.
//!
//! The library is split into three layers: the document tree in [`ast`], the
//! recursive-descent parser in [`parser`], and the HTML renderer in
//! [`converter`].  Every executable function carries a contract that pins
//! its result down against a mathematical model of the grammar and of the
//! HTML fragments, and [`laws`] proves the properties that relate them.

pub mod ast;
pub mod converter;
pub mod laws;
pub mod parser;
