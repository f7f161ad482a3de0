//! Inline-markup parsing for blocks exported from a personal knowledge graph.
//!
//! The heart of the crate is [`parse_string::parse`], which turns one block's
//! raw text into an ordered sequence of typed expression nodes (links, tags,
//! directives, formatting, code spans, attributes). Malformed markup never
//! fails: anything unrecognized degrades to literal text. Beside it,
//! [`slug::title_to_slug`] derives a page's file slug from its title, and
//! [`laws`] states and proves the parser's guarantees.

pub mod scan;

pub mod expression;

pub mod model;

pub mod parse_string;

pub mod laws;

pub mod slug;
