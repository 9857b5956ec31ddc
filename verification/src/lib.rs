//! A compiler for a component-tagged markup dialect describing email
//! layouts: it reads the markup into a node tree, resolves attributes
//! over four precedence levels, aggregates document-wide metadata,
//! propagates layout context, and renders a single self-contained
//! HTML document, deterministically.

pub mod attributes;
pub mod body;
pub mod context;
pub mod head;
pub mod header;
pub mod mjml;
pub mod parser;
pub mod size;
pub mod strutil;
pub mod tag;
