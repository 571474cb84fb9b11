//! Markdown note editing: metadata blocks, heading-based section edits,
//! literal text replacement, property updates and note templates.

pub mod text;
pub mod headings;
pub mod section;
pub mod datetime;
pub mod template;
pub mod numeric;
pub mod replace;
pub mod frontmatter;
pub mod model;
pub mod notes;
pub mod commands;
pub mod vault;
pub mod daily;
