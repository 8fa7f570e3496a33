//! Turns a line-oriented markup document into an HTML body: each line is classified by
//! its first character and rendered to one HTML fragment, image references are resolved
//! against the image files found beside the document, and list items are wrapped in
//! list tags.
pub mod article;
pub mod page;
pub mod parse;
pub mod text;
