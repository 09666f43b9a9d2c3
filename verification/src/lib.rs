//! A verified core for a small static-site generator.
//!
//! The library parses Markdown content files into structured pages
//! (frontmatter, body, publish date derived from the file name, slug),
//! resolves which HTML template applies to an output location, groups
//! pages into per-section listings sorted by publish date, and renders
//! each page by substituting its sanitized HTML body and the listing
//! data into the chosen template.
//!
//! Directory traversal, file reading and writing, and the CSS build
//! step are left to the surrounding application; the library works on
//! plain values handed in by the caller.

pub mod date;
pub mod index;
pub mod page;
pub mod render;
pub mod site;
pub mod tailwind;
pub mod template;
pub mod text;
