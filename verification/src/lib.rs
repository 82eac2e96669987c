//! md-export core library.
//!
//! Converts GitHub-flavored Markdown into a self-contained, styled HTML
//! document (embedded CSS, no external assets), or a bare HTML fragment.
//!
//! The public entry point is [`render`], which takes a Markdown string plus a
//! set of [`RenderOptions`] and returns an HTML string. All work is local;
//! there is no network or filesystem access in this library.

pub mod laws;
pub mod outline;
pub mod render;
pub mod slug;
pub mod text;
pub mod theme;
pub mod toc;

pub use outline::{collect_headings, DocEvent, Heading, NodeKind};
pub use render::{
    fallback_title_from, render, render_parsed, title_from_stem, toc_entries, RenderOptions,
};
pub use slug::{slugify, SlugRegistry};
pub use theme::{parse_theme, theme_css, Theme};
pub use toc::{parse_toc_depth, render_toc, toc_headings};
