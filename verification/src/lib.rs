//! Blog posts from Markdown to HTML.
//!
//! A post is parsed into events, the events are rewritten in one pass, and
//! the rewritten events are rendered. The pass gives headings with an id a
//! permalink, or wraps them in a link to the post where a preview is
//! rendered; it highlights fenced code, turns `^^text^^` into superscripts,
//! and reads the metadata block at the top of the post.
//!
//! - [`text`]: searching, lines and numbers in texts
//! - [`frontmatter`], [`date`], [`metadata`]: the metadata block
//! - [`superscript`], [`heading`], [`highlight`]: the rewriting of single
//!   events
//! - [`event`], [`pipeline`], [`diagnostic`]: the pass over a document
//! - [`markdown`]: parsing, rendering, and the whole way from source to HTML
//! - [`post`], [`feed`]: rendered posts and their order in a listing

pub mod date;
pub mod diagnostic;
pub mod event;
pub mod feed;
pub mod frontmatter;
pub mod heading;
pub mod highlight;
pub mod markdown;
pub mod metadata;
pub mod pipeline;
pub mod post;
pub mod superscript;
pub mod text;

pub use feed::sort_posts;
pub use frontmatter::parse_frontmatter;
pub use markdown::{blog, blog_preview, build_parser, parse_blog_markdown, render_document};
pub use metadata::BlogMetadata;
pub use post::BlogPost;
