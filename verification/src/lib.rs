//! Reformats the fenced code blocks of a markdown document with external,
//! language-specific formatters while leaving the rest of the document alone.
//!
//! The library does everything but run the formatters. [`pipeline::parse_document`]
//! takes a document apart, [`pipeline::plan_jobs`] lists the texts to format,
//! and once the caller has run each job, [`pipeline::apply_edits`] and
//! [`pipeline::render`] put the document together again.

pub mod annotation;
pub mod events;
pub mod fence;
pub mod frontmatter;
pub mod invoke;
pub mod pipeline;
pub mod resolve;
pub mod settings;
pub mod text;

pub use annotation::parse_codetitle;
pub use events::{MdEvent, StructuralEvent};
pub use fence::collapse_fences;
pub use frontmatter::{find_frontmatter_block, split_frontmatter_and_content};
pub use invoke::{command_args, scratch_file_name};
pub use pipeline::{
    apply_edits, assemble, edits_for, parse_document, plan_jobs, render, Cursor, Document, Edit,
    Job, RenderError,
};
pub use resolve::{detect_lang, find_lang};
pub use settings::{Lang, Settings, DEFAULT_SETTINGS};
