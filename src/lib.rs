//! Orchestration core of a scanned-book to Markdown pipeline: page naming,
//! extraction and transcription planning, bounded dispatch of remote
//! transcription work, reply interpretation, and the merge of per-page
//! transcripts into one book with a table of contents.

pub mod text;
pub mod naming;
pub mod markdown;
pub mod slug;
pub mod book;
pub mod combine;
pub mod reply;
pub mod transcribe;
pub mod extract;
pub mod pipeline;
