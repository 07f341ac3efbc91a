//! Decides when the context of a conversation is compacted, what of it is summarized, and what
//! stands in its place.
pub mod budget;
pub mod file_window;
pub mod history;
pub mod json;
pub mod message;
pub mod plan;
pub mod projection;
pub mod run;
pub mod summary;
pub mod text;
pub mod tokens;
