//! Verified core of a Blackboard command-line client: query normalisation,
//! title matching, deterministic record ordering, JSON-shaped records and
//! their Markdown rendering.
pub mod text;
pub mod query_match;
pub mod sorting;
pub mod json;
pub mod markdown_output;
pub mod cmd_course;
pub mod cmd_document;
pub mod cmd_video;
pub mod cmd_announcement;
pub mod content;
pub mod cmd_tree;
pub mod cmd_find;
pub mod cmd_search;
pub mod cmd_course_table;
pub mod json_output;
pub mod cli;
pub mod style;
