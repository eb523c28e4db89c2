//! Verified core of znote: a note, bookmark and task manager that keeps its
//! data as Markdown files with a YAML frontmatter.

pub mod commands;
pub mod text;
pub mod lists;
pub mod edit;
pub mod graph;
pub mod hooks;
pub mod input;
pub mod models;
pub mod order;
pub mod query;
pub mod records;
pub mod sql;
pub mod storage;
pub mod style;
pub mod validate;
pub mod web;
pub mod wiki;
