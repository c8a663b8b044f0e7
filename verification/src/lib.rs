use vstd::prelude::*;

pub mod adf;
pub mod field;
pub mod issue;
pub mod issue_tool;
pub mod json;
pub mod project;
pub mod search;
pub mod server;
pub mod text;
pub mod user;
pub mod worklog;
