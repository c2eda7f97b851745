//! Execution core of a command shell: it takes a parsed command tree and
//! realizes it as operating-system processes, pipelines, conditionals,
//! functions and groups, while a job manager tracks children across
//! asynchronous completion.

pub mod ast;
pub mod bytes;
pub mod context;
pub mod error;
pub mod jobs;
pub mod laws;
pub mod shell;
pub mod store;
pub mod sys;
