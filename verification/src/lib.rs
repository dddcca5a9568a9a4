//! A project-tracking board kept alongside a repository, driven by
//! directives embedded in commit messages.
//!
//! The crate provides the board model (projects, columns, tasks) with
//! invariant-preserving mutation operations, a parser that extracts
//! directives such as `[task: column]` or `[task +tag]` from free text,
//! a resolver that finds the single project a directive addresses, and
//! an applier that carries the resolved directive out on the board.

pub mod apply;
pub mod column;
pub mod directive;
pub mod git_project;
pub mod id;
pub mod laws;
pub mod project;
pub mod resolve;
pub mod setup;
pub mod strs;
pub mod task;

pub use column::Column;
pub use column::ColumnBuilder;
pub use git_project::GitProject;
pub use git_project::GitProjectBuilder;
pub use id::Id;
pub use id::TaskID;
pub use project::Project;
pub use project::ProjectBuilder;
pub use task::Task;
pub use task::TaskBuilder;
