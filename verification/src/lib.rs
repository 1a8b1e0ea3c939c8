//! Tools for working on a directory of source repositories and on SQL dumps.
//!
//! - [`db`] rewrites the `INSERT` statements of a SQL dump so that they no
//!   longer name or fill the `id` column.
//! - [`repo`] and [`git`] put together what `git` printed about a set of
//!   repositories: their state, the table that lists them, the commands that
//!   clone them again, and what to do to bring one to a branch.
//! - [`workspace`] reads and writes the list of workspaces.
//! - [`version`] reads the list of files that hold a version number.
//! - [`cli`] holds the commands of the tool and plans their work.
//! - [`text`] holds what the others share: characters, trimming, pieces and
//!   lines.
//!
//! Nothing here reads a file or starts a program. The library works on texts
//! that its caller has read, and hands back texts for the caller to write.

pub mod cli;
pub mod db;
pub mod git;
pub mod repo;
pub mod text;
pub mod version;
pub mod workspace;
