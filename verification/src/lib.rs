//! Per-user code-language statistics over hosted repositories.
//!
//! The crate aggregates, for one account on a source-control provider, the
//! number of code lines per language across all of the account's
//! repositories: it classifies files by extension, counts newline-delimited
//! lines, accumulates per-language totals while tolerating per-repository and
//! per-file fetch failures, and ranks the languages into an immutable
//! snapshot.  All network access lives outside this crate; the library works
//! on plain values handed in by the caller.

pub mod aggregate;
pub mod assoc;
pub mod encoding;
pub mod extensions;
pub mod github;
pub mod gitlab;
pub mod logs;
pub mod ranking;
pub mod tally;
pub mod text;
pub mod walker;
