//! Per-directory file-type counts for a snapshot of a file tree, with an
//! optional roll-up of every directory's counts into its ancestors, and the
//! rules that decide when a stored result may be reused.

pub mod model;
pub mod table;
pub mod aggregate;
pub mod cache;
pub mod laws;

pub use model::{ClassifiedFile, DirSummaries, DirTypeCount, PerFileInfo, DIR_SUMMARY_VERSION};
pub use aggregate::{build_direct_summaries, compute_dir_summaries, roll_up};
pub use cache::{is_reusable, plan_invocation, should_read_cache, CachePlan, DirSummaryArgs, MalformedPayload};
