use vstd::prelude::*;

use crate::model::{DirSummaries, DIR_SUMMARY_VERSION};

verus! {

/// Options of one summary run.
pub struct DirSummaryArgs {
    /// The revision whose tree is summarised.
    pub reference: String,
    /// When set, stored summaries are neither read nor written.
    pub no_cache: bool,
    /// When set, each directory's counts include those of all its
    /// subdirectories.
    pub recursive: bool,
}

/// A stored payload that does not decode into a summary.
pub struct MalformedPayload {}

/// What a run does about the stored summary.
#[derive(Debug, PartialEq, Eq, Structural)]
pub enum CachePlan {
    /// The stored summary is current: return it as it is.
    Reuse,
    /// Compute the summary afresh; when `write_back`, store it, replacing
    /// any earlier entry when `force_overwrite`.
    Recompute { write_back: bool, force_overwrite: bool },
}

pub open spec fn reusable(decoded: Result<DirSummaries, MalformedPayload>, expected_version: i64) -> bool {
    decoded is Ok && decoded->Ok_0.version == expected_version
}

/// The plan a run follows for the given flag and stored payload.
pub open spec fn plan_of(no_cache: bool, stored: Option<Result<DirSummaries, MalformedPayload>>) -> CachePlan {
    if !no_cache && stored is Some && reusable(stored->0, DIR_SUMMARY_VERSION) {
        CachePlan::Reuse
    } else {
        CachePlan::Recompute { write_back: !no_cache, force_overwrite: true }
    }
}

/// Whether a decoded payload may be reused: it decoded, and has the
/// expected version.
pub fn is_reusable(decoded: &Result<DirSummaries, MalformedPayload>, expected_version: i64) -> (r: bool)
    ensures
        r == reusable(*decoded, expected_version),
        !(decoded is Ok) ==> !r,
        decoded is Ok && decoded->Ok_0.version != expected_version ==> !r,
{
    match decoded {
        Ok(d) => d.version == expected_version,
        Err(_) => false,
    }
}

/// Whether the store is consulted at all.
pub fn should_read_cache(no_cache: bool) -> (r: bool)
    ensures
        r == !no_cache,
{
    !no_cache
}

/// Decides between reusing the stored summary and computing a new one.
/// `stored` is the decoded stored payload, absent when the store has none or
/// was not consulted.
pub fn plan_invocation(no_cache: bool, stored: &Option<Result<DirSummaries, MalformedPayload>>) -> (r: CachePlan)
    ensures
        r == plan_of(no_cache, *stored),
        no_cache ==> r == (CachePlan::Recompute { write_back: false, force_overwrite: true }),
{
    if no_cache {
        return CachePlan::Recompute { write_back: false, force_overwrite: true };
    }
    match stored {
        Some(decoded) => {
            if is_reusable(decoded, DIR_SUMMARY_VERSION) {
                CachePlan::Reuse
            } else {
                CachePlan::Recompute { write_back: true, force_overwrite: true }
            }
        },
        None => CachePlan::Recompute { write_back: true, force_overwrite: true },
    }
}

impl DirSummaryArgs {
    /// The notes reference under which summaries of this mode are stored.
    pub fn notes_ref(&self) -> (r: &'static str)
        ensures
            self.recursive ==> r@ == "refs/notes/xet/dir-summary-recursive"@,
            !self.recursive ==> r@ == "refs/notes/xet/dir-summary"@,
    {
        if self.recursive {
            "refs/notes/xet/dir-summary-recursive"
        } else {
            "refs/notes/xet/dir-summary"
        }
    }
}

impl Default for DirSummaries {
    fn default() -> (r: Self)
        ensures
            r.version == DIR_SUMMARY_VERSION,
            r.summaries@.len() == 0,
    {
        DirSummaries { version: DIR_SUMMARY_VERSION, summaries: Vec::new() }
    }
}

} // verus!
