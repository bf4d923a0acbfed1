//! The library's error values.
use vstd::prelude::*;

verus! {

/// A pipeline-wide failure.
#[derive(Debug, Clone, Copy, PartialEq, Eq, Structural)]
pub enum Error {
    /// No mirror is left once the synchronisation filter and the exclusion rules have run.
    NoBestSyncedMirrors,
    /// Scoring and selection left no mirror.
    NoBestMirrors,
    /// A mirror's base URL cannot be joined with the probe path.
    InvalidUrl,
    /// A probe was answered with an HTTP status that is not a success.
    HttpStatus(u16),
}

} // verus!
