pub mod error;
pub mod exclude;
pub mod fetch;
pub mod format;
pub mod mirror;
pub mod order;
pub mod probe;
pub mod score;
pub mod text;

pub use error::Error;
pub use exclude::{ExcludeKind, ExcludedMirrors, Field};
pub use fetch::{next_fetch_step, FetchStep, BASE_DELAY_MS, MAX_FETCH_ATTEMPTS};
pub use format::header_at;
pub use mirror::{Mirror, Mirrors, MirrorsStatus, TargetDb, FIXED_ONE, MAX_DELAY};
pub use order::{sort_stably, SortOrder};
pub use probe::{transfer_rate, ProbeOutcome};
