//! Probing: the URL a benchmark downloads, and what its outcome does to a mirror.
use vstd::prelude::*;

use crate::error::Error;
use crate::mirror::{Mirror, Mirrors, TargetDb};
use crate::text::opt_view;

verus! {

/// What resolving a relative reference against a base URL yields, when both parse.
pub uninterp spec fn joined_url(base: Seq<char>, path: Seq<char>) -> Option<Seq<char>>;

/// Relies on `url::Url::parse` and `Url::join`: `path` resolved against `base`, written out
/// as a string, when `base` parses and the join succeeds.
#[verifier::external_body]
fn url_join(base: &str, path: &str) -> (r: Option<String>)
    ensures
        opt_view(r) == joined_url(base@, path@),
{
    match url::Url::parse(base) {
        Ok(u) => match u.join(path) {
            Ok(j) => Some(j.into()),
            Err(_) => None,
        },
        Err(_) => None,
    }
}

/// The database file a probe downloads, relative to a mirror's base URL.
pub open spec fn db_path(target: TargetDb) -> Seq<char> {
    match target {
        TargetDb::Core => "core/os/x86_64/core.db"@,
        TargetDb::Extra => "extra/os/x86_64/extra.db"@,
    }
}

/// What one probe came to.
#[derive(Debug, Clone, Copy, PartialEq, Eq, Structural)]
pub enum ProbeOutcome {
    /// A response arrived after `elapsed_nanos`; `length` is its declared body length.
    Completed { length: Option<u64>, elapsed_nanos: u64 },
    /// The server answered with a status that is not a success.
    Status(u16),
    /// Timeout, connection failure or another transport error.
    Failed,
}

/// Bytes per second for `length` bytes in `nanos` nanoseconds, rounded down and capped at
/// `u64::MAX`.
pub open spec fn rate_of(length: u64, nanos: u64) -> u64 {
    let q = (length as int * 1_000_000_000) / (nanos as int);
    if q > u64::MAX {
        u64::MAX
    } else {
        q as u64
    }
}

/// The transfer rate a probe measured: only a timed response of known length gives one.
pub open spec fn measured_rate(o: ProbeOutcome) -> Option<u64> {
    match o {
        ProbeOutcome::Completed { length: Some(len), elapsed_nanos } => if elapsed_nanos > 0 {
            Some(rate_of(len, elapsed_nanos))
        } else {
            None
        },
        _ => None,
    }
}

/// The per-record failure a probe reports; it never stops the other probes.
pub open spec fn probe_result(o: ProbeOutcome) -> Result<(), Error> {
    match o {
        ProbeOutcome::Status(code) => Err(Error::HttpStatus(code)),
        _ => Ok(()),
    }
}

/// `m` with the transfer rate that `o` measured, and nothing else changed.
pub open spec fn probed(m: Mirror, o: ProbeOutcome) -> Mirror {
    Mirror { transfer_rate: measured_rate(o), ..m }
}

/// Computes `rate_of(length, nanos)`.
pub fn transfer_rate(length: u64, nanos: u64) -> (r: u64)
    requires
        nanos > 0,
    ensures
        r == rate_of(length, nanos),
{
    let scaled: u128 = length as u128 * 1_000_000_000u128;
    let q: u128 = scaled / (nanos as u128);
    if q > u64::MAX as u128 {
        u64::MAX
    } else {
        q as u64
    }
}

impl Mirror {
    /// The URL of the database file of `target_db` on this mirror.
    pub fn probe_url(&self, target_db: TargetDb) -> (r: Result<String, Error>)
        ensures
            match joined_url(self.url@, db_path(target_db)) {
                Some(u) => r is Ok && r->Ok_0@ == u,
                None => r == Err::<String, Error>(Error::InvalidUrl),
            },
    {
        let path: &str = match target_db {
            TargetDb::Core => "core/os/x86_64/core.db",
            TargetDb::Extra => "extra/os/x86_64/extra.db",
        };
        match url_join(self.url.as_str(), path) {
            Some(u) => Ok(u),
            None => Err(Error::InvalidUrl),
        }
    }

    /// Records the outcome of this mirror's probe: the transfer rate it measured, or none.
    /// An error status is handed back for the caller to report.
    pub fn record_probe(&mut self, outcome: &ProbeOutcome) -> (r: Result<(), Error>)
        ensures
            *final(self) == probed(*old(self), *outcome),
            r == probe_result(*outcome),
    {
        self.transfer_rate = match *outcome {
            ProbeOutcome::Completed { length: Some(len), elapsed_nanos } => if elapsed_nanos > 0 {
                Some(transfer_rate(len, elapsed_nanos))
            } else {
                None
            },
            _ => None,
        };
        match *outcome {
            ProbeOutcome::Status(code) => Err(Error::HttpStatus(code)),
            _ => Ok(()),
        }
    }
}

impl Mirrors {
    /// Records one probe outcome per mirror, the i-th outcome for the i-th mirror; hands back
    /// each mirror's report in the same order.
    pub fn record_probes(&mut self, outcomes: &Vec<ProbeOutcome>) -> (r: Vec<Result<(), Error>>)
        requires
            outcomes@.len() == old(self)@.len(),
        ensures
            final(self)@.len() == old(self)@.len(),
            r@.len() == old(self)@.len(),
            forall|i: int|
                0 <= i < old(self)@.len() ==> #[trigger] final(self)@[i] == probed(
                    old(self)@[i],
                    outcomes@[i],
                ),
            forall|i: int| 0 <= i < old(self)@.len() ==> #[trigger] r@[i] == probe_result(outcomes@[i]),
    {
        let n = self.0.len();
        let mut out: Vec<Mirror> = Vec::new();
        let mut reports: Vec<Result<(), Error>> = Vec::new();
        let mut i: usize = 0;
        while i < n
            invariant
                n == self@.len(),
                self@ == old(self)@,
                outcomes@.len() == n,
                i <= n,
                out@.len() == i,
                reports@.len() == i,
                forall|j: int| 0 <= j < i ==> #[trigger] out@[j] == probed(self@[j], outcomes@[j]),
                forall|j: int| 0 <= j < i ==> #[trigger] reports@[j] == probe_result(outcomes@[j]),
            decreases n - i,
        {
            let mut m = self.0[i].clone();
            let rep = m.record_probe(&outcomes[i]);
            out.push(m);
            reports.push(rep);
            i = i + 1;
        }
        self.0 = out;
        reports
    }
}

} // verus!
