//! Weighted scoring and selection of the best mirrors.
use vstd::prelude::*;

use crate::error::Error;
use crate::mirror::{Mirror, Mirrors};
use crate::order::{sort_stably, stably_sorted, SortOrder};

verus! {

/// The largest upstream score in `ms`, if any mirror has one.
pub open spec fn top_score(ms: Seq<Mirror>) -> Option<i64>
    decreases ms.len(),
{
    if ms.len() == 0 {
        None
    } else {
        let t = top_score(ms.drop_last());
        match ms.last().score {
            None => t,
            Some(s) => match t {
                None => Some(s),
                Some(u) => Some(if s > u { s } else { u }),
            },
        }
    }
}

/// The base the upstream scores are measured down from: the largest score, or 0 if none.
pub open spec fn max_score(ms: Seq<Mirror>) -> int {
    match top_score(ms) {
        Some(s) => s as int,
        None => 0,
    }
}

pub open spec fn rate_or_zero(m: Mirror) -> int {
    match m.transfer_rate {
        Some(r) => r as int,
        None => 0,
    }
}

/// The weighted score of `m` against base `top`: the transfer rate (0 when unmeasured)
/// times how far the upstream score lies below `top`; none without an upstream score.
pub open spec fn weighted(m: Mirror, top: int) -> Option<int> {
    match m.score {
        Some(s) => Some(rate_or_zero(m) * (top - s)),
        None => None,
    }
}

pub open spec fn opt_int(o: Option<u128>) -> Option<int> {
    match o {
        Some(w) => Some(w as int),
        None => None,
    }
}

/// `m` with its weighted score against `top` filled in.
pub open spec fn scored(m: Mirror, top: int) -> Mirror {
    Mirror {
        weighted_score: match weighted(m, top) {
            Some(w) => Some(w as u128),
            None => None,
        },
        ..m
    }
}

/// Every mirror of `ms` scored against the largest score of `ms`.
pub open spec fn scored_all(ms: Seq<Mirror>) -> Seq<Mirror> {
    Seq::new(ms.len(), |i: int| scored(ms[i], max_score(ms)))
}

/// How many of `len` mirrors a selection of `n` keeps.
pub open spec fn select_count(n: u32, len: int) -> int {
    if n < len {
        n as int
    } else {
        len
    }
}

/// `out` is what evaluation selects from probed mirrors `ms`: the scored mirrors sorted
/// stably by weighted score descending (unscored last), the first `n` of them.
pub open spec fn evaluated(ms: Seq<Mirror>, n: u32, out: Seq<Mirror>) -> bool {
    exists|sorted: Seq<Mirror>|
        stably_sorted(sorted, scored_all(ms), SortOrder::ByWeightedScore) && out == #[trigger] sorted.take(select_count(n, ms.len() as int))
}

/// No upstream score in `ms` exceeds `max_score(ms)`.
pub proof fn lemma_max_score_bounds(ms: Seq<Mirror>, i: int)
    requires
        0 <= i < ms.len(),
        ms[i].score is Some,
    ensures
        top_score(ms) is Some,
        ms[i].score->0 <= max_score(ms),
    decreases ms.len(),
{
    if i < ms.len() - 1 {
        lemma_max_score_bounds(ms.drop_last(), i);
        assert(ms.drop_last()[i] == ms[i]);
    }
}

/// A weighted score lies in `0 ..= (2^64 - 1)^2`, so it fits in `u128`.
pub proof fn lemma_weighted_fits(ms: Seq<Mirror>, i: int)
    requires
        0 <= i < ms.len(),
        ms[i].score is Some,
    ensures
        0 <= weighted(ms[i], max_score(ms))->0 <= u128::MAX,
{
    lemma_max_score_bounds(ms, i);
    let r = rate_or_zero(ms[i]);
    let d = max_score(ms) - ms[i].score->0;
    assert(0 <= r <= u64::MAX);
    assert(0 <= d <= u64::MAX);
    assert(0 <= r * d <= u64::MAX * u64::MAX) by (nonlinear_arith)
        requires
            0 <= r <= u64::MAX,
            0 <= d <= u64::MAX,
    ;
}

impl Mirrors {
    /// Fills in every mirror's weighted score; nothing else changes.
    pub fn score(&mut self)
        ensures
            final(self)@ == scored_all(old(self)@),
            forall|i: int|
                0 <= i < old(self)@.len() ==> opt_int(#[trigger] final(self)@[i].weighted_score)
                    == weighted(old(self)@[i], max_score(old(self)@)),
    {
        let n = self.0.len();
        let mut top: Option<i64> = None;
        let mut i: usize = 0;
        while i < n
            invariant
                n == self@.len(),
                i <= n,
                top == top_score(self@.take(i as int)),
            decreases n - i,
        {
            assert(self@.take(i + 1).drop_last() =~= self@.take(i as int));
            top = match (self.0[i].score, top) {
                (None, t) => t,
                (Some(s), None) => Some(s),
                (Some(s), Some(u)) => Some(if s > u { s } else { u }),
            };
            i = i + 1;
        }
        assert(self@.take(n as int) =~= self@);
        let base: i64 = match top {
            Some(t) => t,
            None => 0,
        };
        let mut out: Vec<Mirror> = Vec::new();
        let mut j: usize = 0;
        while j < n
            invariant
                n == self@.len(),
                self@ == old(self)@,
                base == max_score(self@),
                j <= n,
                out@.len() == j,
                forall|k: int| 0 <= k < j ==> #[trigger] out@[k] == scored(self@[k], max_score(self@)),
                forall|k: int| 0 <= k < j ==> opt_int(#[trigger] out@[k].weighted_score) == weighted(self@[k], max_score(self@)),
            decreases n - j,
        {
            let mut m = self.0[j].clone();
            m.weighted_score = match m.score {
                Some(s) => {
                    proof {
                        lemma_max_score_bounds(self@, j as int);
                        lemma_weighted_fits(self@, j as int);
                    }
                    let d: u128 = (base as i128 - s as i128) as u128;
                    let r: u128 = match m.transfer_rate {
                        Some(x) => x as u128,
                        None => 0,
                    };
                    assert(r as int * d as int == weighted(self@[j as int], max_score(self@))->0);
                    Some(r * d)
                },
                None => None,
            };
            out.push(m);
            j = j + 1;
        }
        assert(out@ =~= scored_all(self@));
        self.0 = out;
    }

    /// Orders the mirrors by weighted score, highest first, stably; unscored mirrors last.
    pub fn sort_by_weighted_score(&mut self)
        ensures
            stably_sorted(final(self)@, old(self)@, SortOrder::ByWeightedScore),
    {
        sort_stably(&mut self.0, SortOrder::ByWeightedScore);
    }

    /// Keeps the first `n` mirrors.
    pub fn select(&mut self, n: u32)
        ensures
            final(self)@ == old(self)@.take(select_count(n, old(self)@.len() as int)),
    {
        if (n as usize) < self.0.len() {
            self.0.truncate(n as usize);
        } else {
            assert(self@.take(self@.len() as int) =~= self@);
        }
    }

    /// The `n` best of these mirrors, which carry their probe results (`record_probes`):
    /// each is scored against the largest upstream score among them, they are sorted stably
    /// by weighted score, and the first `n` are kept. Fails when that leaves none.
    pub fn evaluate(&self, n: u32) -> (r: Result<Mirrors, Error>)
        ensures
            r is Err <==> (n == 0 || self@.len() == 0),
            r is Err ==> r->Err_0 == Error::NoBestMirrors,
            r is Ok ==> evaluated(self@, n, r->Ok_0@) && r->Ok_0@.len() <= n,
    {
        let mut mirrors = self.clone();
        mirrors.score();
        mirrors.sort_by_weighted_score();
        let ghost sorted = mirrors@;
        mirrors.select(n);
        assert(mirrors@ == sorted.take(select_count(n, self@.len() as int)));
        if mirrors.is_empty() {
            return Err(Error::NoBestMirrors);
        }
        Ok(mirrors)
    }
}

} // verus!
