//! Mirror records, the catalog, and the filter → score → select pipeline over them.
use vstd::prelude::*;

use crate::error::Error;
use crate::exclude::{domain_key, excluded_by, ExcludedMirrors, RuleView};
use crate::order::{lemma_stably_sorted_within, rank, sort_stably, sorted_by, stably_sorted, SortOrder};
use crate::text::lower_of;

verus! {

/// Fractional quantities (completion, upstream score, durations) are held in billionths:
/// this many units make one whole.
pub const FIXED_ONE: u64 = 1_000_000_000;

/// The repository whose database file a probe downloads.
#[derive(Debug, Clone, Copy, PartialEq, Eq, Structural)]
pub enum TargetDb {
    Core,
    Extra,
}

/// One entry of the mirror catalog.
#[derive(Debug)]
pub struct Mirror {
    /// Absolute base URL.
    pub url: String,
    pub protocol: String,
    pub last_sync: Option<String>,
    /// Fraction of the repository the mirror holds, in billionths.
    pub completion_pct: Option<u64>,
    /// Seconds behind upstream.
    pub delay: Option<i64>,
    /// Historical duration statistics in billionths of a second; not used for ranking.
    pub duration_avg: Option<u64>,
    pub duration_stddev: Option<u64>,
    /// Upstream quality score in billionths; lower is better.
    pub score: Option<i64>,
    pub active: bool,
    pub country: String,
    pub country_code: String,
    pub isos: bool,
    pub ipv4: bool,
    pub ipv6: bool,
    pub details: String,
    /// Measured transfer rate in bytes per second.
    pub transfer_rate: Option<u64>,
    /// Ranking metric, higher is better: the transfer rate times the distance, in
    /// billionths, of the upstream score below the best (largest) score of the set.
    pub weighted_score: Option<u128>,
}

fn clone_opt_string(s: &Option<String>) -> (r: Option<String>)
    ensures
        r == *s,
{
    match s {
        Some(v) => Some(v.clone()),
        None => None,
    }
}

impl Clone for Mirror {
    fn clone(&self) -> (r: Self)
        ensures
            r == *self,
    {
        Mirror {
            url: self.url.clone(),
            protocol: self.protocol.clone(),
            last_sync: clone_opt_string(&self.last_sync),
            completion_pct: self.completion_pct,
            delay: self.delay,
            duration_avg: self.duration_avg,
            duration_stddev: self.duration_stddev,
            score: self.score,
            active: self.active,
            country: self.country.clone(),
            country_code: self.country_code.clone(),
            isos: self.isos,
            ipv4: self.ipv4,
            ipv6: self.ipv6,
            details: self.details.clone(),
            transfer_rate: self.transfer_rate,
            weighted_score: self.weighted_score,
        }
    }
}

impl Default for Mirror {
    fn default() -> (r: Self)
        ensures
            r.url@.len() == 0,
            r.protocol@.len() == 0,
            r.last_sync is None,
            r.completion_pct is None,
            r.delay is None,
            r.duration_avg is None,
            r.duration_stddev is None,
            r.score is None,
            !r.active,
            r.country@.len() == 0,
            r.country_code@.len() == 0,
            !r.isos,
            !r.ipv4,
            !r.ipv6,
            r.details@.len() == 0,
            r.transfer_rate is None,
            r.weighted_score is None,
    {
        Mirror {
            url: String::new(),
            protocol: String::new(),
            last_sync: None,
            completion_pct: None,
            delay: None,
            duration_avg: None,
            duration_stddev: None,
            score: None,
            active: false,
            country: String::new(),
            country_code: String::new(),
            isos: false,
            ipv4: false,
            ipv6: false,
            details: String::new(),
            transfer_rate: None,
            weighted_score: None,
        }
    }
}

/// The most seconds a mirror may lag behind upstream and still count as synced.
pub const MAX_DELAY: i64 = 3600;

/// An ordered sequence of mirrors.
#[derive(Debug)]
pub struct Mirrors(pub Vec<Mirror>);

impl View for Mirrors {
    type V = Seq<Mirror>;

    open spec fn view(&self) -> Seq<Mirror> {
        self.0@
    }
}

impl Clone for Mirrors {
    fn clone(&self) -> (r: Self)
        ensures
            r@ == self@,
    {
        let mut v: Vec<Mirror> = Vec::new();
        let mut i: usize = 0;
        while i < self.0.len()
            invariant
                i <= self@.len(),
                v@ == self@.take(i as int),
            decreases self@.len() - i,
        {
            v.push(self.0[i].clone());
            i = i + 1;
            assert(v@ =~= self@.take(i as int));
        }
        assert(self@.take(self@.len() as int) =~= self@);
        Mirrors(v)
    }
}

impl Mirrors {
    pub fn len(&self) -> (r: usize)
        ensures
            r == self@.len(),
    {
        self.0.len()
    }

    pub fn is_empty(&self) -> (r: bool)
        ensures
            r == (self@.len() == 0),
    {
        self.0.len() == 0
    }
}

/// The mirror catalog: the mirrors and the catalog's own metadata.
#[derive(Debug)]
pub struct MirrorsStatus {
    pub cutoff: u64,
    pub last_check: String,
    pub num_checks: u64,
    pub check_frequency: u64,
    pub urls: Mirrors,
    pub version: u64,
}

/// Whether a protocol name is `http` or `https`.
pub open spec fn web_protocol(p: Seq<char>) -> bool {
    p == seq!['h', 't', 't', 'p'] || p == seq!['h', 't', 't', 'p', 's']
}

/// Whether a mirror is in sync: active, served over HTTP(S), complete (to the billionth)
/// and less than `MAX_DELAY` seconds behind.
pub open spec fn synced(m: Mirror) -> bool {
    &&& m.active
    &&& web_protocol(m.protocol@)
    &&& m.completion_pct == Some(FIXED_ONE)
    &&& m.delay is Some
    &&& m.delay->0 < MAX_DELAY
}

/// Whether a rule set, if any, excludes a mirror.
pub open spec fn excluded(rules: Option<Seq<Option<RuleView>>>, m: Mirror) -> bool {
    match rules {
        Some(r) => excluded_by(
            r,
            domain_key(m.url@),
            lower_of(m.country@),
            lower_of(m.country_code@),
        ),
        None => false,
    }
}

/// The mirrors of `ms` that are synced and not excluded, in catalog order.
pub open spec fn candidates(ms: Seq<Mirror>, rules: Option<Seq<Option<RuleView>>>) -> Seq<Mirror>
    decreases ms.len(),
{
    if ms.len() == 0 {
        Seq::empty()
    } else {
        let r = candidates(ms.drop_last(), rules);
        if synced(ms.last()) && !excluded(rules, ms.last()) {
            r.push(ms.last())
        } else {
            r
        }
    }
}

/// How many of `n` mirrors a bound keeps: all of them unless the bound is positive and smaller.
pub open spec fn limit(n: int, bound: Option<u32>) -> int {
    match bound {
        Some(k) => if 0 < k < n {
            k as int
        } else {
            n
        },
        None => n,
    }
}

pub open spec fn rules_view(rules: Option<ExcludedMirrors>) -> Option<Seq<Option<RuleView>>> {
    match rules {
        Some(e) => Some(e@),
        None => None,
    }
}

/// `out` is what the sync filter yields for a catalog: its candidates sorted stably by
/// delay, cut to `max_check` of them when that is positive.
pub open spec fn best_synced(
    ms: Seq<Mirror>,
    max_check: Option<u32>,
    rules: Option<Seq<Option<RuleView>>>,
    out: Seq<Mirror>,
) -> bool {
    let c = candidates(ms, rules);
    exists|sorted: Seq<Mirror>|
        stably_sorted(sorted, c, SortOrder::ByDelay) && out == #[trigger] sorted.take(limit(c.len() as int, max_check))
}

fn is_web_protocol(p: &String) -> (r: bool)
    ensures
        r == web_protocol(p@),
{
    let s = p.as_str();
    let n = s.unicode_len();
    if n != 4 && n != 5 {
        return false;
    }
    let head = s.get_char(0) == 'h' && s.get_char(1) == 't' && s.get_char(2) == 't' && s.get_char(3) == 'p';
    let r = head && (n == 4 || s.get_char(4) == 's');
    proof {
        if r {
            if n == 4 {
                assert(p@ =~= seq!['h', 't', 't', 'p']);
            } else {
                assert(p@ =~= seq!['h', 't', 't', 'p', 's']);
            }
        } else {
            if p@ == seq!['h', 't', 't', 'p'] {
                assert(p@[0] == 'h' && p@[1] == 't' && p@[2] == 't' && p@[3] == 'p');
            }
            if p@ == seq!['h', 't', 't', 'p', 's'] {
                assert(p@[0] == 'h' && p@[1] == 't' && p@[2] == 't' && p@[3] == 'p' && p@[4] == 's');
            }
        }
    }
    r
}

impl Mirror {
    /// Whether this mirror passes the synchronisation predicate.
    pub fn is_synced(&self) -> (r: bool)
        ensures
            r == synced(*self),
    {
        self.active && is_web_protocol(&self.protocol) && match self.completion_pct {
            Some(c) => c == FIXED_ONE,
            None => false,
        } && match self.delay {
            Some(d) => d < MAX_DELAY,
            None => false,
        }
    }
}

/// The candidates of `ms` under the rules, as a vector.
pub fn filter_candidates(ms: &Vec<Mirror>, rules: &Option<ExcludedMirrors>) -> (r: Vec<Mirror>)
    ensures
        r@ == candidates(ms@, rules_view(*rules)),
{
    let mut out: Vec<Mirror> = Vec::new();
    let mut i: usize = 0;
    while i < ms.len()
        invariant
            i <= ms@.len(),
            out@ == candidates(ms@.take(i as int), rules_view(*rules)),
        decreases ms@.len() - i,
    {
        let m = &ms[i];
        let keep = m.is_synced() && match rules {
            Some(e) => !e.is_exclude(m),
            None => true,
        };
        assert(ms@.take(i + 1).drop_last() =~= ms@.take(i as int));
        if keep {
            out.push(m.clone());
        }
        i = i + 1;
    }
    assert(ms@.take(ms@.len() as int) =~= ms@);
    out
}

impl MirrorsStatus {
    /// The mirrors that are in sync and not excluded, by delay ascending (stably), at most
    /// `max_check` of them when that is positive. Fails when no mirror is left.
    pub fn best_synced_mirrors(&self, max_check: Option<u32>, excluded_mirrors: Option<ExcludedMirrors>) -> (r: Result<Mirrors, Error>)
        ensures
            r is Err <==> candidates(self.urls@, rules_view(excluded_mirrors)).len() == 0,
            r is Err ==> r->Err_0 == Error::NoBestSyncedMirrors,
            r is Ok ==> best_synced(self.urls@, max_check, rules_view(excluded_mirrors), r->Ok_0@),
            r is Ok ==> r->Ok_0@.len() == limit(
                candidates(self.urls@, rules_view(excluded_mirrors)).len() as int,
                max_check,
            ),
    {
        let mut v = filter_candidates(&self.urls.0, &excluded_mirrors);
        let ghost c = v@;
        sort_stably(&mut v, SortOrder::ByDelay);
        let ghost sorted = v@;
        match max_check {
            Some(k) => {
                if k > 0 && (k as usize) < v.len() {
                    v.truncate(k as usize);
                }
            },
            None => {},
        }
        assert(v@ == sorted.take(limit(c.len() as int, max_check)));
        if v.len() == 0 {
            return Err(Error::NoBestSyncedMirrors);
        }
        Ok(Mirrors(v))
    }
}

/// Every candidate is synced and not excluded.
pub proof fn lemma_candidates_qualify(ms: Seq<Mirror>, rules: Option<Seq<Option<RuleView>>>, x: Mirror)
    requires
        candidates(ms, rules).contains(x),
    ensures
        synced(x),
        !excluded(rules, x),
    decreases ms.len(),
{
    if ms.len() > 0 {
        let r = candidates(ms.drop_last(), rules);
        if synced(ms.last()) && !excluded(rules, ms.last()) && x == ms.last() {
        } else {
            if synced(ms.last()) && !excluded(rules, ms.last()) {
                let w = choose|i: int| 0 <= i < r.len() + 1 && r.push(ms.last())[i] == x;
                assert(r[w] == x);
            }
            lemma_candidates_qualify(ms.drop_last(), rules, x);
        }
    }
}

/// Each mirror the sync filter yields is active, served over HTTP or HTTPS, complete and
/// less than `MAX_DELAY` seconds behind, and not excluded by the rules; the mirrors come
/// by delay ascending.
pub proof fn lemma_best_synced_qualify(
    ms: Seq<Mirror>,
    max_check: Option<u32>,
    rules: Option<Seq<Option<RuleView>>>,
    out: Seq<Mirror>,
)
    requires
        best_synced(ms, max_check, rules, out),
    ensures
        forall|i: int| 0 <= i < out.len() ==> synced(#[trigger] out[i]) && !excluded(rules, out[i]),
        forall|i: int, j: int| 0 <= i < j < out.len() ==> out[i].delay->0 <= out[j].delay->0,
{
    let c = candidates(ms, rules);
    let sorted = choose|sorted: Seq<Mirror>|
        stably_sorted(sorted, c, SortOrder::ByDelay) && out == #[trigger] sorted.take(limit(c.len() as int, max_check));
    assert forall|i: int| 0 <= i < out.len() implies synced(#[trigger] out[i]) && !excluded(rules, out[i]) by {
        assert(out[i] == sorted[i]);
        lemma_stably_sorted_within(sorted, c, SortOrder::ByDelay, i);
        lemma_candidates_qualify(ms, rules, out[i]);
    }
    assert forall|i: int, j: int| 0 <= i < j < out.len() implies out[i].delay->0 <= out[j].delay->0 by {
        assert(out[i] == sorted[i] && out[j] == sorted[j]);
        assert(rank(SortOrder::ByDelay, sorted[i]) <= rank(SortOrder::ByDelay, sorted[j]));
        assert(synced(out[i]) && synced(out[j]));
    }
}

/// A catalog entry without a delay never comes out of the sync filter.
pub proof fn lemma_no_delay_never_synced(
    ms: Seq<Mirror>,
    max_check: Option<u32>,
    rules: Option<Seq<Option<RuleView>>>,
    out: Seq<Mirror>,
    m: Mirror,
)
    requires
        best_synced(ms, max_check, rules, out),
        m.delay is None,
    ensures
        !out.contains(m),
{
    lemma_best_synced_qualify(ms, max_check, rules, out);
    if out.contains(m) {
        let i = choose|i: int| 0 <= i < out.len() && out[i] == m;
        assert(synced(out[i]));
    }
}

} // verus!
