//! Stable ordering of mirror sequences.
use vstd::prelude::*;

use crate::mirror::Mirror;

verus! {

/// The two orders the pipeline puts mirrors in.
#[derive(Debug, Clone, Copy, PartialEq, Eq, Structural)]
pub enum SortOrder {
    /// Delay ascending; a mirror without a delay comes first, as in `Option`'s order.
    ByDelay,
    /// Weighted score descending; a mirror without a weighted score comes last.
    ByWeightedScore,
}

/// The position of a mirror in an order, as an integer sorted ascending.
pub open spec fn rank(order: SortOrder, m: Mirror) -> int {
    match order {
        SortOrder::ByDelay => match m.delay {
            Some(d) => d as int,
            None => i64::MIN - 1,
        },
        SortOrder::ByWeightedScore => match m.weighted_score {
            Some(w) => -(w as int),
            None => 1,
        },
    }
}

pub open spec fn sorted_by(s: Seq<Mirror>, order: SortOrder) -> bool {
    forall|i: int, j: int| 0 <= i < j < s.len() ==> rank(order, s[i]) <= rank(order, s[j])
}

/// The mirrors of `s` whose rank is `k`, in their order in `s`.
pub open spec fn with_rank(s: Seq<Mirror>, order: SortOrder, k: int) -> Seq<Mirror>
    decreases s.len(),
{
    if s.len() == 0 {
        Seq::empty()
    } else {
        let r = with_rank(s.drop_last(), order, k);
        if rank(order, s.last()) == k {
            r.push(s.last())
        } else {
            r
        }
    }
}

/// `out` is `input` sorted stably: as long, ordered by rank, and holding the mirrors of each
/// rank in the order they had in `input`.
pub open spec fn stably_sorted(out: Seq<Mirror>, input: Seq<Mirror>, order: SortOrder) -> bool {
    &&& out.len() == input.len()
    &&& sorted_by(out, order)
    &&& forall|k: int| #[trigger] with_rank(out, order, k) == with_rank(input, order, k)
}

pub proof fn lemma_with_rank_append(a: Seq<Mirror>, b: Seq<Mirror>, order: SortOrder, k: int)
    ensures
        with_rank(a + b, order, k) == with_rank(a, order, k) + with_rank(b, order, k),
    decreases b.len(),
{
    if b.len() == 0 {
        assert(a + b =~= a);
        assert(with_rank(a, order, k) + with_rank(b, order, k) =~= with_rank(a, order, k));
    } else {
        assert((a + b).drop_last() =~= a + b.drop_last());
        lemma_with_rank_append(a, b.drop_last(), order, k);
        if rank(order, b.last()) == k {
            assert(with_rank(a, order, k) + with_rank(b, order, k) =~= (with_rank(a, order, k)
                + with_rank(b.drop_last(), order, k)).push(b.last()));
        }
    }
}

pub proof fn lemma_with_rank_single(x: Mirror, order: SortOrder, k: int)
    ensures
        with_rank(seq![x], order, k) == if rank(order, x) == k {
            seq![x]
        } else {
            Seq::<Mirror>::empty()
        },
{
    assert(seq![x].drop_last() =~= Seq::<Mirror>::empty());
    assert(with_rank(Seq::<Mirror>::empty(), order, k) == Seq::<Mirror>::empty());
    assert(Seq::<Mirror>::empty().push(x) =~= seq![x]);
}

pub proof fn lemma_with_rank_absent(s: Seq<Mirror>, order: SortOrder, k: int)
    requires
        forall|i: int| 0 <= i < s.len() ==> rank(order, #[trigger] s[i]) != k,
    ensures
        with_rank(s, order, k) == Seq::<Mirror>::empty(),
    decreases s.len(),
{
    if s.len() > 0 {
        lemma_with_rank_absent(s.drop_last(), order, k);
    }
}

/// Each mirror of `s` is among the mirrors of its rank.
pub proof fn lemma_with_rank_has(s: Seq<Mirror>, order: SortOrder, j: int)
    requires
        0 <= j < s.len(),
    ensures
        with_rank(s, order, rank(order, s[j])).contains(s[j]),
    decreases s.len(),
{
    let k = rank(order, s[j]);
    if j == s.len() - 1 {
        assert(with_rank(s, order, k).last() == s[j]);
    } else {
        lemma_with_rank_has(s.drop_last(), order, j);
        let r = with_rank(s.drop_last(), order, k);
        let w = choose|i: int| 0 <= i < r.len() && r[i] == s[j];
        if rank(order, s.last()) == k {
            assert(r.push(s.last())[w] == s[j]);
        }
    }
}

/// The mirrors of one rank are mirrors of `s`.
pub proof fn lemma_with_rank_within(s: Seq<Mirror>, order: SortOrder, k: int, x: Mirror)
    requires
        with_rank(s, order, k).contains(x),
    ensures
        s.contains(x),
    decreases s.len(),
{
    if s.len() > 0 {
        let r = with_rank(s.drop_last(), order, k);
        if rank(order, s.last()) == k && x == s.last() {
            assert(s[s.len() - 1] == x);
        } else {
            if rank(order, s.last()) == k {
                let w = choose|i: int| 0 <= i < r.len() + 1 && r.push(s.last())[i] == x;
                assert(r[w] == x);
            }
            lemma_with_rank_within(s.drop_last(), order, k, x);
            let w = choose|i: int| 0 <= i < s.len() - 1 && s.drop_last()[i] == x;
            assert(s[w] == x);
        }
    }
}

/// A stable sort holds only mirrors of its input.
pub proof fn lemma_stably_sorted_within(out: Seq<Mirror>, input: Seq<Mirror>, order: SortOrder, j: int)
    requires
        stably_sorted(out, input, order),
        0 <= j < out.len(),
    ensures
        input.contains(out[j]),
{
    lemma_with_rank_has(out, order, j);
    assert(with_rank(out, order, rank(order, out[j])) == with_rank(input, order, rank(order, out[j])));
    lemma_with_rank_within(input, order, rank(order, out[j]), out[j]);
}

/// A stable sort keeps every mirror of its input.
pub proof fn lemma_stably_sorted_keeps(out: Seq<Mirror>, input: Seq<Mirror>, order: SortOrder, j: int)
    requires
        stably_sorted(out, input, order),
        0 <= j < input.len(),
    ensures
        out.contains(input[j]),
{
    lemma_with_rank_has(input, order, j);
    assert(with_rank(out, order, rank(order, input[j])) == with_rank(input, order, rank(order, input[j])));
    lemma_with_rank_within(out, order, rank(order, input[j]), input[j]);
}

fn rank_le(order: SortOrder, a: &Mirror, b: &Mirror) -> (r: bool)
    ensures
        r == (rank(order, *a) <= rank(order, *b)),
{
    match order {
        SortOrder::ByDelay => match (a.delay, b.delay) {
            (None, _) => true,
            (Some(_), None) => false,
            (Some(x), Some(y)) => x <= y,
        },
        SortOrder::ByWeightedScore => match (a.weighted_score, b.weighted_score) {
            (_, None) => true,
            (None, Some(_)) => false,
            (Some(x), Some(y)) => x >= y,
        },
    }
}

/// Sorts `v` stably by `order` (insertion sort).
pub fn sort_stably(v: &mut Vec<Mirror>, order: SortOrder)
    ensures
        stably_sorted(final(v)@, old(v)@, order),
{
    let n = v.len();
    let mut out: Vec<Mirror> = Vec::new();
    let mut i: usize = 0;
    while i < n
        invariant
            n == v@.len(),
            v@ == old(v)@,
            i <= n,
            out@.len() == i,
            sorted_by(out@, order),
            forall|k: int| #[trigger] with_rank(out@, order, k) == with_rank(v@.take(i as int), order, k),
        decreases n - i,
    {
        let x = v[i].clone();
        let mut pos: usize = out.len();
        while pos > 0 && !rank_le(order, &out[pos - 1], &x)
            invariant
                pos <= out@.len(),
                forall|j: int| pos <= j < out@.len() ==> rank(order, x) < rank(order, #[trigger] out@[j]),
            decreases pos,
        {
            pos = pos - 1;
        }
        let ghost prev = out@;
        proof {
            assert forall|j: int| 0 <= j < pos implies rank(order, #[trigger] prev[j]) <= rank(order, x) by {
                if pos > 0 {
                    assert(rank(order, prev[pos - 1]) <= rank(order, x));
                }
            }
        }
        out.insert(pos, x);
        proof {
            let a = prev.take(pos as int);
            let b = prev.skip(pos as int);
            assert(prev =~= a + b);
            assert(out@ =~= a + seq![x] + b);
            assert(v@.take(i + 1).drop_last() =~= v@.take(i as int));
            assert(v@.take(i + 1).last() == x);
            assert forall|k: int| #[trigger] with_rank(out@, order, k) == with_rank(v@.take(i + 1), order, k) by {
                lemma_with_rank_append(a + seq![x], b, order, k);
                lemma_with_rank_append(a, seq![x], order, k);
                lemma_with_rank_append(a, b, order, k);
                lemma_with_rank_single(x, order, k);
                if k == rank(order, x) {
                    assert forall|j: int| 0 <= j < b.len() implies rank(order, #[trigger] b[j]) != k by {
                        assert(b[j] == prev[pos + j]);
                    }
                    lemma_with_rank_absent(b, order, k);
                    assert(with_rank(a, order, k) + with_rank(seq![x], order, k) + with_rank(b, order, k)
                        =~= with_rank(a, order, k).push(x));
                    assert(with_rank(a, order, k) + with_rank(b, order, k) =~= with_rank(a, order, k));
                } else {
                    assert(with_rank(a, order, k) + with_rank(seq![x], order, k) =~= with_rank(a, order, k));
                }
            }
            assert forall|p: int, q: int| 0 <= p < q < out@.len() implies rank(order, out@[p]) <= rank(order, out@[q]) by {
                if q < pos {
                } else if q == pos {
                    assert(out@[p] == prev[p]);
                } else if p < pos {
                    assert(out@[q] == prev[q - 1]);
                } else if p == pos {
                    assert(out@[q] == prev[q - 1]);
                } else {
                    assert(out@[p] == prev[p - 1]);
                    assert(out@[q] == prev[q - 1]);
                }
            }
        }
        i = i + 1;
    }
    assert(v@.take(n as int) =~= v@);
    *v = out;
}

} // verus!
