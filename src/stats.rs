//! Reduction of a sample set (run durations in nanoseconds) to its
//! median, minimum and maximum.

use vstd::prelude::*;
use vstd::relations::sorted_by;
use vstd::seq_lib::{lemma_sorted_unique, to_multiset_build, to_multiset_insert};

verus! {

/// The ascending order on durations.
pub open spec fn ascending_order() -> spec_fn(u64, u64) -> bool {
    |a: u64, b: u64| a <= b
}

/// The samples sorted ascending.
pub open spec fn ascending(s: Seq<u64>) -> Seq<u64> {
    s.sort_by(ascending_order())
}

/// The textbook median: sort, take the middle element for an odd length and
/// the mean of the two middle elements for an even one.  Durations are whole
/// nanoseconds, so that mean is rounded down.
pub open spec fn median_of(s: Seq<u64>) -> int
    recommends
        s.len() > 0,
{
    let t = ascending(s);
    let mid = s.len() as int / 2;
    if s.len() % 2 == 0 {
        (t[mid - 1] + t[mid]) / 2
    } else {
        t[mid] as int
    }
}

/// The smallest element.
pub open spec fn min_of(s: Seq<u64>) -> u64
    recommends
        s.len() > 0,
    decreases s.len(),
{
    if s.len() <= 1 {
        s[0]
    } else {
        let m = min_of(s.drop_last());
        if s.last() < m {
            s.last()
        } else {
            m
        }
    }
}

/// The largest element.
pub open spec fn max_of(s: Seq<u64>) -> u64
    recommends
        s.len() > 0,
    decreases s.len(),
{
    if s.len() <= 1 {
        s[0]
    } else {
        let m = max_of(s.drop_last());
        if s.last() > m {
            s.last()
        } else {
            m
        }
    }
}

/// Median, minimum and maximum of one non-empty sample set.
#[derive(Clone, Copy, Debug, PartialEq, Eq, Structural)]
pub struct Summary {
    pub median: u64,
    pub min: u64,
    pub max: u64,
}

impl Summary {
    pub open spec fn of(s: Seq<u64>) -> Summary {
        Summary { median: median_of(s) as u64, min: min_of(s), max: max_of(s) }
    }
}

proof fn lemma_ascending_total()
    ensures
        vstd::relations::total_ordering(ascending_order()),
{
}

proof fn lemma_ascending_ensures(s: Seq<u64>)
    ensures
        ascending(s).len() == s.len(),
        ascending(s).to_multiset() == s.to_multiset(),
        forall|i: int, j: int|
            0 <= i <= j < s.len() ==> #[trigger] ascending(s)[i] <= #[trigger] ascending(s)[j],
        forall|i: int| 0 <= i < s.len() ==> s.contains(#[trigger] ascending(s)[i]),
{
    lemma_ascending_total();
    s.lemma_sort_by_ensures(ascending_order());
    let t = ascending(s);
    assert(t.len() == s.len()) by {
        t.to_multiset_ensures();
        s.to_multiset_ensures();
    }
    assert forall|i: int, j: int| 0 <= i <= j < s.len() implies #[trigger] t[i] <= #[trigger] t[j] by {
        if i < j {
            assert(ascending_order()(t[i], t[j]));
        }
    }
    assert forall|i: int| 0 <= i < s.len() implies s.contains(#[trigger] t[i]) by {
        assert(t.contains(t[i]));
    }
}

proof fn lemma_min_of(s: Seq<u64>)
    requires
        s.len() > 0,
    ensures
        s.contains(min_of(s)),
        forall|i: int| 0 <= i < s.len() ==> min_of(s) <= #[trigger] s[i],
    decreases s.len(),
{
    if s.len() > 1 {
        lemma_min_of(s.drop_last());
        assert(s.drop_last().contains(min_of(s.drop_last())));
        let k = choose|k: int| 0 <= k < s.len() - 1 && s.drop_last()[k] == min_of(s.drop_last());
        assert(s[k] == min_of(s.drop_last()));
        assert forall|i: int| 0 <= i < s.len() implies min_of(s) <= #[trigger] s[i] by {
            if i < s.len() - 1 {
                assert(s.drop_last()[i] == s[i]);
            }
        }
    } else {
        assert(s[0] == min_of(s));
    }
}

proof fn lemma_max_of(s: Seq<u64>)
    requires
        s.len() > 0,
    ensures
        s.contains(max_of(s)),
        forall|i: int| 0 <= i < s.len() ==> #[trigger] s[i] <= max_of(s),
    decreases s.len(),
{
    if s.len() > 1 {
        lemma_max_of(s.drop_last());
        assert(s.drop_last().contains(max_of(s.drop_last())));
        let k = choose|k: int| 0 <= k < s.len() - 1 && s.drop_last()[k] == max_of(s.drop_last());
        assert(s[k] == max_of(s.drop_last()));
        assert forall|i: int| 0 <= i < s.len() implies #[trigger] s[i] <= max_of(s) by {
            if i < s.len() - 1 {
                assert(s.drop_last()[i] == s[i]);
            }
        }
    } else {
        assert(s[0] == max_of(s));
    }
}

/// For every non-empty sample set, the minimum is at most the median and the
/// median at most the maximum.
pub proof fn lemma_median_between_min_and_max(s: Seq<u64>)
    requires
        s.len() > 0,
    ensures
        min_of(s) <= median_of(s) <= max_of(s),
{
    lemma_ascending_ensures(s);
    lemma_min_of(s);
    lemma_max_of(s);
    let t = ascending(s);
    assert forall|i: int| 0 <= i < s.len() implies min_of(s) <= #[trigger] t[i] <= max_of(s) by {
        assert(s.contains(t[i]));
    }
    let mid = s.len() as int / 2;
    if s.len() % 2 == 0 {
        assert(min_of(s) <= t[mid - 1]);
        assert(t[mid] <= max_of(s));
    } else {
        assert(min_of(s) <= t[mid]);
    }
}

/// The samples sorted ascending.
pub fn sort_ascending(samples: &Vec<u64>) -> (r: Vec<u64>)
    ensures
        r@ == ascending(samples@),
{
    let mut out: Vec<u64> = Vec::new();
    let mut i: usize = 0;
    proof {
        assert(out@ =~= samples@.subrange(0, 0));
    }
    while i < samples.len()
        invariant
            i <= samples.len(),
            out@.len() == i,
            forall|a: int, b: int| 0 <= a < b < out@.len() ==> #[trigger] out@[a] <= #[trigger] out@[b],
            out@.to_multiset() == samples@.subrange(0, i as int).to_multiset(),
        decreases samples.len() - i,
    {
        let x = samples[i];
        let mut j: usize = 0;
        while j < out.len() && out[j] <= x
            invariant
                j <= out@.len(),
                forall|k: int| 0 <= k < j ==> #[trigger] out@[k] <= x,
            decreases out.len() - j,
        {
            j += 1;
        }
        let ghost before = out@;
        proof {
            to_multiset_insert(before, j as int, x);
            assert(samples@.subrange(0, i + 1) =~= samples@.subrange(0, i as int).push(x));
            to_multiset_build(samples@.subrange(0, i as int), x);
        }
        out.insert(j, x);
        proof {
            assert forall|a: int, b: int| 0 <= a < b < out@.len() implies #[trigger] out@[a] <= #[trigger] out@[b] by {
                if b < j {
                    assert(out@[a] == before[a] && out@[b] == before[b]);
                } else if b == j {
                    assert(out@[a] == before[a]);
                } else if a == j {
                    assert(out@[b] == before[b - 1]);
                    assert(before[j as int] > x);
                    if b - 1 > j {
                        assert(before[j as int] <= before[b - 1]);
                    }
                } else if a < j {
                    assert(out@[a] == before[a] && out@[b] == before[b - 1]);
                } else {
                    assert(out@[a] == before[a - 1] && out@[b] == before[b - 1]);
                }
            }
        }
        i += 1;
    }
    proof {
        assert(samples@.subrange(0, samples@.len() as int) =~= samples@);
        lemma_ascending_total();
        samples@.lemma_sort_by_ensures(ascending_order());
        assert(sorted_by(out@, ascending_order())) by {
            assert forall|a: int, b: int| 0 <= a < b < out@.len() implies #[trigger] ascending_order()(out@[a], out@[b]) by {
                assert(out@[a] <= out@[b]);
            }
        }
        lemma_sorted_unique(out@, ascending(samples@), ascending_order());
    }
    out
}

/// The median of a non-empty sample set.
pub fn median(samples: &Vec<u64>) -> (r: u64)
    requires
        samples.len() > 0,
    ensures
        r as int == median_of(samples@),
{
    let sorted = sort_ascending(samples);
    proof {
        lemma_ascending_ensures(samples@);
    }
    let mid: usize = sorted.len() / 2;
    if sorted.len() % 2 == 0 {
        let total: u128 = sorted[mid - 1] as u128 + sorted[mid] as u128;
        (total / 2) as u64
    } else {
        sorted[mid]
    }
}

/// The smallest sample of a non-empty sample set.
pub fn min_sample(samples: &Vec<u64>) -> (r: u64)
    requires
        samples.len() > 0,
    ensures
        r == min_of(samples@),
{
    let mut m: u64 = samples[0];
    let mut i: usize = 1;
    proof {
        assert(samples@.subrange(0, 1).len() == 1);
    }
    while i < samples.len()
        invariant
            1 <= i <= samples.len(),
            m == min_of(samples@.subrange(0, i as int)),
        decreases samples.len() - i,
    {
        proof {
            assert(samples@.subrange(0, i + 1).drop_last() =~= samples@.subrange(0, i as int));
        }
        if samples[i] < m {
            m = samples[i];
        }
        i += 1;
    }
    proof {
        assert(samples@.subrange(0, samples@.len() as int) =~= samples@);
    }
    m
}

/// The largest sample of a non-empty sample set.
pub fn max_sample(samples: &Vec<u64>) -> (r: u64)
    requires
        samples.len() > 0,
    ensures
        r == max_of(samples@),
{
    let mut m: u64 = samples[0];
    let mut i: usize = 1;
    proof {
        assert(samples@.subrange(0, 1).len() == 1);
    }
    while i < samples.len()
        invariant
            1 <= i <= samples.len(),
            m == max_of(samples@.subrange(0, i as int)),
        decreases samples.len() - i,
    {
        proof {
            assert(samples@.subrange(0, i + 1).drop_last() =~= samples@.subrange(0, i as int));
        }
        if samples[i] > m {
            m = samples[i];
        }
        i += 1;
    }
    proof {
        assert(samples@.subrange(0, samples@.len() as int) =~= samples@);
    }
    m
}

/// Median, minimum and maximum of a non-empty sample set.
pub fn reduce(samples: &Vec<u64>) -> (r: Summary)
    requires
        samples.len() > 0,
    ensures
        r == Summary::of(samples@),
{
    let median = median(samples);
    let min = min_sample(samples);
    let max = max_sample(samples);
    Summary { median, min, max }
}

} // verus!
