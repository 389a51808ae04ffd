//! The local self-test: the median of the samples, and the report.

use vstd::prelude::*;
use vstd::relations;
use vstd::seq_lib;
use vstd::string::*;
use crate::text;

verus! {

/// How often each operation is timed.
pub const ITERATIONS: usize = 1000;

/// How wide the report is.
pub const RULE_WIDTH: usize = 51;

/// The order of the samples.
pub open spec fn at_most() -> spec_fn(u64, u64) -> bool {
    |a: u64, b: u64| a <= b
}

proof fn lemma_at_most_total()
    ensures
        relations::total_ordering(at_most()),
{
}

/// The median of some samples: the middle one when they are sorted, and of two middle ones the
/// greater.
pub open spec fn median(samples: Seq<u64>) -> u64 {
    samples.sort_by(at_most())[samples.len() as int / 2]
}

fn insert_sorted(sorted: &mut Vec<u64>, x: u64)
    requires
        relations::sorted_by(old(sorted)@, at_most()),
    ensures
        relations::sorted_by(final(sorted)@, at_most()),
        final(sorted)@.to_multiset() == old(sorted)@.to_multiset().insert(x),
        final(sorted)@.len() == old(sorted)@.len() + 1,
{
    let ghost before = sorted@;
    let n: usize = sorted.len();
    let mut at: usize = n;
    while at > 0 && sorted[at - 1] > x
        invariant
            at <= n,
            n == sorted@.len(),
            sorted@ == before,
            forall|j: int| at <= j < n ==> #[trigger] before[j] > x,
        decreases at,
    {
        at = at - 1;
    }
    proof {
        assert forall|i: int, j: int| 0 <= i < j < before.len() implies before[i] <= before[j] by {
            assert(at_most()(before[i], before[j]));
        }
    }
    sorted.insert(at, x);
    proof {
        seq_lib::to_multiset_insert(before, at as int, x);
        let after = sorted@;
        assert(after == before.insert(at as int, x));
        assert forall|i: int, j: int| 0 <= i < j < after.len() implies #[trigger] at_most()(
            after[i],
            after[j],
        ) by {
            before.insert_ensures(at as int, x);
            if j < at {
                assert(after[i] == before[i] && after[j] == before[j]);
            } else if j == at {
                assert(after[i] == before[i]);
                if at > 0 {
                    assert(before[i] <= before[at - 1]);
                }
            } else {
                assert(after[j] == before[j - 1]);
                if i < at {
                    assert(after[i] == before[i]);
                } else if i > at {
                    assert(after[i] == before[i - 1]);
                }
            }
        }
    }
}

/// The median of some samples.
pub fn median_ns(samples: &Vec<u64>) -> (m: u64)
    requires
        samples@.len() > 0,
    ensures
        m == median(samples@),
{
    let n: usize = samples.len();
    let mut sorted: Vec<u64> = Vec::new();
    assert(samples@.take(0) =~= sorted@);
    for i in 0..n
        invariant
            n == samples@.len(),
            sorted@.len() == i,
            relations::sorted_by(sorted@, at_most()),
            sorted@.to_multiset() == samples@.take(i as int).to_multiset(),
    {
        insert_sorted(&mut sorted, samples[i]);
        proof {
            assert(samples@.take(i + 1) =~= samples@.take(i as int).push(samples@[i as int]));
            samples@.take(i as int).to_multiset_ensures();
        }
    }
    proof {
        assert(samples@.take(n as int) =~= samples@);
        lemma_at_most_total();
        samples@.lemma_sort_by_ensures(at_most());
        seq_lib::lemma_sorted_unique(sorted@, samples@.sort_by(at_most()), at_most());
    }
    sorted[n / 2]
}

/// A row of the report: an operation, and what is measured of it.
pub open spec fn row_text(label: Seq<char>, value: Seq<char>) -> Seq<char> {
    "  "@ + text::padded(label, 38) + " "@ + value
}

/// A row of the report.
pub fn row(label: &str, value: &str) -> (out: String)
    ensures
        out@ == row_text(label@, value@),
{
    let mut out: String = text::owned("  ");
    text::push_padded(&mut out, label, 38);
    out.append(" ");
    out.append(value);
    assert(out@ =~= row_text(label@, value@));
    out
}

/// The median of samples is the one in the middle when they are put in order.
pub proof fn law_median(samples: Seq<u64>)
    requires
        samples.len() > 0,
    ensures
        exists|s: Seq<u64>|
            s.to_multiset() == samples.to_multiset() && s.len() == samples.len() && (forall|
                i: int,
                j: int,
            |
                0 <= i < j < s.len() ==> s[i] <= s[j]) && median(samples) == #[trigger] s[s.len()
                as int / 2],
{
    let s = samples.sort_by(at_most());
    samples.lemma_sort_by_ensures(at_most());
    assert forall|i: int, j: int| 0 <= i < j < s.len() implies s[i] <= s[j] by {
        assert(at_most()(s[i], s[j]));
    }
    assert(s.len() == samples.len()) by {
        broadcast use vstd::seq_lib::group_to_multiset_ensures;

        assert(s.to_multiset().len() == samples.to_multiset().len());
    }
    assert(median(samples) == s[s.len() as int / 2]);
}

} // verus!
