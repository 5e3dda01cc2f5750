//! Small statistics helpers shared by the measurement harnesses. Samples
//! are the bit patterns of doubles; a percentile is given as a ratio of
//! integers.
use vstd::prelude::*;

verus! {

use crate::bits::F64_SIGN;
use vstd::relations::{sorted_by, total_ordering};

/// Position in the total order of doubles, in which every pattern has a
/// place of its own: negative NaN first, -0 just below +0, positive NaN
/// last.
pub open spec fn total_key(b: u64) -> int {
    if b < F64_SIGN {
        b as int
    } else {
        F64_SIGN - 1 - b
    }
}

/// The total order.
pub open spec fn total_order() -> spec_fn(u64, u64) -> bool {
    |a: u64, b: u64| total_key(a) <= total_key(b)
}

/// A sample in ascending order.
pub open spec fn ranked(sample: Seq<u64>) -> Seq<u64> {
    sample.sort_by(total_order())
}

/// The nearest rank, counted from 1, of the ratio `num / den` in a sample
/// of `n`: the least rank that covers the ratio, clamped into the sample.
pub open spec fn nearest_rank(n: int, num: int, den: int) -> int {
    let covered = (num * n + den - 1) / den;
    if covered < 1 {
        1
    } else if covered > n {
        n
    } else {
        covered
    }
}

/// The nearest-rank percentile of an ascending sample; zero when empty.
pub open spec fn percentile_of(sorted: Seq<u64>, num: int, den: int) -> u64 {
    if sorted.len() == 0 {
        0
    } else {
        sorted[nearest_rank(sorted.len() as int, num, den) - 1]
    }
}

/// The total order is one.
pub proof fn lemma_total_order()
    ensures
        total_ordering(total_order()),
{
}

fn precedes(a: u64, b: u64) -> (r: bool)
    ensures
        r == (total_key(a) <= total_key(b)),
{
    if a < F64_SIGN {
        b < F64_SIGN && a <= b
    } else {
        b < F64_SIGN || b <= a
    }
}

/// Nearest-rank percentile over an ascending sample, for the ratio
/// `num / den` clamped into `[0, 1]`. An empty sample gives zero.
pub fn percentile(sorted: &Vec<u64>, num: u64, den: u64) -> (r: u64)
    requires
        den > 0,
    ensures
        r == percentile_of(sorted@, num as int, den as int),
{
    let n: usize = sorted.len();
    if n == 0 {
        return 0;
    }
    if num >= den {
        proof {
            assert(num * n >= den * n) by (nonlinear_arith)
                requires
                    num >= den,
            ;
            assert((den * n + den - 1) / (den as int) == n) by (nonlinear_arith)
                requires
                    den > 0,
            ;
            vstd::arithmetic::div_mod::lemma_div_is_ordered(
                den * n + den - 1,
                num * n + den - 1,
                den as int,
            );
        }
        return sorted[n - 1];
    }
    proof {
        assert(0 <= num * n <= u64::MAX * u64::MAX) by (nonlinear_arith)
            requires
                0 <= num <= u64::MAX,
                0 <= n <= u64::MAX,
        ;
        assert(u64::MAX * u64::MAX + u64::MAX <= u128::MAX);
        assert((num * n + den - 1) / (den as int) <= n) by (nonlinear_arith)
            requires
                den > 0,
                num < den,
                n >= 0,
        ;
        assert((num * n + den - 1) / (den as int) >= 0) by (nonlinear_arith)
            requires
                den > 0,
                num * n >= 0,
        ;
    }
    let covered: u128 = (num as u128 * n as u128 + (den as u128 - 1)) / den as u128;
    let rank: usize = if covered < 1 {
        1
    } else {
        covered as usize
    };
    sorted[rank - 1]
}

proof fn lemma_taking_one_more(out: Seq<u64>, a: Seq<u64>, b: Seq<u64>, x: u64)
    requires
        out.to_multiset() == a.to_multiset().add(b.to_multiset()),
    ensures
        out.push(x).to_multiset() == a.push(x).to_multiset().add(b.to_multiset()),
        out.push(x).to_multiset() == a.to_multiset().add(b.push(x).to_multiset()),
{
    broadcast use vstd::seq_lib::group_to_multiset_ensures;

    assert(out.push(x).to_multiset() =~= a.push(x).to_multiset().add(b.to_multiset()));
    assert(out.push(x).to_multiset() =~= a.to_multiset().add(b.push(x).to_multiset()));
}

fn merge(a: &Vec<u64>, b: &Vec<u64>) -> (r: Vec<u64>)
    requires
        sorted_by(a@, total_order()),
        sorted_by(b@, total_order()),
        a@.len() + b@.len() <= usize::MAX,
    ensures
        sorted_by(r@, total_order()),
        r@.to_multiset() == a@.to_multiset().add(b@.to_multiset()),
{
    broadcast use vstd::seq_lib::group_to_multiset_ensures;

    let mut out: Vec<u64> = Vec::with_capacity(a.len() + b.len());
    let mut i: usize = 0;
    let mut j: usize = 0;
    proof {
        assert(a@.take(0) =~= Seq::<u64>::empty());
        assert(b@.take(0) =~= Seq::<u64>::empty());
        assert(out@.to_multiset() =~= a@.take(0).to_multiset().add(b@.take(0).to_multiset()));
    }
    while i < a.len() || j < b.len()
        invariant
            i <= a@.len(),
            j <= b@.len(),
            a@.len() + b@.len() <= usize::MAX,
            sorted_by(a@, total_order()),
            sorted_by(b@, total_order()),
            sorted_by(out@, total_order()),
            out@.to_multiset() == a@.take(i as int).to_multiset().add(
                b@.take(j as int).to_multiset(),
            ),
            forall|k: int, m: int|
                0 <= k < out@.len() && i <= m < a@.len() ==> total_key(#[trigger] out@[k])
                    <= total_key(#[trigger] a@[m]),
            forall|k: int, m: int|
                0 <= k < out@.len() && j <= m < b@.len() ==> total_key(#[trigger] out@[k])
                    <= total_key(#[trigger] b@[m]),
        decreases a@.len() - i + b@.len() - j,
    {
        let ghost before = out@;
        let from_a: bool = j >= b.len() || (i < a.len() && precedes(a[i], b[j]));
        if from_a {
            out.push(a[i]);
            proof {
                assert(a@.take(i + 1) =~= a@.take(i as int).push(a@[i as int]));
                lemma_taking_one_more(before, a@.take(i as int), b@.take(j as int), a@[i as int]);
                assert forall|m: int| i <= m < a@.len() implies total_key(a@[i as int])
                    <= total_key(#[trigger] a@[m]) by {
                    if i < m {
                        assert(total_order()(a@[i as int], a@[m]));
                    }
                }
                assert forall|m: int| j <= m < b@.len() implies total_key(a@[i as int])
                    <= total_key(#[trigger] b@[m]) by {
                    if j < m {
                        assert(total_order()(b@[j as int], b@[m]));
                    }
                }
            }
            i = i + 1;
        } else {
            out.push(b[j]);
            proof {
                assert(b@.take(j + 1) =~= b@.take(j as int).push(b@[j as int]));
                lemma_taking_one_more(before, a@.take(i as int), b@.take(j as int), b@[j as int]);
                assert forall|m: int| j <= m < b@.len() implies total_key(b@[j as int])
                    <= total_key(#[trigger] b@[m]) by {
                    if j < m {
                        assert(total_order()(b@[j as int], b@[m]));
                    }
                }
                assert forall|m: int| i <= m < a@.len() implies total_key(b@[j as int])
                    <= total_key(#[trigger] a@[m]) by {
                    if i < m {
                        assert(total_order()(a@[i as int], a@[m]));
                    }
                }
            }
            j = j + 1;
        }
        proof {
            assert forall|x: int, y: int| 0 <= x < y < out@.len() implies #[trigger] total_order()(
                out@[x],
                out@[y],
            ) by {
                if y < before.len() {
                    assert(total_order()(before[x], before[y]));
                }
            }
        }
    }
    proof {
        assert(a@.take(i as int) =~= a@);
        assert(b@.take(j as int) =~= b@);
    }
    out
}

fn sort_range(v: &Vec<u64>, from: usize, to: usize) -> (r: Vec<u64>)
    requires
        from <= to <= v@.len(),
    ensures
        sorted_by(r@, total_order()),
        r@.to_multiset() == v@.subrange(from as int, to as int).to_multiset(),
    decreases to - from,
{
    if to - from <= 1 {
        let mut out: Vec<u64> = Vec::new();
        if from < to {
            out.push(v[from]);
        }
        proof {
            assert(out@ =~= v@.subrange(from as int, to as int));
        }
        return out;
    }
    let mid: usize = from + (to - from) / 2;
    let left = sort_range(v, from, mid);
    let right = sort_range(v, mid, to);
    proof {
        broadcast use vstd::seq_lib::group_to_multiset_ensures;

        let a = v@.subrange(from as int, mid as int);
        let b = v@.subrange(mid as int, to as int);
        assert(a + b =~= v@.subrange(from as int, to as int));
        vstd::seq_lib::lemma_multiset_commutative(a, b);
        assert(left@.len() == left@.to_multiset().len());
        assert(right@.len() == right@.to_multiset().len());
        assert(a.len() == a.to_multiset().len());
        assert(b.len() == b.to_multiset().len());
    }
    merge(&left, &right)
}

/// Put a sample in ascending order.
pub fn sort(sample: &Vec<u64>) -> (r: Vec<u64>)
    ensures
        r@ == ranked(sample@),
{
    let r = sort_range(sample, 0, sample.len());
    proof {
        lemma_total_order();
        assert(sample@.subrange(0, sample@.len() as int) =~= sample@);
        sample@.lemma_sort_by_ensures(total_order());
        vstd::seq_lib::lemma_sorted_unique(r@, ranked(sample@), total_order());
    }
    r
}

/// Minimum, median, 90th and 99th percentile, and maximum of an unsorted
/// sample.
pub fn five_number_summary(sample: &Vec<u64>) -> (r: (u64, u64, u64, u64, u64))
    ensures
        r.0 == percentile_of(ranked(sample@), 0, 100),
        r.1 == percentile_of(ranked(sample@), 50, 100),
        r.2 == percentile_of(ranked(sample@), 90, 100),
        r.3 == percentile_of(ranked(sample@), 99, 100),
        r.4 == percentile_of(ranked(sample@), 100, 100),
{
    let sorted = sort(sample);
    (
        percentile(&sorted, 0, 100),
        percentile(&sorted, 50, 100),
        percentile(&sorted, 90, 100),
        percentile(&sorted, 99, 100),
        percentile(&sorted, 100, 100),
    )
}

/// The order of a sample does not matter to its ranking.
pub proof fn lemma_ranking_ignores_order(a: Seq<u64>, b: Seq<u64>)
    requires
        a.to_multiset() == b.to_multiset(),
    ensures
        ranked(a) == ranked(b),
{
    lemma_total_order();
    a.lemma_sort_by_ensures(total_order());
    b.lemma_sort_by_ensures(total_order());
    vstd::seq_lib::lemma_sorted_unique(ranked(a), ranked(b), total_order());
}

/// A percentile of a sample is one of its values, and grows with the
/// ratio.
pub proof fn lemma_percentiles_ascend(sample: Seq<u64>, low: int, high: int, den: int)
    requires
        sample.len() > 0,
        0 <= low <= high,
        den > 0,
    ensures
        sample.contains(percentile_of(ranked(sample), low, den)),
        total_key(percentile_of(ranked(sample), low, den)) <= total_key(
            percentile_of(ranked(sample), high, den),
        ),
{
    broadcast use vstd::seq_lib::group_to_multiset_ensures;

    lemma_total_order();
    sample.lemma_sort_by_ensures(total_order());
    let s = ranked(sample);
    let n = s.len() as int;
    assert(n == s.to_multiset().len());
    assert(sample.len() == sample.to_multiset().len());
    assert(low * n <= high * n) by (nonlinear_arith)
        requires
            low <= high,
            n >= 0,
    ;
    vstd::arithmetic::div_mod::lemma_div_is_ordered(low * n + den - 1, high * n + den - 1, den);
    let i = nearest_rank(n, low, den) - 1;
    let j = nearest_rank(n, high, den) - 1;
    assert(0 <= i <= j < n);
    assert(s.contains(s[i]));
    if i < j {
        assert(total_order()(s[i], s[j]));
    }
}

} // verus!
