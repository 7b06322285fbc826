//! Aggregation of the values gathered over repeated runs.
use vstd::prelude::*;

use crate::trace::Duration;

verus! {

/// Summary statistics of the values of one measurement.
#[derive(Debug, PartialEq, Eq)]
pub struct AvgMinMax<T> {
    pub avg: T,
    pub min: T,
    pub max: T,
    /// The number of values.
    pub number: u16,
}

pub open spec fn sum_by<T>(s: Seq<T>, f: spec_fn(T) -> int) -> int
    decreases s.len(),
{
    if s.len() == 0 {
        0
    } else {
        sum_by(s.drop_last(), f) + f(s.last())
    }
}

pub open spec fn min_by<T>(s: Seq<T>, f: spec_fn(T) -> int) -> int
    decreases s.len(),
{
    if s.len() <= 1 {
        f(s[0])
    } else {
        let m = min_by(s.drop_last(), f);
        if f(s.last()) < m {
            f(s.last())
        } else {
            m
        }
    }
}

pub open spec fn max_by<T>(s: Seq<T>, f: spec_fn(T) -> int) -> int
    decreases s.len(),
{
    if s.len() <= 1 {
        f(s[0])
    } else {
        let m = max_by(s.drop_last(), f);
        if f(s.last()) > m {
            f(s.last())
        } else {
            m
        }
    }
}

/// Division that rounds toward zero.
pub open spec fn trunc_div(a: int, b: int) -> int {
    if a >= 0 {
        a / b
    } else {
        -((-a) / b)
    }
}

pub open spec fn u64_int() -> spec_fn(u64) -> int {
    |v: u64| v as int
}

pub open spec fn micros_int() -> spec_fn(Duration) -> int {
    |d: Duration| d.micros as int
}

/// The statistics of a non-empty list of counts, the average rounded down.
pub open spec fn stats_u64(s: Seq<u64>) -> AvgMinMax<u64> {
    AvgMinMax {
        avg: (sum_by(s, u64_int()) / s.len() as int) as u64,
        min: min_by(s, u64_int()) as u64,
        max: max_by(s, u64_int()) as u64,
        number: s.len() as u16,
    }
}

/// The statistics of a non-empty list of durations, the average rounded toward zero.
pub open spec fn stats_duration(s: Seq<Duration>) -> AvgMinMax<Duration> {
    AvgMinMax {
        avg: Duration { micros: trunc_div(sum_by(s, micros_int()), s.len() as int) as i128 },
        min: Duration { micros: min_by(s, micros_int()) as i128 },
        max: Duration { micros: max_by(s, micros_int()) as i128 },
        number: s.len() as u16,
    }
}

/// The bound on a duration that aggregation accepts (2^100 microseconds).
pub const DURATION_BOUND: i128 = 1267650600228229401496703205376;

pub proof fn lemma_min_max_by<T>(s: Seq<T>, f: spec_fn(T) -> int)
    requires
        s.len() > 0,
    ensures
        exists|i: int| 0 <= i < s.len() && f(s[i]) == min_by(s, f),
        exists|i: int| 0 <= i < s.len() && f(s[i]) == max_by(s, f),
        forall|i: int| 0 <= i < s.len() ==> min_by(s, f) <= #[trigger] f(s[i]) <= max_by(s, f),
    decreases s.len(),
{
    if s.len() > 1 {
        let t = s.drop_last();
        lemma_min_max_by(t, f);
        let i1 = choose|i: int| 0 <= i < t.len() && f(t[i]) == min_by(t, f);
        let i2 = choose|i: int| 0 <= i < t.len() && f(t[i]) == max_by(t, f);
        assert(f(s[i1]) == f(t[i1]));
        assert(f(s[i2]) == f(t[i2]));
        assert forall|i: int| 0 <= i < s.len() implies min_by(s, f) <= #[trigger] f(s[i])
            <= max_by(s, f) by {
            if i < s.len() - 1 {
                assert(s[i] == t[i]);
            }
        }
    } else {
        assert(f(s[0]) == min_by(s, f));
    }
}

/// The average, minimum and maximum of a list of counts (the average rounded down).
pub fn avg_min_max(values: &[u64]) -> (r: AvgMinMax<u64>)
    requires
        1 <= values@.len() <= u16::MAX,
    ensures
        r == stats_u64(values@),
{
    let n = values.len();
    let mut sum: u128 = 0;
    let mut min: u64 = values[0];
    let mut max: u64 = values[0];
    let mut i: usize = 1;
    sum = values[0] as u128;
    assert(values@.take(1).drop_last() =~= Seq::<u64>::empty());
    assert(values@.take(1).last() == values@[0]);
    assert(sum_by(values@.take(1).drop_last(), u64_int()) == 0);
    while i < n
        invariant
            1 <= i <= n,
            n == values@.len(),
            n <= u16::MAX,
            sum as int == sum_by(values@.take(i as int), u64_int()),
            sum <= i * 18446744073709551615u128,
            min as int == min_by(values@.take(i as int), u64_int()),
            max as int == max_by(values@.take(i as int), u64_int()),
        decreases n - i,
    {
        let v = values[i];
        assert(values@.take(i + 1).drop_last() =~= values@.take(i as int));
        assert(values@.take(i + 1).last() == v);
        assert(sum + v <= (i + 1) * 18446744073709551615u128) by (nonlinear_arith)
            requires
                sum <= i * 18446744073709551615u128,
                v <= 18446744073709551615u64,
        ;
        sum = sum + v as u128;
        if v < min {
            min = v;
        }
        if v > max {
            max = v;
        }
        i = i + 1;
    }
    assert(values@.take(n as int) =~= values@);
    let avg = sum / (n as u128);
    assert(avg <= 18446744073709551615u128) by (nonlinear_arith)
        requires
            avg == sum / (n as u128),
            sum <= n * 18446744073709551615u128,
            n >= 1,
    ;
    AvgMinMax { avg: avg as u64, min, max, number: n as u16 }
}

/// The average, minimum and maximum of a list of durations (the average rounded toward
/// zero, to the microsecond).
pub fn avg_min_max_durations(values: &[Duration]) -> (r: AvgMinMax<Duration>)
    requires
        1 <= values@.len() <= u16::MAX,
        forall|i: int|
            0 <= i < values@.len() ==> -DURATION_BOUND <= (#[trigger] values@[i]).micros
                <= DURATION_BOUND,
    ensures
        r == stats_duration(values@),
{
    let n = values.len();
    let mut sum: i128 = values[0].micros;
    let mut min: i128 = values[0].micros;
    let mut max: i128 = values[0].micros;
    let mut i: usize = 1;
    assert(values@.take(1).drop_last() =~= Seq::<Duration>::empty());
    assert(values@.take(1).last() == values@[0]);
    assert(sum_by(values@.take(1).drop_last(), micros_int()) == 0);
    while i < n
        invariant
            1 <= i <= n,
            n == values@.len(),
            n <= u16::MAX,
            forall|k: int|
                0 <= k < values@.len() ==> -DURATION_BOUND <= (#[trigger] values@[k]).micros
                    <= DURATION_BOUND,
            sum as int == sum_by(values@.take(i as int), micros_int()),
            -(i * DURATION_BOUND) <= sum <= i * DURATION_BOUND,
            min as int == min_by(values@.take(i as int), micros_int()),
            max as int == max_by(values@.take(i as int), micros_int()),
        decreases n - i,
    {
        let v = values[i].micros;
        assert(values@.take(i + 1).drop_last() =~= values@.take(i as int));
        assert(values@.take(i + 1).last() == values@[i as int]);
        assert(-((i + 1) * DURATION_BOUND) <= sum + v <= (i + 1) * DURATION_BOUND) by (nonlinear_arith)
            requires
                -(i * DURATION_BOUND) <= sum <= i * DURATION_BOUND,
                -DURATION_BOUND <= v <= DURATION_BOUND,
        ;
        assert((i + 1) * DURATION_BOUND <= 65536 * DURATION_BOUND) by (nonlinear_arith)
            requires
                i + 1 <= 65536,
        ;
        sum = sum + v;
        if v < min {
            min = v;
        }
        if v > max {
            max = v;
        }
        i = i + 1;
    }
    assert(values@.take(n as int) =~= values@);
    let avg = if sum >= 0 {
        sum / (n as i128)
    } else {
        -((-sum) / (n as i128))
    };
    AvgMinMax {
        avg: Duration { micros: avg },
        min: Duration { micros: min },
        max: Duration { micros: max },
        number: n as u16,
    }
}

proof fn lemma_sum_by_remove<T>(s: Seq<T>, j: int, f: spec_fn(T) -> int)
    requires
        0 <= j < s.len(),
    ensures
        sum_by(s, f) == sum_by(s.remove(j), f) + f(s[j]),
    decreases s.len(),
{
    if j == s.len() - 1 {
        assert(s.remove(j) =~= s.drop_last());
    } else {
        lemma_sum_by_remove(s.drop_last(), j, f);
        assert(s.remove(j).drop_last() =~= s.drop_last().remove(j));
        assert(s.remove(j).last() == s.last());
    }
}

proof fn lemma_sum_by_permutation<T>(s1: Seq<T>, s2: Seq<T>, f: spec_fn(T) -> int)
    requires
        s1.to_multiset() == s2.to_multiset(),
    ensures
        sum_by(s1, f) == sum_by(s2, f),
    decreases s1.len(),
{
    s1.to_multiset_ensures();
    s2.to_multiset_ensures();
    if s1.len() == 0 {
        assert(s2 =~= Seq::<T>::empty());
    } else {
        let x = s1.last();
        let r1 = s1.drop_last();
        r1.to_multiset_ensures();
        assert(s1 =~= r1.push(x));
        assert(s1.contains(x)) by {
            assert(s1[s1.len() - 1] == x);
        }
        assert(s2.to_multiset().count(x) > 0);
        assert(s2.contains(x));
        let j = choose|j: int| 0 <= j < s2.len() && s2[j] == x;
        let r2 = s2.remove(j);
        assert(r2.to_multiset() =~= s2.to_multiset().remove(x));
        assert(r1.to_multiset() =~= s1.to_multiset().remove(x));
        lemma_sum_by_permutation(r1, r2, f);
        lemma_sum_by_remove(s2, j, f);
    }
}

proof fn lemma_min_max_by_permutation<T>(s1: Seq<T>, s2: Seq<T>, f: spec_fn(T) -> int)
    requires
        s1.len() > 0,
        s1.to_multiset() == s2.to_multiset(),
    ensures
        min_by(s1, f) == min_by(s2, f),
        max_by(s1, f) == max_by(s2, f),
{
    s1.to_multiset_ensures();
    s2.to_multiset_ensures();
    assert(s2.len() > 0);
    lemma_min_max_by(s1, f);
    lemma_min_max_by(s2, f);
    let a1 = choose|i: int| 0 <= i < s1.len() && f(s1[i]) == min_by(s1, f);
    let b1 = choose|i: int| 0 <= i < s1.len() && f(s1[i]) == max_by(s1, f);
    let a2 = choose|i: int| 0 <= i < s2.len() && f(s2[i]) == min_by(s2, f);
    let b2 = choose|i: int| 0 <= i < s2.len() && f(s2[i]) == max_by(s2, f);
    assert(s1.contains(s1[a1]));
    assert(s1.contains(s1[b1]));
    assert(s2.contains(s2[a2]));
    assert(s2.contains(s2[b2]));
    assert(s1.to_multiset().count(s1[a1]) > 0);
    assert(s2.to_multiset().count(s1[a1]) > 0);
    assert(s2.contains(s1[a1]));
    assert(s1.to_multiset().count(s1[b1]) > 0);
    assert(s2.to_multiset().count(s1[b1]) > 0);
    assert(s2.contains(s1[b1]));
    assert(s2.to_multiset().count(s2[a2]) > 0);
    assert(s1.to_multiset().count(s2[a2]) > 0);
    assert(s1.contains(s2[a2]));
    assert(s2.to_multiset().count(s2[b2]) > 0);
    assert(s1.to_multiset().count(s2[b2]) > 0);
    assert(s1.contains(s2[b2]));
    let k1 = choose|k: int| 0 <= k < s2.len() && s2[k] == s1[a1];
    let k2 = choose|k: int| 0 <= k < s2.len() && s2[k] == s1[b1];
    let k3 = choose|k: int| 0 <= k < s1.len() && s1[k] == s2[a2];
    let k4 = choose|k: int| 0 <= k < s1.len() && s1[k] == s2[b2];
    assert(min_by(s2, f) <= f(s2[k1]));
    assert(max_by(s2, f) >= f(s2[k2]));
    assert(min_by(s1, f) <= f(s1[k3]));
    assert(max_by(s1, f) >= f(s1[k4]));
}

/// The statistics of a single count are that count, once.
pub proof fn lemma_single_count_stats(x: u64)
    ensures
        stats_u64(seq![x]) == (AvgMinMax { avg: x, min: x, max: x, number: 1 }),
{
    assert(seq![x].drop_last() =~= Seq::<u64>::empty());
    assert(sum_by(Seq::<u64>::empty(), u64_int()) == 0);
    assert(sum_by(seq![x], u64_int()) == x as int);
    assert(min_by(seq![x], u64_int()) == x as int);
    assert(max_by(seq![x], u64_int()) == x as int);
    assert(x as int / 1 == x as int);
}

/// The statistics of a single duration are that duration, once.
pub proof fn lemma_single_duration_stats(x: Duration)
    ensures
        stats_duration(seq![x]) == (AvgMinMax { avg: x, min: x, max: x, number: 1 }),
{
    assert(seq![x].drop_last() =~= Seq::<Duration>::empty());
    assert(sum_by(Seq::<Duration>::empty(), micros_int()) == 0);
    assert(sum_by(seq![x], micros_int()) == x.micros as int);
    assert(min_by(seq![x], micros_int()) == x.micros as int);
    assert(max_by(seq![x], micros_int()) == x.micros as int);
    assert(trunc_div(x.micros as int, 1) == x.micros as int);
}

/// Shuffling a list of counts does not change its statistics.
pub proof fn lemma_count_stats_order_independent(s1: Seq<u64>, s2: Seq<u64>)
    requires
        s1.len() > 0,
        s1.to_multiset() == s2.to_multiset(),
    ensures
        stats_u64(s1) == stats_u64(s2),
{
    s1.to_multiset_ensures();
    s2.to_multiset_ensures();
    lemma_sum_by_permutation(s1, s2, u64_int());
    lemma_min_max_by_permutation(s1, s2, u64_int());
}

/// Shuffling a list of durations does not change its statistics.
pub proof fn lemma_duration_stats_order_independent(s1: Seq<Duration>, s2: Seq<Duration>)
    requires
        s1.len() > 0,
        s1.to_multiset() == s2.to_multiset(),
    ensures
        stats_duration(s1) == stats_duration(s2),
{
    s1.to_multiset_ensures();
    s2.to_multiset_ensures();
    lemma_sum_by_permutation(s1, s2, micros_int());
    lemma_min_max_by_permutation(s1, s2, micros_int());
}

} // verus!
