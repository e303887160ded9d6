//! The latencies of a run in a few numbers.
use vstd::prelude::*;

verus! {

#[derive(Debug, Clone, Copy, PartialEq, Eq, Structural)]
pub struct LatencySummary {
    pub count: usize,
    pub min_ns: u64,
    pub mean_ns: u64,
    pub p50_ns: u64,
    pub p95_ns: u64,
    pub p99_ns: u64,
    pub max_ns: u64,
}

/// Where the value stands that the given share of `len` values does not
/// exceed: the share of the last index, rounded up.
pub open spec fn percentile_index(len: nat, percentile: nat) -> int {
    ((len - 1) * percentile + 99) / 100
}

/// The order of numbers.
pub open spec fn at_most() -> spec_fn(u64, u64) -> bool {
    |a: u64, b: u64| a <= b
}

/// The values in their order.
pub open spec fn in_order(values: Seq<u64>) -> Seq<u64> {
    values.sort_by(at_most())
}

pub open spec fn sum_of(values: Seq<u64>) -> nat
    decreases values.len(),
{
    if values.len() == 0 {
        0
    } else {
        sum_of(values.drop_last()) + values.last() as nat
    }
}

/// What is said of the latencies of a run.
pub open spec fn summary_of(values: Seq<u64>) -> LatencySummary {
    let sorted = in_order(values);
    LatencySummary {
        count: values.len() as usize,
        min_ns: sorted[0],
        mean_ns: (sum_of(values) / values.len()) as u64,
        p50_ns: sorted[percentile_index(values.len(), 50)],
        p95_ns: sorted[percentile_index(values.len(), 95)],
        p99_ns: sorted[percentile_index(values.len(), 99)],
        max_ns: sorted[values.len() - 1],
    }
}

/// Calls `<[u64]>::sort_unstable` of std, which puts the values into ascending
/// order and keeps each as often as it was there.
#[verifier::external_body]
fn sort_unstable(values: &mut Vec<u64>)
    ensures
        final(values)@.to_multiset() == old(values)@.to_multiset(),
        forall|i: int, j: int|
            0 <= i <= j < final(values)@.len() ==> final(values)@[i] <= final(values)@[j],
{
    values.sort_unstable()
}

/// The value that the given share of the values does not exceed.
pub fn percentile(sorted: &[u64], percent: usize) -> (r: u64)
    requires
        sorted@.len() > 0,
        percentile_index(sorted@.len(), percent as nat) < sorted@.len(),
    ensures
        r == sorted@[percentile_index(sorted@.len(), percent as nat)],
{
    let last: u128 = (sorted.len() - 1) as u128;
    let share: u128 = percent as u128;
    assert(0 <= last * share <= 0xffff_ffff_ffff_ffff * 0xffff_ffff_ffff_ffff) by (nonlinear_arith)
        requires
            0 <= last <= 0xffff_ffff_ffff_ffff,
            0 <= share <= 0xffff_ffff_ffff_ffff,
    ;
    let index: u128 = (last * share + 99) / 100;
    sorted[index as usize]
}

proof fn lemma_sum_bound(values: Seq<u64>)
    ensures
        sum_of(values) <= values.len() * u64::MAX,
    decreases values.len(),
{
    if values.len() > 0 {
        lemma_sum_bound(values.drop_last());
        let n = values.len();
        assert((n - 1) * u64::MAX + u64::MAX == n * u64::MAX) by (nonlinear_arith);
    }
}

proof fn lemma_sum_grows(values: Seq<u64>, i: int)
    requires
        0 <= i <= values.len(),
    ensures
        sum_of(values.take(i)) <= sum_of(values),
    decreases values.len() - i,
{
    if i < values.len() {
        lemma_sum_grows(values, i + 1);
        assert(values.take(i + 1).drop_last() =~= values.take(i));
    } else {
        assert(values.take(i) =~= values);
    }
}

proof fn lemma_in_order(values: Seq<u64>, sorted: Seq<u64>)
    requires
        sorted.to_multiset() == values.to_multiset(),
        forall|i: int, j: int| 0 <= i <= j < sorted.len() ==> sorted[i] <= sorted[j],
    ensures
        sorted == in_order(values),
        sorted.len() == values.len(),
{
    values.to_multiset_ensures();
    sorted.to_multiset_ensures();
    values.lemma_sort_by_ensures(at_most());
    vstd::seq_lib::lemma_sorted_unique(sorted, in_order(values), at_most());
}

proof fn lemma_percentile_index(len: nat, percentile: nat)
    requires
        len > 0,
        percentile <= 100,
    ensures
        0 <= percentile_index(len, percentile) < len,
{
    assert(0 <= (len - 1) * percentile <= (len - 1) * 100) by (nonlinear_arith)
        requires
            len > 0,
            0 <= percentile <= 100,
    ;
}

/// The latencies of a run in a few numbers; none where there are no latencies.
pub fn latency_summary(values: Vec<u64>) -> (r: Option<LatencySummary>)
    ensures
        r is Some <==> values@.len() > 0,
        r matches Some(summary) ==> summary == summary_of(values@),
{
    if values.len() == 0 {
        return None;
    }
    let mut values = values;
    let ghost given = values@;
    let count: usize = values.len();
    let mut sum: u128 = 0;
    let mut i: usize = 0;
    assert(given.take(0) =~= Seq::empty());
    proof {
        lemma_sum_bound(given);
        assert(given.len() * u64::MAX <= 0xffff_ffff_ffff_ffff * 0xffff_ffff_ffff_ffff)
            by (nonlinear_arith)
            requires
                given.len() <= 0xffff_ffff_ffff_ffff,
        ;
    }
    while i < values.len()
        invariant
            i <= values.len(),
            values@ == given,
            sum == sum_of(given.take(i as int)),
            sum_of(given) <= u128::MAX,
        decreases values.len() - i,
    {
        proof {
            assert(given.take(i + 1).drop_last() =~= given.take(i as int));
            lemma_sum_grows(given, i + 1);
        }
        sum = sum + values[i] as u128;
        i = i + 1;
    }
    assert(given.take(i as int) =~= given);
    let mean: u128 = sum / count as u128;
    proof {
        assert(mean <= u64::MAX) by (nonlinear_arith)
            requires
                mean == sum / (count as u128),
                sum <= count * u64::MAX,
                count > 0,
        ;
    }
    sort_unstable(&mut values);
    proof {
        lemma_in_order(given, values@);
        lemma_percentile_index(given.len(), 50);
        lemma_percentile_index(given.len(), 95);
        lemma_percentile_index(given.len(), 99);
    }
    Some(
        LatencySummary {
            count,
            min_ns: values[0],
            mean_ns: mean as u64,
            p50_ns: percentile(values.as_slice(), 50),
            p95_ns: percentile(values.as_slice(), 95),
            p99_ns: percentile(values.as_slice(), 99),
            max_ns: values[count - 1],
        },
    )
}

/// The numbers of a summary stand in their order, and the mean lies between
/// the least and the greatest latency.
pub proof fn law_summary_in_order(values: Seq<u64>)
    requires
        0 < values.len() <= usize::MAX,
    ensures
        ({
            let s = summary_of(values);
            &&& s.min_ns <= s.p50_ns <= s.p95_ns <= s.p99_ns <= s.max_ns
            &&& s.min_ns <= s.mean_ns <= s.max_ns
            &&& forall|i: int|
                0 <= i < values.len() ==> s.min_ns <= #[trigger] values[i] <= s.max_ns
        }),
{
    let sorted = in_order(values);
    let len = values.len();
    values.lemma_sort_by_ensures(at_most());
    values.to_multiset_ensures();
    sorted.to_multiset_ensures();
    lemma_percentile_index(len, 50);
    lemma_percentile_index(len, 95);
    lemma_percentile_index(len, 99);
    assert((len - 1) * 50 <= (len - 1) * 95 <= (len - 1) * 99);
    assert forall|i: int, j: int| 0 <= i <= j < sorted.len() implies sorted[i] <= sorted[j] by {
        if i < j {
            assert((at_most())(sorted[i], sorted[j]));
        }
    }
    assert forall|i: int| 0 <= i < values.len() implies sorted[0] <= #[trigger] values[i]
        <= sorted[len - 1] by {
        assert(values.contains(values[i]));
        assert(values.to_multiset().count(values[i]) > 0);
        assert(sorted.contains(values[i]));
        let j = choose|j: int| 0 <= j < sorted.len() && sorted[j] == values[i];
    }
    lemma_mean_between(values, sorted[0], sorted[len - 1]);
}

proof fn lemma_mean_between(values: Seq<u64>, least: u64, greatest: u64)
    requires
        0 < values.len(),
        forall|i: int| 0 <= i < values.len() ==> least <= #[trigger] values[i] <= greatest,
    ensures
        least <= sum_of(values) / values.len() <= greatest,
{
    lemma_sum_between(values, least, greatest);
    let sum = sum_of(values);
    let n = values.len();
    assert(least <= sum / n <= greatest) by (nonlinear_arith)
        requires
            n > 0,
            n * least <= sum <= n * greatest,
    ;
}

proof fn lemma_sum_between(values: Seq<u64>, least: u64, greatest: u64)
    requires
        forall|i: int| 0 <= i < values.len() ==> least <= #[trigger] values[i] <= greatest,
    ensures
        values.len() * least <= sum_of(values) <= values.len() * greatest,
    decreases values.len(),
{
    if values.len() > 0 {
        let front = values.drop_last();
        assert(forall|i: int| 0 <= i < front.len() ==> front[i] == values[i]);
        lemma_sum_between(front, least, greatest);
        let n = values.len();
        assert(values.last() == values[n - 1]);
        assert((n - 1) * least + least == n * least) by (nonlinear_arith);
        assert((n - 1) * greatest + greatest == n * greatest) by (nonlinear_arith);
    }
}

proof fn lemma_filter_multiset(values: Seq<u64>, wanted: spec_fn(u64) -> bool)
    ensures
        values.filter(wanted).to_multiset() == values.to_multiset().filter(wanted),
    decreases values.len(),
{
    broadcast use vstd::multiset::group_multiset_axioms;

    reveal(Seq::filter);
    values.to_multiset_ensures();
    if values.len() == 0 {
        assert(values.filter(wanted).to_multiset() =~= values.to_multiset().filter(wanted));
    } else {
        let front = values.drop_last();
        lemma_filter_multiset(front, wanted);
        front.to_multiset_ensures();
        front.filter(wanted).to_multiset_ensures();
        assert(front.push(values.last()) =~= values);
        assert(values.to_multiset() =~= front.to_multiset().insert(values.last()));
        assert(values.filter(wanted).to_multiset() =~= values.to_multiset().filter(wanted));
    }
}

proof fn lemma_filter_permuted(a: Seq<u64>, b: Seq<u64>, wanted: spec_fn(u64) -> bool)
    requires
        a.to_multiset() == b.to_multiset(),
    ensures
        a.filter(wanted).len() == b.filter(wanted).len(),
{
    lemma_filter_multiset(a, wanted);
    lemma_filter_multiset(b, wanted);
    a.filter(wanted).to_multiset_ensures();
    b.filter(wanted).to_multiset_ensures();
}

proof fn lemma_filter_all(values: Seq<u64>, wanted: spec_fn(u64) -> bool)
    requires
        forall|i: int| 0 <= i < values.len() ==> wanted(#[trigger] values[i]),
    ensures
        values.filter(wanted).len() == values.len(),
    decreases values.len(),
{
    reveal(Seq::filter);
    if values.len() > 0 {
        let front = values.drop_last();
        assert(forall|i: int| 0 <= i < front.len() ==> front[i] == values[i]);
        lemma_filter_all(front, wanted);
        assert(wanted(values[values.len() - 1]));
    }
}

/// How many values are greater than one at a place of a row in order.
proof fn lemma_greater(sorted: Seq<u64>, at: int)
    requires
        0 <= at < sorted.len(),
        forall|i: int, j: int| 0 <= i <= j < sorted.len() ==> sorted[i] <= sorted[j],
    ensures
        sorted.filter(|v: u64| v > sorted[at]).len() <= sorted.len() - 1 - at,
{
    let above = |v: u64| v > sorted[at];
    let low = sorted.take(at + 1);
    let high = sorted.skip(at + 1);
    assert(low + high =~= sorted);
    Seq::filter_distributes_over_add(low, high, above);
    low.lemma_all_neg_filter_empty(above);
    high.lemma_filter_len(above);
}

/// How many values are greater than one below a place of a row in order.
proof fn lemma_greater_than_lesser(sorted: Seq<u64>, at: int, y: u64)
    requires
        0 <= at < sorted.len(),
        forall|i: int, j: int| 0 <= i <= j < sorted.len() ==> sorted[i] <= sorted[j],
        y < sorted[at],
    ensures
        sorted.filter(|v: u64| v > y).len() >= sorted.len() - at,
{
    let over = |v: u64| v > y;
    let front = sorted.take(at);
    let back = sorted.skip(at);
    assert(front + back =~= sorted);
    Seq::filter_distributes_over_add(front, back, over);
    assert forall|i: int| 0 <= i < back.len() implies over(#[trigger] back[i]) by {
        assert(back[i] == sorted[at + i]);
    }
    lemma_filter_all(back, over);
}

proof fn lemma_sorted_values(values: Seq<u64>)
    ensures
        in_order(values).len() == values.len(),
        in_order(values).to_multiset() == values.to_multiset(),
        forall|i: int, j: int|
            0 <= i <= j < values.len() ==> in_order(values)[i] <= in_order(values)[j],
        forall|x: u64| #[trigger] in_order(values).contains(x) <==> values.contains(x),
{
    let sorted = in_order(values);
    values.lemma_sort_by_ensures(at_most());
    values.to_multiset_ensures();
    sorted.to_multiset_ensures();
    assert forall|i: int, j: int| 0 <= i <= j < sorted.len() implies sorted[i] <= sorted[j] by {
        if i < j {
            assert((at_most())(sorted[i], sorted[j]));
        }
    }
    assert forall|x: u64| #[trigger] sorted.contains(x) <==> values.contains(x) by {
        assert(values.contains(x) <==> values.to_multiset().count(x) > 0);
        assert(sorted.contains(x) <==> sorted.to_multiset().count(x) > 0);
    }
}

proof fn lemma_percentile(values: Seq<u64>, percent: nat)
    requires
        0 < values.len(),
        percent <= 100,
    ensures
        ({
            let x = in_order(values)[percentile_index(values.len(), percent)];
            &&& values.contains(x)
            &&& values.filter(|v: u64| v > x).len() * 100 <= (values.len() - 1) * (100 - percent)
            &&& forall|y: u64|
                #![trigger values.contains(y)]
                values.contains(y) && y < x ==> values.filter(|v: u64| v > y).len() * 100 > (
                values.len() - 1) * (100 - percent)
        }),
{
    let sorted = in_order(values);
    let n = values.len() as int;
    lemma_sorted_values(values);
    lemma_percentile_index(values.len(), percent);
    let at = percentile_index(values.len(), percent);
    let x = sorted[at];
    assert(sorted.contains(x));
    lemma_greater(sorted, at);
    lemma_filter_permuted(values, sorted, |v: u64| v > x);
    assert((n - 1) * (100 - percent) == (n - 1) * 100 - (n - 1) * percent) by (nonlinear_arith);
    assert forall|y: u64| #[trigger] values.contains(y) && y < x implies values.filter(
        |v: u64| v > y,
    ).len() * 100 > (n - 1) * (100 - percent) by {
        lemma_filter_permuted(values, sorted, |v: u64| v > y);
        lemma_greater_than_lesser(sorted, at, y);
    }
}

/// Each percentile of a summary is one of the values. At most the rest of the
/// share is greater than it, and of no lesser value can that be said. So at most
/// half of the values lie above `p50_ns`, at most 5 of 100 above `p95_ns`, at
/// most one of 100 above `p99_ns`.
pub proof fn law_percentiles_leave_the_rest_above(values: Seq<u64>)
    requires
        0 < values.len() <= usize::MAX,
    ensures
        ({
            let s = summary_of(values);
            &&& values.contains(s.p50_ns)
            &&& values.filter(|v: u64| v > s.p50_ns).len() * 100 <= (values.len() - 1) * 50
            &&& forall|y: u64|
                #![trigger values.contains(y)]
                values.contains(y) && y < s.p50_ns ==> values.filter(|v: u64| v > y).len() * 100 > (
                values.len() - 1) * 50
            &&& values.contains(s.p95_ns)
            &&& values.filter(|v: u64| v > s.p95_ns).len() * 100 <= (values.len() - 1) * 5
            &&& forall|y: u64|
                #![trigger values.contains(y)]
                values.contains(y) && y < s.p95_ns ==> values.filter(|v: u64| v > y).len() * 100 > (
                values.len() - 1) * 5
            &&& values.contains(s.p99_ns)
            &&& values.filter(|v: u64| v > s.p99_ns).len() * 100 <= values.len() - 1
            &&& forall|y: u64|
                #![trigger values.contains(y)]
                values.contains(y) && y < s.p99_ns ==> values.filter(|v: u64| v > y).len() * 100
                    > values.len() - 1
        }),
{
    lemma_percentile(values, 50);
    lemma_percentile(values, 95);
    lemma_percentile(values, 99);
}

/// The value that stands at the place of a share of a row in order: at least
/// that share of the way to the last place, and less than one place beyond.
pub proof fn law_share_of_a_row(sorted: Seq<u64>, percent: nat)
    requires
        sorted.len() > 0,
        percent <= 100,
    ensures
        ({
            let at = percentile_index(sorted.len(), percent);
            &&& 0 <= at < sorted.len()
            &&& (sorted.len() - 1) * percent <= at * 100 < (sorted.len() - 1) * percent + 100
        }),
{
    lemma_percentile_index(sorted.len(), percent);
}

/// A summary counts all the values. Its least and its greatest are values, and
/// no value is outside. Its mean is their sum shared out evenly, without the
/// rest.
pub proof fn law_summary_counts_and_bounds(values: Seq<u64>)
    requires
        0 < values.len() <= usize::MAX,
    ensures
        ({
            let s = summary_of(values);
            let sum = values.fold_left(0int, |total: int, v: u64| total + v);
            &&& s.count == values.len()
            &&& values.contains(s.min_ns)
            &&& values.contains(s.max_ns)
            &&& forall|i: int|
                0 <= i < values.len() ==> s.min_ns <= #[trigger] values[i] <= s.max_ns
            &&& s.mean_ns * values.len() <= sum < (s.mean_ns + 1) * values.len()
        }),
{
    let sorted = in_order(values);
    lemma_sorted_values(values);
    assert(sorted.contains(sorted[0]));
    assert(sorted.contains(sorted[values.len() - 1]));
    law_summary_in_order(values);
    lemma_sum_folds(values);
    lemma_mean_between(values, sorted[0], sorted[values.len() - 1]);
    let sum = sum_of(values) as int;
    let n = values.len() as int;
    assert((sum / n) * n <= sum < (sum / n + 1) * n) by (nonlinear_arith)
        requires
            n > 0,
            sum >= 0,
    ;
}

proof fn lemma_sum_folds(values: Seq<u64>)
    ensures
        values.fold_left(0int, |total: int, v: u64| total + v) == sum_of(values),
    decreases values.len(),
{
    reveal(Seq::fold_left);
    if values.len() > 0 {
        lemma_sum_folds(values.drop_last());
    }
}

} // verus!
