//! The mathematical model of a super fair division: what each participant
//! receives, stated over unbounded integers, and when the `i128` computation
//! of it stays in range.
use vstd::prelude::*;

verus! {

/// Whether `x` lies in the range of `i128`.
pub open spec fn fits_i128(x: int) -> bool {
    i128::MIN <= x <= i128::MAX
}

/// The entries of `s` as unbounded integers.
pub open spec fn ints(s: Seq<i128>) -> Seq<int> {
    s.map_values(|x: i128| x as int)
}

/// The sum of the entries of `s`.
pub open spec fn sum(s: Seq<int>) -> int
    decreases s.len(),
{
    if s.len() == 0 {
        0
    } else {
        sum(s.drop_last()) + s.last()
    }
}

/// Whether every running total of `s`, added up from left to right, fits in `i128`.
pub open spec fn prefix_sums_fit(s: Seq<int>) -> bool {
    forall|k: int| 0 <= k <= s.len() ==> fits_i128(#[trigger] sum(s.take(k)))
}

/// Integer division rounded toward zero, for a positive divisor `b`.
pub open spec fn trunc_div(a: int, b: int) -> int {
    if a >= 0 {
        a / b
    } else {
        -((-a) / b)
    }
}

/// The index of the highest bid among the first `k` bids: a later bid takes
/// over only when it is strictly greater, so ties keep the earliest index.
pub open spec fn first_max_in(values: Seq<i128>, k: int) -> int
    decreases k,
{
    if k <= 1 {
        0
    } else {
        let j = first_max_in(values, k - 1);
        if values[k - 1] > values[j] {
            k - 1
        } else {
            j
        }
    }
}

/// The index of the highest bidder: the first participant with the largest bid.
pub open spec fn highest_bidder(values: Seq<i128>) -> int {
    first_max_in(values, values.len() as int)
}

/// `n` weights of one each: the weights of an equal-weight division.
pub open spec fn unit_weights(n: nat) -> Seq<int> {
    Seq::new(n, |i: int| 1int)
}

/// Each bid multiplied by its participant's weight.
pub open spec fn weighted_values(values: Seq<i128>, weights: Seq<int>) -> Seq<int> {
    Seq::new(values.len(), |i: int| values[i] * weights[i])
}

/// The fairness correction `(n * max_v - sum_v) / (n * n)`, rounded toward zero.
pub open spec fn fairness_delta(n: int, max_v: int, sum_v: int) -> int {
    trunc_div(n * max_v - sum_v, n * n)
}

/// The share of one weight unit of a participant who bid `v`.
pub open spec fn base_share(v: int, n: int, delta: int) -> int {
    trunc_div(v, n) + delta
}

/// The correction term of a division: computed from the total weight, the
/// highest bid itself (not multiplied by its weight) and the weighted sum of bids.
pub open spec fn delta_of(values: Seq<i128>, weights: Seq<int>) -> int {
    fairness_delta(
        sum(weights),
        values[highest_bidder(values)] as int,
        sum(weighted_values(values, weights)),
    )
}

/// What every participant but the highest bidder receives; the highest bidder
/// holds 0 here.
pub open spec fn shares_of(values: Seq<i128>, weights: Seq<int>) -> Seq<int> {
    let k = highest_bidder(values);
    let n = sum(weights);
    let delta = delta_of(values, weights);
    Seq::new(
        values.len(),
        |i: int|
            if i == k {
                0
            } else {
                base_share(values[i] as int, n, delta) * weights[i]
            },
    )
}

/// The allocation: the shares, with the highest bidder paying what all the
/// others receive.
pub open spec fn allocation(values: Seq<i128>, weights: Seq<int>) -> Seq<int> {
    let s = shares_of(values, weights);
    s.update(highest_bidder(values), -sum(s))
}

/// Whether every intermediate value of the computation, done in the order
/// the allocators do it, lies in the range of `i128`.
pub open spec fn computation_fits(values: Seq<i128>, weights: Seq<int>) -> bool {
    let n = sum(weights);
    let k = highest_bidder(values);
    let max_v = values[k] as int;
    let products = weighted_values(values, weights);
    let sum_v = sum(products);
    let delta = delta_of(values, weights);
    let s = shares_of(values, weights);
    &&& prefix_sums_fit(weights)
    &&& forall|i: int| 0 <= i < values.len() ==> fits_i128(#[trigger] products[i])
    &&& prefix_sums_fit(products)
    &&& fits_i128(n * max_v)
    &&& fits_i128(n * max_v - sum_v)
    &&& fits_i128(n * n)
    &&& forall|i: int|
        0 <= i < values.len() && i != k ==> {
            &&& fits_i128(#[trigger] base_share(values[i] as int, n, delta))
            &&& fits_i128(s[i])
        }
    &&& prefix_sums_fit(s)
    &&& fits_i128(-sum(s))
}

/// The allocation when every participant counts once.
pub open spec fn equal_allocation(values: Seq<i128>) -> Seq<int> {
    allocation(values, unit_weights(values.len()))
}

/// Whether the equal-weight computation stays in the range of `i128`.
pub open spec fn equal_fits(values: Seq<i128>) -> bool {
    computation_fits(values, unit_weights(values.len()))
}

/// The allocation under the given weights.
pub open spec fn weighted_allocation(values: Seq<i128>, weights: Seq<i128>) -> Seq<int> {
    allocation(values, ints(weights))
}

/// Whether the weighted computation stays in the range of `i128`.
pub open spec fn weighted_fits(values: Seq<i128>, weights: Seq<i128>) -> bool {
    computation_fits(values, ints(weights))
}

/// Whether every weight is positive.
pub open spec fn all_positive(weights: Seq<i128>) -> bool {
    forall|i: int| 0 <= i < weights.len() ==> #[trigger] weights[i] > 0
}

/// The highest bid among the first `k` bids is one of them.
pub proof fn lemma_first_max_in_range(values: Seq<i128>, k: int)
    requires
        1 <= k,
    ensures
        0 <= first_max_in(values, k) < k,
    decreases k,
{
    if k > 1 {
        lemma_first_max_in_range(values, k - 1);
    }
}

/// Changing one entry changes the sum by the difference.
pub proof fn lemma_sum_update(s: Seq<int>, k: int, x: int)
    requires
        0 <= k < s.len(),
    ensures
        sum(s.update(k, x)) == sum(s) - s[k] + x,
    decreases s.len(),
{
    let t = s.update(k, x);
    if k == s.len() - 1 {
        assert(t.drop_last() =~= s.drop_last());
    } else {
        assert(t.drop_last() =~= s.drop_last().update(k, x));
        lemma_sum_update(s.drop_last(), k, x);
    }
}

/// The running total after `i + 1` entries adds entry `i` to the one after `i`.
pub proof fn lemma_sum_take_next(s: Seq<int>, i: int)
    requires
        0 <= i < s.len(),
    ensures
        sum(s.take(i + 1)) == sum(s.take(i)) + s[i],
{
    assert(s.take(i + 1).drop_last() =~= s.take(i));
}

/// The running total over all entries is the sum.
pub proof fn lemma_sum_take_all(s: Seq<int>)
    ensures
        sum(s.take(s.len() as int)) == sum(s),
{
    assert(s.take(s.len() as int) =~= s);
}

/// Weights of at least one each add up to at least their number.
pub proof fn lemma_sum_at_least_len(s: Seq<int>)
    requires
        forall|i: int| 0 <= i < s.len() ==> #[trigger] s[i] >= 1,
    ensures
        sum(s) >= s.len(),
    decreases s.len(),
{
    if s.len() > 0 {
        lemma_sum_at_least_len(s.drop_last());
    }
}

/// `n` unit weights add up to `n`.
pub proof fn lemma_unit_weights_sum(n: nat)
    ensures
        sum(unit_weights(n)) == n,
    decreases n,
{
    if n > 0 {
        assert(unit_weights(n).drop_last() =~= unit_weights((n - 1) as nat));
        lemma_unit_weights_sum((n - 1) as nat);
    }
}

/// The running totals of `n` unit weights count up from 0 to `n`.
pub proof fn lemma_unit_weights_prefix(n: nat)
    ensures
        forall|k: int| 0 <= k <= n ==> #[trigger] sum(unit_weights(n).take(k)) == k,
{
    assert forall|k: int| 0 <= k <= n implies #[trigger] sum(unit_weights(n).take(k)) == k by {
        assert(unit_weights(n).take(k) =~= unit_weights(k as nat));
        lemma_unit_weights_sum(k as nat);
    }
}

/// Bids weighted by one each are the bids themselves.
pub proof fn lemma_unit_weighted_values(values: Seq<i128>)
    ensures
        weighted_values(values, unit_weights(values.len())) =~= ints(values),
{
}

} // verus!
