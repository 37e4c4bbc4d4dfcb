//! The two allocators and the checked steps they share.
use vstd::prelude::*;

use crate::model::{
    all_positive, allocation, base_share, delta_of, equal_allocation, equal_fits,
    fairness_delta, first_max_in, fits_i128, highest_bidder, ints, lemma_sum_at_least_len,
    lemma_sum_take_all, lemma_sum_take_next, lemma_unit_weighted_values,
    lemma_unit_weights_prefix, lemma_unit_weights_sum, prefix_sums_fit, shares_of, sum,
    trunc_div, unit_weights, weighted_allocation, weighted_fits, weighted_values,
};
use crate::laws::{allocation_is_zero_sum, highest_bidder_pays_the_others};
use crate::Error;

verus! {

/// Integer division rounded toward zero stays between 0 and the dividend.
proof fn lemma_trunc_div_bounds(a: int, b: int)
    requires
        b >= 1,
    ensures
        a >= 0 ==> 0 <= trunc_div(a, b) <= a,
        a < 0 ==> a <= trunc_div(a, b) <= 0,
{
    if a >= 0 {
        assert(0 <= a / b <= a) by (nonlinear_arith)
            requires
                a >= 0,
                b >= 1,
        ;
    } else {
        let m = -a;
        assert(0 <= m / b <= m) by (nonlinear_arith)
            requires
                m >= 0,
                b >= 1,
        ;
    }
}

/// `a / b` rounded toward zero; never out of range for a positive divisor.
fn div_toward_zero(a: i128, b: i128) -> (q: i128)
    requires
        b >= 1,
    ensures
        q == trunc_div(a as int, b as int),
{
    proof {
        lemma_trunc_div_bounds(a as int, b as int);
        assert(0int / (b as int) == 0) by (nonlinear_arith)
            requires
                b >= 1,
        ;
    }
    match a.checked_div(b) {
        Some(q) => q,
        None => {
            proof {
                assert(false);
            }
            0
        },
    }
}

/// The total of `s`, or `None` where a running total leaves the range of `i128`.
fn checked_total(s: &[i128]) -> (r: Option<i128>)
    ensures
        r is Some <==> prefix_sums_fit(ints(s@)),
        r matches Some(t) ==> t == sum(ints(s@)),
{
    let ghost xs = ints(s@);
    let mut total: i128 = 0;
    let mut i: usize = 0;
    while i < s.len()
        invariant
            i <= s@.len(),
            xs == ints(s@),
            total == sum(xs.take(i as int)),
            forall|k: int| 0 <= k <= i ==> fits_i128(#[trigger] sum(xs.take(k))),
        decreases s@.len() - i,
    {
        proof {
            lemma_sum_take_next(xs, i as int);
        }
        match total.checked_add(s[i]) {
            Some(t) => total = t,
            None => {
                assert(!fits_i128(sum(xs.take(i + 1))));
                return None;
            },
        }
        i += 1;
    }
    proof {
        lemma_sum_take_all(xs);
    }
    Some(total)
}

/// The index of the first participant with the largest bid.
fn highest_bidder_index(values: &[i128]) -> (k: usize)
    requires
        values@.len() >= 1,
    ensures
        k == highest_bidder(values@),
        k < values@.len(),
{
    let mut max_v = values[0];
    let mut k: usize = 0;
    let mut i: usize = 1;
    while i < values.len()
        invariant
            1 <= i <= values@.len(),
            k < i,
            k == first_max_in(values@, i as int),
            max_v == values@[k as int],
        decreases values@.len() - i,
    {
        if values[i] > max_v {
            max_v = values[i];
            k = i;
        }
        i += 1;
    }
    k
}

/// The correction term `(n * max_v - sum_v) / (n * n)`, rounded toward zero,
/// or `None` where a product or the difference leaves the range of `i128`.
fn fairness_correction(n: i128, max_v: i128, sum_v: i128) -> (r: Option<i128>)
    requires
        n >= 1,
    ensures
        r is Some <==> fits_i128(n * max_v) && fits_i128(n * max_v - sum_v) && fits_i128(n * n),
        r matches Some(d) ==> d == fairness_delta(n as int, max_v as int, sum_v as int),
{
    let scaled = match n.checked_mul(max_v) {
        Some(x) => x,
        None => return None,
    };
    let diff = match scaled.checked_sub(sum_v) {
        Some(x) => x,
        None => return None,
    };
    let square = match n.checked_mul(n) {
        Some(x) => x,
        None => return None,
    };
    assert(square >= 1) by (nonlinear_arith)
        requires
            square == n * n,
            n >= 1,
    ;
    Some(div_toward_zero(diff, square))
}

/// Makes participant `k` pay what all the others receive: entry `k` of
/// `shares` becomes minus the total, or `None` where that total leaves the
/// range of `i128`.
fn settle(shares: Vec<i128>, k: usize) -> (r: Option<Vec<i128>>)
    requires
        k < shares@.len(),
    ensures
        r is Some <==> prefix_sums_fit(ints(shares@)) && fits_i128(-sum(ints(shares@))),
        r matches Some(a) ==> ints(a@) == ints(shares@).update(k as int, -sum(ints(shares@))),
{
    let total = match checked_total(shares.as_slice()) {
        Some(t) => t,
        None => return None,
    };
    let paid = match 0i128.checked_sub(total) {
        Some(p) => p,
        None => return None,
    };
    let mut out = shares;
    out[k] = paid;
    assert(ints(out@) =~= ints(shares@).update(k as int, -sum(ints(shares@))));
    Some(out)
}

/// The super fair division of `values` when every participant counts once.
///
/// Every participant but the highest bidder receives its bid divided by the
/// number of participants plus the fairness correction, both rounded toward
/// zero; the highest bidder pays what all the others receive.
pub fn calculate_fair_division_equal_weights(values: &[i128]) -> (r: Result<Vec<i128>, Error>)
    ensures
        values@.len() == 0 ==> r == Err::<Vec<i128>, Error>(Error::InvalidInput),
        values@.len() == 1 ==> r == Err::<Vec<i128>, Error>(Error::NotEnoughParticipants),
        values@.len() >= 2 && !equal_fits(values@) ==> r == Err::<Vec<i128>, Error>(
            Error::CalculationFailed,
        ),
        values@.len() >= 2 && equal_fits(values@) ==> r is Ok,
        r matches Ok(a) ==> {
            &&& ints(a@) == equal_allocation(values@)
            &&& a@.len() == values@.len()
            &&& sum(ints(a@)) == 0
            &&& a@[highest_bidder(values@)] == -sum(ints(a@).update(highest_bidder(values@), 0))
        },
{
    if values.len() == 0 {
        return Err(Error::InvalidInput);
    }
    if values.len() < 2 {
        return Err(Error::NotEnoughParticipants);
    }
    let ghost weights = unit_weights(values@.len());
    proof {
        lemma_unit_weights_sum(values@.len());
        lemma_unit_weights_prefix(values@.len());
        lemma_unit_weighted_values(values@);
    }
    let n = values.len() as i128;
    let sum_v = match checked_total(values) {
        Some(t) => t,
        None => return Err(Error::CalculationFailed),
    };
    let k = highest_bidder_index(values);
    let delta = match fairness_correction(n, values[k], sum_v) {
        Some(d) => d,
        None => return Err(Error::CalculationFailed),
    };
    let mut shares: Vec<i128> = Vec::with_capacity(values.len());
    let mut i: usize = 0;
    while i < values.len()
        invariant
            i <= values@.len(),
            n == values@.len(),
            n == sum(weights),
            weights == unit_weights(values@.len()),
            k == highest_bidder(values@),
            delta == delta_of(values@, weights),
            shares@.len() == i,
            forall|j: int| 0 <= j < i ==> shares@[j] == #[trigger] shares_of(values@, weights)[j],
            forall|j: int|
                0 <= j < i && j != k ==> fits_i128(
                    #[trigger] base_share(values@[j] as int, n as int, delta as int),
                ),
        decreases values@.len() - i,
    {
        if i != k {
            let share = match div_toward_zero(values[i], n).checked_add(delta) {
                Some(x) => x,
                None => {
                    assert(!fits_i128(base_share(values@[i as int] as int, n as int, delta as int)));
                    return Err(Error::CalculationFailed);
                },
            };
            assert(weights[i as int] == 1);
            shares.push(share);
        } else {
            shares.push(0);
        }
        assert(shares@[i as int] == shares_of(values@, weights)[i as int]);
        i += 1;
    }
    assert(ints(shares@) =~= shares_of(values@, weights));
    match settle(shares, k) {
        Some(a) => {
            proof {
                allocation_is_zero_sum(values@, weights);
                highest_bidder_pays_the_others(values@, weights);
                assert(ints(a@).update(k as int, 0) =~= allocation(values@, weights).update(k as int, 0));
            }
            Ok(a)
        },
        None => Err(Error::CalculationFailed),
    }
}

/// The super fair division of `values` when participant `i` counts
/// `weights[i]` times.
///
/// The total weight stands for the number of participants and the bids are
/// summed weighted; the highest bidder is found on the bids alone, and its
/// bid enters the correction unweighted. Every participant but the highest
/// bidder receives its weight times its per-unit share; the highest bidder
/// pays what all the others receive.
pub fn calculate_fair_division_weighted(values: &[i128], weights: &[i128]) -> (r: Result<
    Vec<i128>,
    Error,
>)
    ensures
        values@.len() == 0 || weights@.len() == 0 || values@.len() != weights@.len() ==> r
            == Err::<Vec<i128>, Error>(Error::InvalidInput),
        values@.len() == weights@.len() == 1 ==> r == Err::<Vec<i128>, Error>(
            Error::NotEnoughParticipants,
        ),
        values@.len() == weights@.len() >= 2 && !all_positive(weights@) ==> r == Err::<
            Vec<i128>,
            Error,
        >(Error::InvalidInput),
        values@.len() == weights@.len() >= 2 && all_positive(weights@) && !weighted_fits(
            values@,
            weights@,
        ) ==> r == Err::<Vec<i128>, Error>(Error::CalculationFailed),
        values@.len() == weights@.len() >= 2 && all_positive(weights@) && weighted_fits(
            values@,
            weights@,
        ) ==> r is Ok,
        r matches Ok(a) ==> {
            &&& ints(a@) == weighted_allocation(values@, weights@)
            &&& a@.len() == values@.len()
            &&& sum(ints(a@)) == 0
            &&& a@[highest_bidder(values@)] == -sum(ints(a@).update(highest_bidder(values@), 0))
        },
{
    if values.len() == 0 || weights.len() == 0 || values.len() != weights.len() {
        return Err(Error::InvalidInput);
    }
    if values.len() < 2 {
        return Err(Error::NotEnoughParticipants);
    }
    let mut i: usize = 0;
    while i < weights.len()
        invariant
            i <= weights@.len(),
            values@.len() == weights@.len() >= 2,
            forall|j: int| 0 <= j < i ==> #[trigger] weights@[j] > 0,
        decreases weights@.len() - i,
    {
        if weights[i] <= 0 {
            return Err(Error::InvalidInput);
        }
        i += 1;
    }
    assert(all_positive(weights@));
    let ghost w = ints(weights@);
    let ghost products_model = weighted_values(values@, w);
    let n = match checked_total(weights) {
        Some(t) => t,
        None => return Err(Error::CalculationFailed),
    };
    proof {
        lemma_sum_at_least_len(w);
    }
    let mut products: Vec<i128> = Vec::with_capacity(values.len());
    let mut i: usize = 0;
    while i < values.len()
        invariant
            i <= values@.len(),
            values@.len() == weights@.len() >= 2,
            all_positive(weights@),
            w == ints(weights@),
            products_model == weighted_values(values@, w),
            products@.len() == i,
            forall|j: int| 0 <= j < i ==> products@[j] == #[trigger] products_model[j],
        decreases values@.len() - i,
    {
        let p = match values[i].checked_mul(weights[i]) {
            Some(x) => x,
            None => {
                assert(!fits_i128(products_model[i as int]));
                return Err(Error::CalculationFailed);
            },
        };
        products.push(p);
        i += 1;
    }
    assert(ints(products@) =~= products_model);
    let sum_v = match checked_total(products.as_slice()) {
        Some(t) => t,
        None => return Err(Error::CalculationFailed),
    };
    let k = highest_bidder_index(values);
    let delta = match fairness_correction(n, values[k], sum_v) {
        Some(d) => d,
        None => return Err(Error::CalculationFailed),
    };
    let mut shares: Vec<i128> = Vec::with_capacity(values.len());
    let mut i: usize = 0;
    while i < values.len()
        invariant
            i <= values@.len(),
            values@.len() == weights@.len() >= 2,
            all_positive(weights@),
            w == ints(weights@),
            n >= 1,
            n == sum(w),
            k == highest_bidder(values@),
            delta == delta_of(values@, w),
            shares@.len() == i,
            forall|j: int| 0 <= j < i ==> shares@[j] == #[trigger] shares_of(values@, w)[j],
            forall|j: int|
                0 <= j < i && j != k ==> fits_i128(
                    #[trigger] base_share(values@[j] as int, n as int, delta as int),
                ),
        decreases values@.len() - i,
    {
        if i != k {
            let unit = match div_toward_zero(values[i], n).checked_add(delta) {
                Some(x) => x,
                None => {
                    assert(!fits_i128(base_share(values@[i as int] as int, n as int, delta as int)));
                    return Err(Error::CalculationFailed);
                },
            };
            let share = match unit.checked_mul(weights[i]) {
                Some(x) => x,
                None => {
                    assert(!fits_i128(shares_of(values@, w)[i as int]));
                    return Err(Error::CalculationFailed);
                },
            };
            shares.push(share);
        } else {
            shares.push(0);
        }
        i += 1;
    }
    assert(ints(shares@) =~= shares_of(values@, w));
    match settle(shares, k) {
        Some(a) => {
            proof {
                allocation_is_zero_sum(values@, w);
                highest_bidder_pays_the_others(values@, w);
                assert(ints(a@).update(k as int, 0) =~= allocation(values@, w).update(k as int, 0));
            }
            Ok(a)
        },
        None => Err(Error::CalculationFailed),
    }
}

} // verus!
