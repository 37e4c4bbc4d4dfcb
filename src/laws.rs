//! Laws that every allocation obeys.
use vstd::prelude::*;

use crate::model::{
    allocation, first_max_in, highest_bidder, lemma_first_max_in_range, lemma_sum_update,
    shares_of, sum,
};

verus! {

/// The highest bidder has the largest bid, and every participant before it
/// bid strictly less: among equal highest bids the lowest index wins.
pub proof fn highest_bidder_is_first_maximum(values: Seq<i128>)
    requires
        values.len() >= 1,
    ensures
        0 <= highest_bidder(values) < values.len(),
        forall|j: int| 0 <= j < values.len() ==> #[trigger] values[j] <= values[highest_bidder(values)],
        forall|j: int|
            0 <= j < highest_bidder(values) ==> #[trigger] values[j] < values[highest_bidder(values)],
{
    lemma_first_max_is_maximum(values, values.len() as int);
}

proof fn lemma_first_max_is_maximum(values: Seq<i128>, k: int)
    requires
        1 <= k <= values.len(),
    ensures
        0 <= first_max_in(values, k) < k,
        forall|j: int| 0 <= j < k ==> #[trigger] values[j] <= values[first_max_in(values, k)],
        forall|j: int|
            0 <= j < first_max_in(values, k) ==> #[trigger] values[j] < values[first_max_in(values, k)],
    decreases k,
{
    if k > 1 {
        lemma_first_max_is_maximum(values, k - 1);
    }
}

/// An allocation has one entry per participant, and its entries add up to zero.
pub proof fn allocation_is_zero_sum(values: Seq<i128>, weights: Seq<int>)
    requires
        values.len() >= 1,
    ensures
        allocation(values, weights).len() == values.len(),
        sum(allocation(values, weights)) == 0,
{
    let k = highest_bidder(values);
    let s = shares_of(values, weights);
    lemma_first_max_in_range(values, values.len() as int);
    lemma_sum_update(s, k, -sum(s));
}

/// The highest bidder pays exactly what all the other participants receive.
pub proof fn highest_bidder_pays_the_others(values: Seq<i128>, weights: Seq<int>)
    requires
        values.len() >= 1,
    ensures
        allocation(values, weights)[highest_bidder(values)] == -sum(
            allocation(values, weights).update(highest_bidder(values), 0),
        ),
{
    let k = highest_bidder(values);
    let s = shares_of(values, weights);
    lemma_first_max_in_range(values, values.len() as int);
    assert(allocation(values, weights).update(k, 0) =~= s);
}

} // verus!
