//! Percentiles of a sample of whole numbers.

use vstd::prelude::*;

use crate::order::{arrange, arranged, arranging_keeps_elements, arranging_orders, in_order, Ordered};

verus! {

/// The place in a sorted sample of `n` numbers where a percentile stands, by
/// the nearest rank: the least place such that at least that share of the
/// sample stands at it or before it.
pub open spec fn nearest_place(n: nat, percent: nat) -> int {
    let rank = (percent * n + 99) / 100;
    let place = if rank == 0 {
        0int
    } else {
        rank - 1
    };
    if place >= n {
        n - 1
    } else {
        place
    }
}

/// The percentile of a sorted sample; zero where it is empty.
pub open spec fn percentile_of(sorted: Seq<u64>, percent: nat) -> u64 {
    if sorted.len() == 0 {
        0
    } else {
        sorted[nearest_place(sorted.len(), percent)]
    }
}

/// A sample in ascending order.
pub fn sorted_sample(values: Vec<u64>) -> (r: Vec<u64>)
    ensures
        r@ == arranged(values@),
        r@.len() == values@.len(),
        in_order(r@),
{
    proof {
        arranging_keeps_elements(values@);
        arranging_orders(values@);
    }
    arrange(values)
}

/// The percentile of a sorted sample, by the nearest rank. A number between
/// two observations is never made up.
pub fn percentile(sorted: &Vec<u64>, percent: u8) -> (r: u64)
    ensures
        r == percentile_of(sorted@, percent as nat),
{
    let n = sorted.len();
    if n == 0 {
        return 0;
    }
    assert(0 <= percent * n <= 0xff * usize::MAX) by (nonlinear_arith)
        requires
            0 <= percent <= 0xff,
            0 <= n <= usize::MAX,
    ;
    let rank: u128 = (percent as u128 * n as u128 + 99) / 100;
    let last: u128 = n as u128 - 1;
    let place: u128 = if rank == 0 {
        0
    } else {
        rank - 1
    };
    let i: usize = if place > last {
        n - 1
    } else {
        place as usize
    };
    assert(i == nearest_place(n as nat, percent as nat));
    sorted[i]
}

/// A percentile is a number that was observed, and a higher percentile is no
/// lower number.
pub proof fn percentiles_come_from_observed_values(values: Seq<u64>, low: nat, high: nat)
    requires
        values.len() > 0,
        low <= high,
    ensures
        values.contains(percentile_of(arranged(values), low)),
        percentile_of(arranged(values), low) <= percentile_of(arranged(values), high),
{
    let sorted = arranged(values);
    arranging_keeps_elements(values);
    arranging_orders(values);
    let n = sorted.len();
    assert(0 <= nearest_place(n, low) < n);
    assert(low * n <= high * n) by (nonlinear_arith)
        requires
            low <= high,
    ;
    assert(nearest_place(n, low) <= nearest_place(n, high));
    let x = sorted[nearest_place(n, low)];
    assert(values.contains(x)) by {
        broadcast use vstd::seq_lib::group_to_multiset_ensures;

        assert(sorted.to_multiset().count(x) > 0);
        assert(values.to_multiset().count(x) > 0);
    }
    let i = nearest_place(n, low);
    let j = nearest_place(n, high);
    if i < j {
        assert(!sorted[j].ahead(&sorted[i]));
    }
}

/// At least the share of the sample that a percentile names is no greater than
/// it.
pub proof fn a_percentile_covers_its_share(values: Seq<u64>, percent: nat, k: int)
    requires
        values.len() > 0,
        0 <= k <= nearest_place(values.len(), percent),
        percent <= 100,
    ensures
        arranged(values)[k] <= percentile_of(arranged(values), percent),
        100 * (nearest_place(values.len(), percent) + 1) >= percent * values.len(),
{
    let sorted = arranged(values);
    arranging_keeps_elements(values);
    arranging_orders(values);
    let n = values.len();
    let i = nearest_place(n, percent);
    assert(percent * n <= 100 * n) by (nonlinear_arith)
        requires
            percent <= 100,
    ;
    if k < i {
        assert(!sorted[i].ahead(&sorted[k]));
    }
}

/// The place of a percentile is the least one such that the places up to it are
/// at least that share of the sample.
pub proof fn a_percentile_stands_at_the_least_place(n: nat, percent: nat)
    requires
        n > 0,
        percent <= 100,
    ensures
        0 <= nearest_place(n, percent) < n,
        100 * (nearest_place(n, percent) + 1) >= percent * n,
        nearest_place(n, percent) > 0 ==> 100 * nearest_place(n, percent) < percent * n,
{
    assert(percent * n <= 100 * n) by (nonlinear_arith)
        requires
            percent <= 100,
    ;
}

} // verus!
