//! How values that were measured are summarized.
use crate::float_bits::{rank64, ranks_are_distinct, ranks_below64};
use crate::order::{
    is_order, is_permutation, order_by, orders_are_complete, rearranging_keeps_the_values,
    strict_total,
};
use vstd::prelude::*;
use vstd::relations::{antisymmetric, sorted_by};
use vstd::seq_lib::lemma_sorted_unique;

verus! {

/// The averages of numbers, by their bits: of a list, and of two.
pub struct Averages<M, H> {
    pub mean: M,
    pub middle: H,
}

/// What averages are.
pub struct Averaging {
    pub mean: spec_fn(Seq<u64>) -> u64,
    pub middle: spec_fn(u64, u64) -> u64,
}

/// Both averages can be taken of everything.
pub open spec fn can_average<M: Fn(&[u64]) -> u64, H: Fn(u64, u64) -> u64>(
    averages: Averages<M, H>,
) -> bool {
    &&& forall|values: &[u64]| #[trigger] call_requires(averages.mean, (values,))
    &&& forall|a: u64, b: u64| #[trigger] call_requires(averages.middle, (a, b))
}

/// The averages are functions, and these.
pub open spec fn averages_as<M: Fn(&[u64]) -> u64, H: Fn(u64, u64) -> u64>(
    averages: Averages<M, H>,
    averaging: Averaging,
) -> bool {
    &&& forall|values: &[u64], bits: u64| #[trigger]
        call_ensures(averages.mean, (values,), bits) ==> bits == (averaging.mean)(values@)
    &&& forall|a: u64, b: u64, bits: u64| #[trigger]
        call_ensures(averages.middle, (a, b), bits) ==> bits == (averaging.middle)(a, b)
}

/// What values come to. Where there are none, everything is zero.
#[derive(Clone, Copy, Debug, PartialEq, Eq, Structural)]
pub struct Distribution {
    pub count: usize,
    pub min: u64,
    pub mean: u64,
    pub median: u64,
    pub max: u64,
    pub p95: Option<u64>,
}

/// One value comes before another: it is smaller, or it is the same and stands
/// before it.
pub open spec fn value_before(values: Seq<u64>, a: int, b: int) -> bool {
    rank64(values[a]) < rank64(values[b]) || (values[a] == values[b] && a < b)
}

/// `order` lists values from the smallest to the largest.
pub open spec fn is_value_order(order: Seq<usize>, values: Seq<u64>) -> bool {
    is_order(order, values.len(), |a: int, b: int| value_before(values, a, b))
}

/// Values in an order.
pub open spec fn arranged(values: Seq<u64>, order: Seq<usize>) -> Seq<u64> {
    order.map_values(|index: usize| values[index as int])
}

/// The place of the value that ninety-five in a hundred do not exceed.
pub open spec fn percentile_place(count: int) -> int {
    (count - 1) - (count - 1) / 20
}

/// What sorted values come to. The median of an even number of values is the
/// average of the two in the middle, and twenty values have a percentile.
pub open spec fn distribution_at(sorted: Seq<u64>, averaging: Averaging) -> Distribution {
    let half = sorted.len() as int / 2;
    if sorted.len() == 0 {
        Distribution { count: 0, min: 0, mean: 0, median: 0, max: 0, p95: None }
    } else {
        Distribution {
            count: sorted.len() as usize,
            min: sorted[0],
            mean: (averaging.mean)(sorted),
            median: if sorted.len() % 2 == 0 {
                (averaging.middle)(sorted[half - 1], sorted[half])
            } else {
                sorted[half]
            },
            max: sorted.last(),
            p95: if sorted.len() >= 20 {
                Some(sorted[percentile_place(sorted.len() as int)])
            } else {
                None
            },
        }
    }
}

/// A distribution is that of values.
pub open spec fn summarizes(
    distribution: Distribution,
    values: Seq<u64>,
    averaging: Averaging,
) -> bool {
    exists|order: Seq<usize>| #[trigger]
        is_value_order(order, values) && distribution == distribution_at(
            arranged(values, order),
            averaging,
        )
}

fn order_values(values: &Vec<u64>) -> (order: Vec<usize>)
    ensures
        is_value_order(order@, values@),
{
    let ghost less = |a: int, b: int| value_before(values@, a, b);
    let before = |a: usize, b: usize| -> (earlier: bool)
        requires
            a < values@.len(),
            b < values@.len(),
        ensures
            earlier == value_before(values@, a as int, b as int),
        { ranks_below64(values[a], values[b]) || (values[a] == values[b] && a < b) };
    proof {
        values_are_ordered(values@);
    }
    order_by(values.len(), &before, Ghost(less))
}

/// What values come to. They are sorted by their place in the order of all
/// numbers, and the mean is taken of the sorted values.
pub fn distribution<M: Fn(&[u64]) -> u64, H: Fn(u64, u64) -> u64>(
    values: &Vec<u64>,
    averages: &Averages<M, H>,
) -> (found: Distribution)
    requires
        can_average(*averages),
    ensures
        forall|averaging: Averaging| #[trigger]
            averages_as(*averages, averaging) ==> summarizes(found, values@, averaging),
{
    let order = order_values(values);
    let mut sorted: Vec<u64> = Vec::new();
    let mut index: usize = 0;
    while index < order.len()
        invariant
            index <= order@.len(),
            is_value_order(order@, values@),
            sorted@ == arranged(values@, order@).take(index as int),
        decreases order.len() - index,
    {
        assert(order@[index as int] < values@.len());
        sorted.push(values[order[index]]);
        index = index + 1;
        assert(sorted@ =~= arranged(values@, order@).take(index as int));
    }
    assert(sorted@ =~= arranged(values@, order@));
    let count: usize = sorted.len();
    if count == 0 {
        return Distribution { count: 0, min: 0, mean: 0, median: 0, max: 0, p95: None };
    }
    let half: usize = count / 2;
    let median: u64 = if count % 2 == 0 {
        (averages.middle)(sorted[half - 1], sorted[half])
    } else {
        sorted[half]
    };
    let p95: Option<u64> = if count >= 20 {
        let place: usize = (count - 1) - (count - 1) / 20;
        Some(sorted[place])
    } else {
        None
    };
    let mean: u64 = (averages.mean)(sorted.as_slice());
    Distribution { count, min: sorted[0], mean, median, max: sorted[count - 1], p95 }
}

proof fn values_are_ordered(values: Seq<u64>)
    ensures
        strict_total(values.len(), |a: int, b: int| value_before(values, a, b)),
{
    let less = |a: int, b: int| value_before(values, a, b);
    assert forall|a: int, b: int|
        0 <= a < values.len() && 0 <= b < values.len() && a != b implies #[trigger] less(a, b)
        || less(b, a) by {
        ranks_are_distinct(values[a], values[b]);
    }
    assert forall|a: int, b: int|
        0 <= a < values.len() && 0 <= b < values.len() && #[trigger] less(a, b) implies !less(b, a) by {
        ranks_are_distinct(values[a], values[b]);
    }
}

/// A distribution counts all of its values, and every one of them lies between
/// its smallest and its largest, which are among them.
pub proof fn extremes_enclose_the_values(
    found: Distribution,
    values: Seq<u64>,
    averaging: Averaging,
)
    requires
        summarizes(found, values, averaging),
        0 < values.len() <= usize::MAX,
    ensures
        found.count == values.len(),
        values.contains(found.min),
        values.contains(found.max),
        forall|k: int|
            0 <= k < values.len() ==> rank64(found.min) <= rank64(#[trigger] values[k]) <= rank64(
                found.max,
            ),
{
    let order = choose|order: Seq<usize>| #[trigger]
        is_value_order(order, values) && found == distribution_at(
            arranged(values, order),
            averaging,
        );
    let less = |a: int, b: int| value_before(values, a, b);
    let sorted = arranged(values, order);
    let first = order[0] as int;
    let last = order[order.len() - 1] as int;
    assert(sorted[0] == values[first]);
    assert(sorted.last() == values[last]);
    values_are_ordered(values);
    orders_are_complete(order, values.len(), less);
    assert forall|k: int| 0 <= k < values.len() implies rank64(found.min) <= rank64(
        #[trigger] values[k],
    ) <= rank64(found.max) by {
        assert(order.contains(k as usize));
        let i = choose|i: int| 0 <= i < order.len() && order[i] == k as usize;
        if i > 0 {
            assert(less(order[0] as int, order[i] as int));
        }
        if i < order.len() - 1 {
            assert(less(order[i] as int, order[order.len() - 1] as int));
        }
    }
}

/// Sorted values depend on the values alone, not on the order in which they were
/// given.
proof fn arranged_values_are_the_same(
    values: Seq<u64>,
    order: Seq<usize>,
    others: Seq<u64>,
    other_order: Seq<usize>,
)
    requires
        values.len() <= usize::MAX,
        values.to_multiset() == others.to_multiset(),
        is_value_order(order, values),
        is_value_order(other_order, others),
    ensures
        arranged(values, order) == arranged(others, other_order),
{
    values.to_multiset_ensures();
    others.to_multiset_ensures();
    assert(values.len() == others.len());
    arranged_values_are_sorted(values, order);
    arranged_values_are_sorted(others, other_order);
    let leq = |a: u64, b: u64| rank64(a) <= rank64(b);
    assert(antisymmetric(leq)) by {
        assert forall|a: u64, b: u64| #[trigger] leq(a, b) && #[trigger] leq(b, a) implies a == b by {
            ranks_are_distinct(a, b);
        }
    }
    lemma_sorted_unique(arranged(values, order), arranged(others, other_order), leq);
}

proof fn arranged_values_are_sorted(values: Seq<u64>, order: Seq<usize>)
    requires
        values.len() <= usize::MAX,
        is_value_order(order, values),
    ensures
        sorted_by(arranged(values, order), |a: u64, b: u64| rank64(a) <= rank64(b)),
        arranged(values, order).to_multiset() == values.to_multiset(),
{
    let less = |a: int, b: int| value_before(values, a, b);
    let sorted = arranged(values, order);
    values_are_ordered(values);
    orders_are_complete(order, values.len(), less);
    assert(is_permutation(order));
    rearranging_keeps_the_values(values, order);
    let leq = |a: u64, b: u64| rank64(a) <= rank64(b);
    assert forall|i: int, j: int| 0 <= i < j < sorted.len() implies #[trigger] leq(
        sorted[i],
        sorted[j],
    ) by {
        assert(less(order[i] as int, order[j] as int));
    }
}

/// The order in which values are given makes no difference: the same values have
/// one distribution.
pub proof fn distributions_ignore_the_order(
    found: Distribution,
    values: Seq<u64>,
    other: Distribution,
    others: Seq<u64>,
    averaging: Averaging,
)
    requires
        values.len() <= usize::MAX,
        values.to_multiset() == others.to_multiset(),
        summarizes(found, values, averaging),
        summarizes(other, others, averaging),
    ensures
        found == other,
{
    let order = choose|order: Seq<usize>| #[trigger]
        is_value_order(order, values) && found == distribution_at(
            arranged(values, order),
            averaging,
        );
    let other_order = choose|order: Seq<usize>| #[trigger]
        is_value_order(order, others) && other == distribution_at(
            arranged(others, order),
            averaging,
        );
    arranged_values_are_the_same(values, order, others, other_order);
}


/// A distribution comes of the values in order, none left out: the smallest and the
/// largest, the one in the middle or the average of the two there, and, of twenty or
/// more, the first that lies at or beyond ninety-five hundredths of the way from the
/// first to the last.
pub proof fn distributions_come_of_sorted_values(
    found: Distribution,
    values: Seq<u64>,
    averaging: Averaging,
) -> (sorted: Seq<u64>)
    requires
        summarizes(found, values, averaging),
        values.len() <= usize::MAX,
    ensures
        sorted.to_multiset() == values.to_multiset(),
        sorted.len() == values.len(),
        forall|i: int, j: int|
            0 <= i < j < sorted.len() ==> rank64(#[trigger] sorted[i]) <= rank64(
                #[trigger] sorted[j],
            ),
        found.count == values.len(),
        values.len() > 0 ==> {
            let last = values.len() - 1;
            &&& found.min == sorted[0]
            &&& found.max == sorted[last]
            &&& found.mean == (averaging.mean)(sorted)
            &&& last % 2 == 0 ==> found.median == sorted[last / 2]
            &&& last % 2 == 1 ==> found.median == (averaging.middle)(
                sorted[last / 2],
                sorted[last / 2 + 1],
            )
            &&& found.p95 is Some <==> values.len() >= 20
            &&& values.len() >= 20 ==> exists|place: int|
                0 <= place <= last && 19 * last <= 20 * place < 19 * last + 20 && found.p95 == Some(
                    #[trigger] sorted[place],
                )
        },
        values.len() == 0 ==> found == (Distribution {
            count: 0,
            min: 0,
            mean: 0,
            median: 0,
            max: 0,
            p95: None,
        }),
{
    let order = choose|order: Seq<usize>| #[trigger]
        is_value_order(order, values) && found == distribution_at(
            arranged(values, order),
            averaging,
        );
    let sorted = arranged(values, order);
    arranged_values_are_sorted(values, order);
    let leq = |a: u64, b: u64| rank64(a) <= rank64(b);
    assert forall|i: int, j: int| 0 <= i < j < sorted.len() implies rank64(#[trigger] sorted[i])
        <= rank64(#[trigger] sorted[j]) by {
        assert(leq(sorted[i], sorted[j]));
    }
    if values.len() >= 20 {
        let last = values.len() - 1;
        let place = percentile_place(values.len() as int);
        assert(19 * last <= 20 * place < 19 * last + 20);
        assert(found.p95 == Some(sorted[place]));
    }
    sorted
}

} // verus!
