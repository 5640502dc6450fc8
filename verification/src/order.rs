//! Lexicographic order of byte strings, and stable sorting by index.
use vstd::prelude::*;
use vstd::set_lib::{lemma_int_range, lemma_len_subset, lemma_subset_equality, set_int_range};

verus! {

/// `left` comes before `right` in lexicographic order.
pub open spec fn bytes_less(left: Seq<u8>, right: Seq<u8>) -> bool
    decreases left.len(),
{
    if right.len() == 0 {
        false
    } else if left.len() == 0 {
        true
    } else if left[0] != right[0] {
        left[0] < right[0]
    } else {
        bytes_less(left.skip(1), right.skip(1))
    }
}

/// No byte string comes before itself.
pub proof fn bytes_less_irreflexive(bytes: Seq<u8>)
    ensures
        !bytes_less(bytes, bytes),
    decreases bytes.len(),
{
    if bytes.len() > 0 {
        bytes_less_irreflexive(bytes.skip(1));
    }
}

/// Of two different byte strings one comes before the other.
pub proof fn bytes_less_total(left: Seq<u8>, right: Seq<u8>)
    ensures
        bytes_less(left, right) || bytes_less(right, left) || left == right,
        !(bytes_less(left, right) && bytes_less(right, left)),
    decreases left.len(),
{
    if left.len() == 0 || right.len() == 0 {
        if left.len() == 0 && right.len() == 0 {
            assert(left =~= right);
        }
    } else if left[0] == right[0] {
        bytes_less_total(left.skip(1), right.skip(1));
        if left.skip(1) == right.skip(1) {
            assert(left =~= seq![left[0]] + left.skip(1));
            assert(right =~= seq![right[0]] + right.skip(1));
        }
    }
}

/// The order is transitive.
pub proof fn bytes_less_transitive(first: Seq<u8>, second: Seq<u8>, third: Seq<u8>)
    requires
        bytes_less(first, second),
        bytes_less(second, third),
    ensures
        bytes_less(first, third),
    decreases first.len(),
{
    if first.len() > 0 && first[0] == second[0] && second[0] == third[0] {
        bytes_less_transitive(first.skip(1), second.skip(1), third.skip(1));
    }
}

/// Whether `left` comes before `right` in lexicographic order.
pub fn bytes_before(left: &[u8], right: &[u8]) -> (before: bool)
    ensures
        before == bytes_less(left@, right@),
{
    let mut index: usize = 0;
    assert(left@.skip(0) =~= left@);
    assert(right@.skip(0) =~= right@);
    while index < left.len() && index < right.len()
        invariant
            index <= left.len(),
            index <= right.len(),
            bytes_less(left@, right@) == bytes_less(
                left@.skip(index as int),
                right@.skip(index as int),
            ),
        decreases left.len() - index,
    {
        if left[index] != right[index] {
            return left[index] < right[index];
        }
        assert(left@.skip(index as int).skip(1) =~= left@.skip(index + 1));
        assert(right@.skip(index as int).skip(1) =~= right@.skip(index + 1));
        index = index + 1;
    }
    left.len() < right.len()
}

/// `less` orders the numbers below `count` strictly and totally.
pub open spec fn strict_total(count: nat, less: spec_fn(int, int) -> bool) -> bool {
    &&& forall|a: int, b: int|
        0 <= a < count && 0 <= b < count && a != b ==> #[trigger] less(a, b) || less(b, a)
    &&& forall|a: int, b: int|
        0 <= a < count && 0 <= b < count && #[trigger] less(a, b) ==> !less(b, a)
    &&& forall|a: int, b: int, c: int|
        0 <= a < count && 0 <= b < count && 0 <= c < count && #[trigger] less(a, b)
            && #[trigger] less(b, c) ==> less(a, c)
}

/// `order` lists the numbers below `count`, each once, in the order of `less`.
pub open spec fn is_order(order: Seq<usize>, count: nat, less: spec_fn(int, int) -> bool) -> bool {
    &&& order.len() == count
    &&& forall|i: int| 0 <= i < order.len() ==> (#[trigger] order[i]) < count
    &&& forall|i: int, j: int|
        0 <= i < j < order.len() ==> less(#[trigger] order[i] as int, #[trigger] order[j] as int)
}

/// The numbers below `count` in the order that `before` computes.
pub fn order_by<F: Fn(usize, usize) -> bool>(
    count: usize,
    before: &F,
    Ghost(less): Ghost<spec_fn(int, int) -> bool>,
) -> (order: Vec<usize>)
    requires
        strict_total(count as nat, less),
        forall|a: usize, b: usize| a < count && b < count ==> call_requires(*before, (a, b)),
        forall|a: usize, b: usize, r: bool|
            a < count && b < count && call_ensures(*before, (a, b), r) ==> r == less(
                a as int,
                b as int,
            ),
    ensures
        is_order(order@, count as nat, less),
{
    let mut order: Vec<usize> = Vec::new();
    let mut next: usize = 0;
    while next < count
        invariant
            next <= count,
            strict_total(count as nat, less),
            forall|a: usize, b: usize| a < count && b < count ==> call_requires(*before, (a, b)),
            forall|a: usize, b: usize, r: bool|
                a < count && b < count && call_ensures(*before, (a, b), r) ==> r == less(
                    a as int,
                    b as int,
                ),
            order@.len() == next,
            forall|i: int| 0 <= i < order@.len() ==> (#[trigger] order@[i]) < next,
            forall|i: int, j: int|
                0 <= i < j < order@.len() ==> less(
                    #[trigger] order@[i] as int,
                    #[trigger] order@[j] as int,
                ),
        decreases count - next,
    {
        let mut at: usize = 0;
        let mut found = false;
        while at < order.len() && !found
            invariant
                next < count,
                at <= order@.len(),
                order@.len() == next,
                forall|i: int| 0 <= i < order@.len() ==> (#[trigger] order@[i]) < next,
                forall|a: usize, b: usize|
                    a < count && b < count ==> call_requires(*before, (a, b)),
                forall|a: usize, b: usize, r: bool|
                    a < count && b < count && call_ensures(*before, (a, b), r) ==> r == less(
                        a as int,
                        b as int,
                    ),
                forall|i: int| 0 <= i < at ==> !less(next as int, #[trigger] order@[i] as int),
                found ==> at < order@.len() && less(next as int, order@[at as int] as int),
            decreases order.len() - at, (if found { 0int } else { 1int }),
        {
            if before(next, order[at]) {
                found = true;
            } else {
                at = at + 1;
            }
        }
        let ghost earlier = order@;
        order.insert(at, next);
        proof {
            assert(order@ =~= earlier.insert(at as int, next));
            assert forall|i: int, j: int| 0 <= i < j < order@.len() implies less(
                #[trigger] order@[i] as int,
                #[trigger] order@[j] as int,
            ) by {
                if j < at {
                    assert(order@[i] == earlier[i] && order@[j] == earlier[j]);
                } else if j == at {
                    assert(order@[i] == earlier[i]);
                    assert(!less(next as int, earlier[i] as int));
                } else if i == at {
                    assert(order@[j] == earlier[j - 1]);
                    assert(less(next as int, earlier[at as int] as int));
                    if j - 1 > at {
                        assert(less(earlier[at as int] as int, earlier[j - 1] as int));
                    }
                } else if i < at {
                    assert(order@[i] == earlier[i] && order@[j] == earlier[j - 1]);
                } else {
                    assert(order@[i] == earlier[i - 1] && order@[j] == earlier[j - 1]);
                }
            }
            assert forall|i: int| 0 <= i < order@.len() implies (#[trigger] order@[i]) < next
                + 1 by {
                if i < at {
                    assert(order@[i] == earlier[i]);
                } else if i > at {
                    assert(order@[i] == earlier[i - 1]);
                }
            }
        }
        next = next + 1;
    }
    order
}

/// Two numbers in the order of their byte strings; equal strings keep theirs.
pub open spec fn key_less(keys: Seq<Seq<u8>>, a: int, b: int) -> bool {
    bytes_less(keys[a], keys[b]) || (keys[a] == keys[b] && a < b)
}

/// Comparing by byte strings and then by number orders strictly and totally.
pub proof fn key_less_is_strict_total(keys: Seq<Seq<u8>>)
    ensures
        strict_total(keys.len(), |a: int, b: int| key_less(keys, a, b)),
{
    let less = |a: int, b: int| key_less(keys, a, b);
    assert forall|a: int, b: int|
        0 <= a < keys.len() && 0 <= b < keys.len() && a != b implies #[trigger] less(a, b) || less(
        b,
        a,
    ) by {
        bytes_less_total(keys[a], keys[b]);
    }
    assert forall|a: int, b: int|
        0 <= a < keys.len() && 0 <= b < keys.len() && #[trigger] less(a, b) implies !less(b, a) by {
        bytes_less_total(keys[a], keys[b]);
        bytes_less_irreflexive(keys[a]);
    }
    assert forall|a: int, b: int, c: int|
        0 <= a < keys.len() && 0 <= b < keys.len() && 0 <= c < keys.len() && #[trigger] less(a, b)
            && #[trigger] less(b, c) implies less(a, c) by {
        if bytes_less(keys[a], keys[b]) && bytes_less(keys[b], keys[c]) {
            bytes_less_transitive(keys[a], keys[b], keys[c]);
        }
    }
}

/// An order has no more places than there are numbers to stand for them.
pub proof fn orders_are_bounded(order: Seq<usize>, count: nat, less: spec_fn(int, int) -> bool)
    requires
        is_order(order, count, less),
        strict_total(count, less),
    ensures
        count <= usize::MAX + 1,
{
    let all = order.map_values(|index: usize| index as int);
    assert forall|i: int, j: int| 0 <= i < all.len() && 0 <= j < all.len() && i != j implies all[i]
        != all[j] by {
        let a = order[i] as int;
        let b = order[j] as int;
        if i < j {
            assert(less(a, b));
        } else {
            assert(less(b, a));
        }
        assert(!(less(a, b) && less(b, a)));
    }
    all.unique_seq_to_set();
    lemma_int_range(0, usize::MAX + 1);
    let range = set_int_range(0, usize::MAX + 1);
    assert forall|k: int| all.to_set().contains(k) implies range.contains(k) by {
        let i = choose|i: int| 0 <= i < all.len() && all[i] == k;
        assert(order[i] <= usize::MAX);
    }
    lemma_len_subset(all.to_set(), range);
}

/// An order leaves nothing out: every index is in it, and none twice.
pub proof fn orders_are_complete(order: Seq<usize>, count: nat, less: spec_fn(int, int) -> bool)
    requires
        is_order(order, count, less),
        strict_total(count, less),
    ensures
        order.no_duplicates(),
        forall|k: int| 0 <= k < count ==> #[trigger] order.contains(k as usize),
{
    let all = order.map_values(|index: usize| index as int);
    assert forall|i: int, j: int| 0 <= i < j < order.len() implies order[i] != order[j] by {
        let a = order[i] as int;
        let b = order[j] as int;
        assert(less(a, b));
        assert(!less(b, a));
    }
    assert forall|i: int, j: int| 0 <= i < all.len() && 0 <= j < all.len() && i != j implies all[i]
        != all[j] by {
        if i < j {
            assert(order[i] != order[j]);
        } else {
            assert(order[j] != order[i]);
        }
    }
    all.unique_seq_to_set();
    lemma_int_range(0, count as int);
    let range = set_int_range(0, count as int);
    assert forall|k: int| all.to_set().contains(k) implies range.contains(k) by {
        let i = choose|i: int| 0 <= i < all.len() && all[i] == k;
        assert(order[i] < count);
    }
    lemma_len_subset(all.to_set(), range);
    lemma_subset_equality(all.to_set(), range);
    assert forall|k: int| 0 <= k < count implies #[trigger] order.contains(k as usize) by {
        assert(range.contains(k));
        assert(all.to_set().contains(k));
        let i = choose|i: int| 0 <= i < all.len() && all[i] == k;
        assert(order[i] == k as usize);
    }
}

/// `order` holds every number below its length once.
pub open spec fn is_permutation(order: Seq<usize>) -> bool {
    &&& order.no_duplicates()
    &&& forall|i: int| 0 <= i < order.len() ==> (#[trigger] order[i]) < order.len()
    &&& forall|k: int| 0 <= k < order.len() ==> #[trigger] order.contains(k as usize)
}

/// Values in another order are the same values.
pub proof fn rearranging_keeps_the_values<A>(values: Seq<A>, order: Seq<usize>)
    requires
        is_permutation(order),
        order.len() == values.len() <= usize::MAX,
    ensures
        order.map_values(|index: usize| values[index as int]).to_multiset() == values.to_multiset(),
    decreases values.len(),
{
    broadcast use vstd::multiset::group_multiset_axioms;
    broadcast use vstd::seq_lib::group_to_multiset_ensures;

    let all = order.map_values(|index: usize| values[index as int]);
    if values.len() == 0 {
        assert(all =~= values);
    } else {
        let end = values.len() - 1;
        assert(order.contains(end as usize));
        let p = choose|p: int| 0 <= p < order.len() && order[p] == end as usize;
        let fewer = order.remove(p);
        let shorter = values.drop_last();
        assert forall|i: int| 0 <= i < fewer.len() implies (#[trigger] fewer[i]) < fewer.len() by {
            let j = if i < p {
                i
            } else {
                i + 1
            };
            assert(fewer[i] == order[j]);
            assert(order[j] != order[p]);
        }
        assert forall|k: int| 0 <= k < fewer.len() implies #[trigger] fewer.contains(k as usize) by {
            assert(order.contains(k as usize));
            let j = choose|j: int| 0 <= j < order.len() && order[j] == k as usize;
            if j < p {
                assert(fewer[j] == k as usize);
            } else {
                assert(fewer[j - 1] == k as usize);
            }
        }
        rearranging_keeps_the_values(shorter, fewer);
        let rest = fewer.map_values(|index: usize| shorter[index as int]);
        assert(rest =~= all.remove(p));
        assert(values =~= shorter.push(values.last()));
        assert(all.remove(p).to_multiset() =~= all.to_multiset().remove(all[p]));
        assert(values.to_multiset() =~= shorter.to_multiset().insert(values.last()));
        assert(all.to_multiset().contains(all[p])) by {
            assert(all.contains(all[p]));
        }
        assert(all.to_multiset() =~= all.remove(p).to_multiset().insert(all[p]));
    }
}


/// Where two byte strings first differ, the smaller byte comes first; where one ends and
/// the other goes on, the shorter comes first.
pub proof fn first_differences_decide(left: Seq<u8>, right: Seq<u8>, at: int)
    requires
        0 <= at <= left.len(),
        at <= right.len(),
        forall|i: int| 0 <= i < at ==> left[i] == #[trigger] right[i],
    ensures
        at < left.len() && at < right.len() && left[at] < right[at] ==> bytes_less(left, right)
            && !bytes_less(right, left),
        at == left.len() && at < right.len() ==> bytes_less(left, right) && !bytes_less(right, left),
    decreases at,
{
    if at > 0 {
        assert(left[0] == right[0]);
        assert forall|i: int| 0 <= i < at - 1 implies left.skip(1)[i] == #[trigger] right.skip(
            1,
        )[i] by {
            assert(left[i + 1] == right[i + 1]);
        }
        first_differences_decide(left.skip(1), right.skip(1), at - 1);
    }
}

} // verus!
