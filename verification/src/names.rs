//! Sets of texts, kept in order.
use crate::order::{
    bytes_before, bytes_less, bytes_less_irreflexive, bytes_less_total, bytes_less_transitive,
};
use crate::text::{encoding_is_injective, str_eq};
use vstd::prelude::*;
use vstd::string::*;
use vstd::utf8::*;

verus! {

/// A set of texts, in the order of their bytes.
#[derive(Debug)]
pub struct SortedNames {
    names: Vec<String>,
}

/// Texts are in order, and none occurs twice.
pub open spec fn in_order(names: Seq<Seq<char>>) -> bool {
    forall|i: int, j: int|
        0 <= i < j < names.len() ==> bytes_less(
            encode_utf8(#[trigger] names[i]),
            encode_utf8(#[trigger] names[j]),
        )
}

impl View for SortedNames {
    type V = Seq<Seq<char>>;

    closed spec fn view(&self) -> Seq<Seq<char>> {
        self.names@.map_values(|name: String| name@)
    }
}

impl SortedNames {
    /// The texts of the set are in order.
    pub open spec fn wf(&self) -> bool {
        in_order(self@)
    }

    /// Where a text stands, or where it would.
    pub open spec fn is_place(&self, name: Seq<char>, place: int) -> bool {
        &&& 0 <= place <= self@.len()
        &&& forall|i: int|
            0 <= i < place ==> bytes_less(encode_utf8(#[trigger] self@[i]), encode_utf8(name))
        &&& forall|i: int|
            place <= i < self@.len() ==> !bytes_less(
                encode_utf8(#[trigger] self@[i]),
                encode_utf8(name),
            )
    }

    pub fn new() -> (names: Self)
        ensures
            names.wf(),
            names@ == Seq::<Seq<char>>::empty(),
    {
        let names = SortedNames { names: Vec::new() };
        assert(names@ =~= Seq::empty());
        names
    }

    pub fn len(&self) -> (count: usize)
        ensures
            count == self@.len(),
    {
        self.names.len()
    }

    pub fn get(&self, index: usize) -> (name: &str)
        requires
            index < self@.len(),
        ensures
            name@ == self@[index as int],
    {
        self.names[index].as_str()
    }

    /// Looks for a text: whether it is there, and where it stands or would.
    pub fn find(&self, name: &str) -> (found: (bool, usize))
        requires
            self.wf(),
        ensures
            found.0 == self@.contains(name@),
            found.0 ==> found.1 < self@.len() && self@[found.1 as int] == name@,
            self.is_place(name@, found.1 as int),
    {
        let ghost key = encode_utf8(name@);
        let mut low: usize = 0;
        let mut high: usize = self.names.len();
        while low < high
            invariant
                low <= high <= self@.len(),
                self@.len() == self.names@.len(),
                self.wf(),
                key == encode_utf8(name@),
                forall|i: int|
                    0 <= i < low ==> bytes_less(encode_utf8(#[trigger] self@[i]), key),
                forall|i: int|
                    high <= i < self@.len() ==> !bytes_less(encode_utf8(#[trigger] self@[i]), key),
            decreases high - low,
        {
            let middle: usize = low + (high - low) / 2;
            let ghost text = self@[middle as int];
            assert(text == self.names@[middle as int]@);
            if bytes_before(self.names[middle].as_str().as_bytes(), name.as_bytes()) {
                proof {
                    assert forall|i: int| 0 <= i < middle + 1 implies bytes_less(
                        encode_utf8(#[trigger] self@[i]),
                        key,
                    ) by {
                        if i < middle {
                            assert(bytes_less(encode_utf8(self@[i]), encode_utf8(text)));
                            bytes_less_transitive(encode_utf8(self@[i]), encode_utf8(text), key);
                        }
                    }
                }
                low = middle + 1;
            } else {
                proof {
                    assert forall|i: int| middle <= i < self@.len() implies !bytes_less(
                        encode_utf8(#[trigger] self@[i]),
                        key,
                    ) by {
                        if i > middle && bytes_less(encode_utf8(self@[i]), key) {
                            assert(bytes_less(encode_utf8(text), encode_utf8(self@[i])));
                            bytes_less_transitive(encode_utf8(text), encode_utf8(self@[i]), key);
                        }
                    }
                }
                high = middle;
            }
        }
        let there = low < self.names.len() && str_eq(self.names[low].as_str(), name);
        proof {
            if there {
                assert(self@[low as int] == name@);
            } else if self@.contains(name@) {
                let i = self@.index_of(name@);
                assert(self@[i] == name@);
                bytes_less_irreflexive(key);
                assert(i >= low);
                if i > low {
                    assert(bytes_less(encode_utf8(self@[low as int]), encode_utf8(self@[i])));
                }
                assert(i == low);
                assert(self.names@[low as int]@ == name@);
            }
        }
        (there, low)
    }

    /// Adds a text that is not there, at its place.
    pub fn insert_at(&mut self, place: usize, name: &str)
        requires
            old(self).wf(),
            old(self).is_place(name@, place as int),
            !old(self)@.contains(name@),
        ensures
            final(self).wf(),
            final(self)@ == old(self)@.insert(place as int, name@),
    {
        let ghost before = self@;
        assert(before.len() == self.names@.len());
        self.names.insert(place, name.to_owned());
        proof {
            let after = before.insert(place as int, name@);
            assert(self@ =~= after);
            assert forall|i: int, j: int| 0 <= i < j < after.len() implies bytes_less(
                encode_utf8(#[trigger] after[i]),
                encode_utf8(#[trigger] after[j]),
            ) by {
                if j == place {
                    assert(after[i] == before[i]);
                } else if i == place {
                    assert(after[j] == before[j - 1]);
                    let other = before[j - 1];
                    assert(!bytes_less(encode_utf8(other), encode_utf8(name@)));
                    assert(before.contains(other));
                    encoding_is_injective(other, name@);
                    bytes_less_total(encode_utf8(other), encode_utf8(name@));
                } else {
                    let a = if i < place {
                        i
                    } else {
                        i - 1
                    };
                    let b = if j < place {
                        j
                    } else {
                        j - 1
                    };
                    assert(after[i] == before[a]);
                    assert(after[j] == before[b]);
                }
            }
        }
    }

    /// Adds a text.
    pub fn insert(&mut self, name: &str)
        requires
            old(self).wf(),
        ensures
            final(self).wf(),
            final(self)@.to_set() == old(self)@.to_set().insert(name@),
    {
        let ghost before = self@;
        let (there, place): (bool, usize) = self.find(name);
        if there {
            assert(before.to_set().insert(name@) =~= before.to_set());
            return;
        }
        self.insert_at(place, name);
        proof {
            let after = self@;
            assert(after == before.insert(place as int, name@));
            assert forall|text: Seq<char>|
                after.to_set().contains(text) == before.to_set().insert(name@).contains(text) by {
                if after.contains(text) && text != name@ {
                    let i = after.index_of(text);
                    if i < place {
                        assert(before[i] == text);
                    } else {
                        assert(before[i - 1] == text);
                    }
                }
                if before.contains(text) {
                    let i = before.index_of(text);
                    if i < place {
                        assert(after[i] == text);
                    } else {
                        assert(after[i + 1] == text);
                    }
                }
                assert(after[place as int] == name@);
            }
            assert(after.to_set() =~= before.to_set().insert(name@));
        }
    }

    /// Whether two sets hold the same texts.
    pub fn matches(&self, other: &SortedNames) -> (same: bool)
        ensures
            same == (self@ == other@),
    {
        assert(self@.len() == self.names@.len());
        assert(other@.len() == other.names@.len());
        if self.names.len() != other.names.len() {
            return false;
        }
        let mut index: usize = 0;
        while index < self.names.len()
            invariant
                index <= self@.len(),
                self@.len() == self.names@.len(),
                other@.len() == other.names@.len(),
                self@.len() == other@.len(),
                forall|i: int| 0 <= i < index ==> #[trigger] self@[i] == other@[i],
            decreases self.names.len() - index,
        {
            assert(self@[index as int] == self.names@[index as int]@);
            assert(other@[index as int] == other.names@[index as int]@);
            if !str_eq(self.names[index].as_str(), other.names[index].as_str()) {
                return false;
            }
            index = index + 1;
        }
        assert(self@ =~= other@);
        true
    }
}

/// The order leaves no choice: two sets with the same texts list them alike.
pub proof fn sets_are_listed_alike(left: Seq<Seq<char>>, right: Seq<Seq<char>>)
    requires
        in_order(left),
        in_order(right),
        left.to_set() == right.to_set(),
    ensures
        left == right,
    decreases left.len(),
{
    if left.len() == 0 || right.len() == 0 {
        if left.len() > 0 {
            assert(left.to_set().contains(left[0]));
            assert(right.contains(left[0]));
        }
        if right.len() > 0 {
            assert(right.to_set().contains(right[0]));
            assert(left.contains(right[0]));
        }
        assert(left =~= right);
    } else {
        let a = left.last();
        let b = right.last();
        assert(left.to_set().contains(a));
        assert(right.to_set().contains(b));
        assert(right.contains(a));
        assert(left.contains(b));
        let i = right.index_of(a);
        let j = left.index_of(b);
        if a != b {
            assert(bytes_less(encode_utf8(right[i]), encode_utf8(right[right.len() - 1])));
            assert(bytes_less(encode_utf8(left[j]), encode_utf8(left[left.len() - 1])));
            bytes_less_transitive(encode_utf8(a), encode_utf8(b), encode_utf8(a));
            bytes_less_irreflexive(encode_utf8(a));
        }
        let shorter_left = left.drop_last();
        let shorter_right = right.drop_last();
        assert forall|text: Seq<char>|
            shorter_left.to_set().contains(text) == shorter_right.to_set().contains(text) by {
            if shorter_left.contains(text) {
                let k = shorter_left.index_of(text);
                assert(left[k] == text);
                assert(left.to_set().contains(text));
                assert(right.contains(text));
                let m = right.index_of(text);
                assert(bytes_less(encode_utf8(left[k]), encode_utf8(left[left.len() - 1])));
                bytes_less_irreflexive(encode_utf8(a));
                assert(m != right.len() - 1);
                assert(shorter_right[m] == text);
            }
            if shorter_right.contains(text) {
                let k = shorter_right.index_of(text);
                assert(right[k] == text);
                assert(right.to_set().contains(text));
                assert(left.contains(text));
                let m = left.index_of(text);
                assert(bytes_less(encode_utf8(right[k]), encode_utf8(right[right.len() - 1])));
                bytes_less_irreflexive(encode_utf8(b));
                assert(m != left.len() - 1);
                assert(shorter_left[m] == text);
            }
        }
        assert(shorter_left.to_set() =~= shorter_right.to_set());
        sets_are_listed_alike(shorter_left, shorter_right);
        assert(left =~= shorter_left.push(a));
        assert(right =~= shorter_right.push(b));
    }
}

} // verus!
