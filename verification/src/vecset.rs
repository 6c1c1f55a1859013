//! An unordered set with constant-time insertion, removal and uniform sampling.

use crate::rng::uniform_below;
use rand_xoshiro::Xoshiro256PlusPlus;
use std::collections::BTreeMap;
use vstd::prelude::*;

verus! {

/// The order on `T` is a lawful total order, as the index map needs.
pub open spec fn lawful_order<T: Ord>() -> bool {
    vstd::laws_cmp::obeys_cmp::<T>()
}

/// `s` after the entry at slot `i` has been removed by moving the last entry
/// into its place.
pub open spec fn swap_removed<T>(s: Seq<T>, i: int) -> Seq<T> {
    if i == s.len() - 1 {
        s.drop_last()
    } else {
        s.drop_last().update(i, s.last())
    }
}

/// Removing a member by moving the last entry into its slot removes that
/// member and nothing else, and leaves no entry twice.
pub proof fn lemma_swap_removed<T>(s: Seq<T>, item: T)
    requires
        s.no_duplicates(),
        s.contains(item),
    ensures
        swap_removed(s, s.index_of(item)).len() == s.len() - 1,
        swap_removed(s, s.index_of(item)).no_duplicates(),
        swap_removed(s, s.index_of(item)).to_set() == s.to_set().remove(item),
        forall|x: T| swap_removed(s, s.index_of(item)).contains(x) <==> s.contains(x) && x != item,
{
    let slot = s.index_of(item);
    let after = swap_removed(s, slot);
    assert forall|x: T| after.contains(x) <==> s.contains(x) && x != item by {
        if after.contains(x) {
            let j = choose|j: int| 0 <= j < after.len() && after[j] == x;
            if j == slot {
                assert(s[s.len() - 1] == x);
            } else {
                assert(s[j] == x);
            }
        }
        if s.contains(x) && x != item {
            let j = choose|j: int| 0 <= j < s.len() && s[j] == x;
            if j == s.len() - 1 {
                assert(after[slot] == x);
            } else {
                assert(after[j] == x);
            }
        }
    }
    assert(after.to_set() =~= s.to_set().remove(item));
}

/// Adding an absent item and removing it again restores the sequence.
pub proof fn lemma_add_then_remove<T>(s: Seq<T>, item: T)
    requires
        !s.contains(item),
    ensures
        swap_removed(s.push(item), s.push(item).index_of(item)) == s,
{
    let t = s.push(item);
    assert(t[s.len() as int] == item);
    let slot = t.index_of(item);
    assert(slot == s.len()) by {
        if slot < s.len() {
            assert(s[slot] == item);
        }
    }
    assert(swap_removed(t, slot) =~= s);
}

/// A set of items held in a dense vector, with a map from each item to its slot.
#[derive(Debug, Clone)]
pub struct VecSet<T> {
    vec: Vec<T>,
    index_map: BTreeMap<T, usize>,
}

impl<T> View for VecSet<T> {
    type V = Seq<T>;

    /// The items in slot order.
    closed spec fn view(&self) -> Seq<T> {
        self.vec@
    }
}

impl<T> VecSet<T> where T: Copy + Ord {
    /// No item occurs twice, and the index map sends each item, and nothing
    /// else, to its slot.
    pub closed spec fn wf(&self) -> bool {
        &&& lawful_order::<T>()
        &&& self.vec@.no_duplicates()
        &&& forall|i: int|
            0 <= i < self.vec@.len() ==> self.index_map@.contains_key(#[trigger] self.vec@[i])
                && self.index_map@[self.vec@[i]] == i
        &&& forall|k: T| #[trigger] self.index_map@.contains_key(k) ==> self.vec@.contains(k)
    }

    /// A well-formed set holds no item twice.
    pub proof fn lemma_no_duplicates(&self)
        requires
            self.wf(),
        ensures
            self@.no_duplicates(),
    {
    }

    /// The empty set.
    pub fn new() -> (s: Self)
        requires
            lawful_order::<T>(),
        ensures
            s.wf(),
            s@ == Seq::<T>::empty(),
    {
        Self { vec: Vec::new(), index_map: BTreeMap::new() }
    }

    /// Adds `item`, which must be absent, at the end.
    pub fn add(&mut self, item: T)
        requires
            old(self).wf(),
            !old(self)@.contains(item),
        ensures
            final(self).wf(),
            final(self)@ == old(self)@.push(item),
    {
        let ghost before = self.vec@;
        self.index_map.insert(item, self.vec.len());
        self.vec.push(item);
        proof {
            assert forall|k: T| #[trigger]
                self.index_map@.contains_key(k) implies self.vec@.contains(k) by {
                if k == item {
                    assert(self.vec@[before.len() as int] == k);
                } else {
                    let i = choose|i: int| 0 <= i < before.len() && before[i] == k;
                    assert(self.vec@[i] == k);
                }
            }
        }
    }

    /// Removes `item`, which must be present: the last item moves into its slot.
    pub fn remove(&mut self, item: T)
        requires
            old(self).wf(),
            old(self)@.contains(item),
        ensures
            final(self).wf(),
            final(self)@ == swap_removed(old(self)@, old(self)@.index_of(item)),
            final(self)@.to_set() == old(self)@.to_set().remove(item),
    {
        let ghost before = self.vec@;
        let ghost slot = before.index_of(item);
        let index: usize = match self.index_map.get(&item) {
            Some(i) => *i,
            None => vstd::pervasive::unreached(),
        };
        let last_item = match self.vec.pop() {
            Some(x) => x,
            None => vstd::pervasive::unreached(),
        };
        if index != self.vec.len() {
            self.vec[index] = last_item;
            self.index_map.insert(last_item, index);
        }
        self.index_map.remove(&item);
        proof {
            lemma_swap_removed(before, item);
        }
    }

    /// Whether `item` is in the set.
    pub fn contains(&self, item: T) -> (b: bool)
        requires
            self.wf(),
        ensures
            b == self@.contains(item),
    {
        self.index_map.contains_key(&item)
    }

    /// The number of items.
    pub fn len(&self) -> (n: usize)
        ensures
            n == self@.len(),
    {
        self.vec.len()
    }

    /// The item in `slot`.
    pub fn at(&self, slot: usize) -> (item: T)
        requires
            slot < self@.len(),
        ensures
            item == self@[slot as int],
    {
        self.vec[slot]
    }

    /// Draws one item: a slot is drawn, each being equally likely, and the
    /// item in it is returned.
    pub fn sample(&self, rng: &mut Xoshiro256PlusPlus) -> (item: T)
        requires
            self@.len() > 0,
        ensures
            self@.contains(item),
    {
        let slot = uniform_below(rng, self.len());
        self.at(slot)
    }
}

} // verus!
