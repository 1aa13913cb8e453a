use vstd::prelude::*;
use crate::names::is_reserved;
use crate::names::reserved;
use crate::tensor::Array;
use crate::edges::RangeView;
use crate::tensor::Tensor;
use crate::tensor::merged;

verus! {

/// What one array adds to the logical width of the store that holds it: its
/// extent along the second axis, or nothing if its name is reserved.
pub open spec fn share(name: Seq<char>, array: Array) -> nat {
    if reserved(name) {
        0
    } else {
        array.dims.d1 as nat
    }
}

/// The logical width of a store: the sum of the second-axis extents of its
/// arrays, those under reserved names left out.
pub open spec fn logical_width(store: Map<Seq<char>, Array>) -> nat
    decreases store.dom().len(),
    when store.dom().finite()
{
    if store.dom().len() == 0 {
        0
    } else {
        let name = store.dom().choose();
        share(name, store[name]) + logical_width(store.remove(name))
    }
}

/// The logical width does not depend on which array is counted first: any
/// array of the store can be split off.
pub proof fn lemma_width_split(store: Map<Seq<char>, Array>, name: Seq<char>)
    requires
        store.dom().finite(),
        store.contains_key(name),
    ensures
        logical_width(store) == share(name, store[name]) + logical_width(store.remove(name)),
    decreases store.dom().len(),
{
    let first = store.dom().choose();
    assert(store.dom().len() > 0) by {
        if store.dom().len() == 0 {
            store.dom().lemma_len0_is_empty();
        }
    }
    if first != name {
        let without_first = store.remove(first);
        let without_name = store.remove(name);
        lemma_width_split(without_first, name);
        lemma_width_split(without_name, first);
        assert(without_first.remove(name) =~= without_name.remove(first));
    }
}

/// An empty store is zero wide.
pub proof fn lemma_width_of_nothing(store: Map<Seq<char>, Array>)
    requires
        store.dom() =~= Set::empty(),
    ensures
        logical_width(store) == 0,
{
}

/// Writing an array under a name the store does not hold widens the store
/// by that array's share.
pub proof fn lemma_width_insert(store: Map<Seq<char>, Array>, name: Seq<char>, array: Array)
    requires
        store.dom().finite(),
        !store.contains_key(name),
    ensures
        logical_width(store.insert(name, array)) == logical_width(store) + share(name, array),
{
    lemma_width_split(store.insert(name, array), name);
    assert(store.insert(name, array).remove(name) =~= store);
}

/// Merging a store into another that shares no name with it, through the
/// filter that admits everything, adds up the two widths.
pub proof fn lemma_width_of_disjoint_merge(target: Map<Seq<char>, Array>, source: Map<Seq<char>, Array>)
    requires
        target.dom().finite(),
        source.dom().finite(),
        target.dom().disjoint(source.dom()),
    ensures
        merged(target, source, RangeView::All).dom().finite(),
        logical_width(merged(target, source, RangeView::All)) == logical_width(target) + logical_width(source),
    decreases source.dom().len(),
{
    let whole = merged(target, source, RangeView::All);
    assert(whole.dom() =~= target.dom().union(source.dom()));
    if source.dom().len() == 0 {
        source.dom().lemma_len0_is_empty();
        assert(whole =~= target);
    } else {
        let name = source.dom().choose();
        let rest = source.remove(name);
        let part = merged(target, rest, RangeView::All);
        lemma_width_of_disjoint_merge(target, rest);
        lemma_width_split(source, name);
        assert(!part.contains_key(name));
        assert(whole =~= part.insert(name, source[name]));
        lemma_width_insert(part, name, source[name]);
    }
}

/// A store all of whose names can be listed holds finitely many arrays.
pub proof fn lemma_listed_store_is_finite(store: Map<Seq<char>, Array>, names: Seq<String>)
    requires
        forall|name: Seq<char>| store.contains_key(name)
            ==> exists|i: int| 0 <= i < names.len() && #[trigger] names[i]@ == name,
    ensures
        store.dom().finite(),
{
    let listed = Seq::new(names.len(), |i: int| names[i]@);
    vstd::seq_lib::seq_to_set_is_finite(listed);
    assert(store.dom().subset_of(listed.to_set())) by {
        assert forall|name: Seq<char>| store.dom().contains(name) implies listed.to_set().contains(name) by {
            let i = choose|i: int| 0 <= i < names.len() && #[trigger] names[i]@ == name;
            assert(listed[i] == name);
        }
    }
    vstd::set_lib::lemma_len_subset(store.dom(), listed.to_set());
}

impl Tensor {
    /// The logical width of the store, or `None` if it does not fit 64 bits.
    pub fn width(&self) -> (total: Option<u64>)
        ensures
            self@.dom().finite(),
            match total {
                Some(sum) => sum == logical_width(self@),
                None => logical_width(self@) > u64::MAX,
            },
    {
        let names = self.names();
        proof {
            lemma_listed_store_is_finite(self@, names@);
        }
        let ghost mut rest = self@;
        let mut sum: u64 = 0;
        let mut i: usize = 0;
        while i < names.len()
            invariant
                i <= names.len(),
                rest.dom().finite(),
                self@.dom().finite(),
                forall|j: int| 0 <= j < names@.len() ==> self@.contains_key(#[trigger] names@[j]@),
                forall|a: int, b: int| 0 <= a < b < names@.len() ==> names@[a]@ != names@[b]@,
                forall|name: Seq<char>| rest.contains_key(name)
                    <==> exists|j: int| i <= j < names@.len() && #[trigger] names@[j]@ == name,
                forall|name: Seq<char>| rest.contains_key(name) ==> rest[name] == self@[name],
                sum + logical_width(rest) == logical_width(self@),
            decreases names.len() - i,
        {
            let name = names[i].as_str();
            assert(rest.contains_key(name@));
            proof {
                lemma_width_split(rest, name@);
            }
            let ghost smaller = rest.remove(name@);
            assert forall|other: Seq<char>| smaller.contains_key(other)
                <==> exists|j: int| i + 1 <= j < names@.len() && #[trigger] names@[j]@ == other by {
                if smaller.contains_key(other) {
                    let j = choose|j: int| i <= j < names@.len() && #[trigger] names@[j]@ == other;
                    assert(j != i);
                }
                if exists|j: int| i + 1 <= j < names@.len() && #[trigger] names@[j]@ == other {
                    let j = choose|j: int| i + 1 <= j < names@.len() && #[trigger] names@[j]@ == other;
                    assert(names@[i as int]@ != names@[j]@);
                    assert(rest.contains_key(other));
                }
            }
            if !is_reserved(name) {
                match self.get(name) {
                    Some(array) => {
                        match sum.checked_add(array.dims.d1) {
                            Some(more) => {
                                sum = more;
                            },
                            None => {
                                return None;
                            },
                        }
                    },
                    None => {
                        assert(false);
                    },
                }
            }
            proof {
                rest = smaller;
            }
            i += 1;
        }
        proof {
            assert(rest.dom() =~= Set::empty());
        }
        Some(sum)
    }
}

} // verus!
