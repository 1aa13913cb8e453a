use vstd::prelude::*;
use rustc_hash::FxHashMap;
use rustc_hash::FxHasher;
use std::hash::BuildHasherDefault;
use crate::edges::NodeRange;
use crate::edges::RangeView;

verus! {

/// `rustc_hash::FxHasher`, the hasher of an `FxHashMap`. Nothing is said
/// of it: it is declared so that the map can stand in a field.
#[verifier::external_type_specification]
#[verifier::external_body]
pub struct ExFxHasher(FxHasher);

/// `std::hash::BuildHasherDefault`, which makes the hashers of an
/// `FxHashMap`. Nothing is said of it either.
#[verifier::external_type_specification]
#[verifier::external_body]
#[verifier::reject_recursive_types(H)]
pub struct ExBuildHasherDefault<H>(BuildHasherDefault<H>);

/// The extents of a dense array along its four axes.
#[derive(Clone, Copy, Debug, PartialEq, Eq, Structural)]
pub struct Dims {
    pub d0: u64,
    pub d1: u64,
    pub d2: u64,
    pub d3: u64,
}

impl Dims {
    /// The shape with the given extents, first axis first.
    pub fn new(dims: &[u64; 4]) -> (shape: Dims)
        ensures
            shape == (Dims { d0: dims@[0], d1: dims@[1], d2: dims@[2], d3: dims@[3] }),
    {
        Dims { d0: dims[0], d1: dims[1], d2: dims[2], d3: dims[3] }
    }
}

/// Which of a layer's two parameter arrays.
#[derive(Clone, Copy, Debug, PartialEq, Eq, Structural, Hash)]
pub enum TypeTensor {
    Weight,
    Bias,
}

/// Where the numbers of an array come from.
///
/// The library never looks at the numbers themselves. It tracks the shape of
/// every array and, by this tag, which buffer of the numeric backend holds
/// its content, so that a copy made while routing still names the buffer it
/// was copied from.
#[derive(Clone, Copy, Debug, PartialEq, Eq, Structural, Hash)]
pub enum Origin {
    /// Handed in by the caller, under a key of the caller's choice.
    Supplied(u64),
    /// Allocated and never written: it only carries a width.
    Blank,
    /// A parameter array of one layer of the node `node`, made by that
    /// node's build number `build`.
    Parameter { node: u128, layer: usize, kind: TypeTensor, build: u64 },
    /// The packed value buffer of the node `node`, made by its build number
    /// `build`.
    Values { node: u128, build: u64 },
}

/// A dense array as the library sees it: its shape and its origin.
#[derive(Clone, Copy, Debug, PartialEq, Eq, Structural)]
pub struct Array {
    pub dims: Dims,
    pub origin: Origin,
}

impl Array {
    /// An array of the given shape that is allocated and not written.
    pub fn new_empty(dims: Dims) -> (array: Array)
        ensures
            array == (Array { dims, origin: Origin::Blank }),
    {
        Array { dims, origin: Origin::Blank }
    }

    /// An array of the given shape whose content the caller holds under `key`.
    pub fn supplied(key: u64, dims: Dims) -> (array: Array)
        ensures
            array == (Array { dims, origin: Origin::Supplied(key) }),
    {
        Array { dims, origin: Origin::Supplied(key) }
    }

    /// The array's shape.
    pub fn dims(&self) -> (dims: Dims)
        ensures
            dims == self.dims,
    {
        self.dims
    }
}

/// The arrays that a store holds, by name.
pub uninterp spec fn entries(table: FxHashMap<String, Array>) -> Map<Seq<char>, Array>;

/// The store that holds nothing.
pub open spec fn no_arrays() -> Map<Seq<char>, Array> {
    Map::empty()
}

/// `FxHashMap::default`: a new table holds nothing.
#[verifier::external_body]
fn table_new() -> (table: FxHashMap<String, Array>)
    ensures
        entries(table) == no_arrays(),
{
    FxHashMap::default()
}

/// `HashMap::insert`: afterwards the table holds `array` under `name`, and
/// under every other name what it held before.
#[verifier::external_body]
fn table_insert(table: &mut FxHashMap<String, Array>, name: &str, array: Array)
    ensures
        entries(*final(table)) == entries(*old(table)).insert(name@, array),
{
    table.insert(name.to_string(), array);
}

/// `HashMap::get`: the array held under `name`, if there is one.
#[verifier::external_body]
fn table_get(table: &FxHashMap<String, Array>, name: &str) -> (found: Option<Array>)
    ensures
        found == (if entries(*table).contains_key(name@) {
            Some(entries(*table)[name@])
        } else {
            None::<Array>
        }),
{
    table.get(name).copied()
}

/// `HashMap::keys`: every name of the table exactly once, in the order the
/// table happens to walk them.
#[verifier::external_body]
fn table_names(table: &FxHashMap<String, Array>) -> (names: Vec<String>)
    ensures
        forall|i: int, j: int| 0 <= i < j < names@.len() ==> names@[i]@ != names@[j]@,
        forall|i: int| 0 <= i < names@.len() ==> entries(*table).contains_key(#[trigger] names@[i]@),
        forall|name: Seq<char>| entries(*table).contains_key(name)
            ==> exists|i: int| 0 <= i < names@.len() && #[trigger] names@[i]@ == name,
{
    table.keys().cloned().collect()
}

/// `HashMap::clone`: the copy holds the same arrays under the same names.
#[verifier::external_body]
fn table_clone(table: &FxHashMap<String, Array>) -> (copy: FxHashMap<String, Array>)
    ensures
        entries(copy) == entries(*table),
{
    table.clone()
}

/// A keyed collection of named arrays: what nodes hand to one another.
pub struct Tensor {
    hash_map: FxHashMap<String, Array>,
}

impl View for Tensor {
    type V = Map<Seq<char>, Array>;

    closed spec fn view(&self) -> Map<Seq<char>, Array> {
        entries(self.hash_map)
    }
}

/// The store that results from writing `pairs` into an empty store one after
/// the other: of two pairs with one name the later one stays.
pub open spec fn collected(pairs: Seq<(Seq<char>, Array)>) -> Map<Seq<char>, Array>
    decreases pairs.len(),
{
    if pairs.len() == 0 {
        Map::empty()
    } else {
        collected(pairs.drop_last()).insert(pairs.last().0, pairs.last().1)
    }
}

/// The store that results from merging `source` into `target` through a
/// filter: every array of `source` whose name the filter admits is written
/// into `target` under its name, and `target` keeps everything else.
pub open spec fn merged(
    target: Map<Seq<char>, Array>,
    source: Map<Seq<char>, Array>,
    range: RangeView,
) -> Map<Seq<char>, Array> {
    Map::new(
        |name: Seq<char>| target.contains_key(name) || (source.contains_key(name) && range.admits(name)),
        |name: Seq<char>| if source.contains_key(name) && range.admits(name) {
            source[name]
        } else {
            target[name]
        },
    )
}

/// The part of `source` that a filter lets through.
pub open spec fn projected(source: Map<Seq<char>, Array>, range: RangeView) -> Map<Seq<char>, Array> {
    Map::new(
        |name: Seq<char>| source.contains_key(name) && range.admits(name),
        |name: Seq<char>| source[name],
    )
}

/// What a filter does to a store.
///
/// The filter that admits everything lets the whole store through; a
/// filter that lists names lets through exactly the arrays under those
/// names, and a listed name that the store does not hold adds nothing.
/// Merging into an empty store gives what the filter lets through; merging
/// into any store overwrites that store with it, name by name.
pub proof fn lemma_filtering(target: Map<Seq<char>, Array>, source: Map<Seq<char>, Array>, names: Set<Seq<char>>, range: RangeView)
    ensures
        projected(source, RangeView::All) == source,
        projected(source, RangeView::Selective(names)) == source.restrict(names),
        merged(no_arrays(), source, range) == projected(source, range),
        merged(target, source, range) == target.union_prefer_right(projected(source, range)),
{
    assert(projected(source, RangeView::All) =~= source);
    assert(projected(source, RangeView::Selective(names)) =~= source.restrict(names));
    assert(merged(no_arrays(), source, range) =~= projected(source, range));
    assert(merged(target, source, range) =~= target.union_prefer_right(projected(source, range)));
}

impl Tensor {
    /// A store holding the given arrays under the given names.
    pub fn new(key_value_pair: &[(&str, Array)]) -> (tensor: Tensor)
        ensures
            tensor@ == collected(Seq::new(key_value_pair@.len(), |i: int| (key_value_pair@[i].0@, key_value_pair@[i].1))),
    {
        let ghost pairs = Seq::new(key_value_pair@.len(), |i: int| (key_value_pair@[i].0@, key_value_pair@[i].1));
        let mut hash_map = table_new();
        let mut i: usize = 0;
        while i < key_value_pair.len()
            invariant
                i <= key_value_pair.len(),
                pairs.len() == key_value_pair@.len(),
                forall|j: int| 0 <= j < pairs.len() ==> pairs[j] == (key_value_pair@[j].0@, key_value_pair@[j].1),
                entries(hash_map) == collected(pairs.take(i as int)),
            decreases key_value_pair.len() - i,
        {
            let pair = &key_value_pair[i];
            table_insert(&mut hash_map, pair.0, pair.1);
            proof {
                assert(pairs.take(i as int + 1).drop_last() =~= pairs.take(i as int));
                assert(pairs.take(i as int + 1).last() == pairs[i as int]);
            }
            i += 1;
        }
        assert(pairs.take(i as int) =~= pairs);
        Tensor { hash_map }
    }

    /// An empty store.
    pub fn empty() -> (tensor: Tensor)
        ensures
            tensor@ == no_arrays(),
    {
        Tensor { hash_map: table_new() }
    }

    /// Writes `value` under `key`, replacing what was there.
    pub fn insert(&mut self, key: &str, value: Array)
        ensures
            final(self)@ == old(self)@.insert(key@, value),
    {
        table_insert(&mut self.hash_map, key, value);
    }

    /// The array held under `key`, if there is one.
    pub fn get(&self, key: &str) -> (found: Option<Array>)
        ensures
            found == (if self@.contains_key(key@) { Some(self@[key@]) } else { None::<Array> }),
    {
        table_get(&self.hash_map, key)
    }

    /// The names the store holds, each once, in no particular order.
    pub fn names(&self) -> (names: Vec<String>)
        ensures
            forall|i: int, j: int| 0 <= i < j < names@.len() ==> names@[i]@ != names@[j]@,
            forall|i: int| 0 <= i < names@.len() ==> self@.contains_key(#[trigger] names@[i]@),
            forall|name: Seq<char>| self@.contains_key(name)
                ==> exists|i: int| 0 <= i < names@.len() && #[trigger] names@[i]@ == name,
    {
        table_names(&self.hash_map)
    }

    /// A second store with the same content.
    pub fn duplicate(&self) -> (copy: Tensor)
        ensures
            copy@ == self@,
    {
        Tensor { hash_map: table_clone(&self.hash_map) }
    }

    /// Merges `tensor` into this store through the filter `node_range`.
    ///
    /// Names that the filter does not admit are passed over in silence, and
    /// so are names it lists that `tensor` does not hold.
    pub fn merge(&mut self, tensor: &Tensor, node_range: &NodeRange)
        ensures
            final(self)@ == merged(old(self)@, tensor@, node_range@),
    {
        let names = tensor.names();
        let mut i: usize = 0;
        while i < names.len()
            invariant
                i <= names.len(),
                forall|j: int| 0 <= j < names@.len() ==> tensor@.contains_key(#[trigger] names@[j]@),
                forall|name: Seq<char>| tensor@.contains_key(name)
                    ==> exists|j: int| 0 <= j < names@.len() && #[trigger] names@[j]@ == name,
                self@ == Map::new(
                    |name: Seq<char>| old(self)@.contains_key(name) || (exists|j: int| 0 <= j < i && #[trigger] names@[j]@ == name && node_range@.admits(name)),
                    |name: Seq<char>| if exists|j: int| 0 <= j < i && #[trigger] names@[j]@ == name && node_range@.admits(name) {
                        tensor@[name]
                    } else {
                        old(self)@[name]
                    },
                ),
            decreases names.len() - i,
        {
            let name = names[i].as_str();
            if node_range.admits(name) {
                match tensor.get(name) {
                    Some(array) => {
                        let ghost before = self@;
                        self.insert(name, array);
                        assert(self@ =~= Map::new(
                            |name: Seq<char>| old(self)@.contains_key(name) || (exists|j: int| 0 <= j < i + 1 && #[trigger] names@[j]@ == name && node_range@.admits(name)),
                            |name: Seq<char>| if exists|j: int| 0 <= j < i + 1 && #[trigger] names@[j]@ == name && node_range@.admits(name) {
                                tensor@[name]
                            } else {
                                old(self)@[name]
                            },
                        ));
                    },
                    None => {
                        assert(false);
                    },
                }
            } else {
                assert(self@ =~= Map::new(
                    |name: Seq<char>| old(self)@.contains_key(name) || (exists|j: int| 0 <= j < i + 1 && #[trigger] names@[j]@ == name && node_range@.admits(name)),
                    |name: Seq<char>| if exists|j: int| 0 <= j < i + 1 && #[trigger] names@[j]@ == name && node_range@.admits(name) {
                        tensor@[name]
                    } else {
                        old(self)@[name]
                    },
                ));
            }
            i += 1;
        }
        assert(self@ =~= merged(old(self)@, tensor@, node_range@));
    }
}

} // verus!
