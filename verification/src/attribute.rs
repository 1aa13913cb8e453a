use vstd::prelude::*;
use rustc_hash::FxHashMap;
use crate::scope::Scope;

verus! {

/// The function a layer applies to each of its values.
#[derive(Clone, Copy, Debug, PartialEq, Eq, Structural)]
pub enum Activation {
    Sigmoid,
    TanH,
    /// Leaves every value as it is.
    Identity,
}

impl Default for Activation {
    fn default() -> (activation: Self)
        ensures
            activation == Activation::Sigmoid,
    {
        Activation::Sigmoid
    }
}

/// The kind of cell a layer is made of.
#[derive(Clone, Copy, Debug, PartialEq, Eq, Structural)]
pub enum CellType {
    Mlp,
}

impl Default for CellType {
    fn default() -> (cell_type: Self)
        ensures
            cell_type == CellType::Mlp,
    {
        CellType::Mlp
    }
}

/// How a parameter array is seeded.
///
/// A variant that carries a number carries it as the bit pattern of a
/// 64-bit IEEE 754 value: `Const(0x3FF0_0000_0000_0000)` fills with `1.0`.
#[derive(Clone, Copy, Debug, PartialEq, Eq, Structural)]
pub enum TensorDescriptor {
    /// Normally distributed random numbers.
    RandN,
    /// Uniformly distributed random numbers.
    RandU,
    /// Normally distributed random numbers, each multiplied by the factor.
    RangeN(u64),
    /// Uniformly distributed random numbers, each multiplied by the factor.
    RangeU(u64),
    /// Reserved; seeds with zero.
    Range(u64),
    /// The same number everywhere.
    Const(u64),
}

impl Default for TensorDescriptor {
    fn default() -> (descriptor: Self)
        ensures
            descriptor == TensorDescriptor::RandN,
    {
        TensorDescriptor::RandN
    }
}

/// The descriptors that a table holds, by name.
pub uninterp spec fn descriptors(table: FxHashMap<String, TensorDescriptor>) -> Map<Seq<char>, TensorDescriptor>;

/// The table that describes nothing.
pub open spec fn no_descriptors() -> Map<Seq<char>, TensorDescriptor> {
    Map::empty()
}

/// `FxHashMap::default`: a new table holds nothing.
#[verifier::external_body]
fn descriptors_new() -> (table: FxHashMap<String, TensorDescriptor>)
    ensures
        descriptors(table) == no_descriptors(),
{
    FxHashMap::default()
}

/// `HashMap::insert`: afterwards the table holds `descriptor` under `name`,
/// and under every other name what it held before.
#[verifier::external_body]
fn descriptors_insert(table: &mut FxHashMap<String, TensorDescriptor>, name: &str, descriptor: TensorDescriptor)
    ensures
        descriptors(*final(table)) == descriptors(*old(table)).insert(name@, descriptor),
{
    table.insert(name.to_string(), descriptor);
}

/// `HashMap::get`: a reference to the descriptor held under `name`, if there
/// is one.
#[verifier::external_body]
fn descriptors_get<'a>(table: &'a FxHashMap<String, TensorDescriptor>, name: &str) -> (found: Option<&'a TensorDescriptor>)
    ensures
        found is Some == descriptors(*table).contains_key(name@),
        found is Some ==> *found->0 == descriptors(*table)[name@],
{
    table.get(name)
}

/// `HashMap::keys`: every name of the table exactly once, in the order the
/// table happens to walk them.
#[verifier::external_body]
fn descriptors_names(table: &FxHashMap<String, TensorDescriptor>) -> (names: Vec<String>)
    ensures
        forall|i: int, j: int| 0 <= i < j < names@.len() ==> names@[i]@ != names@[j]@,
        forall|i: int| 0 <= i < names@.len() ==> descriptors(*table).contains_key(#[trigger] names@[i]@),
        forall|name: Seq<char>| descriptors(*table).contains_key(name)
            ==> exists|i: int| 0 <= i < names@.len() && #[trigger] names@[i]@ == name,
{
    table.keys().cloned().collect()
}

/// `HashMap::clone`: the copy holds the same descriptors under the same names.
#[verifier::external_body]
fn descriptors_clone(table: &FxHashMap<String, TensorDescriptor>) -> (copy: FxHashMap<String, TensorDescriptor>)
    ensures
        descriptors(copy) == descriptors(*table),
{
    table.clone()
}

/// The static configuration of one layer.
pub struct Attribute {
    activation: Activation,
    cell_type: CellType,
    descriptor: FxHashMap<String, TensorDescriptor>,
    scope: Scope,
}

/// An attribute as plain values.
pub struct AttributeView {
    pub activation: Activation,
    pub cell_type: CellType,
    pub descriptor: Map<Seq<char>, TensorDescriptor>,
    pub scope: Scope,
}

impl View for Attribute {
    type V = AttributeView;

    closed spec fn view(&self) -> AttributeView {
        AttributeView {
            activation: self.activation,
            cell_type: self.cell_type,
            descriptor: descriptors(self.descriptor),
            scope: self.scope,
        }
    }
}

/// The table that results from registering `pairs` one after the other: of
/// two pairs with one name the later one stays.
pub open spec fn registered(pairs: Seq<(Seq<char>, TensorDescriptor)>) -> Map<Seq<char>, TensorDescriptor>
    decreases pairs.len(),
{
    if pairs.len() == 0 {
        Map::empty()
    } else {
        registered(pairs.drop_last()).insert(pairs.last().0, pairs.last().1)
    }
}

/// The names and descriptors of a list of pairs, as plain values.
pub open spec fn pair_views(pairs: Seq<(&str, TensorDescriptor)>) -> Seq<(Seq<char>, TensorDescriptor)> {
    Seq::new(pairs.len(), |i: int| (pairs[i].0@, pairs[i].1))
}

impl Attribute {
    /// The blueprint of a layer: its activation, its cell kind, how each of
    /// its named parameter arrays is seeded, and its reach.
    pub fn new(
        activation: Activation,
        cell_type: CellType,
        descriptor: Vec<(&str, TensorDescriptor)>,
        scope: Scope,
    ) -> (attribute: Attribute)
        ensures
            attribute@ == (AttributeView {
                activation,
                cell_type,
                descriptor: registered(pair_views(descriptor@)),
                scope,
            }),
    {
        Attribute { activation, cell_type, descriptor: Attribute::build_descriptors(descriptor), scope }
    }

    /// Turns a list of `(name, descriptor)` pairs into a table.
    fn build_descriptors(descriptor: Vec<(&str, TensorDescriptor)>) -> (table: FxHashMap<String, TensorDescriptor>)
        ensures
            descriptors(table) == registered(pair_views(descriptor@)),
    {
        let ghost pairs = pair_views(descriptor@);
        let mut table = descriptors_new();
        let mut i: usize = 0;
        while i < descriptor.len()
            invariant
                i <= descriptor.len(),
                pairs == pair_views(descriptor@),
                descriptors(table) == registered(pairs.take(i as int)),
            decreases descriptor.len() - i,
        {
            let pair = &descriptor[i];
            descriptors_insert(&mut table, pair.0, pair.1);
            proof {
                assert(pairs.take(i as int + 1).drop_last() =~= pairs.take(i as int));
                assert(pairs.take(i as int + 1).last() == pairs[i as int]);
            }
            i += 1;
        }
        assert(pairs.take(i as int) =~= pairs);
        table
    }

    /// The descriptor registered under `key`.
    ///
    /// Asking for a name that was never registered is a programming error,
    /// so the caller has to know that the name is there; `find` is for the
    /// caller who does not.
    pub fn description(&self, key: &str) -> (descriptor: &TensorDescriptor)
        requires
            self@.descriptor.contains_key(key@),
        ensures
            *descriptor == self@.descriptor[key@],
    {
        match descriptors_get(&self.descriptor, key) {
            Some(descriptor) => descriptor,
            None => {
                proof {
                    assert(false);
                }
                &TensorDescriptor::RandN
            },
        }
    }

    /// The descriptor registered under `key`, or `None` if there is none.
    pub fn find(&self, key: &str) -> (found: Option<TensorDescriptor>)
        ensures
            found == (if self@.descriptor.contains_key(key@) {
                Some(self@.descriptor[key@])
            } else {
                None::<TensorDescriptor>
            }),
    {
        match descriptors_get(&self.descriptor, key) {
            Some(descriptor) => Some(*descriptor),
            None => None,
        }
    }

    /// The names that have a descriptor, each once, in no particular order.
    pub fn names(&self) -> (names: Vec<String>)
        ensures
            forall|i: int, j: int| 0 <= i < j < names@.len() ==> names@[i]@ != names@[j]@,
            forall|i: int| 0 <= i < names@.len() ==> self@.descriptor.contains_key(#[trigger] names@[i]@),
            forall|name: Seq<char>| self@.descriptor.contains_key(name)
                ==> exists|i: int| 0 <= i < names@.len() && #[trigger] names@[i]@ == name,
    {
        descriptors_names(&self.descriptor)
    }

    pub fn activation(&self) -> (activation: &Activation)
        ensures
            *activation == self@.activation,
    {
        &self.activation
    }

    pub fn cell_type(&self) -> (cell_type: &CellType)
        ensures
            *cell_type == self@.cell_type,
    {
        &self.cell_type
    }

    pub fn scope(&self) -> (scope: &Scope)
        ensures
            *scope == self@.scope,
    {
        &self.scope
    }

    /// A second attribute with the same content.
    pub fn duplicate(&self) -> (copy: Attribute)
        ensures
            copy@ == self@,
    {
        Attribute {
            activation: self.activation,
            cell_type: self.cell_type,
            descriptor: descriptors_clone(&self.descriptor),
            scope: self.scope,
        }
    }
}

impl Clone for Attribute {
    fn clone(&self) -> (copy: Self)
        ensures
            copy@ == self@,
    {
        self.duplicate()
    }
}

impl Default for Attribute {
    /// Sigmoid activation, the one cell kind, no descriptor, no reach.
    fn default() -> (attribute: Self)
        ensures
            attribute@.activation == Activation::Sigmoid,
            attribute@.cell_type == CellType::Mlp,
            attribute@.descriptor == no_descriptors(),
            attribute@.scope.lower() == 0,
            attribute@.scope.upper() == 0,
    {
        Attribute {
            activation: Activation::Sigmoid,
            cell_type: CellType::Mlp,
            descriptor: descriptors_new(),
            scope: Scope::new(0, 0),
        }
    }
}

} // verus!
