use vstd::prelude::*;
use crate::scope::Scope;

verus! {

/// The window of layers one layer is connected to, clipped to the layer array.
///
/// `start..=end` are the layers inside the array that the layer at `index`
/// reaches; `underflow` and `overflow` count the requested neighbours that
/// fell off the low and the high end.
#[derive(Clone, Copy, Debug, PartialEq, Eq, Structural)]
pub struct Domain {
    underflow: usize,
    start: usize,
    index: usize,
    end: usize,
    overflow: usize,
}

/// The five numbers of a domain, in the order
/// `(underflow, start, index, end, overflow)`.
pub struct DomainView {
    pub underflow: nat,
    pub start: nat,
    pub index: nat,
    pub end: nat,
    pub overflow: nat,
}

/// The window of the layer at `index` among `layer_count` layers, for a reach
/// of `lower` layers downwards and `upper` layers upwards.
pub open spec fn window(lower: nat, upper: nat, index: nat, layer_count: nat) -> DomainView {
    DomainView {
        underflow: if lower > index { (lower - index) as nat } else { 0 },
        start: if index > lower { (index - lower) as nat } else { 0 },
        index: index,
        end: if index + upper > layer_count - 1 { (layer_count - 1) as nat } else { index + upper },
        overflow: if index + upper > layer_count - 1 { (index + upper - (layer_count - 1)) as nat } else { 0 },
    }
}

/// What a layer's domain reads before the layer is first built.
pub open spec fn unbuilt() -> DomainView {
    DomainView { underflow: 0, start: 0, index: 0, end: 0, overflow: 0 }
}

impl View for Domain {
    type V = DomainView;

    closed spec fn view(&self) -> DomainView {
        DomainView {
            underflow: self.underflow as nat,
            start: self.start as nat,
            index: self.index as nat,
            end: self.end as nat,
            overflow: self.overflow as nat,
        }
    }
}

impl Domain {
    /// What every domain satisfies: its window is in order and holds it.
    #[verifier::type_invariant]
    closed spec fn in_order(self) -> bool {
        self.start <= self.index <= self.end < usize::MAX
    }

    /// Computes the window of the layer at `index` among `layer_count` layers.
    ///
    /// Clipping at either end of the array is ordinary: it shows in
    /// `underflow` and `overflow`, never as a failure.
    pub fn new(scope: &Scope, index: usize, layer_count: usize) -> (domain: Self)
        requires
            index < layer_count,
        ensures
            domain@ == window(scope.lower(), scope.upper(), index as nat, layer_count as nat),
    {
        let lower: usize = scope.lower_bound();
        let upper: usize = scope.upper_bound();
        let last: usize = layer_count - 1;
        let room: usize = last - index;
        Domain {
            underflow: if lower > index { lower - index } else { 0 },
            start: if index > lower { index - lower } else { 0 },
            index,
            end: if upper > room { last } else { index + upper },
            overflow: if upper > room { upper - room } else { 0 },
        }
    }

    /// The domain with the given five numbers, if they can be those of a
    /// domain: the window has to be in order and to hold the layer itself.
    pub fn restore(data: (usize, usize, usize, usize, usize)) -> (domain: Option<Self>)
        ensures
            domain is Some == (data.1 <= data.2 && data.2 <= data.3 && data.3 < usize::MAX),
            domain is Some ==> domain->0@ == (DomainView {
                underflow: data.0 as nat,
                start: data.1 as nat,
                index: data.2 as nat,
                end: data.3 as nat,
                overflow: data.4 as nat,
            }),
    {
        if data.1 <= data.2 && data.2 <= data.3 && data.3 < usize::MAX {
            Some(Domain { underflow: data.0, start: data.1, index: data.2, end: data.3, overflow: data.4 })
        } else {
            None
        }
    }

    pub fn underflow(&self) -> (n: usize)
        ensures
            n == self@.underflow,
    {
        self.underflow
    }

    pub fn start(&self) -> (n: usize)
        ensures
            n == self@.start,
    {
        self.start
    }

    pub fn index(&self) -> (n: usize)
        ensures
            n == self@.index,
    {
        self.index
    }

    pub fn end(&self) -> (n: usize)
        ensures
            n == self@.end,
    {
        self.end
    }

    pub fn overflow(&self) -> (n: usize)
        ensures
            n == self@.overflow,
    {
        self.overflow
    }

    /// All five numbers at once. The window is in order and holds the
    /// layer itself.
    pub fn domain_data(&self) -> (data: (usize, usize, usize, usize, usize))
        ensures
            data.0 == self@.underflow,
            data.1 == self@.start,
            data.2 == self@.index,
            data.3 == self@.end,
            data.4 == self@.overflow,
            data.1 <= data.2 <= data.3 < usize::MAX,
    {
        proof {
            use_type_invariant(self);
        }
        (self.underflow, self.start, self.index, self.end, self.overflow)
    }
}

impl Default for Domain {
    /// The domain of a layer that has not been built: all five numbers zero.
    fn default() -> (domain: Self)
        ensures
            domain@ == unbuilt(),
    {
        Domain { underflow: 0, start: 0, index: 0, end: 0, overflow: 0 }
    }
}

/// A window never leaves the array, always holds its own layer, and accounts
/// for every requested neighbour: those inside the array plus those that fell
/// off either end make up the whole reach.
pub proof fn lemma_window_accounts_for_reach(lower: nat, upper: nat, index: nat, layer_count: nat)
    requires
        index < layer_count,
    ensures
        ({
            let w = window(lower, upper, index, layer_count);
            &&& w.start <= w.index <= w.end < layer_count
            &&& w.index == index
            &&& w.end - w.start + 1 + w.underflow + w.overflow == lower + upper + 1
            &&& w.underflow > 0 ==> w.start == 0
            &&& w.overflow > 0 ==> w.end == layer_count - 1
        }),
{
}

} // verus!
