use vstd::prelude::*;

verus! {

/// How many neighbouring layers a layer may reach on each side.
#[derive(Clone, Copy, Debug, PartialEq, Eq, Structural)]
pub struct Scope {
    lower_bound: usize,
    upper_bound: usize,
}

impl Scope {
    /// The reach towards lower layer indices.
    pub closed spec fn lower(self) -> nat {
        self.lower_bound as nat
    }

    /// The reach towards higher layer indices.
    pub closed spec fn upper(self) -> nat {
        self.upper_bound as nat
    }

    pub fn new(lower_bound: usize, upper_bound: usize) -> (scope: Self)
        ensures
            scope.lower() == lower_bound,
            scope.upper() == upper_bound,
    {
        Scope { lower_bound, upper_bound }
    }

    pub fn lower_bound(&self) -> (bound: usize)
        ensures
            bound == self.lower(),
    {
        self.lower_bound
    }

    pub fn upper_bound(&self) -> (bound: usize)
        ensures
            bound == self.upper(),
    {
        self.upper_bound
    }
}

impl Default for Scope {
    /// The scope that reaches no neighbour.
    fn default() -> (scope: Self)
        ensures
            scope.lower() == 0,
            scope.upper() == 0,
    {
        Scope { lower_bound: 0, upper_bound: 0 }
    }
}

} // verus!
