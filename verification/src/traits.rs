use vstd::prelude::*;

verus! {

/// An atom as the solver reads it. Any representation may implement this;
/// each exec method must return the value of its spec counterpart, so the
/// solver's contract can speak of the implementing type.
pub trait GasteigerAtom {
    /// Mathematical image of [`Self::atomic_number`].
    spec fn spec_atomic_number(&self) -> usize;

    /// Mathematical image of [`Self::formal_charge`].
    spec fn spec_formal_charge(&self) -> i64;

    /// Atomic number (e.g., H=1, C=6).
    fn atomic_number(&self) -> (z: usize)
        ensures
            z == self.spec_atomic_number(),
    ;

    /// Formal charge of the atom, in fixed-point steps
    /// ([`crate::parameters::SCALE`] steps make one charge unit); an atom
    /// with no charge to speak of answers zero.
    fn formal_charge(&self) -> (q: i64)
        ensures
            q == self.spec_formal_charge(),
    ;
}

/// A bond between two atoms, named by their positions in the atom list.
pub trait GasteigerBond {
    /// Mathematical image of [`Self::atom_indices`].
    spec fn spec_atom_indices(&self) -> (usize, usize);

    /// Mathematical image of [`Self::bond_order`].
    spec fn spec_bond_order(&self) -> i64;

    /// Indices of the two atoms connected by this bond.
    fn atom_indices(&self) -> (ij: (usize, usize))
        ensures
            ij == self.spec_atom_indices(),
    ;

    /// Bond order in fixed-point steps: [`crate::parameters::SCALE`] for
    /// single, twice that for double, three times for triple.
    fn bond_order(&self) -> (order: i64)
        ensures
            order == self.spec_bond_order(),
    ;
}

/// A plain record of the two values an atom must answer.
#[derive(Clone, Copy, Debug, PartialEq, Eq, Structural)]
pub struct SimpleAtom {
    /// Atomic number (e.g., H=1, C=6).
    pub atomic_number: usize,
    /// Formal charge in fixed-point steps.
    pub formal_charge: i64,
}

impl GasteigerAtom for SimpleAtom {
    open spec fn spec_atomic_number(&self) -> usize {
        self.atomic_number
    }

    open spec fn spec_formal_charge(&self) -> i64 {
        self.formal_charge
    }

    fn atomic_number(&self) -> (z: usize) {
        self.atomic_number
    }

    fn formal_charge(&self) -> (q: i64) {
        self.formal_charge
    }
}

/// A plain record of the two values a bond must answer.
#[derive(Clone, Copy, Debug, PartialEq, Eq)]
pub struct SimpleBond {
    /// Indices of the two atoms this bond connects.
    pub atom_indices: (usize, usize),
    /// Bond order in fixed-point steps.
    pub bond_order: i64,
}

impl GasteigerBond for SimpleBond {
    open spec fn spec_atom_indices(&self) -> (usize, usize) {
        self.atom_indices
    }

    open spec fn spec_bond_order(&self) -> i64 {
        self.bond_order
    }

    fn atom_indices(&self) -> (ij: (usize, usize)) {
        self.atom_indices
    }

    fn bond_order(&self) -> (order: i64) {
        self.bond_order
    }
}

} // verus!
