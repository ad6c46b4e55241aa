//! Attributes of operators and terms: the vacuum the string is taken over,
//! the orbital space of an index, the action of an operator, and the
//! particle statistics of a term.

use vstd::prelude::*;

verus! {

/// The reference state that expectation values are taken over.
#[derive(Debug, Clone, Copy, PartialEq, Eq, Hash, Structural)]
pub enum Vacuum {
    /// The true vacuum: an annihilator kills it.
    Physical,
    /// The Fermi (Hartree-Fock) vacuum.
    Fermi,
    /// A multireference vacuum.
    MultiReference,
}

/// The orbital space an index ranges over.
#[derive(Debug, Clone, Copy, PartialEq, Eq, Hash, Structural)]
pub enum Space {
    /// Any orbital; only meaningful over the physical vacuum.
    General,
    /// An occupied orbital.
    Occupied,
    /// A virtual orbital.
    Virtual,
    /// A core (frozen) orbital.
    DoublyOccupied,
}

/// What a second-quantization operator does.
#[derive(Debug, Clone, Copy, PartialEq, Eq, Hash, Structural)]
pub enum Action {
    Create,
    Annihilate,
}

/// The exchange statistics shared by all operators of a term.
#[derive(Debug, Clone, Copy, PartialEq, Eq, Hash, Structural)]
pub enum Statistics {
    FermiDirac,
    BoseEinstein,
    Arbitrary,
}

/// Which spaces are legal under which vacuum: `General` only under
/// `Physical`, the Fermi vacuum forbids `General`, and a multireference
/// vacuum allows every space.
pub open spec fn space_allowed(s: Space, v: Vacuum) -> bool {
    match v {
        Vacuum::Physical => s is General,
        Vacuum::Fermi => !(s is General),
        Vacuum::MultiReference => true,
    }
}

impl Space {
    /// Whether this space may be used for an index over vacuum `v`.
    pub fn is_allowed(self, v: Vacuum) -> (r: bool)
        ensures
            r == space_allowed(self, v),
    {
        match v {
            Vacuum::Physical => matches!(self, Self::General),
            Vacuum::Fermi => !matches!(self, Self::General),
            Vacuum::MultiReference => true,
        }
    }
}

/// The adjoint of an action: creation and annihilation exchange.
pub open spec fn spec_adjoint(a: Action) -> Action {
    match a {
        Action::Create => Action::Annihilate,
        Action::Annihilate => Action::Create,
    }
}

impl Action {
    /// The adjoint action: `Create` and `Annihilate` exchange.
    pub fn adjoint(self) -> (r: Self)
        ensures
            r == spec_adjoint(self),
    {
        match self {
            Self::Create => Self::Annihilate,
            Self::Annihilate => Self::Create,
        }
    }
}

impl Statistics {
    /// The letter used for an operator of this statistics in rendered output.
    pub fn symbol(self) -> (r: &'static str)
        ensures
            self is FermiDirac ==> r@ == "a"@,
            self is BoseEinstein ==> r@ == "b"@,
            self is Arbitrary ==> r@ == "c"@,
    {
        match self {
            Statistics::FermiDirac => "a",
            Statistics::BoseEinstein => "b",
            Statistics::Arbitrary => "c",
        }
    }
}

} // verus!
