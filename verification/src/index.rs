//! A validated index: a text label, an orbital space and a vacuum.
//! Construction through `build` checks that the space is legal for the
//! vacuum and fails otherwise; the value is never mutated afterwards.

use vstd::prelude::*;

use crate::attr::{Space, Vacuum, space_allowed};

verus! {

/// An index of a second-quantization operator.
#[derive(Debug, Clone)]
pub struct Index {
    pub name: String,
    pub space: Space,
    pub vacuum: Vacuum,
}

/// The mathematical value of an `Index`: its label as a character
/// sequence, with its space and vacuum.
pub struct IndexV {
    pub name: Seq<char>,
    pub space: Space,
    pub vacuum: Vacuum,
}

impl View for Index {
    type V = IndexV;

    open spec fn view(&self) -> IndexV {
        IndexV { name: self.name@, space: self.space, vacuum: self.vacuum }
    }
}

/// The error reported when an index is built with a space that its
/// vacuum does not allow.
#[derive(Debug, Clone, Copy, PartialEq, Eq, Structural)]
pub struct InvalidIndexError {
    pub space: Space,
    pub vacuum: Vacuum,
}

impl Index {
    /// A fresh index with the given label, in the `General` space over the
    /// `Physical` vacuum (the one default combination that is always legal).
    pub fn new(name: &str) -> (r: Self)
        ensures
            r@.name == name@,
            r@.space == Space::General,
            r@.vacuum == Vacuum::Physical,
    {
        Self { name: name.to_owned(), space: Space::General, vacuum: Vacuum::Physical }
    }

    /// The same index with its space replaced.
    pub fn with_space(self, space: Space) -> (r: Self)
        ensures
            r@.name == self@.name,
            r@.space == space,
            r@.vacuum == self@.vacuum,
    {
        Self { space, ..self }
    }

    /// The same index with its vacuum replaced.
    pub fn with_vacuum(self, vacuum: Vacuum) -> (r: Self)
        ensures
            r@.name == self@.name,
            r@.space == self@.space,
            r@.vacuum == vacuum,
    {
        Self { vacuum, ..self }
    }

    /// Validate the index: succeeds exactly when the space is allowed for
    /// the vacuum, and returns the index unchanged; otherwise reports the
    /// offending combination and produces nothing.
    pub fn build(self) -> (r: Result<Self, InvalidIndexError>)
        ensures
            space_allowed(self@.space, self@.vacuum) <==> r is Ok,
            r is Ok ==> r->Ok_0@ == self@,
            r is Err ==> r->Err_0 == (InvalidIndexError {
                space: self@.space,
                vacuum: self@.vacuum,
            }),
    {
        if self.space.is_allowed(self.vacuum) {
            Ok(self)
        } else {
            Err(InvalidIndexError { space: self.space, vacuum: self.vacuum })
        }
    }

    /// The index's label.
    pub fn name(&self) -> (r: &str)
        ensures
            r@ == self@.name,
    {
        self.name.as_str()
    }

    /// The index's orbital space.
    pub fn space(&self) -> (r: Space)
        ensures
            r == self@.space,
    {
        self.space
    }

    /// The index's vacuum.
    pub fn vacuum(&self) -> (r: Vacuum)
        ensures
            r == self@.vacuum,
    {
        self.vacuum
    }
}

impl PartialEq for Index {
    /// Two indices are equal when their labels, spaces and vacuums agree.
    fn eq(&self, other: &Self) -> bool {
        self.name == other.name && self.space == other.space && self.vacuum == other.vacuum
    }
}

impl vstd::std_specs::cmp::PartialEqSpecImpl for Index {
    open spec fn obeys_eq_spec() -> bool {
        true
    }

    open spec fn eq_spec(&self, other: &Self) -> bool {
        self@ == other@
    }
}

} // verus!
