//! Operators and Kronecker deltas. An operator is an index with an action
//! tag; a delta is an unordered pair of indices, equal to another delta
//! when their name-sorted pairs agree.

use vstd::prelude::*;
use vstd::string::*;

use crate::attr::{Action, Space, Statistics, Vacuum, spec_adjoint};
use crate::index::{Index, IndexV};
use crate::text::{filter_alphanumeric, filtered, lex_lt, push_char, str_lt};

verus! {

/// A second-quantization operator: an index plus an action.
#[derive(Debug, Clone)]
pub struct Op {
    pub index: Index,
    pub action: Action,
}

/// The mathematical value of an `Op`.
pub struct OpV {
    pub index: IndexV,
    pub action: Action,
}

impl View for Op {
    type V = OpV;

    open spec fn view(&self) -> OpV {
        OpV { index: self.index@, action: self.action }
    }
}

impl Index {
    /// A copy of the index whose value is known to be the same.
    pub fn duplicate(&self) -> (r: Self)
        ensures
            r@ == self@,
    {
        Index { name: self.name.clone(), space: self.space, vacuum: self.vacuum }
    }
}

impl Op {
    pub fn new(index: Index, action: Action) -> (r: Self)
        ensures
            r@ == (OpV { index: index@, action }),
    {
        Self { index, action }
    }

    /// A copy of the operator whose value is known to be the same.
    pub fn duplicate(&self) -> (r: Self)
        ensures
            r@ == self@,
    {
        Op { index: self.index.duplicate(), action: self.action }
    }

    /// The adjoint operator: same index, opposite action.
    pub fn dagger(&self) -> (r: Self)
        ensures
            r@.index == self@.index,
            r@.action == spec_adjoint(self@.action),
    {
        Self { index: self.index.duplicate(), action: self.action.adjoint() }
    }

    /// The index label stripped to its alphanumeric characters.
    pub fn alphanumeric_index(&self) -> (r: String)
        ensures
            r@ == filtered(self@.index.name),
    {
        filter_alphanumeric(self.index.name.as_str())
    }

    /// Rendered form of the operator, as used in formula output.
    pub fn to_latex(&self, stats: Statistics) -> (r: String)
        ensures
            r@ == op_latex(self@, stats),
    {
        let mut s = String::new();
        push_char(&mut s, if matches!(stats, Statistics::FermiDirac) { 'a' } else { 'b' });
        push_char(&mut s, if matches!(self.action, Action::Create) { '^' } else { '_' });
        push_char(&mut s, '{');
        let idx = self.alphanumeric_index();
        s.append(idx.as_str());
        push_char(&mut s, '}');
        proof {
            assert(s@ =~= op_latex(self@, stats));
        }
        s
    }

    pub fn index(&self) -> (r: &Index)
        ensures
            r@ == self@.index,
    {
        &self.index
    }

    pub fn action(&self) -> (r: Action)
        ensures
            r == self@.action,
    {
        self.action
    }

    pub fn name(&self) -> (r: &str)
        ensures
            r@ == self@.index.name,
    {
        self.index.name()
    }

    pub fn space(&self) -> (r: Space)
        ensures
            r == self@.index.space,
    {
        self.index.space()
    }

    pub fn vacuum(&self) -> (r: Vacuum)
        ensures
            r == self@.index.vacuum,
    {
        self.index.vacuum()
    }
}

impl PartialEq for Op {
    fn eq(&self, other: &Self) -> bool {
        self.index == other.index && self.action == other.action
    }
}

impl vstd::std_specs::cmp::PartialEqSpecImpl for Op {
    open spec fn obeys_eq_spec() -> bool {
        true
    }

    open spec fn eq_spec(&self, other: &Self) -> bool {
        self@ == other@
    }
}

/// Rendered form of an operator: its statistics letter, a superscript
/// marker for creation or a subscript marker for annihilation, and the
/// cleaned index label in braces.
pub open spec fn op_latex(o: OpV, stats: Statistics) -> Seq<char> {
    seq![if stats is FermiDirac { 'a' } else { 'b' }]
        + seq![if o.action is Create { '^' } else { '_' }] + seq!['{'] + filtered(o.index.name)
        + seq!['}']
}

/// A creation operator on the given index.
pub fn fcrex(index: Index) -> (r: Op)
    ensures
        r@ == (OpV { index: index@, action: Action::Create }),
{
    Op::new(index, Action::Create)
}

/// An annihilation operator on the given index.
pub fn fannx(index: Index) -> (r: Op)
    ensures
        r@ == (OpV { index: index@, action: Action::Annihilate }),
{
    Op::new(index, Action::Annihilate)
}

/// The contraction rule: `a` may contract with `b` exactly when `a`
/// annihilates and `b` creates; the order of the two matters.
pub open spec fn spec_can_contract(a: OpV, b: OpV) -> bool {
    a.action is Annihilate && b.action is Create
}

/// Whether `op1` may contract with `op2` (in that order).
pub fn can_contract(op1: &Op, op2: &Op) -> (r: bool)
    ensures
        r == spec_can_contract(op1@, op2@),
{
    matches!(op1.action, Action::Annihilate) && matches!(op2.action, Action::Create)
}

/// A Kronecker delta identifying two indices; the pair is unordered.
#[derive(Debug, Clone)]
pub struct Delta {
    pub a: Index,
    pub b: Index,
}

/// The mathematical value of a `Delta`.
pub struct DeltaV {
    pub a: IndexV,
    pub b: IndexV,
}

impl View for Delta {
    type V = DeltaV;

    open spec fn view(&self) -> DeltaV {
        DeltaV { a: self.a@, b: self.b@ }
    }
}

/// The delta's name pair sorted lexicographically: the form under which
/// two deltas are compared.
pub open spec fn canon(d: DeltaV) -> (Seq<char>, Seq<char>) {
    if lex_lt(d.a.name, d.b.name) {
        (d.a.name, d.b.name)
    } else {
        (d.b.name, d.a.name)
    }
}

impl Delta {
    /// A delta between two fresh indices with the given labels, in the
    /// default space and vacuum.
    pub fn new(a: String, b: String) -> (r: Self)
        ensures
            r@.a.name == a@,
            r@.a.space == Space::General,
            r@.a.vacuum == Vacuum::Physical,
            r@.b.name == b@,
            r@.b.space == Space::General,
            r@.b.vacuum == Vacuum::Physical,
    {
        Self {
            a: Index { name: a, space: Space::General, vacuum: Vacuum::Physical },
            b: Index { name: b, space: Space::General, vacuum: Vacuum::Physical },
        }
    }

    /// A copy of the delta whose value is known to be the same.
    pub fn duplicate(&self) -> (r: Self)
        ensures
            r@ == self@,
    {
        Delta { a: self.a.duplicate(), b: self.b.duplicate() }
    }

    /// Rendered form of the delta; a delta between two equal indices
    /// renders as nothing.
    pub fn to_latex(&self) -> (r: String)
        ensures
            r@ == delta_latex(self@),
    {
        if self.a == self.b {
            return String::new();
        }
        let mut s = String::new();
        push_char(&mut s, 's');
        push_char(&mut s, '^');
        push_char(&mut s, '{');
        let idxa = filter_alphanumeric(self.a.name.as_str());
        s.append(idxa.as_str());
        push_char(&mut s, '}');
        push_char(&mut s, '_');
        push_char(&mut s, '{');
        let idxb = filter_alphanumeric(self.b.name.as_str());
        s.append(idxb.as_str());
        push_char(&mut s, '}');
        proof {
            assert(s@ =~= delta_latex(self@));
        }
        s
    }

    /// The name pair of the delta, lexicographically sorted.
    pub fn canonical(&self) -> (r: (&String, &String))
        ensures
            (r.0@, r.1@) == canon(self@),
    {
        if str_lt(self.a.name.as_str(), self.b.name.as_str()) {
            (&self.a.name, &self.b.name)
        } else {
            (&self.b.name, &self.a.name)
        }
    }
}

/// Rendered form of a delta: nothing when the two indices are equal, else
/// the two cleaned labels as a superscript/subscript pair.
pub open spec fn delta_latex(d: DeltaV) -> Seq<char> {
    if d.a == d.b {
        Seq::empty()
    } else {
        seq!['s', '^', '{'] + filtered(d.a.name) + seq!['}', '_', '{'] + filtered(d.b.name)
            + seq!['}']
    }
}

impl PartialEq for Delta {
    /// Two deltas are equal when their name-sorted pairs agree.
    fn eq(&self, other: &Self) -> bool {
        let p1 = self.canonical();
        let p2 = other.canonical();
        let same = *p1.0 == *p2.0 && *p1.1 == *p2.1;
        proof {
            if same {
                assert(canon(self@) == canon(other@));
            } else {
                assert(canon(self@).0 == p1.0@ && canon(self@).1 == p1.1@);
                assert(canon(other@).0 == p2.0@ && canon(other@).1 == p2.1@);
                assert(canon(self@) != canon(other@));
            }
        }
        same
    }
}

impl vstd::std_specs::cmp::PartialEqSpecImpl for Delta {
    open spec fn obeys_eq_spec() -> bool {
        true
    }

    open spec fn eq_spec(&self, other: &Self) -> bool {
        canon(self@) == canon(other@)
    }
}

} // verus!
