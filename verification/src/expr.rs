//! A term: a scalar coefficient, an ordered operator string (the order
//! carries the sign of the product), a collection of Kronecker deltas,
//! and the statistics tag shared by the whole term.

use vstd::prelude::*;

use vstd::string::*;

use crate::attr::{Action, Statistics};
use crate::coeff::{Coeff, coeff_abs, coeff_times, COEFF_MUL_LIMIT, COEFF_SCALE};
use crate::index::IndexV;
use crate::op::{can_contract, canon, spec_can_contract, Delta, DeltaV, Op, OpV};
use crate::text::push_char;

verus! {

/// The error reported when two terms of different statistics are
/// combined.
#[derive(Debug, Clone, Copy, PartialEq, Eq, Structural)]
pub struct StatisticsMismatchError {
    pub left: Statistics,
    pub right: Statistics,
}

/// A term of an operator expression.
#[derive(Debug, Clone)]
pub struct Expr {
    pub coeff: Coeff,
    pub deltas: Vec<Delta>,
    pub ops: Vec<Op>,
    pub statistic: Statistics,
}

/// The mathematical value of a term: coefficient in 10^-15 units, delta
/// values, operator values in order, and the statistics tag.
pub struct ExprV {
    pub coeff: int,
    pub deltas: Seq<DeltaV>,
    pub ops: Seq<OpV>,
    pub statistic: Statistics,
}

impl View for Expr {
    type V = ExprV;

    open spec fn view(&self) -> ExprV {
        ExprV {
            coeff: self.coeff.units as int,
            deltas: self.deltas@.map_values(|d: Delta| d@),
            ops: self.ops@.map_values(|o: Op| o@),
            statistic: self.statistic,
        }
    }
}

/// Normal order: no annihilation operator immediately precedes a
/// creation operator.
pub open spec fn spec_is_normal_order(ops: Seq<OpV>) -> bool {
    forall|i: int| 0 <= i && i + 1 < ops.len() ==> !spec_can_contract(#[trigger] ops[i], ops[i + 1])
}

/// How many deltas of `ds` have the sorted name pair `x`.
pub open spec fn dcount(ds: Seq<DeltaV>, x: (Seq<char>, Seq<char>)) -> nat
    decreases ds.len(),
{
    if ds.len() == 0 {
        0
    } else {
        dcount(ds.drop_last(), x) + if canon(ds.last()) == x {
            1nat
        } else {
            0nat
        }
    }
}

/// Two terms are similar when they share the statistics tag, carry the
/// same operator string position for position, and hold the same deltas
/// counted up to each delta's canonical ordering and up to collection
/// order.
pub open spec fn spec_similar(e1: ExprV, e2: ExprV) -> bool {
    &&& e1.statistic == e2.statistic
    &&& e1.ops == e2.ops
    &&& e1.deltas.len() == e2.deltas.len()
    &&& forall|x: (Seq<char>, Seq<char>)| dcount(e1.deltas, x) == dcount(e2.deltas, x)
}

/// The first position of `ds` whose first index equals `x`, or -1.
pub open spec fn first_target(ds: Seq<DeltaV>, x: IndexV) -> int
    decreases ds.len(),
{
    if ds.len() == 0 {
        -1
    } else if ds[0].a == x {
        0
    } else {
        let r = first_target(ds.drop_first(), x);
        if r == -1 {
            -1
        } else {
            r + 1
        }
    }
}

/// Adding a delta to a term, with transitive substitution: a delta
/// between equal indices is dropped; if some existing delta already maps
/// an index onto the new delta's second leg, that delta is redirected to
/// the new first leg instead of chaining; otherwise the delta is
/// appended.
pub open spec fn spec_add_delta(e: ExprV, d: DeltaV) -> ExprV {
    if d.a == d.b {
        e
    } else {
        let j = first_target(e.deltas, d.b);
        if j >= 0 {
            ExprV {
                deltas: e.deltas.update(j, DeltaV { a: d.a, b: e.deltas[j].b }),
                ..e
            }
        } else {
            ExprV { deltas: e.deltas.push(d), ..e }
        }
    }
}

/// `first_target` is the index of the first hit.
proof fn lemma_first_target_hit(ds: Seq<DeltaV>, x: IndexV, i: int)
    requires
        0 <= i < ds.len(),
        ds[i].a == x,
        forall|k: int| 0 <= k < i ==> ds[k].a != x,
    ensures
        first_target(ds, x) == i,
    decreases ds.len(),
{
    if i == 0 {
    } else {
        assert(ds[0].a != x);
        lemma_first_target_hit(ds.drop_first(), x, i - 1);
    }
}

/// When no entry hits, `first_target` reports -1.
proof fn lemma_first_target_miss(ds: Seq<DeltaV>, x: IndexV)
    requires
        forall|k: int| 0 <= k < ds.len() ==> ds[k].a != x,
    ensures
        first_target(ds, x) == -1,
    decreases ds.len(),
{
    if ds.len() > 0 {
        lemma_first_target_miss(ds.drop_first(), x);
    }
}

/// A positive delta count exhibits a position with that name pair.
pub proof fn lemma_dcount_pos(ds: Seq<DeltaV>, x: (Seq<char>, Seq<char>))
    requires
        dcount(ds, x) > 0,
    ensures
        exists|i: int| 0 <= i < ds.len() && canon(ds[i]) == x,
    decreases ds.len(),
{
    if canon(ds.last()) == x {
        assert(0 <= ds.len() - 1 < ds.len() && canon(ds[ds.len() - 1]) == x);
    } else {
        lemma_dcount_pos(ds.drop_last(), x);
        let i = choose|i: int| 0 <= i < ds.drop_last().len() && canon(ds.drop_last()[i]) == x;
        assert(0 <= i < ds.len() && canon(ds[i]) == x);
    }
}

/// Append duplicates of all deltas of `src` to `dst`.
fn extend_deltas(dst: &mut Vec<Delta>, src: &Vec<Delta>)
    ensures
        final(dst)@.map_values(|d: Delta| d@) == old(dst)@.map_values(|d: Delta| d@)
            + src@.map_values(|d: Delta| d@),
{
    let mut i: usize = 0;
    proof {
        assert(dst@.map_values(|d: Delta| d@) =~= old(dst)@.map_values(|d: Delta| d@)
            + src@.map_values(|d: Delta| d@).take(0));
    }
    while i < src.len()
        invariant
            i <= src.len(),
            dst@.map_values(|d: Delta| d@) == old(dst)@.map_values(|d: Delta| d@)
                + src@.map_values(|d: Delta| d@).take(i as int),
        decreases src.len() - i,
    {
        let ghost prev = dst@;
        let dup = src[i].duplicate();
        proof {
            assert(dup@ == src@[i as int]@);
        }
        dst.push(dup);
        proof {
            assert(dst@ == prev.push(dup));
            assert(dst@.map_values(|d: Delta| d@) =~= prev.map_values(|d: Delta| d@).push(dup@));
            assert(src@.map_values(|d: Delta| d@).take(i as int + 1) =~= src@.map_values(
                |d: Delta| d@,
            ).take(i as int).push(dup@));
            assert(dst@.map_values(|d: Delta| d@) =~= old(dst)@.map_values(|d: Delta| d@)
                + src@.map_values(|d: Delta| d@).take(i as int + 1));
        }
        i = i + 1;
    }
    proof {
        assert(src@.map_values(|d: Delta| d@).take(src@.len() as int) =~= src@.map_values(
            |d: Delta| d@,
        ));
    }
}

/// Append duplicates of all operators of `src` to `dst`.
fn extend_ops(dst: &mut Vec<Op>, src: &Vec<Op>)
    ensures
        final(dst)@.map_values(|o: Op| o@) == old(dst)@.map_values(|o: Op| o@) + src@.map_values(
            |o: Op| o@,
        ),
{
    let mut i: usize = 0;
    proof {
        assert(dst@.map_values(|o: Op| o@) =~= old(dst)@.map_values(|o: Op| o@) + src@.map_values(
            |o: Op| o@,
        ).take(0));
    }
    while i < src.len()
        invariant
            i <= src.len(),
            dst@.map_values(|o: Op| o@) == old(dst)@.map_values(|o: Op| o@) + src@.map_values(
                |o: Op| o@,
            ).take(i as int),
        decreases src.len() - i,
    {
        let ghost prev = dst@;
        let dup = src[i].duplicate();
        proof {
            assert(dup@ == src@[i as int]@);
        }
        dst.push(dup);
        proof {
            assert(dst@ == prev.push(dup));
            assert(dst@.map_values(|o: Op| o@) =~= prev.map_values(|o: Op| o@).push(dup@));
            assert(src@.map_values(|o: Op| o@).take(i as int + 1) =~= src@.map_values(
                |o: Op| o@,
            ).take(i as int).push(dup@));
            assert(dst@.map_values(|o: Op| o@) =~= old(dst)@.map_values(|o: Op| o@)
                + src@.map_values(|o: Op| o@).take(i as int + 1));
        }
        i = i + 1;
    }
    proof {
        assert(src@.map_values(|o: Op| o@).take(src@.len() as int) =~= src@.map_values(
            |o: Op| o@,
        ));
    }
}

impl Expr {
    /// The empty term: coefficient 1, no operators, no deltas,
    /// Fermi-Dirac statistics.
    pub fn new() -> (r: Self)
        ensures
            r@.coeff == crate::coeff::COEFF_SCALE as int,
            r@.deltas == Seq::<DeltaV>::empty(),
            r@.ops == Seq::<OpV>::empty(),
            r@.statistic == Statistics::FermiDirac,
    {
        let r = Self {
            coeff: Coeff::one(),
            deltas: Vec::new(),
            ops: Vec::new(),
            statistic: Statistics::FermiDirac,
        };
        proof {
            assert(r@.deltas =~= Seq::<DeltaV>::empty());
            assert(r@.ops =~= Seq::<OpV>::empty());
        }
        r
    }

    /// A copy of the term whose value is known to be the same.
    pub fn duplicate(&self) -> (r: Self)
        ensures
            r@ == self@,
    {
        let mut deltas: Vec<Delta> = Vec::new();
        extend_deltas(&mut deltas, &self.deltas);
        let mut ops: Vec<Op> = Vec::new();
        extend_ops(&mut ops, &self.ops);
        let r = Expr { coeff: self.coeff, deltas, ops, statistic: self.statistic };
        proof {
            assert(r@.deltas =~= self@.deltas);
            assert(r@.ops =~= self@.ops);
        }
        r
    }

    /// The same term with its coefficient replaced.
    pub fn set_coeff(self, coeff: Coeff) -> (r: Self)
        ensures
            r@ == (ExprV { coeff: coeff.units as int, ..self@ }),
    {
        Self { coeff, ..self }
    }

    /// The same term with its statistics tag replaced.
    pub fn set_statistic(self, statistic: Statistics) -> (r: Self)
        ensures
            r@ == (ExprV { statistic, ..self@ }),
    {
        Self { statistic, ..self }
    }

    /// Append one operator to the term's operator string.
    pub fn append_op(&mut self, op: Op)
        ensures
            final(self)@ == (ExprV { ops: old(self)@.ops.push(op@), ..old(self)@ }),
    {
        self.ops.push(op);
        proof {
            assert(self@.ops =~= old(self)@.ops.push(op@));
        }
    }

    /// Append another term: operator strings and delta collections are
    /// concatenated and the coefficients multiplied. Fails, leaving the
    /// term unchanged, when the statistics tags differ.
    pub fn append_expr(&mut self, other: &Self) -> (r: Result<(), StatisticsMismatchError>)
        requires
            coeff_abs(old(self)@.coeff) <= COEFF_MUL_LIMIT,
            coeff_abs(other@.coeff) <= COEFF_MUL_LIMIT,
        ensures
            old(self)@.statistic == other@.statistic <==> r is Ok,
            r is Ok ==> final(self)@ == (ExprV {
                coeff: coeff_times(old(self)@.coeff, other@.coeff),
                deltas: old(self)@.deltas + other@.deltas,
                ops: old(self)@.ops + other@.ops,
                statistic: old(self)@.statistic,
            }),
            r is Err ==> final(self)@ == old(self)@ && r->Err_0 == (StatisticsMismatchError {
                left: old(self)@.statistic,
                right: other@.statistic,
            }),
    {
        if self.statistic != other.statistic {
            return Err(
                StatisticsMismatchError { left: self.statistic, right: other.statistic },
            );
        }
        extend_ops(&mut self.ops, &other.ops);
        extend_deltas(&mut self.deltas, &other.deltas);
        self.coeff = self.coeff.times(other.coeff);
        Ok(())
    }

    /// Add a delta with transitive substitution (see `spec_add_delta`).
    pub fn add_delta(&mut self, delta: Delta)
        ensures
            final(self)@ == spec_add_delta(old(self)@, delta@),
    {
        if self.a_eq_b(&delta) {
            return ;
        }
        let ghost dvs = old(self)@.deltas;
        let mut i: usize = 0;
        while i < self.deltas.len()
            invariant
                i <= self.deltas.len(),
                self == old(self),
                dvs == self@.deltas,
                forall|k: int| 0 <= k < i ==> dvs[k].a != delta@.b,
            decreases self.deltas.len() - i,
        {
            if self.deltas[i].a == delta.b {
                proof {
                    lemma_first_target_hit(dvs, delta@.b, i as int);
                }
                let new_d = Delta { a: delta.a.duplicate(), b: self.deltas[i].b.duplicate() };
                self.deltas[i] = new_d;
                proof {
                    let e2 = spec_add_delta(old(self)@, delta@);
                    assert(self@.deltas =~= dvs.update(
                        i as int,
                        DeltaV { a: delta@.a, b: dvs[i as int].b },
                    ));
                    assert(self@.deltas == e2.deltas);
                    assert(self@ == e2);
                }
                return ;
            }
            i = i + 1;
        }
        proof {
            lemma_first_target_miss(dvs, delta@.b);
        }
        self.deltas.push(delta);
        proof {
            assert(self@.deltas =~= dvs.push(delta@));
        }
    }

    /// Whether the delta joins two equal indices.
    fn a_eq_b(&self, delta: &Delta) -> (r: bool)
        ensures
            r == (delta@.a == delta@.b),
    {
        delta.a == delta.b
    }

    /// The term's coefficient.
    pub fn coeff(&self) -> (r: Coeff)
        ensures
            r.units as int == self@.coeff,
    {
        self.coeff
    }

    /// The term's operator string.
    pub fn ops(&self) -> (r: &[Op])
        ensures
            r@.map_values(|o: Op| o@) == self@.ops,
    {
        self.ops.as_slice()
    }

    /// The term's delta collection.
    pub fn deltas(&self) -> (r: &[Delta])
        ensures
            r@.map_values(|d: Delta| d@) == self@.deltas,
    {
        self.deltas.as_slice()
    }

    /// Whether the term carries Fermi-Dirac statistics.
    pub fn is_fermi(&self) -> (r: bool)
        ensures
            r == (self@.statistic is FermiDirac),
    {
        match self.statistic {
            Statistics::FermiDirac => true,
            _ => false,
        }
    }

    /// Whether the term carries Bose-Einstein statistics.
    pub fn is_bose(&self) -> (r: bool)
        ensures
            r == (self@.statistic is BoseEinstein),
    {
        match self.statistic {
            Statistics::BoseEinstein => true,
            _ => false,
        }
    }

    /// Whether this term and `other` are similar (mergeable): same
    /// statistics, same operator string, same deltas up to canonical
    /// ordering and collection order.
    pub fn is_similar(&self, other: &Self) -> (r: bool)
        ensures
            r == spec_similar(self@, other@),
    {
        let ghost d1 = self@.deltas;
        let ghost d2 = other@.deltas;
        if !(self.statistic == other.statistic) {
            return false;
        }
        if self.ops.len() != other.ops.len() {
            proof {
                assert(self@.ops.len() != other@.ops.len());
            }
            return false;
        }
        let mut i: usize = 0;
        while i < self.ops.len()
            invariant
                i <= self.ops.len(),
                self.ops.len() == other.ops.len(),
                forall|k: int| 0 <= k < i ==> self@.ops[k] == other@.ops[k],
            decreases self.ops.len() - i,
        {
            if !(self.ops[i] == other.ops[i]) {
                proof {
                    assert(self@.ops[i as int] != other@.ops[i as int]);
                }
                return false;
            }
            i = i + 1;
        }
        proof {
            assert(self@.ops =~= other@.ops);
        }
        if self.deltas.len() != other.deltas.len() {
            return false;
        }
        let mut j: usize = 0;
        while j < self.deltas.len()
            invariant
                j <= self.deltas.len(),
                d1 == self@.deltas,
                d2 == other@.deltas,
                forall|k: int| 0 <= k < j ==> dcount(d1, canon(d1[k])) == dcount(
                    d2,
                    canon(d1[k]),
                ),
            decreases self.deltas.len() - j,
        {
            let c1 = count_delta(&self.deltas, &self.deltas[j]);
            let c2 = count_delta(&other.deltas, &self.deltas[j]);
            if c1 != c2 {
                return false;
            }
            j = j + 1;
        }
        let mut j: usize = 0;
        while j < other.deltas.len()
            invariant
                j <= other.deltas.len(),
                d1 == self@.deltas,
                d2 == other@.deltas,
                forall|k: int| 0 <= k < d1.len() ==> dcount(d1, canon(d1[k])) == dcount(
                    d2,
                    canon(d1[k]),
                ),
                forall|k: int| 0 <= k < j ==> dcount(d1, canon(d2[k])) == dcount(
                    d2,
                    canon(d2[k]),
                ),
            decreases other.deltas.len() - j,
        {
            let c1 = count_delta(&self.deltas, &other.deltas[j]);
            let c2 = count_delta(&other.deltas, &other.deltas[j]);
            if c1 != c2 {
                return false;
            }
            j = j + 1;
        }
        proof {
            assert forall|x: (Seq<char>, Seq<char>)| dcount(d1, x) == dcount(d2, x) by {
                if dcount(d1, x) > 0 {
                    lemma_dcount_pos(d1, x);
                    let i = choose|i: int| 0 <= i < d1.len() && canon(d1[i]) == x;
                    assert(dcount(d1, canon(d1[i])) == dcount(d2, canon(d1[i])));
                } else if dcount(d2, x) > 0 {
                    lemma_dcount_pos(d2, x);
                    let i = choose|i: int| 0 <= i < d2.len() && canon(d2[i]) == x;
                    assert(dcount(d1, canon(d2[i])) == dcount(d2, canon(d2[i])));
                }
            }
        }
        true
    }

    /// Whether the term's operator string is in normal order.
    pub fn is_normal_order(&self) -> (r: bool)
        ensures
            r == spec_is_normal_order(self@.ops),
    {
        is_normal_order(self)
    }
}

/// How many deltas of `ds` equal `d` (up to canonical ordering).
fn count_delta(ds: &Vec<Delta>, d: &Delta) -> (c: usize)
    ensures
        c == dcount(ds@.map_values(|dd: Delta| dd@), canon(d@)),
{
    let ghost dv = ds@.map_values(|dd: Delta| dd@);
    let mut c: usize = 0;
    let mut i: usize = 0;
    while i < ds.len()
        invariant
            i <= ds.len(),
            dv == ds@.map_values(|dd: Delta| dd@),
            c <= i,
            c == dcount(dv.take(i as int), canon(d@)),
        decreases ds.len() - i,
    {
        proof {
            assert(dv.take(i + 1).drop_last() =~= dv.take(i as int));
            assert(dv.take(i + 1).last() == dv[i as int]);
        }
        if &ds[i] == d {
            c = c + 1;
        }
        i = i + 1;
    }
    proof {
        assert(dv.take(ds@.len() as int) =~= dv);
    }
    c
}

/// Whether a term's operator string is in normal order: no adjacent
/// (annihilate, create) pair.
pub fn is_normal_order(expr: &Expr) -> (r: bool)
    ensures
        r == spec_is_normal_order(expr@.ops),
{
    if expr.ops.len() == 0 {
        return true;
    }
    let mut i: usize = 0;
    while i < expr.ops.len() - 1
        invariant
            expr.ops.len() >= 1,
            i <= expr.ops.len() - 1,
            forall|k: int| 0 <= k && k < i ==> !spec_can_contract(
                #[trigger] expr@.ops[k],
                expr@.ops[k + 1],
            ),
        decreases expr.ops.len() - i,
    {
        if can_contract(&expr.ops[i], &expr.ops[i + 1]) {
            proof {
                assert(spec_can_contract(expr@.ops[i as int], expr@.ops[i as int + 1]));
            }
            return false;
        }
        i = i + 1;
    }
    true
}

impl Expr {
    /// Rendered form of the term as a plain operator product:
    /// coefficient, deltas, then each operator in order. Presentation
    /// only; the content of the string is not part of the algebra's
    /// contract.
    pub fn to_latex(&self) -> String {
        let mut s = String::new();
        if self.coeff.units == COEFF_SCALE {
            if self.deltas.len() == 0 && self.ops.len() == 0 {
                push_char(&mut s, '1');
            }
        } else if self.coeff.units == -COEFF_SCALE {
            push_char(&mut s, '-');
        } else {
            let c = self.coeff.to_decimal();
            s.append(c.as_str());
        }
        let mut i: usize = 0;
        while i < self.deltas.len()
            decreases self.deltas.len() - i,
        {
            let d = self.deltas[i].to_latex();
            s.append(d.as_str());
            i = i + 1;
        }
        let mut j: usize = 0;
        while j < self.ops.len()
            decreases self.ops.len() - j,
        {
            let o = self.ops[j].to_latex(self.statistic);
            s.append(o.as_str());
            j = j + 1;
        }
        s
    }

    /// Rendered form of a normal-ordered term in tensor notation:
    /// coefficient, deltas, then one operator symbol with the creation
    /// labels as superscripts and the annihilation labels, reversed, as
    /// subscripts. A term not in normal order falls back to the plain
    /// product form. Presentation only.
    pub fn to_tensor_notation(&self) -> String {
        if !self.is_normal_order() {
            return self.to_latex();
        }
        let mut s = String::new();
        if self.coeff.units == COEFF_SCALE {
        } else if self.coeff.units == -COEFF_SCALE {
            push_char(&mut s, '-');
        } else {
            let c = self.coeff.to_decimal();
            s.append(c.as_str());
        }
        let mut i: usize = 0;
        while i < self.deltas.len()
            decreases self.deltas.len() - i,
        {
            let d = self.deltas[i].to_latex();
            s.append(d.as_str());
            i = i + 1;
        }
        let mut creates: Vec<Op> = Vec::new();
        let mut annihilates: Vec<Op> = Vec::new();
        let mut j: usize = 0;
        while j < self.ops.len()
            decreases self.ops.len() - j,
        {
            let op = self.ops[j].duplicate();
            if matches!(op.action, Action::Create) {
                creates.push(op);
            } else {
                annihilates.push(op);
            }
            j = j + 1;
        }
        if creates.len() > 0 || annihilates.len() > 0 {
            s.append(self.statistic.symbol());
            if creates.len() > 0 {
                push_char(&mut s, '^');
                push_char(&mut s, '{');
                let mut k: usize = 0;
                while k < creates.len()
                    decreases creates.len() - k,
                {
                    let up = creates[k].alphanumeric_index();
                    s.append(up.as_str());
                    k = k + 1;
                }
                push_char(&mut s, '}');
            }
            if annihilates.len() > 0 {
                push_char(&mut s, '_');
                push_char(&mut s, '{');
                let mut k: usize = annihilates.len();
                while k > 0
                    invariant
                        k <= annihilates.len(),
                    decreases k,
                {
                    k = k - 1;
                    let down = annihilates[k].alphanumeric_index();
                    s.append(down.as_str());
                }
                push_char(&mut s, '}');
            }
        }
        s
    }
}

/// The product of a scalar and an operator: a one-operator term.
pub fn scalar_times_op(c: Coeff, op: Op) -> (r: Expr)
    ensures
        r@.coeff == c.units as int,
        r@.ops == seq![op@],
        r@.deltas == Seq::<DeltaV>::empty(),
        r@.statistic == Statistics::FermiDirac,
{
    let mut e = Expr::new().set_coeff(c);
    e.append_op(op);
    proof {
        assert(e@.ops =~= seq![op@]);
    }
    e
}

/// The product of two operators: a two-operator term with coefficient 1.
pub fn op_times_op(a: Op, b: Op) -> (r: Expr)
    ensures
        r@.coeff == crate::coeff::COEFF_SCALE as int,
        r@.ops == seq![a@, b@],
        r@.deltas == Seq::<DeltaV>::empty(),
        r@.statistic == Statistics::FermiDirac,
{
    let mut e = Expr::new();
    e.append_op(a);
    e.append_op(b);
    proof {
        assert(e@.ops =~= seq![a@, b@]);
    }
    e
}

impl Expr {
    /// The product of a term and an operator: the operator is appended.
    pub fn times_op(self, rhs: Op) -> (r: Expr)
        ensures
            r@ == (ExprV { ops: self@.ops.push(rhs@), ..self@ }),
    {
        let mut e = self;
        e.append_op(rhs);
        e
    }

    /// The product of two terms; fails when their statistics differ.
    pub fn times_expr(self, rhs: Expr) -> (r: Result<Expr, StatisticsMismatchError>)
        requires
            coeff_abs(self@.coeff) <= COEFF_MUL_LIMIT,
            coeff_abs(rhs@.coeff) <= COEFF_MUL_LIMIT,
        ensures
            self@.statistic == rhs@.statistic <==> r is Ok,
            r is Ok ==> r->Ok_0@ == (ExprV {
                coeff: coeff_times(self@.coeff, rhs@.coeff),
                deltas: self@.deltas + rhs@.deltas,
                ops: self@.ops + rhs@.ops,
                statistic: self@.statistic,
            }),
            r is Err ==> r->Err_0 == (StatisticsMismatchError {
                left: self@.statistic,
                right: rhs@.statistic,
            }),
    {
        let mut e = self;
        match e.append_expr(&rhs) {
            Ok(()) => Ok(e),
            Err(err) => Err(err),
        }
    }
}

} // verus!
