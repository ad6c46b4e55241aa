//! A sum of terms. Its one mutation is merge-on-insert: a pushed term
//! that is similar to an existing one adds its coefficient there instead
//! of appearing twice, and negligible terms are dropped.

use vstd::prelude::*;
use vstd::string::*;

use crate::coeff::{coeff_abs, coeff_plus, MERGE_EPS_UNITS};
use crate::expr::{dcount, spec_similar, Expr, ExprV};
use crate::text::push_char;

verus! {

/// A sum of terms, in insertion order.
#[derive(Debug, Clone)]
pub struct ResultExpr {
    pub terms: Vec<Expr>,
}

impl View for ResultExpr {
    type V = Seq<ExprV>;

    open spec fn view(&self) -> Seq<ExprV> {
        self.terms@.map_values(|t: Expr| t@)
    }
}

/// The first position of `terms` holding a term similar to `t`, or -1.
pub open spec fn first_similar(terms: Seq<ExprV>, t: ExprV) -> int
    decreases terms.len(),
{
    if terms.len() == 0 {
        -1
    } else if spec_similar(terms[0], t) {
        0
    } else {
        let r = first_similar(terms.drop_first(), t);
        if r == -1 {
            -1
        } else {
            r + 1
        }
    }
}

/// Merge-on-insert: a term below the merge threshold is dropped; one
/// similar to an existing term adds its coefficient to that term (with
/// saturating addition); otherwise it is appended.
pub open spec fn spec_push(terms: Seq<ExprV>, t: ExprV) -> Seq<ExprV> {
    if coeff_abs(t.coeff) < MERGE_EPS_UNITS as int {
        terms
    } else {
        let j = first_similar(terms, t);
        if j >= 0 {
            terms.update(
                j,
                ExprV { coeff: coeff_plus(terms[j].coeff, t.coeff), ..terms[j] },
            )
        } else {
            terms.push(t)
        }
    }
}

/// Term-by-term merge of `b` into `a`, left to right.
pub open spec fn spec_add_sum(a: Seq<ExprV>, b: Seq<ExprV>) -> Seq<ExprV>
    decreases b.len(),
{
    if b.len() == 0 {
        a
    } else {
        spec_add_sum(spec_push(a, b[0]), b.drop_first())
    }
}

/// The terms that survive simplification: those whose coefficient
/// magnitude exceeds the merge threshold.
pub open spec fn spec_simplify(terms: Seq<ExprV>) -> Seq<ExprV>
    decreases terms.len(),
{
    if terms.len() == 0 {
        Seq::empty()
    } else if coeff_abs(terms.last().coeff) > MERGE_EPS_UNITS as int {
        spec_simplify(terms.drop_last()).push(terms.last())
    } else {
        spec_simplify(terms.drop_last())
    }
}

/// Merging `b` one longer folds one more push.
pub proof fn lemma_add_sum_snoc(a: Seq<ExprV>, b: Seq<ExprV>, t: ExprV)
    ensures
        spec_add_sum(a, b.push(t)) == spec_push(spec_add_sum(a, b), t),
    decreases b.len(),
{
    if b.len() == 0 {
        assert(b.push(t)[0] == t);
        assert(b.push(t).drop_first() =~= Seq::<ExprV>::empty());
        assert(spec_add_sum(a, b.push(t)) == spec_add_sum(
            spec_push(a, t),
            Seq::<ExprV>::empty(),
        ));
        assert(spec_add_sum(spec_push(a, t), Seq::<ExprV>::empty()) == spec_push(a, t));
        assert(spec_add_sum(a, b) == a);
    } else {
        assert(b.push(t)[0] == b[0]);
        assert(b.push(t).drop_first() =~= b.drop_first().push(t));
        lemma_add_sum_snoc(spec_push(a, b[0]), b.drop_first(), t);
        assert(spec_add_sum(a, b.push(t)) == spec_add_sum(
            spec_push(a, b[0]),
            b.drop_first().push(t),
        ));
        assert(spec_add_sum(a, b) == spec_add_sum(spec_push(a, b[0]), b.drop_first()));
    }
}

/// `first_similar` is the index of the first similar term.
proof fn lemma_first_similar_hit(terms: Seq<ExprV>, t: ExprV, i: int)
    requires
        0 <= i < terms.len(),
        spec_similar(terms[i], t),
        forall|k: int| 0 <= k < i ==> !spec_similar(terms[k], t),
    ensures
        first_similar(terms, t) == i,
    decreases terms.len(),
{
    if i == 0 {
    } else {
        assert(!spec_similar(terms[0], t));
        lemma_first_similar_hit(terms.drop_first(), t, i - 1);
    }
}

/// With no similar term present, `first_similar` reports -1.
proof fn lemma_first_similar_miss(terms: Seq<ExprV>, t: ExprV)
    requires
        forall|k: int| 0 <= k < terms.len() ==> !spec_similar(terms[k], t),
    ensures
        first_similar(terms, t) == -1,
    decreases terms.len(),
{
    if terms.len() > 0 {
        lemma_first_similar_miss(terms.drop_first(), t);
    }
}

// ---------------- the algebra of merging ----------------

/// The summed magnitude of all coefficients of a sum.
pub open spec fn total_abs(s: Seq<ExprV>) -> int
    decreases s.len(),
{
    if s.len() == 0 {
        0
    } else {
        total_abs(s.drop_last()) + coeff_abs(s.last().coeff)
    }
}

/// The merged coefficient a sum holds for the similarity class of `x`:
/// the coefficients of all terms similar to `x`, added up.
pub open spec fn class_coeff(s: Seq<ExprV>, x: ExprV) -> int
    decreases s.len(),
{
    if s.len() == 0 {
        0
    } else {
        class_coeff(s.drop_last(), x) + if spec_similar(s.last(), x) {
            s.last().coeff
        } else {
            0
        }
    }
}

/// No single coefficient exceeds the summed magnitude.
proof fn lemma_term_abs_le_total(s: Seq<ExprV>, i: int)
    requires
        0 <= i < s.len(),
    ensures
        coeff_abs(s[i].coeff) <= total_abs(s),
        total_abs(s) >= 0,
    decreases s.len(),
{
    lemma_total_abs_nonneg(s.drop_last());
    if i < s.len() - 1 {
        lemma_term_abs_le_total(s.drop_last(), i);
    }
}

proof fn lemma_total_abs_nonneg(s: Seq<ExprV>)
    ensures
        total_abs(s) >= 0,
    decreases s.len(),
{
    if s.len() > 0 {
        lemma_total_abs_nonneg(s.drop_last());
    }
}

/// A positive `first_similar` names a similar term.
pub proof fn lemma_first_similar_props(terms: Seq<ExprV>, t: ExprV)
    ensures
        first_similar(terms, t) >= 0 ==> 0 <= first_similar(terms, t) < terms.len()
            && spec_similar(terms[first_similar(terms, t)], t),
    decreases terms.len(),
{
    if terms.len() > 0 && !spec_similar(terms[0], t) {
        lemma_first_similar_props(terms.drop_first(), t);
        if first_similar(terms, t) >= 0 {
            let r = first_similar(terms.drop_first(), t);
            assert(terms.drop_first()[r] == terms[r + 1]);
        }
    }
}

/// Replacing one term changes the class total and the summed magnitude
/// by exactly that term's contribution.
proof fn lemma_class_coeff_update(s: Seq<ExprV>, j: int, e: ExprV, x: ExprV)
    requires
        0 <= j < s.len(),
    ensures
        class_coeff(s.update(j, e), x) == class_coeff(s, x) - (if spec_similar(s[j], x) {
            s[j].coeff
        } else {
            0
        }) + (if spec_similar(e, x) {
            e.coeff
        } else {
            0
        }),
        total_abs(s.update(j, e)) == total_abs(s) - coeff_abs(s[j].coeff) + coeff_abs(e.coeff),
    decreases s.len(),
{
    let s2 = s.update(j, e);
    if j == s.len() - 1 {
        assert(s2.drop_last() =~= s.drop_last());
        assert(s2.last() == e);
    } else {
        lemma_class_coeff_update(s.drop_last(), j, e, x);
        assert(s2.drop_last() =~= s.drop_last().update(j, e));
        assert(s2.last() == s.last());
    }
}

/// Similarity does not read the coefficient.
proof fn lemma_similar_same_class(a: ExprV, b: ExprV, x: ExprV)
    requires
        a.statistic == b.statistic,
        a.ops == b.ops,
        a.deltas == b.deltas,
    ensures
        spec_similar(a, x) == spec_similar(b, x),
{
}

/// Similar terms lie in the same class everywhere.
proof fn lemma_similar_transfer(a: ExprV, t: ExprV, x: ExprV)
    requires
        spec_similar(a, t),
    ensures
        spec_similar(a, x) == spec_similar(t, x),
{
    if spec_similar(a, x) {
        assert forall|y: (Seq<char>, Seq<char>)|
            dcount(t.deltas, y) == dcount(x.deltas, y) by {
            assert(dcount(a.deltas, y) == dcount(t.deltas, y));
            assert(dcount(a.deltas, y) == dcount(x.deltas, y));
        }
        assert(spec_similar(t, x));
    } else if spec_similar(t, x) {
        assert forall|y: (Seq<char>, Seq<char>)|
            dcount(a.deltas, y) == dcount(x.deltas, y) by {
            assert(dcount(a.deltas, y) == dcount(t.deltas, y));
            assert(dcount(t.deltas, y) == dcount(x.deltas, y));
        }
        assert(spec_similar(a, x));
    }
}

/// One merge-on-insert adds the pushed term's coefficient to its class
/// total and leaves every other class unchanged; the summed magnitude
/// grows by at most the pushed coefficient's magnitude. Exact as long
/// as the sums stay inside the coefficient representation.
pub proof fn lemma_push_class(a: Seq<ExprV>, t: ExprV, x: ExprV)
    requires
        total_abs(a) + coeff_abs(t.coeff) <= i128::MAX as int,
    ensures
        class_coeff(spec_push(a, t), x) == class_coeff(a, x) + (if spec_similar(t, x) {
            t.coeff
        } else {
            0
        }),
        total_abs(spec_push(a, t)) <= total_abs(a) + coeff_abs(t.coeff),
        total_abs(spec_push(a, t)) >= 0,
{
    lemma_total_abs_nonneg(a);
    if coeff_abs(t.coeff) < MERGE_EPS_UNITS as int {
        assert(t.coeff == 0);
    } else {
        let j = first_similar(a, t);
        lemma_first_similar_props(a, t);
        if j >= 0 {
            let e = ExprV { coeff: coeff_plus(a[j].coeff, t.coeff), ..a[j] };
            lemma_term_abs_le_total(a, j);
            assert(coeff_plus(a[j].coeff, t.coeff) == a[j].coeff + t.coeff);
            lemma_class_coeff_update(a, j, e, x);
            lemma_similar_same_class(e, a[j], x);
            lemma_similar_transfer(a[j], t, x);
            lemma_total_abs_nonneg(spec_push(a, t));
        } else {
            assert(spec_push(a, t) == a.push(t));
            assert(a.push(t).drop_last() =~= a);
            assert(a.push(t).last() == t);
            lemma_total_abs_nonneg(spec_push(a, t));
        }
    }
}

/// Merging a whole sum adds its class totals: merging `b` into `a`
/// gives, for every class, the class total of `a` plus that of `b`.
/// Exact as long as the summed magnitudes stay inside the coefficient
/// representation.
pub proof fn lemma_add_sum_class(a: Seq<ExprV>, b: Seq<ExprV>, x: ExprV)
    requires
        total_abs(a) + total_abs(b) <= i128::MAX as int,
    ensures
        class_coeff(spec_add_sum(a, b), x) == class_coeff(a, x) + class_coeff(b, x),
        total_abs(spec_add_sum(a, b)) <= total_abs(a) + total_abs(b),
        total_abs(spec_add_sum(a, b)) >= 0,
    decreases b.len(),
{
    lemma_total_abs_nonneg(a);
    lemma_total_abs_nonneg(b);
    if b.len() == 0 {
    } else {
        let b0 = b.drop_last();
        let t = b.last();
        lemma_total_abs_nonneg(b0);
        assert(total_abs(b) == total_abs(b0) + coeff_abs(t.coeff));
        lemma_add_sum_class(a, b0, x);
        assert(b0.push(t) =~= b);
        lemma_add_sum_snoc(a, b0, t);
        assert(spec_add_sum(a, b) == spec_push(spec_add_sum(a, b0), t));
        lemma_push_class(spec_add_sum(a, b0), t, x);
        assert(class_coeff(b, x) == class_coeff(b0, x) + if spec_similar(t, x) {
            t.coeff
        } else {
            0
        });
    }
}

/// Merging two terms into a sum in either order gives the same class
/// totals: merge-on-insert is commutative.
pub proof fn lemma_merge_commutative(a: Seq<ExprV>, t1: ExprV, t2: ExprV, x: ExprV)
    requires
        total_abs(a) + coeff_abs(t1.coeff) + coeff_abs(t2.coeff) <= i128::MAX as int,
    ensures
        class_coeff(spec_push(spec_push(a, t1), t2), x) == class_coeff(
            spec_push(spec_push(a, t2), t1),
            x,
        ),
{
    lemma_push_class(a, t1, x);
    lemma_push_class(spec_push(a, t1), t2, x);
    lemma_push_class(a, t2, x);
    lemma_push_class(spec_push(a, t2), t1, x);
}

/// Sum addition is commutative on class totals.
pub proof fn lemma_sum_addition_commutative(a: Seq<ExprV>, b: Seq<ExprV>, x: ExprV)
    requires
        total_abs(a) + total_abs(b) <= i128::MAX as int,
    ensures
        class_coeff(spec_add_sum(a, b), x) == class_coeff(spec_add_sum(b, a), x),
{
    lemma_add_sum_class(a, b, x);
    lemma_add_sum_class(b, a, x);
}

/// Sum addition is associative on class totals: grouping does not
/// change any merged coefficient.
pub proof fn lemma_sum_addition_associative(
    a: Seq<ExprV>,
    b: Seq<ExprV>,
    c: Seq<ExprV>,
    x: ExprV,
)
    requires
        total_abs(a) + total_abs(b) + total_abs(c) <= i128::MAX as int,
    ensures
        class_coeff(spec_add_sum(spec_add_sum(a, b), c), x) == class_coeff(
            spec_add_sum(a, spec_add_sum(b, c)),
            x,
        ),
{
    lemma_total_abs_nonneg(a);
    lemma_total_abs_nonneg(b);
    lemma_total_abs_nonneg(c);
    lemma_add_sum_class(a, b, x);
    lemma_add_sum_class(spec_add_sum(a, b), c, x);
    lemma_add_sum_class(b, c, x);
    lemma_add_sum_class(a, spec_add_sum(b, c), x);
}

/// Dropping one term takes exactly its contribution out of the class
/// total and the summed magnitude.
proof fn lemma_class_coeff_remove(t: Seq<ExprV>, i: int, x: ExprV)
    requires
        0 <= i < t.len(),
    ensures
        class_coeff(t, x) == class_coeff(t.remove(i), x) + (if spec_similar(t[i], x) {
            t[i].coeff
        } else {
            0
        }),
        total_abs(t) == total_abs(t.remove(i)) + coeff_abs(t[i].coeff),
    decreases t.len(),
{
    if i == t.len() - 1 {
        assert(t.remove(i) =~= t.drop_last());
    } else {
        lemma_class_coeff_remove(t.drop_last(), i, x);
        assert(t.remove(i).drop_last() =~= t.drop_last().remove(i));
        assert(t.remove(i).last() == t.last());
    }
}

/// Class totals and summed magnitudes see only the multiset of terms,
/// not their order.
pub proof fn lemma_class_coeff_permutation(s: Seq<ExprV>, t: Seq<ExprV>, x: ExprV)
    requires
        s.to_multiset() == t.to_multiset(),
    ensures
        class_coeff(s, x) == class_coeff(t, x),
        total_abs(s) == total_abs(t),
    decreases s.len(),
{
    broadcast use vstd::seq_lib::group_to_multiset_ensures;

    if s.len() == 0 {
        assert(s.to_multiset().len() == s.len());
        assert(t.to_multiset().len() == t.len());
        assert(t.len() == 0);
    } else {
        let e = s.last();
        let s0 = s.drop_last();
        assert(s0.push(e) =~= s);
        assert(s0.push(e).to_multiset() =~= s0.to_multiset().insert(e));
        assert(t.to_multiset().count(e) > 0);
        assert(t.contains(e));
        let i = choose|i: int| 0 <= i < t.len() && t[i] == e;
        let t2 = t.remove(i);
        assert(t2.to_multiset() =~= t.to_multiset().remove(e));
        assert(s0.to_multiset() =~= s.to_multiset().remove(e));
        lemma_class_coeff_permutation(s0, t2, x);
        lemma_class_coeff_remove(t, i, x);
        assert(class_coeff(s, x) == class_coeff(s0, x) + if spec_similar(e, x) {
            e.coeff
        } else {
            0
        });
    }
}

/// Summing the same multiset of terms in any insertion order yields the
/// same merged coefficient for every similarity class. Exact as long as
/// the summed magnitude stays inside the coefficient representation.
pub proof fn lemma_merge_insertion_order(s: Seq<ExprV>, t: Seq<ExprV>, x: ExprV)
    requires
        s.to_multiset() == t.to_multiset(),
        total_abs(s) <= i128::MAX as int,
    ensures
        class_coeff(spec_add_sum(Seq::empty(), s), x) == class_coeff(
            spec_add_sum(Seq::empty(), t),
            x,
        ),
{
    lemma_class_coeff_permutation(s, t, x);
    lemma_add_sum_class(Seq::empty(), s, x);
    lemma_add_sum_class(Seq::empty(), t, x);
}

/// No term whose coefficient magnitude is at or below the merge
/// threshold ever appears in a simplified sum.
pub proof fn lemma_simplified_terms_large(terms: Seq<ExprV>, i: int)
    requires
        0 <= i < spec_simplify(terms).len(),
    ensures
        coeff_abs(spec_simplify(terms)[i].coeff) > MERGE_EPS_UNITS as int,
    decreases terms.len(),
{
    if terms.len() > 0 {
        if coeff_abs(terms.last().coeff) > MERGE_EPS_UNITS as int {
            if i < spec_simplify(terms).len() - 1 {
                lemma_simplified_terms_large(terms.drop_last(), i);
            }
        } else {
            lemma_simplified_terms_large(terms.drop_last(), i);
        }
    }
}

impl ResultExpr {
    /// The empty sum.
    pub fn new() -> (r: Self)
        ensures
            r@ == Seq::<ExprV>::empty(),
    {
        let r = Self { terms: Vec::new() };
        proof {
            assert(r@ =~= Seq::<ExprV>::empty());
        }
        r
    }

    /// The sum holding exactly one term.
    pub fn from_expr(expr: Expr) -> (r: Self)
        ensures
            r@ == seq![expr@],
    {
        let mut terms: Vec<Expr> = Vec::new();
        terms.push(expr);
        let r = Self { terms };
        proof {
            assert(r@ =~= seq![expr@]);
        }
        r
    }

    /// Append a term without merging; an exactly-zero term is dropped.
    pub fn add_expr(&mut self, expr: Expr)
        ensures
            expr@.coeff == 0 ==> final(self)@ == old(self)@,
            expr@.coeff != 0 ==> final(self)@ == old(self)@.push(expr@),
    {
        if expr.coeff.is_zero() {
            return ;
        }
        self.terms.push(expr);
        proof {
            assert(self@ =~= old(self)@.push(expr@));
        }
    }

    /// Push a term with merge-on-insert (see `spec_push`).
    pub fn push_and_merge(&mut self, term: Expr)
        ensures
            final(self)@ == spec_push(old(self)@, term@),
    {
        if term.coeff.abs_lt(MERGE_EPS_UNITS) {
            return ;
        }
        let ghost tv = old(self)@;
        let mut i: usize = 0;
        while i < self.terms.len()
            invariant
                i <= self.terms.len(),
                self == old(self),
                tv == self@,
                forall|k: int| 0 <= k < i ==> !spec_similar(tv[k], term@),
            decreases self.terms.len() - i,
        {
            if self.terms[i].is_similar(&term) {
                proof {
                    lemma_first_similar_hit(tv, term@, i as int);
                }
                let mut updated = self.terms[i].duplicate();
                updated.coeff = updated.coeff.plus(term.coeff);
                self.terms[i] = updated;
                proof {
                    let e2 = spec_push(tv, term@);
                    assert(self@ =~= tv.update(
                        i as int,
                        ExprV { coeff: coeff_plus(tv[i as int].coeff, term@.coeff), ..tv[
                            i as int] },
                    ));
                    assert(self@ == e2);
                }
                return ;
            }
            i = i + 1;
        }
        proof {
            lemma_first_similar_miss(tv, term@);
        }
        self.terms.push(term);
        proof {
            assert(self@ =~= tv.push(term@));
        }
    }

    /// Merge every term of `other` into this sum, left to right.
    pub fn add_sum(&mut self, other: ResultExpr)
        ensures
            final(self)@ == spec_add_sum(old(self)@, other@),
    {
        let ghost ov = other@;
        let mut i: usize = 0;
        proof {
            assert(ov.take(0) =~= Seq::<ExprV>::empty());
        }
        while i < other.terms.len()
            invariant
                i <= other.terms.len(),
                ov == other@,
                self@ == spec_add_sum(old(self)@, ov.take(i as int)),
            decreases other.terms.len() - i,
        {
            self.push_and_merge(other.terms[i].duplicate());
            proof {
                assert(ov.take(i as int + 1) =~= ov.take(i as int).push(ov[i as int]));
                lemma_add_sum_snoc(old(self)@, ov.take(i as int), ov[i as int]);
            }
            i = i + 1;
        }
        proof {
            assert(ov.take(other.terms@.len() as int) =~= ov);
        }
    }

    /// Remove every term whose coefficient magnitude is at or below the
    /// merge threshold.
    pub fn simplify(&mut self)
        ensures
            final(self)@ == spec_simplify(old(self)@),
    {
        let ghost tv = old(self)@;
        let mut kept: Vec<Expr> = Vec::new();
        let mut i: usize = 0;
        proof {
            assert(kept@.map_values(|t: Expr| t@) =~= spec_simplify(tv.take(0)));
        }
        while i < self.terms.len()
            invariant
                i <= self.terms.len(),
                self == old(self),
                tv == self@,
                kept@.map_values(|t: Expr| t@) == spec_simplify(tv.take(i as int)),
            decreases self.terms.len() - i,
        {
            let ghost prev = kept@;
            proof {
                assert(tv.take(i as int + 1).drop_last() =~= tv.take(i as int));
                assert(tv.take(i as int + 1).last() == tv[i as int]);
            }
            if self.terms[i].coeff.abs_gt(MERGE_EPS_UNITS) {
                let dup = self.terms[i].duplicate();
                proof {
                    assert(dup@ == tv[i as int]);
                }
                kept.push(dup);
                proof {
                    assert(kept@.map_values(|t: Expr| t@) =~= prev.map_values(
                        |t: Expr| t@,
                    ).push(dup@));
                }
            }
            i = i + 1;
        }
        proof {
            assert(tv.take(self.terms@.len() as int) =~= tv);
        }
        self.terms = kept;
    }

    /// Rendered form of the sum: the terms' tensor notations joined with
    /// sign-aware separators, or "0" when nothing remains. Presentation
    /// only.
    pub fn to_latex(&self) -> String {
        let zero = String::from_str("0");
        if self.terms.len() == 0 {
            return zero;
        }
        let mut s = String::new();
        let mut i: usize = 0;
        while i < self.terms.len()
            decreases self.terms.len() - i,
        {
            let term_tex = self.terms[i].to_tensor_notation();
            if term_tex.as_str().unicode_len() == 0 || term_tex == zero {
                i = i + 1;
                continue ;
            }
            if i == 0 {
                s.append(term_tex.as_str());
            } else if self.terms[i].coeff.units > 0 {
                push_char(&mut s, ' ');
                push_char(&mut s, '+');
                push_char(&mut s, ' ');
                s.append(term_tex.as_str());
            } else {
                push_char(&mut s, ' ');
                s.append(term_tex.as_str());
            }
            i = i + 1;
        }
        if s.as_str().unicode_len() == 0 {
            zero
        } else {
            s
        }
    }
}

} // verus!
