use xymbolic::attr::{Action, Space, Statistics, Vacuum};
use xymbolic::coeff::{Coeff, COEFF_SCALE};
use xymbolic::expr::{is_normal_order, op_times_op, scalar_times_op, Expr};
use xymbolic::index::Index;
use xymbolic::op::{can_contract, fannx, fcrex, Op};
use xymbolic::result_expr::ResultExpr;
use xymbolic::wick::{count_crossings, WickTheorem};

fn idx(name: &str) -> Index {
    Index::new(name).build().unwrap()
}

#[test]
fn index_space_vacuum_table() {
    let spaces = [
        Space::General,
        Space::Occupied,
        Space::Virtual,
        Space::DoublyOccupied,
    ];
    for &s in spaces.iter() {
        // Physical: only General is allowed.
        let r = Index::new("x").with_space(s).with_vacuum(Vacuum::Physical).build();
        assert_eq!(r.is_ok(), s == Space::General);
        // Fermi: everything but General.
        let r = Index::new("x").with_space(s).with_vacuum(Vacuum::Fermi).build();
        assert_eq!(r.is_ok(), s != Space::General);
        // MultiReference: everything.
        let r = Index::new("x")
            .with_space(s)
            .with_vacuum(Vacuum::MultiReference)
            .build();
        assert!(r.is_ok());
    }
    let bad = Index::new("x")
        .with_space(Space::Virtual)
        .with_vacuum(Vacuum::Physical)
        .build()
        .unwrap_err();
    assert_eq!(bad.space, Space::Virtual);
    assert_eq!(bad.vacuum, Vacuum::Physical);
}

#[test]
fn can_contract_only_annihilate_create() {
    let a = idx("a");
    let b = idx("b");
    let actions = [Action::Create, Action::Annihilate];
    for &x in actions.iter() {
        for &y in actions.iter() {
            let ox = Op::new(a.clone(), x);
            let oy = Op::new(b.clone(), y);
            let expected = x == Action::Annihilate && y == Action::Create;
            assert_eq!(can_contract(&ox, &oy), expected);
        }
    }
}

#[test]
fn normal_order_detects_adjacent_pair() {
    let c = fcrex(idx("p"));
    let a = fannx(idx("q"));
    // create create, create annihilate, annihilate annihilate: normal
    for pair in [
        (c.clone(), c.clone()),
        (c.clone(), a.clone()),
        (a.clone(), a.clone()),
    ] {
        let e = op_times_op(pair.0, pair.1);
        assert!(is_normal_order(&e));
    }
    // annihilate create: not normal
    let e = op_times_op(a.clone(), c.clone());
    assert!(!is_normal_order(&e));
    // the pair may sit anywhere in the string
    let mut e = op_times_op(c.clone(), a.clone());
    e.append_op(c.clone());
    assert!(!is_normal_order(&e));
    // empty and one-operator strings are normal
    assert!(is_normal_order(&Expr::new()));
    assert!(is_normal_order(&scalar_times_op(Coeff::one(), c)));
}

#[test]
fn full_contraction_two_terms_structure() {
    let expr = scalar_times_op(Coeff::from_int(1), fannx(idx("p_3")))
        .times_op(fannx(idx("p_4")))
        .times_op(fcrex(idx("p_1")))
        .times_op(fcrex(idx("p_2")));
    let wt = WickTheorem::new(expr).full_contractions(true).compute();
    let sum = wt.wick_result();
    assert_eq!(sum.terms.len(), 2);
    // -d(p3,p1) d(p4,p2)
    assert_eq!(sum.terms[0].coeff.units, -COEFF_SCALE);
    assert_eq!(sum.terms[0].ops.len(), 0);
    assert_eq!(sum.terms[0].deltas.len(), 2);
    assert_eq!(sum.terms[0].deltas[0].a.name, "p_3");
    assert_eq!(sum.terms[0].deltas[0].b.name, "p_1");
    assert_eq!(sum.terms[0].deltas[1].a.name, "p_4");
    assert_eq!(sum.terms[0].deltas[1].b.name, "p_2");
    // +d(p3,p2) d(p4,p1)
    assert_eq!(sum.terms[1].coeff.units, COEFF_SCALE);
    assert_eq!(sum.terms[1].ops.len(), 0);
    assert_eq!(sum.terms[1].deltas.len(), 2);
    assert_eq!(sum.terms[1].deltas[0].a.name, "p_3");
    assert_eq!(sum.terms[1].deltas[0].b.name, "p_2");
    assert_eq!(sum.terms[1].deltas[1].a.name, "p_4");
    assert_eq!(sum.terms[1].deltas[1].b.name, "p_1");
}

#[test]
fn full_contraction_mismatched_counts_is_zero() {
    let expr = scalar_times_op(Coeff::from_int(1), fannx(idx("p_3")))
        .times_op(fannx(idx("p_4")))
        .times_op(fcrex(idx("p_1")));
    let wt = WickTheorem::new(expr).full_contractions(true).compute();
    assert_eq!(wt.wick_result().terms.len(), 0);
    assert_eq!(wt.to_latex(), "0");
}

#[test]
fn general_expansion_seven_terms() {
    let expr = scalar_times_op(Coeff::from_int(1), fannx(idx("p_3")))
        .times_op(fannx(idx("p_4")))
        .times_op(fcrex(idx("p_1")))
        .times_op(fcrex(idx("p_2")));
    let wt = WickTheorem::new(expr).full_contractions(false).compute();
    let sum = wt.wick_result();
    assert_eq!(sum.terms.len(), 7);
    // exactly one normal-ordered term without deltas, with all four
    // operators
    let mut no_delta = 0;
    for t in sum.terms.iter() {
        assert!(is_normal_order(t));
        if t.deltas.is_empty() {
            no_delta += 1;
            assert_eq!(t.ops.len(), 4);
            assert_eq!(t.coeff.units, COEFF_SCALE);
        }
    }
    assert_eq!(no_delta, 1);
}

#[test]
fn crossings_examples() {
    // interleaved pairs cross, nested and disjoint pairs do not
    assert_eq!(count_crossings(&vec![(0, 2), (1, 3)]), 1);
    assert_eq!(count_crossings(&vec![(0, 3), (1, 2)]), 0);
    assert_eq!(count_crossings(&vec![(0, 1), (2, 3)]), 0);
    assert_eq!(count_crossings(&vec![]), 0);
    // pair orientation does not matter
    assert_eq!(count_crossings(&vec![(2, 0), (1, 3)]), 1);
}

#[test]
fn crossings_relabel_invariance() {
    // an order-preserving relabeling keeps the crossing number
    let p = vec![(0usize, 2usize), (1, 3), (4, 5)];
    let relabeled = vec![(10usize, 30usize), (20, 41), (50, 77)];
    assert_eq!(count_crossings(&p), count_crossings(&relabeled));
}

#[test]
fn crossings_reversal_invariance() {
    // reversing the whole position range keeps the crossing number
    let p = vec![(0usize, 2usize), (1, 3), (4, 5)];
    let n = 6usize;
    let reversed: Vec<(usize, usize)> =
        p.iter().map(|&(i, j)| (n - 1 - i, n - 1 - j)).collect();
    assert_eq!(count_crossings(&p), count_crossings(&reversed));
}

#[test]
fn merging_insertion_order_irrelevant() {
    let make = |c: i64, first: bool| {
        let ops = if first {
            op_times_op(fcrex(idx("p")), fannx(idx("q")))
        } else {
            op_times_op(fannx(idx("q")), fcrex(idx("p")))
        };
        ops.set_coeff(Coeff::from_int(c))
    };
    let terms = [make(2, true), make(3, false), make(5, true), make(-1, false)];
    let orders: [[usize; 4]; 3] = [[0, 1, 2, 3], [3, 2, 1, 0], [2, 0, 3, 1]];
    let mut coeffs: Vec<Vec<i128>> = Vec::new();
    for order in orders.iter() {
        let mut sum = ResultExpr::new();
        for &k in order.iter() {
            sum.push_and_merge(terms[k].clone());
        }
        assert_eq!(sum.terms.len(), 2);
        let mut cs: Vec<i128> = sum.terms.iter().map(|t| t.coeff.units).collect();
        cs.sort();
        coeffs.push(cs);
    }
    assert_eq!(coeffs[0], coeffs[1]);
    assert_eq!(coeffs[0], coeffs[2]);
    assert_eq!(coeffs[0], vec![2 * COEFF_SCALE, 7 * COEFF_SCALE]);
}

#[test]
fn tiny_terms_never_survive_simplify() {
    let term = |units: i128| Expr::new().set_coeff(Coeff::from_units(units));
    let mut sum = ResultExpr::new();
    // exactly the threshold (10^-15): kept by push, removed by simplify
    sum.push_and_merge(term(1));
    assert_eq!(sum.terms.len(), 1);
    sum.simplify();
    assert_eq!(sum.terms.len(), 0);
    // below the threshold: dropped at push already
    sum.push_and_merge(term(0));
    assert_eq!(sum.terms.len(), 0);
    // cancellation leaves a zero-coefficient term until simplify
    sum.push_and_merge(term(7));
    sum.push_and_merge(term(-7));
    assert_eq!(sum.terms.len(), 1);
    assert_eq!(sum.terms[0].coeff.units, 0);
    sum.simplify();
    assert_eq!(sum.terms.len(), 0);
    // above the threshold: survives
    sum.push_and_merge(term(2));
    sum.simplify();
    assert_eq!(sum.terms.len(), 1);
}

#[test]
fn statistics_mismatch_is_an_error() {
    let fermi = op_times_op(fcrex(idx("p")), fannx(idx("q")));
    let bose = op_times_op(fcrex(idx("r")), fannx(idx("s")))
        .set_statistic(Statistics::BoseEinstein);
    let err = fermi.clone().times_expr(bose.clone()).unwrap_err();
    assert_eq!(err.left, Statistics::FermiDirac);
    assert_eq!(err.right, Statistics::BoseEinstein);
    let mut f2 = fermi.clone();
    assert!(f2.append_expr(&bose).is_err());
    // equal statistics combine fine
    let ok = fermi.clone().times_expr(fermi).unwrap();
    assert_eq!(ok.ops.len(), 4);
    assert_eq!(ok.coeff.units, COEFF_SCALE);
}

#[test]
fn coefficient_rendering() {
    assert_eq!(Coeff::from_int(2).to_decimal(), "2");
    assert_eq!(Coeff::from_int(-17).to_decimal(), "-17");
    assert_eq!(Coeff::from_units(COEFF_SCALE / 2).to_decimal(), "0.5");
    assert_eq!(Coeff::from_units(5 * COEFF_SCALE / 4).to_decimal(), "1.25");
    assert_eq!(Coeff::from_units(1).to_decimal(), "0.000000000000001");
    assert_eq!(Coeff::from_int(0).to_decimal(), "0");
}

#[test]
fn coefficient_arithmetic() {
    let a = Coeff::from_int(2);
    let b = Coeff::from_int(-5);
    assert_eq!(a.plus(b).units, -3 * COEFF_SCALE);
    assert_eq!(a.neg().units, -2 * COEFF_SCALE);
    assert_eq!(a.times(b).units, -10 * COEFF_SCALE);
    let half = Coeff::from_units(COEFF_SCALE / 2);
    assert_eq!(half.times(half).units, COEFF_SCALE / 4);
}

#[test]
fn statistics_symbols() {
    assert_eq!(Statistics::FermiDirac.symbol(), "a");
    assert_eq!(Statistics::BoseEinstein.symbol(), "b");
    assert_eq!(Statistics::Arbitrary.symbol(), "c");
}

#[test]
fn alphanumeric_filter_keeps_letters_and_digits() {
    let op = fcrex(idx("a_{12}^x"));
    assert_eq!(op.alphanumeric_index(), "a12x");
    // non-ASCII letters count as alphanumeric too
    let op = fcrex(idx("α_1"));
    assert_eq!(op.alphanumeric_index(), "α1");
}

#[test]
fn expr_latex_coefficient_forms() {
    // a bare scalar 1 renders as "1"
    assert_eq!(Expr::new().to_latex(), "1");
    // coefficient -1 renders as a bare minus sign before the operators
    let e = scalar_times_op(Coeff::from_int(-1), fannx(idx("p")));
    assert_eq!(e.to_latex(), "-a_{p}");
    // other coefficients render in decimal
    let e = scalar_times_op(Coeff::from_int(-3), fcrex(idx("q")));
    assert_eq!(e.to_latex(), "-3a^{q}");
    let empty = ResultExpr::new();
    assert_eq!(empty.to_latex(), "0");
}

#[test]
fn dagger_flips_action() {
    let c = fcrex(idx("p"));
    let a = c.dagger();
    assert_eq!(a.action(), Action::Annihilate);
    assert_eq!(a.dagger().action(), Action::Create);
    assert_eq!(a.name(), "p");
}

#[test]
fn non_physical_vacuum_computes_nothing() {
    let i = Index::new("i")
        .with_space(Space::Occupied)
        .with_vacuum(Vacuum::Fermi)
        .build()
        .unwrap();
    let j = Index::new("j")
        .with_space(Space::Occupied)
        .with_vacuum(Vacuum::Fermi)
        .build()
        .unwrap();
    let expr = op_times_op(fannx(i), fcrex(j));
    let wt = WickTheorem::new(expr).full_contractions(true).compute();
    assert_eq!(wt.wick_result().terms.len(), 0);
    assert_eq!(wt.to_latex(), "0");
}

#[test]
fn add_delta_substitutes_transitively() {
    let mut e = Expr::new();
    // a delta between equal indices is dropped
    e.add_delta(xymbolic::op::Delta { a: idx("p"), b: idx("p") });
    assert_eq!(e.deltas.len(), 0);
    // d(q, r) enters as it is
    e.add_delta(xymbolic::op::Delta { a: idx("q"), b: idx("r") });
    assert_eq!(e.deltas.len(), 1);
    // d(s, q): an existing delta already maps q somewhere, so that
    // delta is redirected to s instead of chaining
    e.add_delta(xymbolic::op::Delta { a: idx("s"), b: idx("q") });
    assert_eq!(e.deltas.len(), 1);
    assert_eq!(e.deltas[0].a.name, "s");
    assert_eq!(e.deltas[0].b.name, "r");
}

#[test]
fn delta_equality_is_order_independent() {
    let d1 = xymbolic::op::Delta { a: idx("p"), b: idx("q") };
    let d2 = xymbolic::op::Delta { a: idx("q"), b: idx("p") };
    let d3 = xymbolic::op::Delta { a: idx("p"), b: idx("r") };
    assert!(d1 == d2);
    assert!(d1 != d3);
}
