use xymbolic::attr::{Space, Statistics, Vacuum};
use xymbolic::coeff::Coeff;
use xymbolic::expr::{is_normal_order, op_times_op, scalar_times_op, Expr};
use xymbolic::index::Index;
use xymbolic::op::{can_contract, fannx, fcrex, Delta};
use xymbolic::result_expr::ResultExpr;
use xymbolic::wick::WickTheorem;

#[test]
fn test_valid_index() {
    let res = Index::new("i")
        .with_space(Space::Occupied)
        .with_vacuum(Vacuum::Fermi)
        .build();
    assert!(res.is_ok());

    let idx = res.unwrap();
    assert_eq!(idx.name, "i");
    assert_eq!(idx.space, Space::Occupied);
}

#[test]
fn test_invalid_index() {
    let res = Index::new("p")
        .with_space(Space::Occupied)
        .with_vacuum(Vacuum::Physical)
        .build();
    assert!(res.is_err());
}

#[test]
fn test_equality() {
    let a = Index::new("p");
    let b = Index::new("p");
    assert_eq!(a, b);
}

#[test]
fn test_fcrex() {
    let a = Index::new("a_1").build().unwrap();
    let cp1 = fcrex(a);
    assert_eq!(cp1.to_latex(Statistics::FermiDirac), "a^{a1}");
}

#[test]
fn test_fannx() {
    let a = Index::new("a_1").build().unwrap();
    let ap1 = fannx(a);
    assert_eq!(ap1.to_latex(Statistics::FermiDirac), "a_{a1}");
}

#[test]
fn test_delta_to_latex() {
    let a = Index::new("a_1").build().unwrap();
    let b = Index::new("b_2").build().unwrap();
    let delta = Delta { a, b };
    assert_eq!(delta.to_latex(), "s^{a1}_{b2}");
}

#[test]
fn test_can_contract() {
    let a = Index::new("a_1").build().unwrap();
    let cp1 = fcrex(a.clone());
    let ap1 = fannx(a);
    assert!(can_contract(&ap1, &cp1));
    assert!(!can_contract(&cp1, &ap1));
}

#[test]
fn test_expr_tensor_notation() {
    let p1 = Index::new("p_1")
        .with_vacuum(Vacuum::Physical)
        .build()
        .unwrap();
    let p2 = Index::new("p_2")
        .with_vacuum(Vacuum::Physical)
        .build()
        .unwrap();

    let cp1 = fcrex(p1);
    let ap2 = fannx(p2);

    let expr: Expr = scalar_times_op(Coeff::from_int(2), cp1).times_op(ap2);
    let notation = expr.to_tensor_notation();
    assert_eq!(notation, "2a^{p1}_{p2}");
}

#[test]
fn test_is_normal_order() {
    let p1 = Index::new("p_1")
        .with_vacuum(Vacuum::Physical)
        .build()
        .unwrap();
    let p2 = Index::new("p_2")
        .with_vacuum(Vacuum::Physical)
        .build()
        .unwrap();

    let cp1 = fcrex(p1);
    let ap2 = fannx(p2);

    let expr1: Expr = op_times_op(cp1.clone(), ap2.clone());
    assert!(is_normal_order(&expr1));

    let expr2: Expr = op_times_op(ap2, cp1);
    assert!(!is_normal_order(&expr2));
}

#[test]
fn test_expr_add_expr() {
    let p1 = Index::new("p_1").build().unwrap();
    let p2 = Index::new("p_2").build().unwrap();
    let cp1 = fcrex(p1);
    let ap2 = fannx(p2);

    let expr1 = scalar_times_op(Coeff::from_int(2), cp1.clone()).times_op(ap2.clone());
    let expr2 = scalar_times_op(Coeff::from_int(3), ap2).times_op(cp1);

    let mut res = ResultExpr::new();
    res.push_and_merge(expr1);
    res.push_and_merge(expr2);
    assert_eq!(res.to_latex(), "2a^{p1}_{p2} + 3a_{p2}a^{p1}");
}

#[test]
fn fermion_full_contraction() {
    let p1 = Index::new("p_1").build().unwrap();
    let p2 = Index::new("p_2").build().unwrap();
    let p3 = Index::new("p_3").build().unwrap();
    let p4 = Index::new("p_4").build().unwrap();

    let cp1 = fcrex(p1);
    let cp2 = fcrex(p2);
    let ap3 = fannx(p3);
    let ap4 = fannx(p4);
    let expr = scalar_times_op(Coeff::from_int(1), ap3)
        .times_op(ap4)
        .times_op(cp1)
        .times_op(cp2);

    let wt = WickTheorem::new(expr)
        .full_contractions(true)
        .compute()
        .to_latex();
    assert_eq!(wt, "-s^{p3}_{p1}s^{p4}_{p2} + s^{p3}_{p2}s^{p4}_{p1}");
}

#[test]
fn fermion_non_full_contraction() {
    let p1 = Index::new("p_1").build().unwrap();
    let p2 = Index::new("p_2").build().unwrap();
    let p3 = Index::new("p_3").build().unwrap();
    let p4 = Index::new("p_4").build().unwrap();

    let cp1 = fcrex(p1);
    let cp2 = fcrex(p2);
    let ap3 = fannx(p3);
    let ap4 = fannx(p4);
    let expr = scalar_times_op(Coeff::from_int(1), ap3)
        .times_op(ap4)
        .times_op(cp1)
        .times_op(cp2);

    let wt = WickTheorem::new(expr)
        .full_contractions(false)
        .compute()
        .to_latex();
    assert_eq!(
        wt,
        "a^{p1p2}_{p4p3} -s^{p3}_{p2}a^{p1}_{p4} + s^{p4}_{p2}a^{p1}_{p3} + s^{p3}_{p1}a^{p2}_{p4} -s^{p3}_{p1}s^{p4}_{p2} -s^{p4}_{p1}a^{p2}_{p3} + s^{p4}_{p1}s^{p3}_{p2}"
    );
}
