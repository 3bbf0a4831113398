use ebpf_vc::ast::{Cc, Expr, Formula, Reg};
use ebpf_vc::formula::FormulaBuilder;

#[test]
fn top_and_bot_are_constants() {
    let f = FormulaBuilder::new();
    assert_eq!(f.top(), Formula::Val(true));
    assert_eq!(f.bot(), Formula::Val(false));
}

#[test]
fn var_counts_per_base() {
    let mut f = FormulaBuilder::new();
    assert_eq!(f.var("v".to_owned()).1, "v0");
    assert_eq!(f.var("v".to_owned()).1, "v1");
    assert_eq!(f.var("p".to_owned()).1, "p0");
    for _ in 0..8 {
        f.var("v".to_owned());
    }
    let (e, id) = f.var("v".to_owned());
    assert_eq!(id, "v10");
    assert_eq!(e, Expr::Var("v10".to_owned()));
}

#[test]
fn reg_names_the_register() {
    let f = FormulaBuilder::new();
    let (e, id) = f.reg(Reg::new(7).unwrap());
    assert_eq!(id, "r7");
    assert_eq!(e, Expr::Var("r7".to_owned()));
    assert!(Reg::new(10).is_none());
    assert_eq!(f.rel(Cc::Le, f.val(1), f.val(2)), Formula::Rel(Cc::Le, Expr::Val(1), Expr::Val(2)));
}

#[test]
fn a_register_is_known_by_its_number() {
    for n in 0..10u8 {
        let r = Reg::new(n).unwrap();
        assert_eq!(r.get(), n);
        assert_eq!(Reg::new(r.get()), Some(r));
    }
    for n in [10u8, 11, 200, 255] {
        assert_eq!(Reg::new(n), None);
    }
}
