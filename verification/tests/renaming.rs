use ebpf_vc::ast::{BinAlu, Cc, Expr, FBinOp, Formula, QType, UnAlu};
use ebpf_vc::formula::FormulaBuilder;

fn var(name: &str) -> Expr {
    Expr::Var(name.to_owned())
}

fn id(name: &str) -> String {
    name.to_owned()
}

fn eq(a: Expr, b: Expr) -> Formula {
    Formula::Rel(Cc::Eq, a, b)
}

#[test]
fn replace_expr_renames_every_occurrence() {
    let f = FormulaBuilder::new();
    let e = f.binop(
        BinAlu::Add,
        f.unop(UnAlu::Neg, var("x")),
        f.binop(BinAlu::Mul, var("x"), var("z")),
    );
    let want = f.binop(
        BinAlu::Add,
        f.unop(UnAlu::Neg, var("y")),
        f.binop(BinAlu::Mul, var("y"), var("z")),
    );
    assert_eq!(f.replace_expr(&id("x"), &id("y"), &e), Some(want));
}

#[test]
fn replace_expr_gives_nothing_where_nothing_changes() {
    let f = FormulaBuilder::new();
    let e = f.binop(BinAlu::Add, var("a"), f.val(3));
    assert_eq!(f.replace_expr(&id("x"), &id("y"), &e), None);
    assert_eq!(f.replace_expr(&id("x"), &id("y"), &f.val(1)), None);
    assert_eq!(f.replace_expr(&id("x"), &id("y"), &var("x")), Some(var("y")));
}

#[test]
fn replace_renames_free_occurrences() {
    let f = FormulaBuilder::new();
    let formula = f.and(
        f.not(eq(var("x"), f.val(1))),
        f.implies(
            f.is_buffer(id("x"), var("x")),
            f.iff(eq(var("z"), var("x")), f.top()),
        ),
    );
    let want = f.and(
        f.not(eq(var("y"), f.val(1))),
        f.implies(
            f.is_buffer(id("y"), var("y")),
            f.iff(eq(var("z"), var("y")), f.top()),
        ),
    );
    assert_eq!(f.replace(&id("x"), &id("y"), &formula), Some(want));
}

#[test]
fn replace_does_not_descend_into_a_binder_of_the_name() {
    let f = FormulaBuilder::new();
    for q in [QType::Forall, QType::Exists] {
        let bound = Formula::Quant(q, id("x"), Box::new(eq(var("x"), var("z"))));
        assert_eq!(f.replace(&id("x"), &id("y"), &bound), None);
        // Outside the binder the name is free, inside it is left alone.
        let mixed = f.or(bound.clone(), eq(var("x"), f.val(0)));
        assert_eq!(
            f.replace(&id("x"), &id("y"), &mixed),
            Some(f.or(bound, eq(var("y"), f.val(0))))
        );
    }
}

#[test]
fn replace_descends_into_other_binders() {
    let f = FormulaBuilder::new();
    let formula = f.for_all(id("z"), f.for_some(id("w"), eq(var("x"), var("z"))));
    let want = f.for_all(id("z"), f.for_some(id("w"), eq(var("y"), var("z"))));
    assert_eq!(f.replace(&id("x"), &id("y"), &formula), Some(want));
}

#[test]
fn replace_gives_nothing_where_the_name_is_not_free() {
    let f = FormulaBuilder::new();
    assert_eq!(f.replace(&id("x"), &id("y"), &f.top()), None);
    assert_eq!(f.replace(&id("x"), &id("y"), &f.bot()), None);
    let other = f.asym_and(eq(var("a"), var("b")), f.is_buffer(id("p"), var("s")));
    assert_eq!(f.replace(&id("x"), &id("y"), &other), None);
}

#[test]
fn renaming_to_itself_still_reports_the_occurrence() {
    let f = FormulaBuilder::new();
    let formula = eq(var("x"), f.val(2));
    assert_eq!(f.replace(&id("x"), &id("x"), &formula), Some(formula.clone()));
}

#[test]
fn constructors_build_what_they_name() {
    let f = FormulaBuilder::default();
    let a = || eq(var("a"), Expr::Val(1));
    let b = || eq(var("b"), Expr::Val(2));
    let bin = |op| Formula::Bin(op, Box::new((a(), b())));
    assert_eq!(f.not(a()), Formula::Not(Box::new(a())));
    assert_eq!(f.and(a(), b()), bin(FBinOp::And));
    assert_eq!(f.or(a(), b()), bin(FBinOp::Or));
    assert_eq!(f.implies(a(), b()), bin(FBinOp::Implies));
    assert_eq!(f.iff(a(), b()), bin(FBinOp::Iff));
    assert_eq!(f.asym_and(a(), b()), bin(FBinOp::AndAsym));
    assert_eq!(f.for_all(id("a"), a()), Formula::Quant(QType::Forall, id("a"), Box::new(a())));
    assert_eq!(f.for_some(id("a"), a()), Formula::Quant(QType::Exists, id("a"), Box::new(a())));
    assert_eq!(f.eq(var("a"), Expr::Val(1)), a());
    assert_eq!(f.rel(Cc::Sgt, var("a"), var("b")), Formula::Rel(Cc::Sgt, var("a"), var("b")));
    assert_eq!(f.is_buffer(id("p"), var("s")), Formula::IsBuffer(id("p"), var("s")));
    assert_eq!(f.var_ident(id("q")), var("q"));
    assert_eq!(f.val(-1), Expr::Val(-1));
    assert_eq!(f.unop(UnAlu::Be, var("a")), Expr::Unary(UnAlu::Be, Box::new(var("a"))));
    assert_eq!(
        f.binop(BinAlu::Xor, var("a"), var("b")),
        Expr::Binary(BinAlu::Xor, Box::new((var("a"), var("b"))))
    );
}

#[test]
fn fresh_names_never_repeat() {
    let mut f = FormulaBuilder::new();
    let mut seen = std::collections::HashSet::new();
    for k in 0..1200 {
        let (e, name) = f.var(id("v"));
        assert_eq!(name, format!("v{k}"));
        assert_eq!(e, var(name.as_str()));
        assert!(seen.insert(name));
    }
    // Another base counts on its own.
    assert_eq!(f.var(id("s")).1, "s0");
    assert_eq!(f.var(id("v")).1, "v1200");
    assert_eq!(f.var(String::new()).1, "0");
}
