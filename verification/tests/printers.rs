use ebpf_vc::ast;
use ebpf_vc::ast::{
    BinAlu, Cc, Expr, FBinOp, Formula, MemRef, QType, Reg, RegImm, UnAlu, WordSize,
};
use ebpf_vc::cvc5;
use ebpf_vc::listing::write_instr;
use ebpf_vc::parse::instr::{cont, stmt};
use ebpf_vc::whyml;
use ebpf_vc::whyml::PrintErr;

fn var(name: &str) -> Expr {
    Expr::Var(name.to_owned())
}

fn op2(op: BinAlu, a: Expr, b: Expr) -> Expr {
    Expr::Binary(op, Box::new((a, b)))
}

fn rel(cc: Cc, a: Expr, b: Expr) -> Formula {
    Formula::Rel(cc, a, b)
}

fn bin(op: FBinOp, a: Formula, b: Formula) -> Formula {
    Formula::Bin(op, Box::new((a, b)))
}

fn why_expr(e: &Expr) -> String {
    let mut out = String::new();
    whyml::write_expr(&mut out, e);
    out
}

fn why(f: &Formula) -> Result<String, PrintErr> {
    let mut out = String::new();
    whyml::write_formula(&mut out, f).map(|_| out)
}

#[test]
fn whyml_expressions() {
    assert_eq!(why_expr(&Expr::Val(0)), "0");
    assert_eq!(why_expr(&Expr::Val(42)), "42");
    assert_eq!(why_expr(&Expr::Val(-17)), "-17");
    assert_eq!(why_expr(&Expr::Val(i64::MAX)), "9223372036854775807");
    assert_eq!(why_expr(&Expr::Val(i64::MIN)), "-9223372036854775808");
    assert_eq!(why_expr(&var("r3")), "r3");
    assert_eq!(why_expr(&Expr::Unary(UnAlu::Neg, Box::new(var("x")))), "neg(x)");
    assert_eq!(why_expr(&Expr::Unary(UnAlu::Le, Box::new(var("x")))), "le(x)");
    assert_eq!(why_expr(&Expr::Unary(UnAlu::Be, Box::new(var("x")))), "be(x)");
    assert_eq!(why_expr(&op2(BinAlu::Mov, var("a"), var("b"))), "b");
    assert_eq!(why_expr(&op2(BinAlu::Div, var("a"), var("b"))), "div a b");
    assert_eq!(why_expr(&op2(BinAlu::Mod, var("a"), var("b"))), "mod a b");
    for (op, sign) in [
        (BinAlu::Add, "+"),
        (BinAlu::Sub, "-"),
        (BinAlu::Mul, "*"),
        (BinAlu::And, "&"),
        (BinAlu::Or, "|"),
        (BinAlu::Xor, "^"),
        (BinAlu::Lsh, "<<"),
        (BinAlu::Rsh, ">>"),
        (BinAlu::Arsh, ">>>"),
    ] {
        assert_eq!(why_expr(&op2(op, var("a"), Expr::Val(1))), format!("(a {sign} 1)"));
    }
    assert_eq!(
        why_expr(&op2(BinAlu::Sub, op2(BinAlu::Add, var("p"), var("s")), Expr::Val(7))),
        "((p + s) - 7)"
    );
}

#[test]
fn whyml_formulas() {
    assert_eq!(why(&Formula::Val(true)).unwrap(), "true");
    assert_eq!(why(&Formula::Val(false)).unwrap(), "false");
    let a = || rel(Cc::Eq, var("a"), Expr::Val(1));
    assert_eq!(why(&Formula::Not(Box::new(a()))).unwrap(), "not ((a = 1))");
    for (op, sign) in [
        (FBinOp::And, "/\\"),
        (FBinOp::Or, "\\/"),
        (FBinOp::Implies, "->"),
        (FBinOp::Iff, "<->"),
        (FBinOp::AndAsym, "&&"),
    ] {
        assert_eq!(
            why(&bin(op, a(), Formula::Val(true))).unwrap(),
            format!("((a = 1) {sign} true)")
        );
    }
    for (cc, sign) in [
        (Cc::Eq, "="),
        (Cc::Gt, ">"),
        (Cc::Ge, ">="),
        (Cc::Lt, "<"),
        (Cc::Le, "<="),
        (Cc::Ne, "<>"),
    ] {
        assert_eq!(why(&rel(cc, var("a"), var("b"))).unwrap(), format!("(a {sign} b)"));
    }
    assert_eq!(
        why(&Formula::Quant(QType::Forall, "v0".to_owned(), Box::new(a()))).unwrap(),
        "(forall v0 : uint64 . (a = 1))"
    );
    assert_eq!(
        why(&Formula::Quant(QType::Exists, "p0".to_owned(), Box::new(a()))).unwrap(),
        "(exists p0 : uint64 . (a = 1))"
    );
    assert_eq!(
        why(&Formula::IsBuffer("p".to_owned(), op2(BinAlu::Add, var("s"), Expr::Val(1)))).unwrap(),
        "is_buffer p (s + 1)"
    );
}

#[test]
fn whyml_has_no_signed_comparisons() {
    for cc in [Cc::Jset, Cc::Sgt, Cc::Sge, Cc::Slt, Cc::Sle] {
        let f = bin(
            FBinOp::And,
            Formula::Val(true),
            Formula::Not(Box::new(rel(cc, var("a"), var("b")))),
        );
        assert_eq!(why(&f), Err(PrintErr::Comparison(cc)));
        assert_eq!(whyml::Conditions(vec![Formula::Val(true), f]).render(), Err(PrintErr::Comparison(cc)));
    }
    // The first from the left is the one reported.
    let f = bin(
        FBinOp::Or,
        rel(Cc::Slt, var("a"), var("b")),
        rel(Cc::Jset, var("a"), var("b")),
    );
    assert_eq!(why(&f), Err(PrintErr::Comparison(Cc::Slt)));
}

#[test]
fn whyml_goals_are_numbered() {
    let text = whyml::Conditions(vec![Formula::Val(true), Formula::Val(false)]).render().unwrap();
    assert_eq!(
        text,
        "use mach.int.UInt64\nuse int.Int\nuse int.ComputerDivision\n\
         predicate is_buffer (p: uint64) (s: uint64)\n\n\
         goal G0: forall r0 r1 r2 r3 r4 r5 r6 r7 r8 r9 : uint64 . true\n\n\
         goal G1: forall r0 r1 r2 r3 r4 r5 r6 r7 r8 r9 : uint64 . false\n\n"
    );
    let none = whyml::Conditions(vec![]).render().unwrap();
    assert!(none.ends_with("(s: uint64)\n\n"));
    let many = whyml::Conditions((0..12).map(|_| Formula::Val(true)).collect()).render().unwrap();
    assert!(many.contains("goal G11: "));
}

#[test]
fn smt_expressions() {
    let text = |e: &Expr| cvc5::expr_string(e);
    assert_eq!(text(&Expr::Val(0)).unwrap(), "#x0000000000000000");
    assert_eq!(text(&Expr::Val(255)).unwrap(), "#x00000000000000ff");
    assert_eq!(text(&Expr::Val(-1)).unwrap(), "#xffffffffffffffff");
    assert_eq!(text(&Expr::Val(i64::MIN)).unwrap(), "#x8000000000000000");
    assert_eq!(text(&Expr::Val(i64::MAX)).unwrap(), "#x7fffffffffffffff");
    assert_eq!(text(&Expr::Val(0x1234_5678_9abc_def0)).unwrap(), "#x123456789abcdef0");
    assert_eq!(text(&var("r1")).unwrap(), "r1");
    assert_eq!(text(&Expr::Unary(UnAlu::Neg, Box::new(var("x")))).unwrap(), "(bvneg x)");
    assert_eq!(
        text(&Expr::Unary(UnAlu::Le, Box::new(var("x")))),
        Err(PrintErr::Unary(UnAlu::Le))
    );
    assert_eq!(
        text(&Expr::Unary(UnAlu::Be, Box::new(var("x")))),
        Err(PrintErr::Unary(UnAlu::Be))
    );
    assert_eq!(text(&op2(BinAlu::Mov, var("a"), var("b"))).unwrap(), "b");
    for (op, name) in [
        (BinAlu::Add, "bvadd"),
        (BinAlu::Sub, "bvsub"),
        (BinAlu::Mul, "bvmul"),
        (BinAlu::Div, "bvudiv"),
        (BinAlu::Mod, "bvurem"),
        (BinAlu::And, "bvand"),
        (BinAlu::Or, "bvor"),
        (BinAlu::Xor, "bvxor"),
        (BinAlu::Lsh, "bvshl"),
        (BinAlu::Rsh, "bvlshr"),
    ] {
        assert_eq!(text(&op2(op, var("a"), var("b"))).unwrap(), format!("({name} a b)"));
    }
    assert_eq!(
        text(&op2(BinAlu::Arsh, var("a"), var("b"))),
        Err(PrintErr::Binary(BinAlu::Arsh))
    );
}

#[test]
fn smt_formulas() {
    let text = |f: &Formula| cvc5::formula_string(f);
    let a = || rel(Cc::Eq, var("a"), var("b"));
    assert_eq!(text(&Formula::Val(true)).unwrap(), "true");
    assert_eq!(text(&Formula::Val(false)).unwrap(), "false");
    assert_eq!(text(&a()).unwrap(), "(= a b)");
    assert_eq!(text(&rel(Cc::Ne, var("a"), var("b"))).unwrap(), "(not (= a b))");
    assert_eq!(text(&rel(Cc::Lt, var("a"), var("b"))).unwrap(), "(bvult a b)");
    assert_eq!(text(&rel(Cc::Le, var("a"), var("b"))).unwrap(), "(bvule a b)");
    assert_eq!(text(&rel(Cc::Gt, var("a"), var("b"))).unwrap(), "(bvult b a)");
    assert_eq!(text(&rel(Cc::Ge, var("a"), var("b"))).unwrap(), "(bvule b a)");
    for cc in [Cc::Jset, Cc::Sgt, Cc::Sge, Cc::Slt, Cc::Sle] {
        assert_eq!(text(&rel(cc, var("a"), var("b"))), Err(PrintErr::Comparison(cc)));
    }
    assert_eq!(text(&Formula::Not(Box::new(a()))).unwrap(), "(not (= a b))");
    assert_eq!(text(&bin(FBinOp::And, a(), Formula::Val(true))).unwrap(), "(and (= a b) true)");
    assert_eq!(text(&bin(FBinOp::Or, a(), Formula::Val(true))).unwrap(), "(or (= a b) true)");
    assert_eq!(text(&bin(FBinOp::Implies, a(), Formula::Val(true))).unwrap(), "(=> (= a b) true)");
    assert_eq!(text(&bin(FBinOp::Iff, a(), Formula::Val(true))).unwrap(), "(<=> (= a b) true)");
    assert_eq!(
        text(&bin(FBinOp::AndAsym, a(), Formula::Val(false))).unwrap(),
        "(and (= a b) (=> (= a b) false))"
    );
    assert_eq!(
        text(&Formula::Quant(QType::Forall, "v".to_owned(), Box::new(a()))).unwrap(),
        "(forall ((v (_ BitVec 64))) (= a b))"
    );
    assert_eq!(
        text(&Formula::Quant(QType::Exists, "v".to_owned(), Box::new(a()))).unwrap(),
        "(exists ((v (_ BitVec 64))) (= a b))"
    );
    assert_eq!(
        text(&Formula::IsBuffer("p".to_owned(), Expr::Val(16))).unwrap(),
        "(is_buffer p #x0000000000000010)"
    );
}

#[test]
fn smt_script() {
    let registers = "(r0 (_ BitVec 64)) (r1 (_ BitVec 64)) (r2 (_ BitVec 64)) \
                     (r3 (_ BitVec 64)) (r4 (_ BitVec 64)) (r5 (_ BitVec 64)) \
                     (r6 (_ BitVec 64)) (r7 (_ BitVec 64)) (r8 (_ BitVec 64)) \
                     (r9 (_ BitVec 64))";
    let goals = cvc5::Conditions::numbered(vec![
        Formula::Val(true),
        rel(Cc::Gt, var("r0"), Expr::Val(1)),
    ]);
    assert_eq!(goals.0[0].0, "0");
    assert_eq!(goals.0[1].0, "1");
    assert_eq!(
        goals.render().unwrap(),
        format!(
            "(set-logic UFBV)\n\
             (set-option :produce-unsat-cores true)\n\
             (declare-fun is_buffer ((_ BitVec 64) (_ BitVec 64)) Bool)\n\n\
             (assert (! (forall ({registers}) true) :named vc_0))\n\n\
             (assert (! (forall ({registers}) (bvult #x0000000000000001 r0)) :named vc_1))\n\n\
             (check-sat)\n(get-unsat-core)(exit)"
        )
    );
    let named = cvc5::Conditions(vec![("entry".to_owned(), Formula::Val(false))]);
    assert!(named.render().unwrap().contains("false) :named vc_entry))"));
    let bad = cvc5::Conditions(vec![(
        "x".to_owned(),
        rel(Cc::Eq, Expr::Unary(UnAlu::Be, Box::new(var("a"))), var("b")),
    )]);
    assert_eq!(bad.render(), Err(PrintErr::Unary(UnAlu::Be)));
}

#[test]
fn print_failures_read_as_sentences() {
    assert_eq!(PrintErr::Comparison(Cc::Sge).message(), "Unsupported comparison: sge");
    assert_eq!(PrintErr::Comparison(Cc::Jset).message(), "Unsupported comparison: set");
    assert_eq!(PrintErr::Unary(UnAlu::Le).message(), "Unsupported operation: le");
    assert_eq!(PrintErr::Binary(BinAlu::Arsh).message(), "Unsupported operation: arsh");
}

fn listed(i: &ast::Instr) -> String {
    let mut out = String::new();
    write_instr(&mut out, i);
    out
}

#[test]
fn instructions_as_text() {
    let r = |n| Reg::new(n).unwrap();
    assert_eq!(listed(&ast::Instr::Unary(WordSize::B64, UnAlu::Neg, r(0))), "neg r0");
    assert_eq!(listed(&ast::Instr::Unary(WordSize::B32, UnAlu::Be, r(9))), "be32 r9");
    assert_eq!(
        listed(&ast::Instr::Binary(WordSize::B64, BinAlu::Mov, r(1), RegImm::Reg(r(2)))),
        "mov r1, r2"
    );
    assert_eq!(
        listed(&ast::Instr::Store(WordSize::B8, MemRef(r(1), 0), RegImm::Imm(7))),
        "stb [r1], 7"
    );
    assert_eq!(
        listed(&ast::Instr::Store(WordSize::B64, MemRef(r(1), -8), RegImm::Reg(r(0)))),
        "stxdw [r1 - 8], r0"
    );
    assert_eq!(
        listed(&ast::Instr::Load(WordSize::B16, r(3), MemRef(r(4), 12))),
        "ldxh r3, [r4 + 12]"
    );
    assert_eq!(
        listed(&ast::Instr::Load(WordSize::B32, r(3), MemRef(r(4), i64::MIN))),
        "ldxw r3, [r4 - 9223372036854775808]"
    );
    assert_eq!(listed(&ast::Instr::LoadImm(r(0), -1)), "lddw r0, -1");
    assert_eq!(listed(&ast::Instr::LoadMapFd(r(0), 4)), "ldmapfd r0, 4");
    assert_eq!(listed(&ast::Instr::Jmp("out".to_owned())), "ja out");
    assert_eq!(
        listed(&ast::Instr::Jcc(Cc::Sle, r(0), RegImm::Imm(3), "out".to_owned())),
        "jsle r0, 3, out"
    );
    assert_eq!(listed(&ast::Instr::Call(12)), "call 12");
    assert_eq!(listed(&ast::Instr::Exit), "exit");
}

#[test]
fn listed_instructions_read_back() {
    let r = |n| Reg::new(n).unwrap();
    let all = vec![
        ast::Instr::Unary(WordSize::B64, UnAlu::Le, r(5)),
        ast::Instr::Unary(WordSize::B32, UnAlu::Neg, r(5)),
        ast::Instr::Binary(WordSize::B32, BinAlu::Arsh, r(1), RegImm::Imm(-3)),
        ast::Instr::Binary(WordSize::B64, BinAlu::Or, r(1), RegImm::Reg(r(8))),
        ast::Instr::Store(WordSize::B16, MemRef(r(1), 4), RegImm::Imm(7)),
        ast::Instr::Store(WordSize::B32, MemRef(r(1), -4), RegImm::Reg(r(2))),
        ast::Instr::Load(WordSize::B64, r(3), MemRef(r(4), 0)),
        ast::Instr::LoadImm(r(0), 77),
        ast::Instr::Call(-2),
        ast::Instr::Jmp("_l1".to_owned()),
        ast::Instr::Jcc(Cc::Jset, r(0), RegImm::Reg(r(1)), "target".to_owned()),
        ast::Instr::Exit,
    ];
    for i in all {
        let text: Vec<char> = listed(&i).chars().collect();
        let read = stmt(&text, 0).or_else(|| cont(&text, 0));
        assert_eq!(read, Some((i, text.len())));
    }
}
