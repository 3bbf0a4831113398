use ebpf_vc::ast::{BinAlu, Cc, Expr, FBinOp, Formula, QType};
use ebpf_vc::cfg::{Cfg, Continuation, ConvertErr};
use ebpf_vc::formula::FormulaBuilder;
use ebpf_vc::parse::module;
use ebpf_vc::vc::vc;
use ebpf_vc::whyml::Conditions;

fn var(name: &str) -> Expr {
    Expr::Var(name.to_owned())
}

fn rel(cc: Cc, a: Expr, b: Expr) -> Formula {
    Formula::Rel(cc, a, b)
}

fn bin(op: FBinOp, a: Formula, b: Formula) -> Formula {
    Formula::Bin(op, Box::new((a, b)))
}

fn implies(a: Formula, b: Formula) -> Formula {
    bin(FBinOp::Implies, a, b)
}

fn and(a: Formula, b: Formula) -> Formula {
    bin(FBinOp::And, a, b)
}

fn asym(a: Formula, b: Formula) -> Formula {
    bin(FBinOp::AndAsym, a, b)
}

fn for_all(x: &str, f: Formula) -> Formula {
    Formula::Quant(QType::Forall, x.to_owned(), Box::new(f))
}

fn top() -> Formula {
    Formula::Val(true)
}

/// `forall v. v = e -> body`.
fn assigned(v: &str, e: Expr, body: Formula) -> Formula {
    for_all(v, implies(rel(Cc::Eq, var(v), e), body))
}

fn obligations(text: &str) -> Vec<Formula> {
    let mut f = FormulaBuilder::new();
    let ast = module(text).expect("the text is a program");
    let cfg = match Cfg::create(ast, &mut f) {
        Ok(cfg) => cfg,
        Err(e) => panic!("no graph: {}", e.message()),
    };
    vc(cfg, &mut f)
}

#[test]
fn single_exit() {
    assert_eq!(obligations("exit"), vec![implies(top(), top())]);
}

#[test]
fn linear_assignment() {
    let got = obligations(";# requires true\n;# ensures r0 = 7\nmov r0 7\nexit");
    let seven = |name: &str| rel(Cc::Eq, var(name), Expr::Val(7));
    assert_eq!(
        got,
        vec![implies(
            and(top(), top()),
            assigned("v0", Expr::Val(7), and(top(), seven("v0")))
        )]
    );
    assert_eq!(
        Conditions(got).render().unwrap(),
        "use mach.int.UInt64\nuse int.Int\nuse int.ComputerDivision\n\
         predicate is_buffer (p: uint64) (s: uint64)\n\n\
         goal G0: forall r0 r1 r2 r3 r4 r5 r6 r7 r8 r9 : uint64 . \
         ((true /\\ true) -> (forall v0 : uint64 . ((v0 = 7) -> (true /\\ (v0 = 7)))))\n\n"
    );
}

#[test]
fn divisor_guard() {
    let got = obligations(";# ensures true\ndiv r0 r1\nexit");
    let quotient = Expr::Binary(BinAlu::Div, Box::new((var("r0"), var("r1"))));
    assert_eq!(
        got,
        vec![implies(
            top(),
            asym(
                rel(Cc::Ne, var("r1"), Expr::Val(0)),
                assigned("v0", quotient, and(top(), top()))
            )
        )]
    );
}

#[test]
fn modulo_by_an_immediate_is_guarded_too() {
    let got = obligations("mod r3 0\nexit");
    let rest = Expr::Binary(BinAlu::Mod, Box::new((var("r3"), Expr::Val(0))));
    assert_eq!(
        got,
        vec![implies(
            top(),
            asym(rel(Cc::Ne, Expr::Val(0), Expr::Val(0)), assigned("v0", rest, top()))
        )]
    );
}

#[test]
fn conditional_split() {
    let got = obligations(
        ";# ensures r1 > 0\n\
         jeq r0 0 L\n\
         mov r1 1\n\
         exit\n\
         L:\n\
         mov r1 2\n\
         exit\n",
    );
    let positive = |name: &str| and(top(), rel(Cc::Gt, var(name), Expr::Val(0)));
    let zero = || rel(Cc::Eq, var("r0"), Expr::Val(0));
    // The fall-through block is settled first and so mints `v0`.
    let fall_through = assigned("v0", Expr::Val(1), positive("v0"));
    let taken = assigned("v1", Expr::Val(2), positive("v1"));
    assert_eq!(
        got,
        vec![implies(
            top(),
            bin(
                FBinOp::Or,
                asym(zero(), taken),
                asym(Formula::Not(Box::new(zero())), fall_through)
            )
        )]
    );
}

const COUNT_TO_TEN: &str = "mov r0 0\n\
     L1:\n\
     ;# req r0 <= 10\n\
     add r0 1\n\
     jlt r0 10 L1\n\
     exit\n";

#[test]
fn loop_with_invariant() {
    let got = obligations(format!(";# ensures r0 = 10\n{COUNT_TO_TEN}").as_str());
    let inv = |name: &str| rel(Cc::Le, var(name), Expr::Val(10));
    let post = |name: &str| and(top(), rel(Cc::Eq, var(name), Expr::Val(10)));
    let below = |name: &str| rel(Cc::Lt, var(name), Expr::Val(10));
    let next = Expr::Binary(BinAlu::Add, Box::new((var("r0"), Expr::Val(1))));
    let body = bin(
        FBinOp::Or,
        asym(below("v0"), inv("v0")),
        asym(Formula::Not(Box::new(below("v0"))), post("v0")),
    );
    assert_eq!(
        got,
        vec![
            implies(inv("r0"), assigned("v0", next, body)),
            implies(top(), assigned("v1", Expr::Val(0), inv("v1"))),
        ]
    );
}

#[test]
fn missing_invariant_on_loop() {
    let text = format!(";# ensures r0 = 10\n{}", COUNT_TO_TEN.replace(";# req r0 <= 10\n", ""));
    let got = obligations(text.as_str());
    let post = |name: &str| and(top(), rel(Cc::Eq, var(name), Expr::Val(10)));
    let below = |name: &str| rel(Cc::Lt, var(name), Expr::Val(10));
    let next = Expr::Binary(BinAlu::Add, Box::new((var("r0"), Expr::Val(1))));
    let body = bin(
        FBinOp::Or,
        asym(below("v0"), top()),
        asym(Formula::Not(Box::new(below("v0"))), post("v0")),
    );
    assert_eq!(
        got,
        vec![
            implies(top(), assigned("v0", next, body)),
            implies(top(), assigned("v1", Expr::Val(0), top())),
        ]
    );
}

#[test]
fn the_entry_obligation_comes_last() {
    let got = obligations(
        ";# requires r1 = 1\n\
         A:\n\
         ;# req r0 = 0\n\
         ja B\n\
         B:\n\
         ;# req r0 = 1\n\
         exit\n",
    );
    assert_eq!(got.len(), 3);
    let entry = and(top(), rel(Cc::Eq, var("r1"), Expr::Val(1)));
    assert_eq!(got[2], implies(entry, rel(Cc::Eq, var("r0"), Expr::Val(0))));
    assert_eq!(
        got[0],
        implies(rel(Cc::Eq, var("r0"), Expr::Val(1)), top())
    );
    assert_eq!(
        got[1],
        implies(
            rel(Cc::Eq, var("r0"), Expr::Val(0)),
            rel(Cc::Eq, var("r0"), Expr::Val(1))
        )
    );
}

#[test]
fn every_target_of_a_built_graph_has_a_block() {
    let mut f = FormulaBuilder::new();
    let ast = module(
        "start:\n jeq r0 0 done\n add r0 1\n ja start\n done:\n exit\n",
    )
    .unwrap();
    let cfg = Cfg::create(ast, &mut f).ok().unwrap();
    assert_eq!(cfg.start, "start");
    assert_eq!(cfg.len(), 3);
    for label in ["start", "@1", "done"] {
        match &cfg.block(label).expect("the block is there").next {
            Continuation::Exit => {}
            Continuation::Jmp(t) => assert!(cfg.block(t).is_some()),
            Continuation::Jcc(_, _, _, t, e) => {
                assert!(cfg.block(t).is_some());
                assert!(cfg.block(e).is_some());
            }
        }
    }
    assert!(cfg.block("@0").is_none());
}

#[test]
fn a_jump_to_nowhere_is_refused() {
    let mut f = FormulaBuilder::new();
    let ast = module("ja nowhere\nexit\n").unwrap();
    match Cfg::create(ast, &mut f) {
        Err(ConvertErr::NoLabel(l)) => assert_eq!(l, "nowhere"),
        _ => panic!("the graph must be refused"),
    }
}

#[test]
fn a_block_that_jumps_to_itself_is_cut_by_truth() {
    // The exit after the jump is never reached and yields nothing.
    let got = obligations("L:\n add r0 1\n ja L\n exit\n");
    let next = Expr::Binary(BinAlu::Add, Box::new((var("r0"), Expr::Val(1))));
    assert_eq!(
        got,
        vec![implies(top(), assigned("v0", next, top())), implies(top(), top())]
    );
}

#[test]
fn both_branches_may_lead_to_one_block() {
    let got = obligations("jeq r0 0 next\nnext:\nexit\n");
    let zero = || rel(Cc::Eq, var("r0"), Expr::Val(0));
    assert_eq!(
        got,
        vec![implies(
            top(),
            bin(
                FBinOp::Or,
                asym(zero(), top()),
                asym(Formula::Not(Box::new(zero())), top())
            )
        )]
    );
}

#[test]
fn conditions_gives_the_obligations_or_the_failure() {
    let mut f = FormulaBuilder::new();
    let ok = ebpf_vc::vc::conditions(module("exit").unwrap(), &mut f);
    assert_eq!(ok, Ok(vec![implies(top(), top())]));
    let bad = ebpf_vc::vc::conditions(module("mov r0 1").unwrap(), &mut f);
    assert_eq!(bad, Err(ConvertErr::NoExit));
}
