use ebpf_vc::ast::{
    BinAlu, Cc, Expr, FBinOp, Formula, MemRef, QType, Reg, RegImm, UnAlu, WordSize,
};
use ebpf_vc::cfg::Instr;
use ebpf_vc::formula::FormulaBuilder;
use ebpf_vc::wp::{assign, valid_addr, wp};

fn r(n: u8) -> Reg {
    Reg::new(n).unwrap()
}

fn var(name: &str) -> Expr {
    Expr::Var(name.to_owned())
}

fn rel(cc: Cc, a: Expr, b: Expr) -> Formula {
    Formula::Rel(cc, a, b)
}

fn bin(op: FBinOp, a: Formula, b: Formula) -> Formula {
    Formula::Bin(op, Box::new((a, b)))
}

fn quant(q: QType, x: &str, f: Formula) -> Formula {
    Formula::Quant(q, x.to_owned(), Box::new(f))
}

fn all(x: &str, f: Formula) -> Formula {
    quant(QType::Forall, x, f)
}

fn op2(op: BinAlu, a: Expr, b: Expr) -> Expr {
    Expr::Binary(op, Box::new((a, b)))
}

/// `r0 = r1`, a postcondition that names two registers.
fn post() -> Formula {
    rel(Cc::Eq, var("r0"), var("r1"))
}

/// `forall v. v = e -> body`.
fn assigned(v: &str, e: Expr, body: Formula) -> Formula {
    all(v, bin(FBinOp::Implies, rel(Cc::Eq, var(v), e), body))
}

/// The validity of an access of `bytes` at `reg + off`, with the names `p`
/// and `s`.
fn valid(p: &str, s: &str, reg: &str, off: i64, bytes: i64) -> Formula {
    let addr = || op2(BinAlu::Add, var(reg), Expr::Val(off));
    let upper = op2(BinAlu::Sub, op2(BinAlu::Add, var(p), var(s)), Expr::Val(bytes - 1));
    quant(
        QType::Exists,
        p,
        quant(
            QType::Exists,
            s,
            bin(
                FBinOp::And,
                Formula::IsBuffer(p.to_owned(), var(s)),
                bin(
                    FBinOp::And,
                    rel(Cc::Le, var(p), addr()),
                    rel(Cc::Lt, addr(), upper),
                ),
            ),
        ),
    )
}

fn wp_of(body: Vec<Instr>, cond: Formula) -> Formula {
    wp(&mut FormulaBuilder::new(), &body, cond)
}

#[test]
fn empty_body_keeps_the_postcondition() {
    assert_eq!(wp_of(vec![], post()), post());
}

#[test]
fn assignment_schema() {
    let mut f = FormulaBuilder::new();
    let got = assign(&mut f, &"r0".to_owned(), Expr::Val(3), post());
    assert_eq!(got, assigned("v0", Expr::Val(3), rel(Cc::Eq, var("v0"), var("r1"))));
    // The next assignment gets the next name.
    let got = assign(&mut f, &"r1".to_owned(), Expr::Val(4), post());
    assert_eq!(got, assigned("v1", Expr::Val(4), rel(Cc::Eq, var("r0"), var("v1"))));
}

#[test]
fn mov_assigns_its_source() {
    let mov = Instr::Binary(WordSize::B64, BinAlu::Mov, r(0), RegImm::Reg(r(2)));
    assert_eq!(
        wp_of(vec![mov], post()),
        assigned("v0", var("r2"), rel(Cc::Eq, var("v0"), var("r1")))
    );
}

#[test]
fn arithmetic_assigns_the_operation() {
    for op in [
        BinAlu::Add,
        BinAlu::Sub,
        BinAlu::Mul,
        BinAlu::And,
        BinAlu::Or,
        BinAlu::Xor,
        BinAlu::Lsh,
        BinAlu::Rsh,
        BinAlu::Arsh,
    ] {
        let i = Instr::Binary(WordSize::B64, op, r(1), RegImm::Imm(5));
        assert_eq!(
            wp_of(vec![i], post()),
            assigned(
                "v0",
                op2(op, var("r1"), Expr::Val(5)),
                rel(Cc::Eq, var("r0"), var("v0"))
            )
        );
    }
}

#[test]
fn division_is_guarded() {
    for op in [BinAlu::Div, BinAlu::Mod] {
        let i = Instr::Binary(WordSize::B64, op, r(0), RegImm::Reg(r(1)));
        assert_eq!(
            wp_of(vec![i], post()),
            bin(
                FBinOp::AndAsym,
                rel(Cc::Ne, var("r1"), Expr::Val(0)),
                assigned(
                    "v0",
                    op2(op, var("r0"), var("r1")),
                    rel(Cc::Eq, var("v0"), var("r1"))
                )
            )
        );
    }
}

#[test]
fn unary_assigns_the_operation() {
    for op in [UnAlu::Neg, UnAlu::Le, UnAlu::Be] {
        let i = Instr::Unary(WordSize::B64, op, r(0));
        assert_eq!(
            wp_of(vec![i], post()),
            assigned(
                "v0",
                Expr::Unary(op, Box::new(var("r0"))),
                rel(Cc::Eq, var("v0"), var("r1"))
            )
        );
    }
}

#[test]
fn load_immediate_assigns_the_value() {
    assert_eq!(
        wp_of(vec![Instr::LoadImm(r(1), -9)], post()),
        assigned("v0", Expr::Val(-9), rel(Cc::Eq, var("r0"), var("v0")))
    );
}

#[test]
fn memory_validity() {
    let mut f = FormulaBuilder::new();
    assert_eq!(
        valid_addr(&mut f, WordSize::B32, &MemRef(r(3), -8)),
        valid("p0", "s0", "r3", -8, 4)
    );
    assert_eq!(
        valid_addr(&mut f, WordSize::B8, &MemRef(r(4), 0)),
        valid("p1", "s1", "r4", 0, 1)
    );
    assert_eq!(
        valid_addr(&mut f, WordSize::B16, &MemRef(r(4), 1)),
        valid("p2", "s2", "r4", 1, 2)
    );
    assert_eq!(
        valid_addr(&mut f, WordSize::B64, &MemRef(r(4), 2)),
        valid("p3", "s3", "r4", 2, 8)
    );
}

#[test]
fn store_asks_for_a_valid_address() {
    let i = Instr::Store(WordSize::B64, MemRef(r(1), 16), RegImm::Reg(r(0)));
    assert_eq!(
        wp_of(vec![i], post()),
        bin(FBinOp::And, valid("p0", "s0", "r1", 16, 8), post())
    );
}

#[test]
fn load_forgets_the_destination() {
    let i = Instr::Load(WordSize::B16, r(0), MemRef(r(1), 2));
    assert_eq!(
        wp_of(vec![i], post()),
        bin(
            FBinOp::And,
            valid("p0", "s0", "r1", 2, 2),
            all("v0", rel(Cc::Eq, var("v0"), var("r1")))
        )
    );
}

#[test]
fn assertion_is_staged_before_the_postcondition() {
    let a = rel(Cc::Gt, var("r2"), Expr::Val(0));
    assert_eq!(
        wp_of(vec![Instr::Assert(a.clone())], post()),
        bin(FBinOp::AndAsym, a, post())
    );
}

#[test]
fn map_descriptor_is_some_value() {
    assert_eq!(
        wp_of(vec![Instr::LoadMapFd(r(0), 3)], post()),
        quant(QType::Exists, "v0", rel(Cc::Eq, var("v0"), var("r1")))
    );
}

#[test]
fn call_forgets_the_first_six_registers() {
    let cond = bin(
        FBinOp::And,
        rel(Cc::Eq, var("r0"), var("r5")),
        rel(Cc::Eq, var("r6"), var("r9")),
    );
    let renamed = bin(
        FBinOp::And,
        rel(Cc::Eq, var("v0"), var("v5")),
        rel(Cc::Eq, var("r6"), var("r9")),
    );
    assert_eq!(
        wp_of(vec![Instr::Call(1)], cond),
        all("v0", all("v1", all("v2", all("v3", all("v4", all("v5", renamed))))))
    );
}

#[test]
fn instructions_are_taken_from_the_last_to_the_first() {
    let first = Instr::Binary(WordSize::B64, BinAlu::Mov, r(1), RegImm::Imm(5));
    let second = Instr::Binary(WordSize::B64, BinAlu::Mov, r(0), RegImm::Reg(r(1)));
    // The last instruction mints `v0`; its precondition still names `r1`,
    // which the first instruction then renames.
    let after_second = |name: &str| assigned("v0", var(name), rel(Cc::Eq, var("v0"), var(name)));
    assert_eq!(
        wp_of(vec![first, second], post()),
        assigned("v1", Expr::Val(5), after_second("v1"))
    );
}

#[test]
fn a_body_in_two_parts() {
    let body = || {
        vec![
            Instr::Binary(WordSize::B64, BinAlu::Add, r(0), RegImm::Imm(1)),
            Instr::Load(WordSize::B8, r(1), MemRef(r(0), 0)),
            Instr::Binary(WordSize::B64, BinAlu::Div, r(1), RegImm::Reg(r(0))),
            Instr::Call(0),
        ]
    };
    let whole = wp_of(body(), post());
    for cut in 0..=4 {
        let mut front = body();
        let back = front.split_off(cut);
        let mut f = FormulaBuilder::new();
        let mid = wp(&mut f, &back, post());
        assert_eq!(wp(&mut f, &front, mid), whole);
    }
}
