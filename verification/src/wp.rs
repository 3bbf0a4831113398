//! Weakest preconditions of straight-line code.

use vstd::prelude::*;
use crate::ast::{
    BinAlu, Cc, Expr, FBinOp, Formula, Ident, MemRef, QType, Reg, RegImm, SpecExpr, SpecFormula,
    WordSize,
};
use crate::cfg::{supported_body, view_body, Instr, SpecInstr};
use crate::decimal::decimal;
use crate::formula::{
    fresh_name, minted, next_index, reg_name, rename, Counters, FormulaBuilder,
};

pub mod guards;

verus! {

/// The base of the identifiers that stand for intermediate values.
pub open spec fn value_base() -> Seq<char> {
    seq!['v']
}

/// The base of the identifiers that stand for the start of a buffer.
pub open spec fn pointer_base() -> Seq<char> {
    seq!['p']
}

/// The base of the identifiers that stand for the size of a buffer.
pub open spec fn size_base() -> Seq<char> {
    seq!['s']
}

/// The variable that stands for a register.
pub open spec fn reg_var(r: Reg) -> SpecExpr {
    SpecExpr::Var(reg_name(r))
}

/// The expression of a source operand.
pub open spec fn operand(src: RegImm) -> SpecExpr {
    match src {
        RegImm::Reg(r) => reg_var(r),
        RegImm::Imm(i) => SpecExpr::Val(i),
    }
}

/// The number of bytes of an access.
pub open spec fn bytes(size: WordSize) -> i64 {
    match size {
        WordSize::B8 => 1,
        WordSize::B16 => 2,
        WordSize::B32 => 4,
        WordSize::B64 => 8,
    }
}

/// The assignment schema: `forall v. v = e -> cond[target := v]`.
pub open spec fn assign_schema(target: Seq<char>, v: Seq<char>, e: SpecExpr, cond: SpecFormula)
    -> SpecFormula {
    SpecFormula::Quant(
        QType::Forall,
        v,
        Box::new(
            SpecFormula::Bin(
                FBinOp::Implies,
                Box::new(SpecFormula::Rel(Cc::Eq, SpecExpr::Var(v), e)),
                Box::new(rename(target, v, cond)),
            ),
        ),
    )
}

/// The precondition of the assignment `target := e` for the postcondition
/// `cond`: the assignment schema with a freshly minted `v`.
pub open spec fn assign_spec(c: Counters, target: Seq<char>, e: SpecExpr, cond: SpecFormula) -> (
    SpecFormula,
    Counters,
) {
    (
        assign_schema(target, fresh_name(value_base(), next_index(c, value_base())), e, cond),
        minted(c, value_base()),
    )
}

/// That an access of `size` at `mem` stays inside one buffer: for fresh
/// `p` and `s`,
/// `exists p. exists s. is_buffer(p, s) /\ (p <= reg + off /\ reg + off < (p + s) - (bytes - 1))`.
/// Alignment is not asked for.
pub open spec fn valid_addr_spec(c: Counters, size: WordSize, mem: MemRef) -> (
    SpecFormula,
    Counters,
) {
    let p = fresh_name(pointer_base(), next_index(c, pointer_base()));
    let c1 = minted(c, pointer_base());
    let s = fresh_name(size_base(), next_index(c1, size_base()));
    let c2 = minted(c1, size_base());
    let addr = SpecExpr::Binary(
        BinAlu::Add,
        Box::new(reg_var(mem.0)),
        Box::new(SpecExpr::Val(mem.1)),
    );
    let upper = SpecExpr::Binary(
        BinAlu::Sub,
        Box::new(
            SpecExpr::Binary(
                BinAlu::Add,
                Box::new(SpecExpr::Var(p)),
                Box::new(SpecExpr::Var(s)),
            ),
        ),
        Box::new(SpecExpr::Val((bytes(size) - 1) as i64)),
    );
    (
        SpecFormula::Quant(
            QType::Exists,
            p,
            Box::new(
                SpecFormula::Quant(
                    QType::Exists,
                    s,
                    Box::new(
                        SpecFormula::Bin(
                            FBinOp::And,
                            Box::new(SpecFormula::IsBuffer(p, SpecExpr::Var(s))),
                            Box::new(
                                SpecFormula::Bin(
                                    FBinOp::And,
                                    Box::new(SpecFormula::Rel(Cc::Le, SpecExpr::Var(p), addr)),
                                    Box::new(SpecFormula::Rel(Cc::Lt, addr, upper)),
                                ),
                            ),
                        ),
                    ),
                ),
            ),
        ),
        c2,
    )
}

/// The identifier of the register numbered `k`.
pub open spec fn numbered(k: nat) -> Seq<char> {
    seq!['r'] + decimal(k)
}

/// The number of registers that a call may change: `r0` to `r5`.
pub open spec fn caller_saved() -> nat {
    6
}

/// The precondition of a call for the postcondition `cond`, from register
/// `k` on: each register from `k` to `r5` gets a fresh name and is
/// quantified over, the lowest outermost.
pub open spec fn havoc_spec(c: Counters, k: nat, cond: SpecFormula) -> (SpecFormula, Counters)
    decreases caller_saved() - k,
{
    if k >= caller_saved() {
        (cond, c)
    } else {
        let v = fresh_name(value_base(), next_index(c, value_base()));
        let (inner, after) = havoc_spec(
            minted(c, value_base()),
            k + 1,
            rename(numbered(k), v, cond),
        );
        (SpecFormula::Quant(QType::Forall, v, Box::new(inner)), after)
    }
}

/// Whether an operation divides: its right operand must not be zero.
pub open spec fn divides(op: BinAlu) -> bool {
    op == BinAlu::Div || op == BinAlu::Mod
}

/// The guard of a division: that the divisor is not zero.
pub open spec fn divisor_guard(src: RegImm) -> SpecFormula {
    SpecFormula::Rel(Cc::Ne, operand(src), SpecExpr::Val(0))
}

/// The weakest precondition of one instruction for the postcondition
/// `cond`, and the counters after the names it minted.
pub open spec fn wp_step(c: Counters, i: SpecInstr, cond: SpecFormula) -> (SpecFormula, Counters) {
    match i {
        SpecInstr::Unary(_, op, r) => assign_spec(
            c,
            reg_name(r),
            SpecExpr::Unary(op, Box::new(reg_var(r))),
            cond,
        ),
        SpecInstr::Binary(_, op, d, src) => {
            let e = if op == BinAlu::Mov {
                operand(src)
            } else {
                SpecExpr::Binary(op, Box::new(reg_var(d)), Box::new(operand(src)))
            };
            let (a, c1) = assign_spec(c, reg_name(d), e, cond);
            if divides(op) {
                (SpecFormula::Bin(FBinOp::AndAsym, Box::new(divisor_guard(src)), Box::new(a)), c1)
            } else {
                (a, c1)
            }
        },
        SpecInstr::Store(size, mem, _) => {
            let (va, c1) = valid_addr_spec(c, size, mem);
            (SpecFormula::Bin(FBinOp::And, Box::new(va), Box::new(cond)), c1)
        },
        SpecInstr::Load(size, d, mem) => {
            let (va, c1) = valid_addr_spec(c, size, mem);
            let v = fresh_name(value_base(), next_index(c1, value_base()));
            (
                SpecFormula::Bin(
                    FBinOp::And,
                    Box::new(va),
                    Box::new(
                        SpecFormula::Quant(
                            QType::Forall,
                            v,
                            Box::new(rename(reg_name(d), v, cond)),
                        ),
                    ),
                ),
                minted(c1, value_base()),
            )
        },
        SpecInstr::Assert(a) => (
            SpecFormula::Bin(FBinOp::AndAsym, Box::new(a), Box::new(cond)),
            c,
        ),
        SpecInstr::LoadImm(d, v) => assign_spec(c, reg_name(d), SpecExpr::Val(v), cond),
        SpecInstr::LoadMapFd(d, _) => {
            let v = fresh_name(value_base(), next_index(c, value_base()));
            (
                SpecFormula::Quant(QType::Exists, v, Box::new(rename(reg_name(d), v, cond))),
                minted(c, value_base()),
            )
        },
        SpecInstr::Call(_) => havoc_spec(c, 0, cond),
    }
}

/// The weakest precondition of a body for the postcondition `cond`: the
/// instructions are taken from the last to the first, each for the
/// precondition of what follows it.
pub open spec fn wp_spec(c: Counters, body: Seq<SpecInstr>, cond: SpecFormula) -> (
    SpecFormula,
    Counters,
)
    decreases body.len(),
{
    if body.len() == 0 {
        (cond, c)
    } else {
        let (after, c1) = wp_step(c, body.last(), cond);
        wp_spec(c1, body.drop_last(), after)
    }
}

/// An identifier of one character.
fn base(c: char) -> (r: Ident)
    ensures
        r@ == seq![c],
{
    let mut r = String::new();
    r.push(c);
    assert(r@ =~= seq![c]);
    r
}

/// The expression of a source operand.
fn operand_of(f: &FormulaBuilder, src: &RegImm) -> (r: Expr)
    ensures
        r@ == operand(*src),
{
    match src {
        RegImm::Reg(r) => f.reg(*r).0,
        RegImm::Imm(i) => f.val(*i),
    }
}

/// The precondition of the assignment `target := e` for the postcondition
/// `cond`.
pub fn assign(f: &mut FormulaBuilder, target: &Ident, e: Expr, cond: Formula) -> (r: Formula)
    ensures
        (r@, final(f)@) == assign_spec(old(f)@, target@, e@, cond@),
{
    let (v, v_id) = f.var(base('v'));
    let body = f.renamed(target, &v_id, cond);
    f.for_all(v_id, f.implies(f.eq(v, e), body))
}

/// That an access of `size` at `mem` stays inside one buffer.
pub fn valid_addr(f: &mut FormulaBuilder, size: WordSize, mem: &MemRef) -> (r: Formula)
    ensures
        (r@, final(f)@) == valid_addr_spec(old(f)@, size, *mem),
{
    let (ptr, ptr_id) = f.var(base('p'));
    let (sz, sz_id) = f.var(base('s'));
    let addr = f.binop(BinAlu::Add, f.reg(mem.0).0, f.val(mem.1));
    let width: i64 = match size {
        WordSize::B8 => 1,
        WordSize::B16 => 2,
        WordSize::B32 => 4,
        WordSize::B64 => 8,
    };
    let upper_bound = f.binop(
        BinAlu::Sub,
        f.binop(BinAlu::Add, ptr.clone(), sz.clone()),
        f.val(width - 1),
    );
    f.for_some(
        ptr_id.clone(),
        f.for_some(
            sz_id,
            f.and(
                f.is_buffer(ptr_id, sz),
                f.and(f.rel(Cc::Le, ptr, addr.clone()), f.rel(Cc::Lt, addr, upper_bound)),
            ),
        ),
    )
}

/// The precondition of a call, from register `k` on.
fn havoc(f: &mut FormulaBuilder, k: u8, cond: Formula) -> (r: Formula)
    requires
        k <= 6,
    ensures
        (r@, final(f)@) == havoc_spec(old(f)@, k as nat, cond@),
    decreases 6 - k,
{
    if k >= 6 {
        cond
    } else {
        let (_, v_id) = f.var(base('v'));
        let r_id = match Reg::new(k) {
            Some(r) => f.reg(r).1,
            None => base('r'),
        };
        let renamed_cond = f.renamed(&r_id, &v_id, cond);
        let inner = havoc(f, k + 1, renamed_cond);
        f.for_all(v_id, inner)
    }
}

/// The weakest precondition of `instrs` for the postcondition `cond`.
///
/// Every ALU operation must be of 64 bits: others have no meaning here.
pub fn wp(f: &mut FormulaBuilder, instrs: &[Instr], cond: Formula) -> (r: Formula)
    requires
        supported_body(view_body(instrs@)),
    ensures
        (r@, final(f)@) == wp_spec(old(f)@, view_body(instrs@), cond@),
{
    let ghost body = view_body(instrs@);
    let ghost start = f@;
    let ghost post = cond@;
    let mut cond = cond;
    let mut n = instrs.len();
    assert(body.take(n as int) =~= body);
    while n > 0
        invariant
            n <= instrs@.len(),
            body == view_body(instrs@),
            wp_spec(start, body, post) == wp_spec(f@, body.take(n as int), cond@),
        decreases n,
    {
        n -= 1;
        proof {
            let seen = body.take(n + 1);
            assert(seen.last() == instrs@[n as int]@);
            assert(seen.drop_last() =~= body.take(n as int));
        }
        match &instrs[n] {
            Instr::Unary(_, op, reg) => {
                let (t, t_id) = f.reg(*reg);
                let e = f.unop(*op, t);
                cond = assign(f, &t_id, e, cond);
            },
            Instr::Binary(_, op, dst, src) => {
                let (d, d_id) = f.reg(*dst);
                let s = operand_of(f, src);
                let e = match op {
                    BinAlu::Mov => s.clone(),
                    _ => f.binop(*op, d, s.clone()),
                };
                cond = assign(f, &d_id, e, cond);
                match op {
                    BinAlu::Div | BinAlu::Mod => {
                        cond = f.asym_and(f.rel(Cc::Ne, s, f.val(0)), cond);
                    },
                    _ => {},
                }
            },
            Instr::Store(size, mem_ref, _) => {
                let valid = valid_addr(f, *size, mem_ref);
                cond = f.and(valid, cond);
            },
            Instr::Load(size, dst, mem_ref) => {
                let valid = valid_addr(f, *size, mem_ref);
                let (_, v_id) = f.var(base('v'));
                let (_, t_id) = f.reg(*dst);
                let body = f.renamed(&t_id, &v_id, cond);
                let replace_reg = f.for_all(v_id, body);
                cond = f.and(valid, replace_reg);
            },
            Instr::Assert(a) => {
                cond = f.asym_and(a.clone(), cond);
            },
            Instr::LoadImm(dst, imm) => {
                let (_, d_id) = f.reg(*dst);
                let e = f.val(*imm);
                cond = assign(f, &d_id, e, cond);
            },
            Instr::LoadMapFd(dst, _) => {
                let (_, v_id) = f.var(base('v'));
                let (_, t_id) = f.reg(*dst);
                let body = f.renamed(&t_id, &v_id, cond);
                cond = f.for_some(v_id, body);
            },
            Instr::Call(_) => {
                cond = havoc(f, 0, cond);
            },
        }
    }
    assert(body.take(0) =~= Seq::<SpecInstr>::empty());
    cond
}

/// The precondition of no instructions is the postcondition itself.
pub proof fn law_wp_empty(c: Counters, cond: SpecFormula)
    ensures
        wp_spec(c, Seq::empty(), cond) == (cond, c),
{
}

/// The precondition of `a` followed by `b` is the precondition of `a` for
/// the precondition of `b`, the names being minted for `b` first.
pub proof fn law_wp_concat(c: Counters, a: Seq<SpecInstr>, b: Seq<SpecInstr>, cond: SpecFormula)
    ensures
        wp_spec(c, a + b, cond) == wp_spec(wp_spec(c, b, cond).1, a, wp_spec(c, b, cond).0),
    decreases b.len(),
{
    if b.len() == 0 {
        assert(a + b =~= a);
    } else {
        let (after, c1) = wp_step(c, b.last(), cond);
        assert((a + b).last() == b.last());
        assert((a + b).drop_last() =~= a + b.drop_last());
        law_wp_concat(c1, a, b.drop_last(), after);
    }
}

/// Whether an instruction divides.
pub open spec fn is_division(i: SpecInstr) -> bool {
    match i {
        SpecInstr::Binary(_, op, _, _) => divides(op),
        _ => false,
    }
}

/// How many instructions of a body divide.
pub open spec fn divisions(body: Seq<SpecInstr>) -> nat
    decreases body.len(),
{
    if body.len() == 0 {
        0
    } else {
        divisions(body.drop_last()) + (if is_division(body.last()) {
            1nat
        } else {
            0nat
        })
    }
}

/// A division is guarded. The precondition of `div` or `mod` is the staged
/// conjunction of "the divisor is not zero" and the precondition of the
/// assignment.
pub proof fn law_division_guarded(
    c: Counters,
    size: WordSize,
    op: BinAlu,
    d: Reg,
    src: RegImm,
    cond: SpecFormula,
)
    requires
        divides(op),
    ensures
        wp_step(c, SpecInstr::Binary(size, op, d, src), cond) == (
            guarded_division(c, op, d, src, cond),
            minted(c, value_base()),
        ),
{
}

/// The precondition of a division for the postcondition `cond`:
/// `src <> 0 && forall v. v = op(d, src) -> cond[d := v]`, with `v` freshly
/// minted. The guard is on the divisor, and what it protects is the
/// quantified assignment.
pub open spec fn guarded_division(c: Counters, op: BinAlu, d: Reg, src: RegImm, cond: SpecFormula)
    -> SpecFormula {
    SpecFormula::Bin(
        FBinOp::AndAsym,
        Box::new(divisor_guard(src)),
        Box::new(
            assign_schema(
                reg_name(d),
                fresh_name(value_base(), next_index(c, value_base())),
                SpecExpr::Binary(op, Box::new(reg_var(d)), Box::new(operand(src))),
                cond,
            ),
        ),
    )
}

/// The precondition of the division `i` for the postcondition `cond`.
pub open spec fn division_at(c: Counters, i: SpecInstr, cond: SpecFormula) -> SpecFormula {
    match i {
        SpecInstr::Binary(_, op, d, src) => guarded_division(c, op, d, src, cond),
        _ => cond,
    }
}

/// Every division of a body is guarded where it stands. Let the `i`-th
/// instruction divide, and let `after` be the precondition of what follows
/// it. Then the precondition of the body from the division on is the
/// guard on its divisor staged before the quantified assignment for
/// `after`, and the precondition of the whole body is that of what comes
/// before the division for it.
pub proof fn law_division_in_body(c: Counters, body: Seq<SpecInstr>, i: int, cond: SpecFormula)
    requires
        0 <= i < body.len(),
        is_division(body[i]),
    ensures
        ({
            let (after, c1) = wp_spec(c, body.skip(i + 1), cond);
            let at = division_at(c1, body[i], after);
            let c2 = minted(c1, value_base());
            &&& wp_spec(c, body.skip(i), cond) == (at, c2)
            &&& wp_spec(c, body, cond) == wp_spec(c2, body.take(i), at)
        }),
{
    let (after, c1) = wp_spec(c, body.skip(i + 1), cond);
    assert(seq![body[i]] + body.skip(i + 1) =~= body.skip(i));
    law_wp_concat(c, seq![body[i]], body.skip(i + 1), cond);
    assert(wp_spec(c1, seq![body[i]], after) == wp_step(c1, body[i], after)) by {
        reveal_with_fuel(wp_spec, 2);
        assert(seq![body[i]].last() == body[i]);
        assert(seq![body[i]].drop_last() =~= Seq::<SpecInstr>::empty());
    }
    assert(body.take(i) + body.skip(i) =~= body);
    law_wp_concat(c, body.take(i), body.skip(i), cond);
}

} // verus!
