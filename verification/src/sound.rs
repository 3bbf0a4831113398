//! Why the weakest preconditions are preconditions: what running an
//! instruction means, and that a body started where its precondition holds
//! neither goes wrong nor ends where the postcondition fails.

use vstd::prelude::*;
use crate::ast::{BinAlu, Cc, MemRef, RegImm, SpecExpr, SpecFormula, WordSize};
use crate::cfg::SpecInstr;
use crate::decimal::lemma_decimal_nonempty;
use crate::formula::{fresh_name, minted, next_index, occurs, reg_name, rename, Counters};
use crate::semantics::{bind, bits, eval, holds, mentions, Interp, Valuation};
use crate::wp::{
    assign_spec, bytes, caller_saved, divides, havoc_spec, numbered, operand, pointer_base,
    reg_var, size_base, valid_addr_spec, value_base, wp_spec, wp_step,
};

verus! {

/// Whether equality and difference mean what they say.
pub open spec fn standard(m: Interp) -> bool {
    &&& forall|a: u64, b: u64| #[trigger] (m.compare)(Cc::Eq, a, b) == (a == b)
    &&& forall|a: u64, b: u64| #[trigger] (m.compare)(Cc::Ne, a, b) == (a != b)
}

/// Two valuations that give every identifier the same value.
pub open spec fn same(a: Valuation, b: Valuation) -> bool {
    forall|z: Seq<char>| #[trigger] a(z) == b(z)
}

/// Whether `x` names one of the registers that a call may change, from
/// the register numbered `k` on: `r0` to `r5` for `k` at zero.
pub open spec fn saved_from(x: Seq<char>, k: nat) -> bool
    decreases caller_saved() - k,
{
    if k >= caller_saved() {
        false
    } else {
        x == numbered(k) || saved_from(x, k + 1)
    }
}

/// The address of a memory reference.
pub open spec fn address(m: Interp, env: Valuation, mem: MemRef) -> u64 {
    (m.binary)(BinAlu::Add, env(reg_name(mem.0)), bits(mem.1))
}

/// Whether an access of `size` at `mem` stays inside one buffer.
pub open spec fn in_buffer(m: Interp, env: Valuation, size: WordSize, mem: MemRef) -> bool {
    exists|p: u64, s: u64|
        {
            &&& #[trigger] (m.buffer)(p, s)
            &&& (m.compare)(Cc::Le, p, address(m, env, mem))
            &&& (m.compare)(
                Cc::Lt,
                address(m, env, mem),
                (m.binary)(
                    BinAlu::Sub,
                    (m.binary)(BinAlu::Add, p, s),
                    bits((bytes(size) - 1) as i64),
                ),
            )
        }
}

/// Whether `next` has the values of `env` but perhaps in the registers
/// that a call may change, from the register numbered `k` on.
pub open spec fn kept_from(env: Valuation, next: Valuation, k: nat) -> bool {
    forall|z: Seq<char>| !saved_from(z, k) ==> #[trigger] next(z) == env(z)
}

/// Whether an instruction has a meaning as a step from one valuation of
/// the registers to the next. A map descriptor has none: what it loads is
/// not modelled.
pub open spec fn modelled(i: SpecInstr) -> bool {
    !(i is LoadMapFd)
}

/// Whether running the instruction in `env` goes wrong: a division by
/// zero, an access outside every buffer, an assertion that fails.
pub open spec fn faults(m: Interp, env: Valuation, i: SpecInstr) -> bool {
    match i {
        SpecInstr::Binary(_, op, _, src) => divides(op) && eval(m, env, operand(src)) == 0,
        SpecInstr::Store(size, mem, _) => !in_buffer(m, env, size, mem),
        SpecInstr::Load(size, _, mem) => !in_buffer(m, env, size, mem),
        SpecInstr::Assert(a) => !holds(m, env, a),
        _ => false,
    }
}

/// Whether running the instruction in `env` may end in `next`.
///
/// An ALU operation and a load of an immediate set their destination. A
/// load from memory may leave anything in its destination. A call may
/// leave anything in `r0` to `r5`. A store and an assertion change no
/// register.
pub open spec fn steps(m: Interp, env: Valuation, i: SpecInstr, next: Valuation) -> bool {
    match i {
        SpecInstr::Unary(_, op, r) => same(
            next,
            bind(env, reg_name(r), (m.unary)(op, env(reg_name(r)))),
        ),
        SpecInstr::Binary(_, op, d, src) => same(
            next,
            bind(
                env,
                reg_name(d),
                if op == BinAlu::Mov {
                    eval(m, env, operand(src))
                } else {
                    (m.binary)(op, env(reg_name(d)), eval(m, env, operand(src)))
                },
            ),
        ),
        SpecInstr::LoadImm(d, v) => same(next, bind(env, reg_name(d), bits(v))),
        SpecInstr::Load(_, d, _) => forall|z: Seq<char>|
            z != reg_name(d) ==> #[trigger] next(z) == env(z),
        SpecInstr::LoadMapFd(d, _) => forall|z: Seq<char>|
            z != reg_name(d) ==> #[trigger] next(z) == env(z),
        SpecInstr::Call(_) => kept_from(env, next, 0),
        SpecInstr::Store(_, _, _) => same(next, env),
        SpecInstr::Assert(_) => same(next, env),
    }
}

/// Whether every run of `body` from `env` goes through without going
/// wrong and ends where `post` holds.
pub open spec fn runs_to(m: Interp, env: Valuation, body: Seq<SpecInstr>, post: SpecFormula)
    -> bool
    decreases body.len(),
{
    if body.len() == 0 {
        holds(m, env, post)
    } else {
        &&& !faults(m, env, body[0])
        &&& forall|next: Valuation| #[trigger]
            steps(m, env, body[0], next) ==> runs_to(m, next, body.drop_first(), post)
    }
}

/// Whether `b` is one of the bases that names are minted from here.
pub open spec fn is_base(b: Seq<char>) -> bool {
    b == value_base() || b == pointer_base() || b == size_base()
}

/// Whether `f` is written without any name that is still to be minted.
pub open spec fn unminted(c: Counters, f: SpecFormula) -> bool {
    forall|b: Seq<char>, k: nat|
        is_base(b) && k >= next_index(c, b) ==> !mentions(#[trigger] fresh_name(b, k), f)
}

/// Whether the assertions of a body are written without any name that is
/// still to be minted.
pub open spec fn clean(c: Counters, body: Seq<SpecInstr>) -> bool {
    forall|i: int| 0 <= i < body.len() ==> clean_at(c, #[trigger] body[i])
}

/// A minted name starts with its base, which no register's name does.
pub(crate) proof fn lemma_names_apart(b: Seq<char>, k: nat)
    requires
        is_base(b),
    ensures
        fresh_name(b, k).len() >= 2,
        fresh_name(b, k)[0] == b[0],
        fresh_name(b, k)[0] != 'r',
        forall|r: crate::ast::Reg| #[trigger] reg_name(r) != fresh_name(b, k),
        forall|n: nat| #[trigger] numbered(n) != fresh_name(b, k),
{
    lemma_decimal_nonempty(k);
    assert forall|r: crate::ast::Reg| #[trigger] reg_name(r) != fresh_name(b, k) by {
        assert(reg_name(r)[0] == 'r');
    }
    assert forall|n: nat| #[trigger] numbered(n) != fresh_name(b, k) by {
        assert(numbered(n)[0] == 'r');
    }
}

/// An expression has one value under valuations that are the same.
pub(crate) proof fn lemma_eval_same(m: Interp, a: Valuation, b: Valuation, e: SpecExpr)
    requires
        same(a, b),
    ensures
        eval(m, a, e) == eval(m, b, e),
    decreases e,
{
    match e {
        SpecExpr::Val(_) => {},
        SpecExpr::Var(_) => {},
        SpecExpr::Unary(_, p) => {
            lemma_eval_same(m, a, b, *p);
        },
        SpecExpr::Binary(_, p, q) => {
            lemma_eval_same(m, a, b, *p);
            lemma_eval_same(m, a, b, *q);
        },
    }
}

/// A formula is true under both or neither of two valuations that are the
/// same.
pub(crate) proof fn lemma_holds_same(m: Interp, a: Valuation, b: Valuation, f: SpecFormula)
    requires
        same(a, b),
    ensures
        holds(m, a, f) == holds(m, b, f),
    decreases f,
{
    match f {
        SpecFormula::Val(_) => {},
        SpecFormula::Not(p) => {
            lemma_holds_same(m, a, b, *p);
        },
        SpecFormula::Bin(_, p, q) => {
            lemma_holds_same(m, a, b, *p);
            lemma_holds_same(m, a, b, *q);
        },
        SpecFormula::Quant(_, x, p) => {
            assert forall|v: u64|
                #![trigger bind(a, x, v)]
                #![trigger bind(b, x, v)]
                holds(m, bind(a, x, v), *p) == holds(m, bind(b, x, v), *p) by {
                assert(same(bind(a, x, v), bind(b, x, v)));
                lemma_holds_same(m, bind(a, x, v), bind(b, x, v), *p);
            }
        },
        SpecFormula::Rel(_, p, q) => {
            lemma_eval_same(m, a, b, p);
            lemma_eval_same(m, a, b, q);
        },
        SpecFormula::IsBuffer(_, s) => {
            lemma_eval_same(m, a, b, s);
        },
    }
}

/// Renaming writes no name but the new one into an expression.
pub(crate) proof fn lemma_occurs_renamed(y: Seq<char>, x: Seq<char>, v: Seq<char>, e: SpecExpr)
    requires
        occurs(y, crate::formula::rename_expr(x, v, e)),
    ensures
        y == v || occurs(y, e),
    decreases e,
{
    match e {
        SpecExpr::Val(_) => {},
        SpecExpr::Var(_) => {},
        SpecExpr::Unary(_, p) => {
            lemma_occurs_renamed(y, x, v, *p);
        },
        SpecExpr::Binary(_, p, q) => {
            if occurs(y, crate::formula::rename_expr(x, v, *p)) {
                lemma_occurs_renamed(y, x, v, *p);
            } else {
                lemma_occurs_renamed(y, x, v, *q);
            }
        },
    }
}

/// Renaming writes no name but the new one into a formula.
pub(crate) proof fn lemma_mentions_renamed(y: Seq<char>, x: Seq<char>, v: Seq<char>, f: SpecFormula)
    requires
        mentions(y, rename(x, v, f)),
    ensures
        y == v || mentions(y, f),
    decreases f,
{
    match f {
        SpecFormula::Val(_) => {},
        SpecFormula::Not(p) => {
            lemma_mentions_renamed(y, x, v, *p);
        },
        SpecFormula::Bin(_, p, q) => {
            if mentions(y, rename(x, v, *p)) {
                lemma_mentions_renamed(y, x, v, *p);
            } else {
                lemma_mentions_renamed(y, x, v, *q);
            }
        },
        SpecFormula::Quant(_, z, p) => {
            if z != x && y != z {
                lemma_mentions_renamed(y, x, v, *p);
            }
        },
        SpecFormula::Rel(_, p, q) => {
            if occurs(y, crate::formula::rename_expr(x, v, p)) {
                lemma_occurs_renamed(y, x, v, p);
            } else {
                lemma_occurs_renamed(y, x, v, q);
            }
        },
        SpecFormula::IsBuffer(p, s) => {
            if occurs(y, crate::formula::rename_expr(x, v, s)) {
                lemma_occurs_renamed(y, x, v, s);
            }
        },
    }
}

/// Whether no base has gone back from `c` to `d`.
pub open spec fn no_less(c: Counters, d: Counters) -> bool {
    forall|b: Seq<char>| next_index(c, b) <= #[trigger] next_index(d, b)
}

/// What was written before more names were minted is still written
/// without any name that is to be minted.
pub(crate) proof fn lemma_unminted_later(c: Counters, d: Counters, f: SpecFormula)
    requires
        unminted(c, f),
        no_less(c, d),
    ensures
        unminted(d, f),
{
    assert forall|b: Seq<char>, k: nat| is_base(b) && k >= next_index(d, b) implies !mentions(
        #[trigger] fresh_name(b, k),
        f,
    ) by {
        assert(next_index(c, b) <= next_index(d, b));
    }
}

/// A name that is still to be minted, after one more was minted from
/// `base`, is not the one that was minted, and was to be minted before.
pub(crate) proof fn lemma_minted_apart(c: Counters, base: Seq<char>, b: Seq<char>, k: nat)
    requires
        is_base(base),
        is_base(b),
        k >= next_index(minted(c, base), b),
    ensures
        fresh_name(b, k) != fresh_name(base, next_index(c, base)),
        k >= next_index(c, b),
        no_less(c, minted(c, base)),
{
    if b == base {
        crate::formula::law_fresh_names_differ(base, k, next_index(c, base));
    } else {
        lemma_names_apart(b, k);
        lemma_names_apart(base, next_index(c, base));
        assert(b[0] != base[0]);
    }
}

/// Whether `e` is written without any name of the shape of a minted one.
pub open spec fn plain(e: SpecExpr) -> bool {
    forall|b: Seq<char>, k: nat| is_base(b) ==> !occurs(#[trigger] fresh_name(b, k), e)
}

/// The operands of instructions are registers and values.
pub(crate) proof fn lemma_operands_plain(r: crate::ast::Reg, src: RegImm)
    ensures
        plain(reg_var(r)),
        plain(operand(src)),
{
    assert forall|b: Seq<char>, k: nat| is_base(b) implies !occurs(
        #[trigger] fresh_name(b, k),
        reg_var(r),
    ) && !occurs(fresh_name(b, k), operand(src)) by {
        lemma_names_apart(b, k);
    }
}

/// The assignment schema with a freshly minted name is written without
/// any name that is still to be minted.
pub(crate) proof fn lemma_schema_unminted(c: Counters, x: Seq<char>, e: SpecExpr, f: SpecFormula)
    requires
        unminted(c, f),
        plain(e),
    ensures
        unminted(minted(c, value_base()), assign_spec(c, x, e, f).0),
        no_less(c, minted(c, value_base())),
{
    let v = fresh_name(value_base(), next_index(c, value_base()));
    let d = minted(c, value_base());
    let g = assign_spec(c, x, e, f).0;
    reveal_with_fuel(mentions, 3);
    assert forall|b: Seq<char>, k: nat| is_base(b) && k >= next_index(d, b) implies !mentions(
        #[trigger] fresh_name(b, k),
        g,
    ) by {
        let y = fresh_name(b, k);
        lemma_minted_apart(c, value_base(), b, k);
        if mentions(y, rename(x, v, f)) {
            lemma_mentions_renamed(y, x, v, f);
        }
    }
    lemma_minted_apart(c, value_base(), value_base(), next_index(d, value_base()));
}

/// A renamed formula under its quantifier is written without any name
/// that is still to be minted.
pub(crate) proof fn lemma_quantified_unminted(
    c: Counters,
    q: crate::ast::QType,
    x: Seq<char>,
    f: SpecFormula,
)
    requires
        unminted(c, f),
    ensures
        unminted(
            minted(c, value_base()),
            SpecFormula::Quant(
                q,
                fresh_name(value_base(), next_index(c, value_base())),
                Box::new(rename(x, fresh_name(value_base(), next_index(c, value_base())), f)),
            ),
        ),
        unminted(
            minted(c, value_base()),
            rename(x, fresh_name(value_base(), next_index(c, value_base())), f),
        ),
        no_less(c, minted(c, value_base())),
{
    let v = fresh_name(value_base(), next_index(c, value_base()));
    let d = minted(c, value_base());
    let g = SpecFormula::Quant(q, v, Box::new(rename(x, v, f)));
    assert forall|b: Seq<char>, k: nat| is_base(b) && k >= next_index(d, b) implies !mentions(
        #[trigger] fresh_name(b, k),
        g,
    ) && !mentions(fresh_name(b, k), rename(x, v, f)) by {
        let y = fresh_name(b, k);
        lemma_minted_apart(c, value_base(), b, k);
        if mentions(y, rename(x, v, f)) {
            lemma_mentions_renamed(y, x, v, f);
        }
    }
    lemma_minted_apart(c, value_base(), value_base(), next_index(d, value_base()));
}

/// The validity of an access is written without any name that is still to
/// be minted.
pub(crate) proof fn lemma_valid_addr_unminted(c: Counters, size: WordSize, mem: MemRef)
    ensures
        unminted(valid_addr_spec(c, size, mem).1, valid_addr_spec(c, size, mem).0),
        no_less(c, valid_addr_spec(c, size, mem).1),
        next_index(valid_addr_spec(c, size, mem).1, value_base()) == next_index(c, value_base()),
{
    let c1 = minted(c, pointer_base());
    let c2 = minted(c1, size_base());
    let p = fresh_name(pointer_base(), next_index(c, pointer_base()));
    let s = fresh_name(size_base(), next_index(c1, size_base()));
    let g = valid_addr_spec(c, size, mem).0;
    reveal_with_fuel(mentions, 6);
    reveal_with_fuel(occurs, 4);
    assert(pointer_base()[0] != size_base()[0]);
    assert(pointer_base()[0] != value_base()[0]);
    assert(size_base()[0] != value_base()[0]);
    assert forall|b: Seq<char>, k: nat| is_base(b) && k >= next_index(c2, b) implies !mentions(
        #[trigger] fresh_name(b, k),
        g,
    ) by {
        let y = fresh_name(b, k);
        lemma_minted_apart(c1, size_base(), b, k);
        lemma_minted_apart(c, pointer_base(), b, next_index(c1, b));
        if b == pointer_base() {
            crate::formula::law_fresh_names_differ(b, k, next_index(c, pointer_base()));
        } else {
            lemma_names_apart(b, k);
            lemma_names_apart(pointer_base(), next_index(c, pointer_base()));
        }
        lemma_names_apart(b, k);
        assert(y != reg_name(mem.0));
        assert(y != p);
        assert(y != s);
    }
    lemma_minted_apart(c1, size_base(), size_base(), next_index(c2, size_base()));
    lemma_minted_apart(c, pointer_base(), pointer_base(), next_index(c1, pointer_base()));
    assert forall|b: Seq<char>| next_index(c, b) <= #[trigger] next_index(c2, b) by {
        assert(next_index(c, b) <= next_index(c1, b));
        assert(next_index(c1, b) <= next_index(c2, b));
    }
}

/// The precondition of a call is written without any name that is still
/// to be minted.
pub(crate) proof fn lemma_havoc_unminted(c: Counters, k: nat, f: SpecFormula)
    requires
        unminted(c, f),
    ensures
        unminted(havoc_spec(c, k, f).1, havoc_spec(c, k, f).0),
        no_less(c, havoc_spec(c, k, f).1),
    decreases caller_saved() - k,
{
    if k < caller_saved() {
        let v = fresh_name(value_base(), next_index(c, value_base()));
        let d = minted(c, value_base());
        let g = rename(numbered(k), v, f);
        lemma_quantified_unminted(c, crate::ast::QType::Forall, numbered(k), f);
        lemma_havoc_unminted(d, k + 1, g);
        let (inner, after) = havoc_spec(d, k + 1, g);
        assert forall|b: Seq<char>, j: nat| is_base(b) && j >= next_index(after, b) implies !mentions(
            #[trigger] fresh_name(b, j),
            havoc_spec(c, k, f).0,
        ) by {
            assert(next_index(d, b) <= next_index(after, b));
            lemma_minted_apart(c, value_base(), b, j);
        }
        assert forall|b: Seq<char>| next_index(c, b) <= #[trigger] next_index(after, b) by {
            assert(next_index(c, b) <= next_index(d, b));
            assert(next_index(d, b) <= next_index(after, b));
        }
    }
}

/// Whether the assertion of an instruction, where it is one, is written
/// without any name that is still to be minted.
pub open spec fn clean_at(c: Counters, i: SpecInstr) -> bool {
    i matches SpecInstr::Assert(a) ==> unminted(c, a)
}

/// The precondition of one instruction is written without any name that
/// is still to be minted, where the postcondition and the instruction
/// are.
pub(crate) proof fn lemma_step_unminted(c: Counters, i: SpecInstr, f: SpecFormula)
    requires
        unminted(c, f),
        clean_at(c, i),
    ensures
        unminted(wp_step(c, i, f).1, wp_step(c, i, f).0),
        no_less(c, wp_step(c, i, f).1),
{
    match i {
        SpecInstr::Unary(_, op, r) => {
            lemma_operands_plain(r, RegImm::Imm(0));
            reveal_with_fuel(occurs, 2);
            lemma_schema_unminted(c, reg_name(r), SpecExpr::Unary(op, Box::new(reg_var(r))), f);
        },
        SpecInstr::Binary(_, op, d, src) => {
            lemma_operands_plain(d, src);
            reveal_with_fuel(occurs, 2);
            reveal_with_fuel(mentions, 2);
            let e = if op == BinAlu::Mov {
                operand(src)
            } else {
                SpecExpr::Binary(op, Box::new(reg_var(d)), Box::new(operand(src)))
            };
            lemma_schema_unminted(c, reg_name(d), e, f);
        },
        SpecInstr::Store(size, mem, _) => {
            lemma_valid_addr_unminted(c, size, mem);
            lemma_unminted_later(c, valid_addr_spec(c, size, mem).1, f);
        },
        SpecInstr::Load(size, d, mem) => {
            lemma_valid_addr_unminted(c, size, mem);
            let c1 = valid_addr_spec(c, size, mem).1;
            lemma_unminted_later(c, c1, f);
            lemma_quantified_unminted(c1, crate::ast::QType::Forall, reg_name(d), f);
            lemma_unminted_later(c1, minted(c1, value_base()), valid_addr_spec(c, size, mem).0);
            assert forall|b: Seq<char>| next_index(c, b) <= #[trigger] next_index(
                minted(c1, value_base()),
                b,
            ) by {
                assert(next_index(c, b) <= next_index(c1, b));
                assert(next_index(c1, b) <= next_index(minted(c1, value_base()), b));
            }
        },
        SpecInstr::Assert(_) => {},
        SpecInstr::LoadImm(d, v) => {
            lemma_operands_plain(d, RegImm::Imm(v));
            lemma_schema_unminted(c, reg_name(d), SpecExpr::Val(v), f);
        },
        SpecInstr::LoadMapFd(d, _) => {
            lemma_quantified_unminted(c, crate::ast::QType::Exists, reg_name(d), f);
        },
        SpecInstr::Call(_) => {
            lemma_havoc_unminted(c, 0, f);
        },
    }
}

/// The precondition of a body is written without any name that is still
/// to be minted, where the postcondition and the assertions of the body
/// are.
pub(crate) proof fn lemma_wp_unminted(c: Counters, body: Seq<SpecInstr>, f: SpecFormula)
    requires
        unminted(c, f),
        clean(c, body),
    ensures
        unminted(wp_spec(c, body, f).1, wp_spec(c, body, f).0),
        no_less(c, wp_spec(c, body, f).1),
    decreases body.len(),
{
    if body.len() > 0 {
        let (after, c1) = wp_step(c, body.last(), f);
        assert(clean_at(c, body[body.len() - 1]));
        lemma_step_unminted(c, body.last(), f);
        let front = body.drop_last();
        assert forall|i: int| 0 <= i < front.len() implies clean_at(c1, #[trigger] front[i]) by {
            assert(clean_at(c, body[i]));
            match front[i] {
                SpecInstr::Assert(a) => {
                    lemma_unminted_later(c, c1, a);
                },
                _ => {},
            }
        }
        lemma_wp_unminted(c1, front, after);
        let end = wp_spec(c1, front, after).1;
        assert forall|b: Seq<char>| next_index(c, b) <= #[trigger] next_index(end, b) by {
            assert(next_index(c, b) <= next_index(c1, b));
            assert(next_index(c1, b) <= next_index(end, b));
        }
    }
}

/// The validity of an access, as a formula, says that the access stays
/// inside one buffer.
pub(crate) proof fn lemma_valid_addr_means(
    m: Interp,
    env: Valuation,
    c: Counters,
    size: WordSize,
    mem: MemRef,
)
    ensures
        holds(m, env, valid_addr_spec(c, size, mem).0) == in_buffer(m, env, size, mem),
{
    let c1 = minted(c, pointer_base());
    let p = fresh_name(pointer_base(), next_index(c, pointer_base()));
    let s = fresh_name(size_base(), next_index(c1, size_base()));
    let g = valid_addr_spec(c, size, mem).0;
    let x = reg_name(mem.0);
    lemma_names_apart(pointer_base(), next_index(c, pointer_base()));
    lemma_names_apart(size_base(), next_index(c1, size_base()));
    assert(pointer_base()[0] != size_base()[0]);
    assert(p != s && p != x && s != x);
    assert(g is Quant && g->Quant_0 == crate::ast::QType::Exists && g->Quant_1 == p);
    let h = *g->Quant_2;
    assert(h is Quant && h->Quant_0 == crate::ast::QType::Exists && h->Quant_1 == s);
    let body = *h->Quant_2;
    let here = address(m, env, mem);
    let top = |a: u64, b: u64|
        (m.binary)(BinAlu::Sub, (m.binary)(BinAlu::Add, a, b), bits((bytes(size) - 1) as i64));
    assert forall|a: u64, b: u64|
        #![trigger bind(bind(env, p, a), s, b)]
        holds(m, bind(bind(env, p, a), s, b), body) == ((m.buffer)(a, b) && (m.compare)(
            Cc::Le,
            a,
            here,
        ) && (m.compare)(Cc::Lt, here, top(a, b))) by {
        reveal_with_fuel(holds, 4);
        reveal_with_fuel(eval, 4);
        let e2 = bind(bind(env, p, a), s, b);
        assert(e2(p) == a && e2(s) == b && e2(x) == env(x));
    }
    if holds(m, env, g) {
        let a = choose|a: u64| holds(m, #[trigger] bind(env, p, a), h);
        let b = choose|b: u64| holds(m, #[trigger] bind(bind(env, p, a), s, b), body);
        assert((m.buffer)(a, b));
    }
    if in_buffer(m, env, size, mem) {
        let (a, b) = choose|a: u64, b: u64|
            {
                &&& #[trigger] (m.buffer)(a, b)
                &&& (m.compare)(Cc::Le, a, here)
                &&& (m.compare)(Cc::Lt, here, top(a, b))
            };
        assert(holds(m, bind(bind(env, p, a), s, b), body));
        assert(holds(m, bind(env, p, a), h));
    }
}

/// Where the precondition of a call holds, the postcondition holds
/// whatever the call leaves in the registers it may change.
pub(crate) proof fn lemma_havoc_sound(
    m: Interp,
    c: Counters,
    env: Valuation,
    k: nat,
    f: SpecFormula,
    next: Valuation,
)
    requires
        unminted(c, f),
        holds(m, env, havoc_spec(c, k, f).0),
        kept_from(env, next, k),
    ensures
        holds(m, next, f),
    decreases caller_saved() - k,
{
    if k >= caller_saved() {
        assert(same(next, env)) by {
            assert forall|z: Seq<char>| #[trigger] next(z) == env(z) by {
                assert(!saved_from(z, k));
            }
        }
        lemma_holds_same(m, next, env, f);
    } else {
        let v = fresh_name(value_base(), next_index(c, value_base()));
        let d = minted(c, value_base());
        let x = numbered(k);
        let g = rename(x, v, f);
        let whole = havoc_spec(c, k, f).0;
        let inner = havoc_spec(d, k + 1, g).0;
        assert(whole is Quant && whole->Quant_0 == crate::ast::QType::Forall && whole->Quant_1 == v
            && *whole->Quant_2 == inner);
        lemma_names_apart(value_base(), next_index(c, value_base()));
        assert(x != v);
        let a = next(x);
        let env_a = bind(env, v, a);
        assert(holds(m, env_a, inner));
        let next2 = bind(bind(next, x, env(x)), v, a);
        assert(kept_from(env_a, next2, k + 1)) by {
            assert forall|z: Seq<char>| !saved_from(z, k + 1) implies #[trigger] next2(z) == env_a(
                z,
            ) by {
                if z != v && z != x {
                    assert(!saved_from(z, k));
                    assert(next(z) == env(z));
                }
            }
        }
        lemma_quantified_unminted(c, crate::ast::QType::Forall, x, f);
        lemma_havoc_sound(m, d, env_a, k + 1, g, next2);
        assert(crate::semantics::moved(next, next2, x, v));
        crate::semantics::lemma_rename_moved(m, next, next2, x, v, f);
    }
}

/// An instruction that is started where its precondition holds does not
/// go wrong.
pub(crate) proof fn lemma_step_safe(m: Interp, c: Counters, env: Valuation, i: SpecInstr, f: SpecFormula)
    requires
        standard(m),
        holds(m, env, wp_step(c, i, f).0),
    ensures
        !faults(m, env, i),
{
    match i {
        SpecInstr::Binary(_, op, d, src) => {
            if divides(op) {
                let g = wp_step(c, i, f).0;
                assert(g is Bin && g->Bin_0 == crate::ast::FBinOp::AndAsym && *g->Bin_1
                    == crate::wp::divisor_guard(src));
                assert(holds(m, env, crate::wp::divisor_guard(src)));
                assert(bits(0) == 0);
            }
        },
        SpecInstr::Store(size, mem, _) => {
            let g = wp_step(c, i, f).0;
            assert(g is Bin && g->Bin_0 == crate::ast::FBinOp::And && *g->Bin_1 == valid_addr_spec(
                c,
                size,
                mem,
            ).0);
            lemma_valid_addr_means(m, env, c, size, mem);
        },
        SpecInstr::Load(size, _, mem) => {
            let g = wp_step(c, i, f).0;
            assert(g is Bin && g->Bin_0 == crate::ast::FBinOp::And && *g->Bin_1 == valid_addr_spec(
                c,
                size,
                mem,
            ).0);
            lemma_valid_addr_means(m, env, c, size, mem);
        },
        SpecInstr::Assert(a) => {
            let g = wp_step(c, i, f).0;
            assert(g is Bin && g->Bin_0 == crate::ast::FBinOp::AndAsym && *g->Bin_1 == a);
        },
        _ => {},
    }
}

/// Where the assignment schema with a freshly minted name holds, the
/// postcondition holds once the target has the value of the expression.
pub(crate) proof fn lemma_assigned(
    m: Interp,
    c: Counters,
    env: Valuation,
    x: Seq<char>,
    e: SpecExpr,
    f: SpecFormula,
    next: Valuation,
)
    requires
        standard(m),
        unminted(c, f),
        plain(e),
        holds(m, env, assign_spec(c, x, e, f).0),
        same(next, bind(env, x, eval(m, env, e))),
    ensures
        holds(m, next, f),
{
    let v = fresh_name(value_base(), next_index(c, value_base()));
    assert(!mentions(v, f));
    assert(!occurs(v, e));
    crate::semantics::law_assignment(m, env, x, v, e, f);
    lemma_holds_same(m, next, bind(env, x, eval(m, env, e)), f);
}

/// An instruction that is started where its precondition holds ends
/// where the postcondition holds.
pub(crate) proof fn lemma_step_sound(
    m: Interp,
    c: Counters,
    env: Valuation,
    i: SpecInstr,
    f: SpecFormula,
    next: Valuation,
)
    requires
        standard(m),
        modelled(i),
        unminted(c, f),
        holds(m, env, wp_step(c, i, f).0),
        steps(m, env, i, next),
    ensures
        holds(m, next, f),
{
    let g = wp_step(c, i, f).0;
    match i {
        SpecInstr::Unary(_, op, r) => {
            lemma_operands_plain(r, RegImm::Imm(0));
            reveal_with_fuel(occurs, 2);
            reveal_with_fuel(eval, 2);
            let e = SpecExpr::Unary(op, Box::new(reg_var(r)));
            lemma_assigned(m, c, env, reg_name(r), e, f, next);
        },
        SpecInstr::Binary(_, op, d, src) => {
            lemma_operands_plain(d, src);
            reveal_with_fuel(occurs, 2);
            reveal_with_fuel(eval, 2);
            let e = if op == BinAlu::Mov {
                operand(src)
            } else {
                SpecExpr::Binary(op, Box::new(reg_var(d)), Box::new(operand(src)))
            };
            let a = assign_spec(c, reg_name(d), e, f).0;
            if divides(op) {
                assert(g is Bin && g->Bin_0 == crate::ast::FBinOp::AndAsym && *g->Bin_2 == a);
            }
            lemma_assigned(m, c, env, reg_name(d), e, f, next);
        },
        SpecInstr::Store(size, mem, _) => {
            assert(g is Bin && g->Bin_0 == crate::ast::FBinOp::And && *g->Bin_2 == f);
            lemma_holds_same(m, next, env, f);
        },
        SpecInstr::Load(size, d, mem) => {
            let c1 = valid_addr_spec(c, size, mem).1;
            let v = fresh_name(value_base(), next_index(c1, value_base()));
            let q = SpecFormula::Quant(
                crate::ast::QType::Forall,
                v,
                Box::new(rename(reg_name(d), v, f)),
            );
            assert(g is Bin && g->Bin_0 == crate::ast::FBinOp::And && *g->Bin_2 == q);
            lemma_valid_addr_unminted(c, size, mem);
            lemma_unminted_later(c, c1, f);
            assert(!mentions(v, f));
            crate::semantics::law_forgotten(m, env, reg_name(d), v, f);
            let there = bind(env, reg_name(d), next(reg_name(d)));
            assert(holds(m, there, f));
            assert(same(next, there));
            lemma_holds_same(m, next, there, f);
        },
        SpecInstr::Assert(a) => {
            assert(g is Bin && g->Bin_0 == crate::ast::FBinOp::AndAsym && *g->Bin_2 == f);
            lemma_holds_same(m, next, env, f);
        },
        SpecInstr::LoadImm(d, v) => {
            lemma_operands_plain(d, RegImm::Imm(v));
            lemma_assigned(m, c, env, reg_name(d), SpecExpr::Val(v), f, next);
        },
        SpecInstr::LoadMapFd(_, _) => {},
        SpecInstr::Call(_) => {
            lemma_havoc_sound(m, c, env, 0, f, next);
        },
    }
}

/// The weakest precondition is a precondition. Let equality and
/// difference mean what they say, let the body load no map descriptor,
/// and let neither the postcondition nor an assertion of the body be
/// written with a name that is still to be minted. Then every run of
/// the body that starts where its precondition holds goes through without
/// going wrong (no division by zero, no access outside a buffer, no
/// assertion that fails) and ends where the postcondition holds.
pub proof fn law_wp_sound(
    m: Interp,
    c: Counters,
    env: Valuation,
    body: Seq<SpecInstr>,
    post: SpecFormula,
)
    requires
        standard(m),
        forall|i: int| 0 <= i < body.len() ==> modelled(#[trigger] body[i]),
        unminted(c, post),
        clean(c, body),
        holds(m, env, wp_spec(c, body, post).0),
    ensures
        runs_to(m, env, body, post),
    decreases body.len(),
{
    if body.len() > 0 {
        let first = body[0];
        let rest = body.drop_first();
        let (mid, c1) = wp_spec(c, rest, post);
        assert(seq![first] + rest =~= body);
        crate::wp::law_wp_concat(c, seq![first], rest, post);
        assert(wp_spec(c1, seq![first], mid) == wp_step(c1, first, mid)) by {
            reveal_with_fuel(wp_spec, 2);
            assert(seq![first].last() == first);
            assert(seq![first].drop_last() =~= Seq::<SpecInstr>::empty());
        }
        assert(clean(c, rest)) by {
            assert forall|i: int| 0 <= i < rest.len() implies clean_at(c, #[trigger] rest[i]) by {
                assert(clean_at(c, body[i + 1]));
            }
        }
        lemma_wp_unminted(c, rest, post);
        lemma_step_safe(m, c1, env, first, mid);
        assert forall|next: Valuation| #[trigger] steps(m, env, first, next) implies runs_to(
            m,
            next,
            rest,
            post,
        ) by {
            lemma_step_sound(m, c1, env, first, mid, next);
            assert forall|i: int| 0 <= i < rest.len() implies modelled(#[trigger] rest[i]) by {
                assert(modelled(body[i + 1]));
            }
            law_wp_sound(m, c, next, rest, post);
        }
    }
}

/// Whether some run of `body` from `env` goes through and ends in `end`.
pub open spec fn may_end(m: Interp, env: Valuation, body: Seq<SpecInstr>, end: Valuation) -> bool
    decreases body.len(),
{
    if body.len() == 0 {
        same(end, env)
    } else {
        exists|next: Valuation| #[trigger]
            steps(m, env, body[0], next) && may_end(m, next, body.drop_first(), end)
    }
}

/// Whether some run of `body` from `env` goes wrong.
pub open spec fn may_fault(m: Interp, env: Valuation, body: Seq<SpecInstr>) -> bool
    decreases body.len(),
{
    if body.len() == 0 {
        false
    } else {
        faults(m, env, body[0]) || exists|next: Valuation| #[trigger]
            steps(m, env, body[0], next) && may_fault(m, next, body.drop_first())
    }
}

/// Where every run goes through and ends where `post` holds, none goes
/// wrong.
pub(crate) proof fn lemma_runs_safe(m: Interp, env: Valuation, body: Seq<SpecInstr>, post: SpecFormula)
    requires
        runs_to(m, env, body, post),
    ensures
        !may_fault(m, env, body),
    decreases body.len(),
{
    if body.len() > 0 && may_fault(m, env, body) {
        let next = choose|next: Valuation| #[trigger]
            steps(m, env, body[0], next) && may_fault(m, next, body.drop_first());
        lemma_runs_safe(m, next, body.drop_first(), post);
    }
}

/// Where every run goes through and ends where `post` holds, `post` holds
/// where a run ends.
pub(crate) proof fn lemma_runs_end(
    m: Interp,
    env: Valuation,
    body: Seq<SpecInstr>,
    post: SpecFormula,
    end: Valuation,
)
    requires
        runs_to(m, env, body, post),
        may_end(m, env, body, end),
    ensures
        holds(m, end, post),
    decreases body.len(),
{
    if body.len() == 0 {
        lemma_holds_same(m, end, env, post);
    } else {
        let next = choose|next: Valuation| #[trigger]
            steps(m, env, body[0], next) && may_end(m, next, body.drop_first(), end);
        lemma_runs_end(m, next, body.drop_first(), post, end);
    }
}

} // verus!
