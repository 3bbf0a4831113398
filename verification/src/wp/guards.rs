//! That the guards of divisions stay in a precondition, whatever is
//! renamed round them.

use vstd::prelude::*;
use crate::ast::{Cc, FBinOp, QType, SpecExpr, SpecFormula};
use crate::cfg::SpecInstr;
use crate::formula::{
    fresh_name, lemma_rename_expr_absent, minted, next_index, occurs, reg_name, rename, Counters,
};
use crate::semantics::mentions;
use crate::sound::{
    clean, clean_at, lemma_occurs_renamed, lemma_operands_plain, lemma_quantified_unminted,
    lemma_step_unminted, lemma_unminted_later, lemma_valid_addr_unminted, unminted,
};
use crate::wp::{
    caller_saved, divides, divisions, havoc_spec, is_division, numbered, valid_addr_spec,
    value_base, wp_spec, wp_step,
};

verus! {

/// Whether a formula is a guarded division: the staged conjunction of
/// `e <> 0` and `forall v. v = op(_, e) -> _`, where `op` divides and `v` is
/// not written in `e`. The guard is on the divisor of the assignment that
/// it protects.
pub open spec fn is_guarded(f: SpecFormula) -> bool {
    match f {
        SpecFormula::Bin(FBinOp::AndAsym, a, b) => match (*a, *b) {
            (
                SpecFormula::Rel(Cc::Ne, e, SpecExpr::Val(z)),
                SpecFormula::Quant(QType::Forall, v, body),
            ) => z == 0 && !occurs(v, e) && match *body {
                SpecFormula::Bin(FBinOp::Implies, t, _) => match *t {
                    SpecFormula::Rel(Cc::Eq, SpecExpr::Var(w), SpecExpr::Binary(op, _, e2)) => w
                        == v && divides(op) && *e2 == e,
                    _ => false,
                },
                _ => false,
            },
            _ => false,
        },
        _ => false,
    }
}

/// How many guarded divisions a formula holds.
pub open spec fn guards(f: SpecFormula) -> nat
    decreases f,
{
    (if is_guarded(f) {
        1nat
    } else {
        0nat
    }) + (match f {
        SpecFormula::Not(a) => guards(*a),
        SpecFormula::Bin(_, a, b) => guards(*a) + guards(*b),
        SpecFormula::Quant(_, _, a) => guards(*a),
        _ => 0,
    })
}

/// Renaming to a name that the formula does not mention keeps a guarded
/// division one: the divisor is renamed in the guard and in the
/// assignment alike.
pub(crate) proof fn lemma_rename_guarded(prev: Seq<char>, new: Seq<char>, f: SpecFormula)
    requires
        !mentions(new, f),
        is_guarded(f),
    ensures
        is_guarded(rename(prev, new, f)),
{
    reveal_with_fuel(rename, 4);
    reveal_with_fuel(mentions, 4);
    reveal_with_fuel(crate::formula::rename_expr, 3);
    match f {
        SpecFormula::Bin(FBinOp::AndAsym, a, b) => match (*a, *b) {
            (
                SpecFormula::Rel(Cc::Ne, e, SpecExpr::Val(z)),
                SpecFormula::Quant(QType::Forall, v, body),
            ) => {
                if v == prev {
                    lemma_rename_expr_absent(prev, new, e);
                } else {
                    if occurs(v, crate::formula::rename_expr(prev, new, e)) {
                        lemma_occurs_renamed(v, prev, new, e);
                    }
                }
            },
            _ => {},
        },
        _ => {},
    }
}

/// Renaming to a name that the formula does not mention keeps the guarded
/// divisions.
pub(crate) proof fn lemma_rename_guards(prev: Seq<char>, new: Seq<char>, f: SpecFormula)
    requires
        !mentions(new, f),
    ensures
        guards(rename(prev, new, f)) >= guards(f),
    decreases f,
{
    if is_guarded(f) {
        lemma_rename_guarded(prev, new, f);
    }
    match f {
        SpecFormula::Not(a) => {
            lemma_rename_guards(prev, new, *a);
        },
        SpecFormula::Bin(_, a, b) => {
            lemma_rename_guards(prev, new, *a);
            lemma_rename_guards(prev, new, *b);
        },
        SpecFormula::Quant(_, y, a) => {
            if y != prev {
                lemma_rename_guards(prev, new, *a);
            }
        },
        _ => {},
    }
}

/// The quantifiers of a call keep the guarded divisions.
pub(crate) proof fn lemma_havoc_guards(c: Counters, k: nat, cond: SpecFormula)
    requires
        unminted(c, cond),
    ensures
        guards(havoc_spec(c, k, cond).0) >= guards(cond),
    decreases caller_saved() - k,
{
    if k < caller_saved() {
        let v = fresh_name(value_base(), next_index(c, value_base()));
        assert(!mentions(v, cond));
        lemma_rename_guards(numbered(k), v, cond);
        lemma_quantified_unminted(c, QType::Forall, numbered(k), cond);
        lemma_havoc_guards(minted(c, value_base()), k + 1, rename(numbered(k), v, cond));
    }
}

/// One instruction keeps the guarded divisions of the postcondition and,
/// where it divides, adds its own.
pub(crate) proof fn lemma_step_guards(c: Counters, i: SpecInstr, cond: SpecFormula)
    requires
        unminted(c, cond),
    ensures
        guards(wp_step(c, i, cond).0) >= guards(cond) + (if is_division(i) {
            1nat
        } else {
            0nat
        }),
{
    reveal_with_fuel(guards, 5);
    let v = fresh_name(value_base(), next_index(c, value_base()));
    assert(!mentions(v, cond));
    match i {
        SpecInstr::Unary(_, _, r) => {
            lemma_rename_guards(reg_name(r), v, cond);
        },
        SpecInstr::Binary(_, op, d, src) => {
            lemma_rename_guards(reg_name(d), v, cond);
            lemma_operands_plain(d, src);
            assert(!occurs(v, crate::wp::operand(src)));
            if divides(op) {
                assert(is_guarded(wp_step(c, i, cond).0));
            }
        },
        SpecInstr::Store(_, _, _) => {},
        SpecInstr::Load(size, d, mem) => {
            let c1 = valid_addr_spec(c, size, mem).1;
            let w = fresh_name(value_base(), next_index(c1, value_base()));
            lemma_valid_addr_unminted(c, size, mem);
            lemma_unminted_later(c, c1, cond);
            assert(!mentions(w, cond));
            lemma_rename_guards(reg_name(d), w, cond);
        },
        SpecInstr::Assert(_) => {},
        SpecInstr::LoadImm(d, _) => {
            lemma_rename_guards(reg_name(d), v, cond);
        },
        SpecInstr::LoadMapFd(d, _) => {
            lemma_rename_guards(reg_name(d), v, cond);
        },
        SpecInstr::Call(_) => {
            lemma_havoc_guards(c, 0, cond);
        },
    }
}

/// The guards stay. Let neither the postcondition nor an assertion of the
/// body be written with a name that is still to be minted. Then the
/// precondition of the body holds a guarded division for every division
/// of the body, besides those of the postcondition: each with its guard
/// on the divisor of the assignment that it protects, under whatever
/// names the instructions before it gave them.
pub proof fn law_divisor_guards(c: Counters, body: Seq<SpecInstr>, cond: SpecFormula)
    requires
        unminted(c, cond),
        clean(c, body),
    ensures
        guards(wp_spec(c, body, cond).0) >= guards(cond) + divisions(body),
    decreases body.len(),
{
    if body.len() > 0 {
        let (after, c1) = wp_step(c, body.last(), cond);
        lemma_step_guards(c, body.last(), cond);
        assert(clean_at(c, body[body.len() - 1]));
        lemma_step_unminted(c, body.last(), cond);
        let front = body.drop_last();
        assert forall|i: int| 0 <= i < front.len() implies clean_at(c1, #[trigger] front[i]) by {
            assert(clean_at(c, body[i]));
            match front[i] {
                SpecInstr::Assert(a) => {
                    lemma_unminted_later(c, c1, a);
                },
                _ => {},
            }
        }
        law_divisor_guards(c1, front, after);
    }
}

} // verus!
