//! What formulas mean: truth under an interpretation of the operators and a
//! valuation of the identifiers, and why renaming to a fresh identifier
//! keeps that meaning.

use vstd::prelude::*;
use crate::ast::{BinAlu, Cc, FBinOp, Imm, QType, SpecExpr, SpecFormula, UnAlu};
use crate::formula::{free_in, occurs, rename, rename_expr};

verus! {

/// A meaning for every operator, comparison and for the buffer predicate.
/// The laws below hold whatever meaning is chosen.
pub struct Interp {
    pub unary: spec_fn(UnAlu, u64) -> u64,
    pub binary: spec_fn(BinAlu, u64, u64) -> u64,
    pub compare: spec_fn(Cc, u64, u64) -> bool,
    pub buffer: spec_fn(u64, u64) -> bool,
}

/// A value for every identifier.
pub type Valuation = spec_fn(Seq<char>) -> u64;

/// The valuation `env` with `x` set to `v`.
pub open spec fn bind(env: Valuation, x: Seq<char>, v: u64) -> Valuation {
    |z: Seq<char>|
        if z == x {
            v
        } else {
            env(z)
        }
}

/// The 64 bits of an immediate, read as an unsigned number.
pub open spec fn bits(i: Imm) -> u64 {
    if i >= 0 {
        i as u64
    } else {
        (i + 0x1_0000_0000_0000_0000) as u64
    }
}

/// The value of an expression.
pub open spec fn eval(m: Interp, env: Valuation, e: SpecExpr) -> u64
    decreases e,
{
    match e {
        SpecExpr::Val(i) => bits(i),
        SpecExpr::Var(x) => env(x),
        SpecExpr::Unary(op, a) => (m.unary)(op, eval(m, env, *a)),
        SpecExpr::Binary(op, a, b) => (m.binary)(op, eval(m, env, *a), eval(m, env, *b)),
    }
}

/// Whether a formula is true. Quantified identifiers range over all 64-bit
/// values; the staged conjunction means what the plain one means.
pub open spec fn holds(m: Interp, env: Valuation, f: SpecFormula) -> bool
    decreases f,
{
    match f {
        SpecFormula::Val(b) => b,
        SpecFormula::Not(a) => !holds(m, env, *a),
        SpecFormula::Bin(op, a, b) => match op {
            FBinOp::And => holds(m, env, *a) && holds(m, env, *b),
            FBinOp::AndAsym => holds(m, env, *a) && holds(m, env, *b),
            FBinOp::Or => holds(m, env, *a) || holds(m, env, *b),
            FBinOp::Implies => holds(m, env, *a) ==> holds(m, env, *b),
            FBinOp::Iff => holds(m, env, *a) == holds(m, env, *b),
        },
        SpecFormula::Quant(q, x, a) => match q {
            QType::Forall => forall|v: u64| holds(m, #[trigger] bind(env, x, v), *a),
            QType::Exists => exists|v: u64| holds(m, #[trigger] bind(env, x, v), *a),
        },
        SpecFormula::Rel(cc, a, b) => (m.compare)(cc, eval(m, env, a), eval(m, env, b)),
        SpecFormula::IsBuffer(p, s) => (m.buffer)(env(p), eval(m, env, s)),
    }
}

/// Whether the identifier `x` is written anywhere in `f`, free or bound or
/// as the identifier that a quantifier binds.
pub open spec fn mentions(x: Seq<char>, f: SpecFormula) -> bool
    decreases f,
{
    match f {
        SpecFormula::Val(_) => false,
        SpecFormula::Not(a) => mentions(x, *a),
        SpecFormula::Bin(_, a, b) => mentions(x, *a) || mentions(x, *b),
        SpecFormula::Quant(_, y, a) => y == x || mentions(x, *a),
        SpecFormula::Rel(_, a, b) => occurs(x, a) || occurs(x, b),
        SpecFormula::IsBuffer(p, s) => p == x || occurs(x, s),
    }
}

/// Two valuations that differ at most on `y`.
pub open spec fn same_but(a: Valuation, b: Valuation, y: Seq<char>) -> bool {
    forall|z: Seq<char>| z != y ==> #[trigger] a(z) == b(z)
}

/// `b` reads at `y` what `a` reads at `x`, and both agree elsewhere,
/// except perhaps at `x`.
pub open spec fn moved(a: Valuation, b: Valuation, x: Seq<char>, y: Seq<char>) -> bool {
    &&& b(y) == a(x)
    &&& forall|z: Seq<char>| z != x && z != y ==> #[trigger] a(z) == b(z)
}

/// An expression's value depends only on the identifiers in it.
pub(crate) proof fn lemma_eval_same_but(m: Interp, a: Valuation, b: Valuation, y: Seq<char>, e: SpecExpr)
    requires
        same_but(a, b, y),
        !occurs(y, e),
    ensures
        eval(m, a, e) == eval(m, b, e),
    decreases e,
{
    match e {
        SpecExpr::Val(_) => {},
        SpecExpr::Var(_) => {},
        SpecExpr::Unary(_, p) => {
            lemma_eval_same_but(m, a, b, y, *p);
        },
        SpecExpr::Binary(_, p, q) => {
            lemma_eval_same_but(m, a, b, y, *p);
            lemma_eval_same_but(m, a, b, y, *q);
        },
    }
}

/// A formula's truth depends only on the identifiers in it.
pub(crate) proof fn lemma_holds_same_but(
    m: Interp,
    a: Valuation,
    b: Valuation,
    y: Seq<char>,
    f: SpecFormula,
)
    requires
        same_but(a, b, y),
        !mentions(y, f),
    ensures
        holds(m, a, f) == holds(m, b, f),
    decreases f,
{
    match f {
        SpecFormula::Val(_) => {},
        SpecFormula::Not(p) => {
            lemma_holds_same_but(m, a, b, y, *p);
        },
        SpecFormula::Bin(_, p, q) => {
            lemma_holds_same_but(m, a, b, y, *p);
            lemma_holds_same_but(m, a, b, y, *q);
        },
        SpecFormula::Quant(_, x, p) => {
            assert forall|v: u64|
                #![trigger bind(a, x, v)]
                #![trigger bind(b, x, v)]
                holds(m, bind(a, x, v), *p) == holds(m, bind(b, x, v), *p) by {
                assert(same_but(bind(a, x, v), bind(b, x, v), y));
                lemma_holds_same_but(m, bind(a, x, v), bind(b, x, v), y, *p);
            }
        },
        SpecFormula::Rel(_, p, q) => {
            lemma_eval_same_but(m, a, b, y, p);
            lemma_eval_same_but(m, a, b, y, q);
        },
        SpecFormula::IsBuffer(_, s) => {
            lemma_eval_same_but(m, a, b, y, s);
        },
    }
}

/// Renaming `x` to `y` in an expression that does not hold `y`: the result
/// has, where `y` reads what `x` read, the value that the expression had.
pub(crate) proof fn lemma_rename_expr_moved(
    m: Interp,
    a: Valuation,
    b: Valuation,
    x: Seq<char>,
    y: Seq<char>,
    e: SpecExpr,
)
    requires
        moved(a, b, x, y),
        !occurs(y, e),
    ensures
        eval(m, b, rename_expr(x, y, e)) == eval(m, a, e),
    decreases e,
{
    match e {
        SpecExpr::Val(_) => {},
        SpecExpr::Var(_) => {},
        SpecExpr::Unary(_, p) => {
            lemma_rename_expr_moved(m, a, b, x, y, *p);
        },
        SpecExpr::Binary(_, p, q) => {
            lemma_rename_expr_moved(m, a, b, x, y, *p);
            lemma_rename_expr_moved(m, a, b, x, y, *q);
        },
    }
}

/// Renaming `x` to `y` in a formula that does not mention `y`: the result
/// is true, where `y` reads what `x` read, exactly where the formula was.
pub(crate) proof fn lemma_rename_moved(
    m: Interp,
    a: Valuation,
    b: Valuation,
    x: Seq<char>,
    y: Seq<char>,
    f: SpecFormula,
)
    requires
        moved(a, b, x, y),
        !mentions(y, f),
    ensures
        holds(m, b, rename(x, y, f)) == holds(m, a, f),
    decreases f,
{
    match f {
        SpecFormula::Val(_) => {},
        SpecFormula::Not(p) => {
            lemma_rename_moved(m, a, b, x, y, *p);
        },
        SpecFormula::Bin(_, p, q) => {
            lemma_rename_moved(m, a, b, x, y, *p);
            lemma_rename_moved(m, a, b, x, y, *q);
        },
        SpecFormula::Quant(q, z, p) => {
            if z == x {
                assert forall|v: u64|
                    #![trigger bind(a, z, v)]
                    #![trigger bind(b, z, v)]
                    holds(m, bind(a, z, v), *p) == holds(m, bind(b, z, v), *p) by {
                    assert(same_but(bind(a, z, v), bind(b, z, v), y));
                    lemma_holds_same_but(m, bind(a, z, v), bind(b, z, v), y, *p);
                }
            } else {
                assert forall|v: u64|
                    #![trigger bind(a, z, v)]
                    #![trigger bind(b, z, v)]
                    holds(m, bind(b, z, v), rename(x, y, *p)) == holds(m, bind(a, z, v), *p) by {
                    assert(moved(bind(a, z, v), bind(b, z, v), x, y));
                    lemma_rename_moved(m, bind(a, z, v), bind(b, z, v), x, y, *p);
                }
                let t = rename(x, y, f);
                assert(t is Quant && t->Quant_0 == q && t->Quant_1 == z && *t->Quant_2 == rename(
                    x,
                    y,
                    *p,
                ));
            }
        },
        SpecFormula::Rel(_, p, q) => {
            lemma_rename_expr_moved(m, a, b, x, y, p);
            lemma_rename_expr_moved(m, a, b, x, y, q);
        },
        SpecFormula::IsBuffer(_, s) => {
            lemma_rename_expr_moved(m, a, b, x, y, s);
        },
    }
}

/// Renaming is hygienic. Let `y` be an identifier that `f` does not mention.
/// Then `f` with `x` renamed to `y` is true under a valuation in which `y`
/// has the value of `x` exactly where `f` is true under the valuation
/// itself: the models of the renamed formula are those of `f` with `y` in
/// the place of `x`.
pub proof fn law_rename_keeps_models(
    m: Interp,
    env: Valuation,
    x: Seq<char>,
    y: Seq<char>,
    f: SpecFormula,
)
    requires
        !mentions(y, f),
    ensures
        holds(m, bind(env, y, env(x)), rename(x, y, f)) == holds(m, env, f),
{
    assert(moved(env, bind(env, y, env(x)), x, y));
    lemma_rename_moved(m, env, bind(env, y, env(x)), x, y, f);
}

/// Renaming does not descend into a quantifier that binds the renamed
/// identifier: the quantified formula comes back as it was.
pub proof fn law_rename_stops_at_binder(q: QType, x: Seq<char>, y: Seq<char>, body: SpecFormula)
    ensures
        rename(x, y, SpecFormula::Quant(q, x, Box::new(body))) == SpecFormula::Quant(
            q,
            x,
            Box::new(body),
        ),
        !free_in(x, SpecFormula::Quant(q, x, Box::new(body))),
{
}

/// After renaming `x` to another identifier, `x` is no longer free.
pub proof fn law_rename_removes(x: Seq<char>, y: Seq<char>, f: SpecFormula)
    requires
        x != y,
    ensures
        !free_in(x, rename(x, y, f)),
    decreases f,
{
    match f {
        SpecFormula::Val(_) => {},
        SpecFormula::Not(p) => {
            law_rename_removes(x, y, *p);
        },
        SpecFormula::Bin(_, p, q) => {
            law_rename_removes(x, y, *p);
            law_rename_removes(x, y, *q);
        },
        SpecFormula::Quant(_, z, p) => {
            if z != x {
                law_rename_removes(x, y, *p);
            }
        },
        SpecFormula::Rel(_, p, q) => {
            lemma_rename_expr_removes(x, y, p);
            lemma_rename_expr_removes(x, y, q);
        },
        SpecFormula::IsBuffer(_, s) => {
            lemma_rename_expr_removes(x, y, s);
        },
    }
}

/// After renaming `x` to another identifier, `x` no longer occurs.
pub(crate) proof fn lemma_rename_expr_removes(x: Seq<char>, y: Seq<char>, e: SpecExpr)
    requires
        x != y,
    ensures
        !occurs(x, rename_expr(x, y, e)),
    decreases e,
{
    match e {
        SpecExpr::Val(_) => {},
        SpecExpr::Var(_) => {},
        SpecExpr::Unary(_, p) => {
            lemma_rename_expr_removes(x, y, *p);
        },
        SpecExpr::Binary(_, p, q) => {
            lemma_rename_expr_removes(x, y, *p);
            lemma_rename_expr_removes(x, y, *q);
        },
    }
}

/// Whether the identifier `x` is written anywhere in `f` or in `e`.
pub open spec fn fresh_for(x: Seq<char>, e: SpecExpr, f: SpecFormula) -> bool {
    !occurs(x, e) && !mentions(x, f)
}

/// The assignment schema means assignment. Let equality mean equality,
/// and let `v` be written neither in `e` nor in `f`. Then
/// `forall v. v = e -> f[x := v]` is true exactly where `f` is true once `x`
/// has the value of `e`: it is the weakest precondition of `x := e` for
/// `f`.
pub proof fn law_assignment(
    m: Interp,
    env: Valuation,
    x: Seq<char>,
    v: Seq<char>,
    e: SpecExpr,
    f: SpecFormula,
)
    requires
        forall|a: u64, b: u64| #[trigger] (m.compare)(Cc::Eq, a, b) == (a == b),
        fresh_for(v, e, f),
    ensures
        holds(m, env, crate::wp::assign_schema(x, v, e, f)) == holds(
            m,
            bind(env, x, eval(m, env, e)),
            f,
        ),
{
    let value = eval(m, env, e);
    let body = rename(x, v, f);
    let test = SpecFormula::Rel(Cc::Eq, SpecExpr::Var(v), e);
    let inner = SpecFormula::Bin(FBinOp::Implies, Box::new(test), Box::new(body));
    let whole = crate::wp::assign_schema(x, v, e, f);
    assert(whole is Quant && whole->Quant_0 == QType::Forall && whole->Quant_1 == v
        && *whole->Quant_2 == inner);
    assert(inner is Bin && inner->Bin_0 == FBinOp::Implies && *inner->Bin_1 == test
        && *inner->Bin_2 == body);
    assert(test is Rel && test->Rel_0 == Cc::Eq && test->Rel_1 == SpecExpr::Var(v) && test->Rel_2
        == e);
    assert forall|a: u64| #![trigger bind(env, v, a)]
        holds(m, bind(env, v, a), inner) == (a == value ==> holds(m, bind(env, x, value), f)) by {
        let here = bind(env, v, a);
        assert(same_but(env, here, v));
        lemma_eval_same_but(m, env, here, v, e);
        assert(eval(m, here, SpecExpr::Var(v)) == a);
        assert(holds(m, here, test) == (a == value));
        assert(holds(m, here, inner) == (holds(m, here, test) ==> holds(m, here, body)));
        if a == value {
            let there = bind(env, x, value);
            assert(moved(there, here, x, v));
            lemma_rename_moved(m, there, here, x, v, f);
        }
    }
    if holds(m, env, whole) {
        assert(holds(m, bind(env, v, value), inner));
    }
}

/// Forgetting means any value. Let `v` not be written in `f`. Then
/// `forall v. f[x := v]` is true exactly where `f` is true whatever value `x`
/// has: it is the weakest precondition, for `f`, of an instruction that
/// may leave anything in `x`.
pub proof fn law_forgotten(m: Interp, env: Valuation, x: Seq<char>, v: Seq<char>, f: SpecFormula)
    requires
        !mentions(v, f),
    ensures
        holds(m, env, SpecFormula::Quant(QType::Forall, v, Box::new(rename(x, v, f)))) == (
        forall|a: u64| holds(m, #[trigger] bind(env, x, a), f)),
{
    let body = rename(x, v, f);
    let whole = SpecFormula::Quant(QType::Forall, v, Box::new(body));
    assert(whole is Quant && whole->Quant_0 == QType::Forall && whole->Quant_1 == v
        && *whole->Quant_2 == body);
    assert forall|a: u64|
        #![trigger bind(env, v, a)]
        #![trigger bind(env, x, a)]
        holds(m, bind(env, v, a), body) == holds(m, bind(env, x, a), f) by {
        assert(moved(bind(env, x, a), bind(env, v, a), x, v));
        lemma_rename_moved(m, bind(env, x, a), bind(env, v, a), x, v, f);
    }
}

/// An unknown value is some value. Let `v` not be written in `f`. Then
/// `exists v. f[x := v]` is true exactly where `f` is true for some value of
/// `x`.
pub proof fn law_some_value(m: Interp, env: Valuation, x: Seq<char>, v: Seq<char>, f: SpecFormula)
    requires
        !mentions(v, f),
    ensures
        holds(m, env, SpecFormula::Quant(QType::Exists, v, Box::new(rename(x, v, f)))) == (
        exists|a: u64| holds(m, #[trigger] bind(env, x, a), f)),
{
    let body = rename(x, v, f);
    let whole = SpecFormula::Quant(QType::Exists, v, Box::new(body));
    assert(whole is Quant && whole->Quant_0 == QType::Exists && whole->Quant_1 == v
        && *whole->Quant_2 == body);
    assert forall|a: u64|
        #![trigger bind(env, v, a)]
        #![trigger bind(env, x, a)]
        holds(m, bind(env, v, a), body) == holds(m, bind(env, x, a), f) by {
        assert(moved(bind(env, x, a), bind(env, v, a), x, v));
        lemma_rename_moved(m, bind(env, x, a), bind(env, v, a), x, v, f);
    }
    if holds(m, env, whole) {
        let a = choose|a: u64| holds(m, #[trigger] bind(env, v, a), body);
        assert(holds(m, bind(env, x, a), f));
    }
    if exists|a: u64| holds(m, #[trigger] bind(env, x, a), f) {
        let a = choose|a: u64| holds(m, #[trigger] bind(env, x, a), f);
        assert(holds(m, bind(env, v, a), body));
    }
}

} // verus!
