//! Obligations as an SMT-LIB script over 64-bit bit-vectors.

use vstd::prelude::*;
use crate::ast::{
    formulas, BinAlu, Cc, Expr, FBinOp, Formula, QType, SpecExpr, SpecFormula, UnAlu,
};
use crate::decimal::{decimal, hex, push_decimal, push_hex};
use crate::semantics::bits;
use crate::whyml::{quantifier, PrintErr};

verus! {

/// The bit-vector function of a binary operation, where there is one.
/// `mov` is no function, and the arithmetic shift to the right has none
/// here.
pub open spec fn function(op: BinAlu) -> Option<Seq<char>> {
    match op {
        BinAlu::Add => Some("bvadd"@),
        BinAlu::Sub => Some("bvsub"@),
        BinAlu::Mul => Some("bvmul"@),
        BinAlu::Div => Some("bvudiv"@),
        BinAlu::Mod => Some("bvurem"@),
        BinAlu::And => Some("bvand"@),
        BinAlu::Or => Some("bvor"@),
        BinAlu::Xor => Some("bvxor"@),
        BinAlu::Lsh => Some("bvshl"@),
        BinAlu::Rsh => Some("bvlshr"@),
        _ => None,
    }
}

/// An expression as text, or the first operation in it that cannot be
/// written. A value is sixteen hexadecimal digits; `mov` is its right
/// operand; of the unary operations only negation can be written.
pub open spec fn expr_text(e: SpecExpr) -> Result<Seq<char>, PrintErr>
    decreases e,
{
    match e {
        SpecExpr::Val(i) => Ok("#x"@ + hex(bits(i) as nat, 16)),
        SpecExpr::Var(x) => Ok(x),
        SpecExpr::Unary(op, a) => match op {
            UnAlu::Neg => match expr_text(*a) {
                Ok(x) => Ok("(bvneg "@ + x + ")"@),
                Err(err) => Err(err),
            },
            _ => Err(PrintErr::Unary(op)),
        },
        SpecExpr::Binary(op, a, b) => match op {
            BinAlu::Mov => expr_text(*b),
            _ => match function(op) {
                None => Err(PrintErr::Binary(op)),
                Some(name) => match expr_text(*a) {
                    Err(err) => Err(err),
                    Ok(x) => match expr_text(*b) {
                        Err(err) => Err(err),
                        Ok(y) => Ok("("@ + name + " "@ + x + " "@ + y + ")"@),
                    },
                },
            },
        },
    }
}

/// The text of `(name x y)`, the operands in the order given.
pub open spec fn applied(name: Seq<char>, a: SpecExpr, b: SpecExpr) -> Result<Seq<char>, PrintErr> {
    match expr_text(a) {
        Err(err) => Err(err),
        Ok(x) => match expr_text(b) {
            Err(err) => Err(err),
            Ok(y) => Ok("("@ + name + " "@ + x + " "@ + y + ")"@),
        },
    }
}

/// A comparison as text. The comparisons are unsigned; "greater" is
/// "less" with the operands exchanged, and "different" is the negation of
/// "equal". The signed comparisons and the bit test cannot be written.
pub open spec fn relation_text(cc: Cc, a: SpecExpr, b: SpecExpr) -> Result<Seq<char>, PrintErr> {
    match cc {
        Cc::Eq => applied("="@, a, b),
        Cc::Ne => match applied("="@, a, b) {
            Ok(x) => Ok("(not "@ + x + ")"@),
            Err(err) => Err(err),
        },
        Cc::Lt => applied("bvult"@, a, b),
        Cc::Le => applied("bvule"@, a, b),
        Cc::Gt => applied("bvult"@, b, a),
        Cc::Ge => applied("bvule"@, b, a),
        _ => Err(PrintErr::Comparison(cc)),
    }
}

/// A formula as text, or the first part of it, from the left, that cannot
/// be written. The staged conjunction of `a` and `b` is `a` and that `a`
/// implies `b`.
pub open spec fn formula_text(f: SpecFormula) -> Result<Seq<char>, PrintErr>
    decreases f,
{
    match f {
        SpecFormula::Val(b) => Ok(
            if b {
                "true"@
            } else {
                "false"@
            },
        ),
        SpecFormula::Not(a) => match formula_text(*a) {
            Ok(x) => Ok("(not "@ + x + ")"@),
            Err(err) => Err(err),
        },
        SpecFormula::Bin(op, a, b) => match formula_text(*a) {
            Err(err) => Err(err),
            Ok(x) => match formula_text(*b) {
                Err(err) => Err(err),
                Ok(y) => Ok(
                    match op {
                        FBinOp::And => "(and "@ + x + " "@ + y + ")"@,
                        FBinOp::Or => "(or "@ + x + " "@ + y + ")"@,
                        FBinOp::Implies => "(=> "@ + x + " "@ + y + ")"@,
                        FBinOp::Iff => "(<=> "@ + x + " "@ + y + ")"@,
                        FBinOp::AndAsym => "(and "@ + x + " (=> "@ + x + " "@ + y + "))"@,
                    },
                ),
            },
        },
        SpecFormula::Quant(q, x, a) => match formula_text(*a) {
            Ok(body) => Ok(
                "("@ + quantifier(q) + " (("@ + x + " (_ BitVec 64))) "@ + body + ")"@,
            ),
            Err(err) => Err(err),
        },
        SpecFormula::Rel(cc, a, b) => relation_text(cc, a, b),
        SpecFormula::IsBuffer(p, s) => match expr_text(s) {
            Ok(size) => Ok("(is_buffer "@ + p + " "@ + size + ")"@),
            Err(err) => Err(err),
        },
    }
}

/// An expression as text.
pub fn expr_string(e: &Expr) -> (r: Result<String, PrintErr>)
    ensures
        match r {
            Ok(text) => expr_text(e@) == Ok::<Seq<char>, PrintErr>(text@),
            Err(err) => expr_text(e@) == Err::<Seq<char>, PrintErr>(err),
        },
    decreases e,
{
    match e {
        Expr::Val(i) => {
            let mut out = String::new();
            out.append("#x");
            let v = *i;
            let unsigned: u64 = if v >= 0 {
                v as u64
            } else {
                (v + 1 + 0x7fff_ffff_ffff_ffff) as u64 + 0x8000_0000_0000_0000u64
            };
            push_hex(&mut out, unsigned, 16);
            assert(out@ =~= "#x"@ + hex(bits(v) as nat, 16));
            Ok(out)
        },
        Expr::Var(x) => Ok(x.clone()),
        Expr::Unary(op, a) => {
            match op {
                UnAlu::Neg => {
                    let x = match expr_string(a) {
                        Ok(x) => x,
                        Err(err) => {
                            return Err(err);
                        },
                    };
                    let mut out = String::new();
                    out.append("(bvneg ");
                    out.append(x.as_str());
                    out.append(")");
                    assert(out@ =~= "(bvneg "@ + x@ + ")"@);
                    Ok(out)
                },
                _ => Err(PrintErr::Unary(*op)),
            }
        },
        Expr::Binary(op, es) => {
            let name = match op {
                BinAlu::Mov => {
                    return expr_string(&es.1);
                },
                BinAlu::Add => "bvadd",
                BinAlu::Sub => "bvsub",
                BinAlu::Mul => "bvmul",
                BinAlu::Div => "bvudiv",
                BinAlu::Mod => "bvurem",
                BinAlu::And => "bvand",
                BinAlu::Or => "bvor",
                BinAlu::Xor => "bvxor",
                BinAlu::Lsh => "bvshl",
                BinAlu::Rsh => "bvlshr",
                BinAlu::Arsh => {
                    return Err(PrintErr::Binary(*op));
                },
            };
            let x = match expr_string(&es.0) {
                Ok(x) => x,
                Err(err) => {
                    return Err(err);
                },
            };
            let y = match expr_string(&es.1) {
                Ok(y) => y,
                Err(err) => {
                    return Err(err);
                },
            };
            Ok(join(name, x, y))
        },
    }
}

/// The text `(name x y)`.
fn join(name: &str, x: String, y: String) -> (r: String)
    ensures
        r@ == "("@ + name@ + " "@ + x@ + " "@ + y@ + ")"@,
{
    let mut out = String::new();
    out.append("(");
    out.append(name);
    out.append(" ");
    out.append(x.as_str());
    out.append(" ");
    out.append(y.as_str());
    out.append(")");
    assert(out@ =~= "("@ + name@ + " "@ + x@ + " "@ + y@ + ")"@);
    out
}

/// The text of `(name a b)`.
fn apply(name: &str, a: &Expr, b: &Expr) -> (r: Result<String, PrintErr>)
    ensures
        match r {
            Ok(text) => applied(name@, a@, b@) == Ok::<Seq<char>, PrintErr>(text@),
            Err(err) => applied(name@, a@, b@) == Err::<Seq<char>, PrintErr>(err),
        },
{
    let x = match expr_string(a) {
        Ok(x) => x,
        Err(err) => {
            return Err(err);
        },
    };
    let y = match expr_string(b) {
        Ok(y) => y,
        Err(err) => {
            return Err(err);
        },
    };
    Ok(join(name, x, y))
}

/// A formula as text.
pub fn formula_string(f: &Formula) -> (r: Result<String, PrintErr>)
    ensures
        match r {
            Ok(text) => formula_text(f@) == Ok::<Seq<char>, PrintErr>(text@),
            Err(err) => formula_text(f@) == Err::<Seq<char>, PrintErr>(err),
        },
    decreases f,
{
    match f {
        Formula::Val(b) => {
            let mut out = String::new();
            out.append(
                if *b {
                    "true"
                } else {
                    "false"
                },
            );
            assert(out@ =~= formula_text(f@)->Ok_0);
            Ok(out)
        },
        Formula::Not(a) => {
            let x = match formula_string(a) {
                Ok(x) => x,
                Err(err) => {
                    return Err(err);
                },
            };
            let mut out = String::new();
            out.append("(not ");
            out.append(x.as_str());
            out.append(")");
            assert(out@ =~= "(not "@ + x@ + ")"@);
            Ok(out)
        },
        Formula::Bin(op, fs) => {
            let x = match formula_string(&fs.0) {
                Ok(x) => x,
                Err(err) => {
                    return Err(err);
                },
            };
            let y = match formula_string(&fs.1) {
                Ok(y) => y,
                Err(err) => {
                    return Err(err);
                },
            };
            let mut out = String::new();
            match op {
                FBinOp::AndAsym => {
                    out.append("(and ");
                    out.append(x.as_str());
                    out.append(" (=> ");
                    out.append(x.as_str());
                    out.append(" ");
                    out.append(y.as_str());
                    out.append("))");
                    assert(out@ =~= "(and "@ + x@ + " (=> "@ + x@ + " "@ + y@ + "))"@);
                },
                _ => {
                    let head = match op {
                        FBinOp::And => "(and ",
                        FBinOp::Or => "(or ",
                        FBinOp::Implies => "(=> ",
                        _ => "(<=> ",
                    };
                    out.append(head);
                    out.append(x.as_str());
                    out.append(" ");
                    out.append(y.as_str());
                    out.append(")");
                    assert(out@ =~= head@ + x@ + " "@ + y@ + ")"@);
                },
            }
            Ok(out)
        },
        Formula::Quant(q, id, a) => {
            let body = match formula_string(a) {
                Ok(x) => x,
                Err(err) => {
                    return Err(err);
                },
            };
            let mut out = String::new();
            out.append("(");
            out.append(
                match q {
                    QType::Exists => "exists",
                    QType::Forall => "forall",
                },
            );
            out.append(" ((");
            out.append(id.as_str());
            out.append(" (_ BitVec 64))) ");
            out.append(body.as_str());
            out.append(")");
            assert(out@ =~= "("@ + quantifier(*q) + " (("@ + id@ + " (_ BitVec 64))) "@ + body@
                + ")"@);
            Ok(out)
        },
        Formula::Rel(rel, e1, e2) => {
            match rel {
                Cc::Eq => apply("=", e1, e2),
                Cc::Ne => {
                    let x = match apply("=", e1, e2) {
                        Ok(x) => x,
                        Err(err) => {
                            return Err(err);
                        },
                    };
                    let mut out = String::new();
                    out.append("(not ");
                    out.append(x.as_str());
                    out.append(")");
                    assert(out@ =~= "(not "@ + x@ + ")"@);
                    Ok(out)
                },
                Cc::Lt => apply("bvult", e1, e2),
                Cc::Le => apply("bvule", e1, e2),
                Cc::Gt => apply("bvult", e2, e1),
                Cc::Ge => apply("bvule", e2, e1),
                _ => Err(PrintErr::Comparison(*rel)),
            }
        },
        Formula::IsBuffer(ptr, sz) => {
            let size = match expr_string(sz) {
                Ok(x) => x,
                Err(err) => {
                    return Err(err);
                },
            };
            let mut out = String::new();
            out.append("(is_buffer ");
            out.append(ptr.as_str());
            out.append(" ");
            out.append(size.as_str());
            out.append(")");
            assert(out@ =~= "(is_buffer "@ + ptr@ + " "@ + size@ + ")"@);
            Ok(out)
        },
    }
}

/// What stands before the assertions: the logic, the option that unsat
/// cores need, and the buffer predicate.
pub open spec fn preamble() -> Seq<char> {
    "(set-logic UFBV)\n(set-option :produce-unsat-cores true)\n(declare-fun is_buffer ((_ BitVec 64) (_ BitVec 64)) Bool)\n\n"@
}

/// What stands after the assertions.
pub open spec fn closing() -> Seq<char> {
    "(check-sat)\n(get-unsat-core)(exit)"@
}

/// The assertion of one obligation under its name, for all values of the
/// ten registers.
pub open spec fn assertion_text(name: Seq<char>, goal: Seq<char>) -> Seq<char> {
    "(assert (! (forall ((r0 (_ BitVec 64)) (r1 (_ BitVec 64)) (r2 (_ BitVec 64)) (r3 (_ BitVec 64)) (r4 (_ BitVec 64)) (r5 (_ BitVec 64)) (r6 (_ BitVec 64)) (r7 (_ BitVec 64)) (r8 (_ BitVec 64)) (r9 (_ BitVec 64))) "@
        + goal + ") :named vc_"@ + name + "))\n\n"@
}

/// The assertions of the obligations from the `k`-th on, or what cannot
/// be written in the first of them that cannot.
pub open spec fn assertions_text(goals: Seq<(Seq<char>, SpecFormula)>, k: nat) -> Result<
    Seq<char>,
    PrintErr,
>
    decreases goals.len() - k,
{
    if k >= goals.len() {
        Ok(Seq::empty())
    } else {
        match formula_text(goals[k as int].1) {
            Err(err) => Err(err),
            Ok(text) => match assertions_text(goals, k + 1) {
                Err(err) => Err(err),
                Ok(rest) => Ok(assertion_text(goals[k as int].0, text) + rest),
            },
        }
    }
}

/// The models of named obligations.
pub open spec fn named(goals: Seq<(String, Formula)>) -> Seq<(Seq<char>, SpecFormula)> {
    goals.map_values(|g: (String, Formula)| (g.0@, g.1@))
}

/// Named obligations to be written as one script.
pub struct Conditions(pub Vec<(String, Formula)>);

/// The obligations from the `k`-th on, each under the numeral of its
/// place.
pub open spec fn numbered_from(fs: Seq<SpecFormula>, k: nat) -> Seq<(Seq<char>, SpecFormula)>
    decreases fs.len() - k,
{
    if k >= fs.len() {
        Seq::empty()
    } else {
        seq![(decimal(k), fs[k as int])] + numbered_from(fs, k + 1)
    }
}

impl Conditions {
    /// The obligations, each named by the numeral of its place: the first
    /// is `0`.
    pub fn numbered(goals: Vec<Formula>) -> (r: Self)
        ensures
            named(r.0@) == numbered_from(formulas(goals@), 0),
    {
        let ghost fs = formulas(goals@);
        let n = goals.len();
        let mut rest = goals;
        let mut out: Vec<(String, Formula)> = Vec::new();
        // The obligations are taken from the last to the first and the
        // list is then turned round.
        let mut back: Vec<(String, Formula)> = Vec::new();
        while rest.len() > 0
            invariant
                rest@.len() <= n,
                n == fs.len(),
                formulas(rest@) == fs.take(rest@.len() as int),
                back@.len() == n - rest@.len(),
                forall|i: int|
                    0 <= i < back@.len() ==> (#[trigger] back@[i]).0@ == decimal((n - 1 - i) as nat)
                        && back@[i].1@ == fs[n - 1 - i],
            decreases rest.len(),
        {
            let ghost k = rest@.len() - 1;
            assert(formulas(rest@)[k] == fs[k]);
            let goal = rest.pop().unwrap();
            let mut name = String::new();
            push_decimal(&mut name, rest.len() as u64);
            back.push((name, goal));
            assert(formulas(rest@) =~= fs.take(k));
        }
        while back.len() > 0
            invariant
                back@.len() + out@.len() == n,
                n == fs.len(),
                forall|i: int|
                    0 <= i < back@.len() ==> (#[trigger] back@[i]).0@ == decimal((n - 1 - i) as nat)
                        && back@[i].1@ == fs[n - 1 - i],
                forall|i: int|
                    0 <= i < out@.len() ==> (#[trigger] out@[i]).0@ == decimal(i as nat)
                        && out@[i].1@ == fs[i],
            decreases back.len(),
        {
            let item = back.pop().unwrap();
            out.push(item);
        }
        proof {
            lemma_numbered(fs, 0);
            assert(named(out@) =~= numbered_from(fs, 0));
        }
        Conditions(out)
    }

    /// The whole script: the preamble, one named assertion for each
    /// obligation, in order, and the closing commands. Nothing is written
    /// where an obligation cannot be: what cannot be written is returned.
    pub fn render(&self) -> (r: Result<String, PrintErr>)
        ensures
            match r {
                Ok(text) => assertions_text(named(self.0@), 0) is Ok && text@ == preamble()
                    + assertions_text(named(self.0@), 0)->Ok_0 + closing(),
                Err(err) => assertions_text(named(self.0@), 0) == Err::<Seq<char>, PrintErr>(err),
            },
    {
        let ghost goals = named(self.0@);
        let mut out = String::new();
        out.append(
            "(set-logic UFBV)\n(set-option :produce-unsat-cores true)\n(declare-fun is_buffer ((_ BitVec 64) (_ BitVec 64)) Bool)\n\n",
        );
        assert(out@ =~= preamble());
        let n = self.0.len();
        let mut k: usize = 0;
        while k < n
            invariant
                n == self.0@.len(),
                goals == named(self.0@),
                k <= n,
                forall|rest: Seq<char>|
                    assertions_text(goals, k as nat) == Ok::<Seq<char>, PrintErr>(rest)
                        ==> assertions_text(goals, 0) == Ok::<Seq<char>, PrintErr>(
                        out@.skip(preamble().len() as int) + rest,
                    ),
                forall|err: PrintErr|
                    assertions_text(goals, k as nat) == Err::<Seq<char>, PrintErr>(err)
                        ==> assertions_text(goals, 0) == Err::<Seq<char>, PrintErr>(err),
                out@.take(preamble().len() as int) == preamble(),
                out@.len() >= preamble().len(),
            decreases n - k,
        {
            let ghost before = out@;
            let text = match formula_string(&self.0[k].1) {
                Ok(text) => text,
                Err(err) => {
                    return Err(err);
                },
            };
            out.append(
                "(assert (! (forall ((r0 (_ BitVec 64)) (r1 (_ BitVec 64)) (r2 (_ BitVec 64)) (r3 (_ BitVec 64)) (r4 (_ BitVec 64)) (r5 (_ BitVec 64)) (r6 (_ BitVec 64)) (r7 (_ BitVec 64)) (r8 (_ BitVec 64)) (r9 (_ BitVec 64))) ",
            );
            out.append(text.as_str());
            out.append(") :named vc_");
            out.append(self.0[k].0.as_str());
            out.append("))\n\n");
            proof {
                let item = assertion_text(goals[k as int].0, text@);
                assert(out@ =~= before + item);
                assert(out@.take(preamble().len() as int) =~= before.take(preamble().len() as int));
                assert forall|rest: Seq<char>|
                    assertions_text(goals, (k + 1) as nat) == Ok::<Seq<char>, PrintErr>(
                        rest,
                    ) implies assertions_text(goals, 0) == Ok::<Seq<char>, PrintErr>(
                    out@.skip(preamble().len() as int) + rest,
                ) by {
                    assert(assertions_text(goals, k as nat) == Ok::<Seq<char>, PrintErr>(
                        item + rest,
                    ));
                    assert(before.skip(preamble().len() as int) + (item + rest) =~= out@.skip(
                        preamble().len() as int,
                    ) + rest);
                }
            }
            k += 1;
        }
        proof {
            assert(assertions_text(goals, n as nat) == Ok::<Seq<char>, PrintErr>(Seq::empty()));
            assert(out@ =~= preamble() + (out@.skip(preamble().len() as int) + Seq::<
                char,
            >::empty()));
        }
        out.append("(check-sat)\n(get-unsat-core)(exit)");
        Ok(out)
    }
}

/// The numbered obligations from the `k`-th on, one by one.
pub(crate) proof fn lemma_numbered(fs: Seq<SpecFormula>, k: nat)
    requires
        k <= fs.len(),
    ensures
        numbered_from(fs, k).len() == fs.len() - k,
        forall|i: int|
            0 <= i < fs.len() - k ==> #[trigger] numbered_from(fs, k)[i] == (
                decimal((k + i) as nat),
                fs[k + i],
            ),
    decreases fs.len() - k,
{
    if k < fs.len() {
        lemma_numbered(fs, k + 1);
        let rest = numbered_from(fs, k + 1);
        assert forall|i: int| 0 <= i < fs.len() - k implies #[trigger] numbered_from(fs, k)[i]
            == (decimal((k + i) as nat), fs[k + i]) by {
            if i > 0 {
                assert(numbered_from(fs, k)[i] == rest[i - 1]);
            }
        }
    }
}

} // verus!
