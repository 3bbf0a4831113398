//! Obligations in the WhyML dialect: infix connectives and quantifiers
//! over `uint64`.

use vstd::prelude::*;
use crate::ast::{
    formulas, BinAlu, Cc, Expr, FBinOp, Formula, QType, SpecExpr, SpecFormula, UnAlu,
};
use crate::decimal::{
    decimal, lemma_join3, lemma_join4, lemma_join7, push_decimal, push_signed, signed_decimal,
};
use crate::listing::{
    bin_alu_name, cc_name, push_bin_alu, push_cc, push_un_alu, un_alu_name,
};

verus! {

/// What a printer cannot write.
#[derive(Debug, Clone, Copy, PartialEq, Eq, Structural)]
pub enum PrintErr {
    /// A comparison that the dialect has no sign for: the signed ones and
    /// the bit test.
    Comparison(Cc),
    /// A unary operation that the dialect has no operator for.
    Unary(UnAlu),
    /// A binary operation that the dialect has no operator for.
    Binary(BinAlu),
}

/// What a failure to print says, as text.
pub open spec fn message_text(e: PrintErr) -> Seq<char> {
    match e {
        PrintErr::Comparison(cc) => "Unsupported comparison: "@ + cc_name(cc),
        PrintErr::Unary(op) => "Unsupported operation: "@ + un_alu_name(op),
        PrintErr::Binary(op) => "Unsupported operation: "@ + bin_alu_name(op),
    }
}

impl PrintErr {
    /// What the failure says, for a reader.
    pub fn message(&self) -> (r: String)
        ensures
            r@ == message_text(*self),
    {
        let mut out = String::new();
        match self {
            PrintErr::Comparison(cc) => {
                out.append("Unsupported comparison: ");
                push_cc(&mut out, *cc);
            },
            PrintErr::Unary(op) => {
                out.append("Unsupported operation: ");
                push_un_alu(&mut out, *op);
            },
            PrintErr::Binary(op) => {
                out.append("Unsupported operation: ");
                push_bin_alu(&mut out, *op);
            },
        }
        assert(out@ =~= message_text(*self));
        out
    }
}

/// The name of a unary operation.
pub open spec fn unary_name(op: UnAlu) -> Seq<char> {
    match op {
        UnAlu::Neg => "neg"@,
        UnAlu::Le => "le"@,
        UnAlu::Be => "be"@,
    }
}

/// The sign of an infix operation. `mov`, `div` and `mod` are not infix:
/// they have none.
pub open spec fn infix(op: BinAlu) -> Seq<char> {
    match op {
        BinAlu::Add => "+"@,
        BinAlu::Sub => "-"@,
        BinAlu::Mul => "*"@,
        BinAlu::And => "&"@,
        BinAlu::Or => "|"@,
        BinAlu::Xor => "^"@,
        BinAlu::Lsh => "<<"@,
        BinAlu::Rsh => ">>"@,
        BinAlu::Arsh => ">>>"@,
        _ => Seq::empty(),
    }
}

/// An expression as text. `mov` is its right operand; `div` and `mod` are
/// written before their operands; every other binary operation is infix
/// and in brackets.
pub open spec fn expr_text(e: SpecExpr) -> Seq<char>
    decreases e,
{
    match e {
        SpecExpr::Val(i) => signed_decimal(i as int),
        SpecExpr::Var(x) => x,
        SpecExpr::Unary(op, a) => unary_name(op) + "("@ + expr_text(*a) + ")"@,
        SpecExpr::Binary(op, a, b) => match op {
            BinAlu::Mov => expr_text(*b),
            BinAlu::Div => "div "@ + expr_text(*a) + " "@ + expr_text(*b),
            BinAlu::Mod => "mod "@ + expr_text(*a) + " "@ + expr_text(*b),
            _ => "("@ + expr_text(*a) + " "@ + infix(op) + " "@ + expr_text(*b) + ")"@,
        },
    }
}

/// The sign of a connective.
pub open spec fn connective(op: FBinOp) -> Seq<char> {
    match op {
        FBinOp::And => "/\\"@,
        FBinOp::Or => "\\/"@,
        FBinOp::Implies => "->"@,
        FBinOp::Iff => "<->"@,
        FBinOp::AndAsym => "&&"@,
    }
}

/// The word of a quantifier.
pub open spec fn quantifier(q: QType) -> Seq<char> {
    match q {
        QType::Exists => "exists"@,
        QType::Forall => "forall"@,
    }
}

/// The sign of a comparison, where the dialect has one.
pub open spec fn relation(cc: Cc) -> Option<Seq<char>> {
    match cc {
        Cc::Eq => Some("="@),
        Cc::Gt => Some(">"@),
        Cc::Ge => Some(">="@),
        Cc::Lt => Some("<"@),
        Cc::Le => Some("<="@),
        Cc::Ne => Some("<>"@),
        _ => None,
    }
}

/// A formula as text, or the first comparison in it, from the left, that
/// cannot be written.
pub open spec fn formula_text(f: SpecFormula) -> Result<Seq<char>, PrintErr>
    decreases f,
{
    match f {
        SpecFormula::Val(b) => Ok(
            if b {
                "true"@
            } else {
                "false"@
            },
        ),
        SpecFormula::Not(a) => match formula_text(*a) {
            Ok(x) => Ok("not ("@ + x + ")"@),
            Err(e) => Err(e),
        },
        SpecFormula::Bin(op, a, b) => match formula_text(*a) {
            Ok(x) => match formula_text(*b) {
                Ok(y) => Ok("("@ + x + " "@ + connective(op) + " "@ + y + ")"@),
                Err(e) => Err(e),
            },
            Err(e) => Err(e),
        },
        SpecFormula::Quant(q, x, a) => match formula_text(*a) {
            Ok(body) => Ok("("@ + quantifier(q) + " "@ + x + " : uint64 . "@ + body + ")"@),
            Err(e) => Err(e),
        },
        SpecFormula::Rel(cc, a, b) => match relation(cc) {
            Some(sign) => Ok("("@ + expr_text(a) + " "@ + sign + " "@ + expr_text(b) + ")"@),
            None => Err(PrintErr::Comparison(cc)),
        },
        SpecFormula::IsBuffer(p, s) => Ok("is_buffer "@ + p + " "@ + expr_text(s)),
    }
}

/// Appends an expression.
pub fn write_expr(out: &mut String, e: &Expr)
    ensures
        final(out)@ == old(out)@ + expr_text(e@),
    decreases e,
{
    match e {
        Expr::Val(i) => {
            push_signed(out, *i);
        },
        Expr::Var(x) => {
            out.append(x.as_str());
        },
        Expr::Unary(op, a) => {
            out.append(
                match op {
                    UnAlu::Neg => "neg",
                    UnAlu::Le => "le",
                    UnAlu::Be => "be",
                },
            );
            out.append("(");
            write_expr(out, a);
            out.append(")");
            assert(out@ =~= old(out)@ + expr_text(e@));
        },
        Expr::Binary(op, es) => {
            match op {
                BinAlu::Mov => {
                    write_expr(out, &es.1);
                },
                BinAlu::Div => {
                    out.append("div ");
                    write_expr(out, &es.0);
                    out.append(" ");
                    write_expr(out, &es.1);
                    assert(out@ =~= old(out)@ + expr_text(e@));
                },
                BinAlu::Mod => {
                    out.append("mod ");
                    write_expr(out, &es.0);
                    out.append(" ");
                    write_expr(out, &es.1);
                    assert(out@ =~= old(out)@ + expr_text(e@));
                },
                _ => {
                    out.append("(");
                    write_expr(out, &es.0);
                    out.append(" ");
                    out.append(
                        match op {
                            BinAlu::Add => "+",
                            BinAlu::Sub => "-",
                            BinAlu::Mul => "*",
                            BinAlu::And => "&",
                            BinAlu::Or => "|",
                            BinAlu::Xor => "^",
                            BinAlu::Lsh => "<<",
                            BinAlu::Rsh => ">>",
                            _ => ">>>",
                        },
                    );
                    out.append(" ");
                    write_expr(out, &es.1);
                    out.append(")");
                    assert(out@ =~= old(out)@ + expr_text(e@));
                },
            }
        },
    }
}

/// Appends the sign of a connective.
fn push_connective(out: &mut String, op: FBinOp)
    ensures
        final(out)@ == old(out)@ + connective(op),
{
    out.append(
        match op {
            FBinOp::And => "/\\",
            FBinOp::Or => "\\/",
            FBinOp::Implies => "->",
            FBinOp::Iff => "<->",
            FBinOp::AndAsym => "&&",
        },
    );
}

/// Appends the word of a quantifier.
fn push_quantifier(out: &mut String, q: QType)
    ensures
        final(out)@ == old(out)@ + quantifier(q),
{
    out.append(
        match q {
            QType::Exists => "exists",
            QType::Forall => "forall",
        },
    );
}

/// Appends a formula. Where the formula cannot be written, what was
/// appended up to there is of no use.
pub fn write_formula(out: &mut String, f: &Formula) -> (r: Result<(), PrintErr>)
    ensures
        match r {
            Ok(_) => formula_text(f@) is Ok && final(out)@ == old(out)@ + formula_text(f@)->Ok_0,
            Err(e) => formula_text(f@) == Err::<Seq<char>, PrintErr>(e),
        },
    decreases f,
{
    let ghost o = out@;
    match f {
        Formula::Val(b) => {
            out.append(
                if *b {
                    "true"
                } else {
                    "false"
                },
            );
            Ok(())
        },
        Formula::Not(a) => {
            out.append("not (");
            match write_formula(out, a) {
                Ok(_) => {},
                Err(e) => {
                    return Err(e);
                },
            }
            out.append(")");
            proof {
                lemma_join3(o, "not ("@, formula_text(a@)->Ok_0, ")"@);
            }
            Ok(())
        },
        Formula::Bin(op, fs) => {
            out.append("(");
            match write_formula(out, &fs.0) {
                Ok(_) => {},
                Err(e) => {
                    return Err(e);
                },
            }
            out.append(" ");
            push_connective(out, *op);
            out.append(" ");
            match write_formula(out, &fs.1) {
                Ok(_) => {},
                Err(e) => {
                    return Err(e);
                },
            }
            out.append(")");
            proof {
                lemma_join7(
                    o,
                    "("@,
                    formula_text(fs.0@)->Ok_0,
                    " "@,
                    connective(*op),
                    " "@,
                    formula_text(fs.1@)->Ok_0,
                    ")"@,
                );
            }
            Ok(())
        },
        Formula::Quant(q, id, a) => {
            out.append("(");
            push_quantifier(out, *q);
            out.append(" ");
            out.append(id.as_str());
            out.append(" : uint64 . ");
            match write_formula(out, a) {
                Ok(_) => {},
                Err(e) => {
                    return Err(e);
                },
            }
            out.append(")");
            proof {
                lemma_join7(
                    o,
                    "("@,
                    quantifier(*q),
                    " "@,
                    id@,
                    " : uint64 . "@,
                    formula_text(a@)->Ok_0,
                    ")"@,
                );
            }
            Ok(())
        },
        Formula::Rel(cc, e1, e2) => {
            let sign = match cc {
                Cc::Eq => "=",
                Cc::Gt => ">",
                Cc::Ge => ">=",
                Cc::Lt => "<",
                Cc::Le => "<=",
                Cc::Ne => "<>",
                _ => {
                    return Err(PrintErr::Comparison(*cc));
                },
            };
            out.append("(");
            write_expr(out, e1);
            out.append(" ");
            out.append(sign);
            out.append(" ");
            write_expr(out, e2);
            out.append(")");
            proof {
                lemma_join7(o, "("@, expr_text(e1@), " "@, sign@, " "@, expr_text(e2@), ")"@);
            }
            Ok(())
        },
        Formula::IsBuffer(ptr, sz) => {
            out.append("is_buffer ");
            out.append(ptr.as_str());
            out.append(" ");
            write_expr(out, sz);
            proof {
                lemma_join4(o, "is_buffer "@, ptr@, " "@, expr_text(sz@));
            }
            Ok(())
        },
    }
}

/// What stands before the goals.
pub open spec fn preamble() -> Seq<char> {
    "use mach.int.UInt64\nuse int.Int\nuse int.ComputerDivision\npredicate is_buffer (p: uint64) (s: uint64)\n\n"@
}

/// The `k`-th goal: the obligation `text` for all values of the ten
/// registers.
pub open spec fn goal_text(k: nat, text: Seq<char>) -> Seq<char> {
    "goal G"@ + decimal(k)
        + ": forall r0 r1 r2 r3 r4 r5 r6 r7 r8 r9 : uint64 . "@ + text + "\n\n"@
}

/// The goals of the obligations from the `k`-th on, or the first
/// comparison that cannot be written.
pub open spec fn goals_text(fs: Seq<SpecFormula>, k: nat) -> Result<Seq<char>, PrintErr>
    decreases fs.len() - k,
{
    if k >= fs.len() {
        Ok(Seq::empty())
    } else {
        match formula_text(fs[k as int]) {
            Err(e) => Err(e),
            Ok(text) => match goals_text(fs, k + 1) {
                Err(e) => Err(e),
                Ok(rest) => Ok(goal_text(k, text) + rest),
            },
        }
    }
}

/// A list of obligations to be written as one WhyML text.
pub struct Conditions(pub Vec<Formula>);

impl Conditions {
    /// The whole text: the preamble, then one numbered goal for each
    /// obligation, in order. Nothing is written where an obligation holds a
    /// comparison that the dialect has no sign for: that comparison is
    /// returned, the first from the left of the first such obligation.
    pub fn render(&self) -> (r: Result<String, PrintErr>)
        ensures
            match r {
                Ok(text) => goals_text(formulas(self.0@), 0) is Ok && text@
                    == preamble() + goals_text(formulas(self.0@), 0)->Ok_0,
                Err(e) => goals_text(formulas(self.0@), 0) == Err::<
                    Seq<char>,
                    PrintErr,
                >(e),
            },
    {
        let ghost fs = formulas(self.0@);
        let mut out = String::new();
        out.append(
            "use mach.int.UInt64\nuse int.Int\nuse int.ComputerDivision\npredicate is_buffer (p: uint64) (s: uint64)\n\n",
        );
        assert(out@ =~= preamble());
        let n = self.0.len();
        let mut k: usize = 0;
        while k < n
            invariant
                n == self.0@.len(),
                fs == formulas(self.0@),
                k <= n,
                forall|rest: Seq<char>|
                    goals_text(fs, k as nat) == Ok::<Seq<char>, PrintErr>(rest) ==> goals_text(
                        fs,
                        0,
                    ) == Ok::<Seq<char>, PrintErr>(out@.skip(preamble().len() as int) + rest),
                forall|e: PrintErr|
                    goals_text(fs, k as nat) == Err::<Seq<char>, PrintErr>(e) ==> goals_text(fs, 0)
                        == Err::<Seq<char>, PrintErr>(e),
                out@.take(preamble().len() as int) == preamble(),
                out@.len() >= preamble().len(),
            decreases n - k,
        {
            let ghost before = out@;
            out.append("goal G");
            push_decimal(&mut out, k as u64);
            out.append(": forall r0 r1 r2 r3 r4 r5 r6 r7 r8 r9 : uint64 . ");
            match write_formula(&mut out, &self.0[k]) {
                Ok(_) => {},
                Err(e) => {
                    return Err(e);
                },
            }
            out.append("\n\n");
            proof {
                let text = formula_text(fs[k as int])->Ok_0;
                assert(out@ =~= before + goal_text(k as nat, text));
                assert(out@.take(preamble().len() as int) =~= before.take(preamble().len() as int));
                assert forall|rest: Seq<char>|
                    goals_text(fs, (k + 1) as nat) == Ok::<Seq<char>, PrintErr>(
                        rest,
                    ) implies goals_text(fs, 0) == Ok::<Seq<char>, PrintErr>(
                    out@.skip(preamble().len() as int) + rest,
                ) by {
                    assert(goals_text(fs, k as nat) == Ok::<Seq<char>, PrintErr>(
                        goal_text(k as nat, text) + rest,
                    ));
                    assert(before.skip(preamble().len() as int) + (goal_text(k as nat, text) + rest)
                        =~= out@.skip(preamble().len() as int) + rest);
                }
            }
            k += 1;
        }
        proof {
            assert(goals_text(fs, n as nat) == Ok::<Seq<char>, PrintErr>(Seq::empty()));
            assert(out@ =~= preamble() + (out@.skip(preamble().len() as int) + Seq::<
                char,
            >::empty()));
        }
        Ok(out)
    }
}

} // verus!
