//! Reading expressions and formulas.

use vstd::prelude::*;
use crate::ast::{Cc, Expr, FBinOp, Formula, FormulaLine, QType};
use crate::parse::grammar;
use crate::parse::token::{
    agrees, agrees_at, agrees_view, at, bin_alu, blanks, blanks1, ident, imm, tag, un_alu,
};

verus! {

/// What opens a bracket.
pub fn open_paren(s: &[char], i: usize) -> (r: Option<usize>)
    requires
        i <= s@.len(),
    ensures
        agrees_at(r, grammar::open_paren(s@, i as int), i, s@.len()),
{
    if at(s, i, '(') {
        Some(blanks(s, i + 1))
    } else {
        None
    }
}

/// What closes a bracket.
pub fn close_paren(s: &[char], i: usize) -> (r: Option<usize>)
    requires
        i <= s@.len(),
    ensures
        agrees_at(r, grammar::close_paren(s@, i as int), i, s@.len()),
{
    let j = blanks(s, i);
    if at(s, j, ')') {
        Some(blanks(s, j + 1))
    } else {
        None
    }
}

/// What stands between two operands in brackets.
pub fn comma(s: &[char], i: usize) -> (r: Option<usize>)
    requires
        i <= s@.len(),
    ensures
        agrees_at(r, grammar::comma(s@, i as int), i, s@.len()),
{
    let j = blanks(s, i);
    if at(s, j, ',') {
        Some(blanks(s, j + 1))
    } else {
        None
    }
}

/// A binary operation applied to two expressions in brackets.
fn expr_binary(s: &[char], i: usize) -> (r: Option<(Expr, usize)>)
    requires
        i <= s@.len(),
    ensures
        agrees_view(r, grammar::expr_binary(s@, i as int), i, s@.len()),
    decreases s@.len() - i, 0int,
{
    let (op, j) = match bin_alu(s, i) {
        Some(x) => x,
        None => {
            return None;
        },
    };
    let k = match open_paren(s, blanks(s, j)) {
        Some(x) => x,
        None => {
            return None;
        },
    };
    let (a, m) = match expr(s, k) {
        Some(x) => x,
        None => {
            return None;
        },
    };
    let n = match comma(s, m) {
        Some(x) => x,
        None => {
            return None;
        },
    };
    let (b, p) = match expr(s, n) {
        Some(x) => x,
        None => {
            return None;
        },
    };
    match close_paren(s, p) {
        Some(q) => Some((Expr::Binary(op, Box::new((a, b))), q)),
        None => None,
    }
}

/// A unary operation applied to an expression in brackets.
fn expr_unary(s: &[char], i: usize) -> (r: Option<(Expr, usize)>)
    requires
        i <= s@.len(),
    ensures
        agrees_view(r, grammar::expr_unary(s@, i as int), i, s@.len()),
    decreases s@.len() - i, 0int,
{
    let (op, j) = match un_alu(s, i) {
        Some(x) => x,
        None => {
            return None;
        },
    };
    let k = match open_paren(s, j) {
        Some(x) => x,
        None => {
            return None;
        },
    };
    let (a, m) = match expr(s, k) {
        Some(x) => x,
        None => {
            return None;
        },
    };
    match close_paren(s, m) {
        Some(q) => Some((Expr::Unary(op, Box::new(a)), q)),
        None => None,
    }
}

/// An expression.
pub fn expr(s: &[char], i: usize) -> (r: Option<(Expr, usize)>)
    requires
        i <= s@.len(),
    ensures
        agrees_view(r, grammar::expr(s@, i as int), i, s@.len()),
    decreases s@.len() - i, 1int,
{
    if let Some(x) = expr_binary(s, i) {
        Some(x)
    } else if let Some(x) = expr_unary(s, i) {
        Some(x)
    } else {
        match imm(s, i) {
            Some((v, j)) => Some((Expr::Val(v), j)),
            None => match ident(s, i) {
                Some((x, j)) => Some((Expr::Var(x), j)),
                None => None,
            },
        }
    }
}

/// The sign of a relation.
fn relation(s: &[char], i: usize) -> (r: Option<(Cc, usize)>)
    requires
        i <= s@.len(),
    ensures
        agrees(r, grammar::relation(s@, i as int), i, s@.len()),
{
    proof {
        reveal_with_fuel(grammar::first_of, 7);
    }
    if let Some(j) = tag(s, i, "=") {
        Some((Cc::Eq, j))
    } else if let Some(j) = tag(s, i, "<>") {
        Some((Cc::Ne, j))
    } else if let Some(j) = tag(s, i, ">=") {
        Some((Cc::Ge, j))
    } else if let Some(j) = tag(s, i, "<=") {
        Some((Cc::Le, j))
    } else if let Some(j) = tag(s, i, "<") {
        Some((Cc::Lt, j))
    } else if let Some(j) = tag(s, i, ">") {
        Some((Cc::Gt, j))
    } else {
        None
    }
}

/// The sign of a connective.
fn connective(s: &[char], i: usize) -> (r: Option<(FBinOp, usize)>)
    requires
        i <= s@.len(),
    ensures
        agrees(r, grammar::connective(s@, i as int), i, s@.len()),
{
    proof {
        reveal_with_fuel(grammar::first_of, 6);
    }
    if let Some(j) = tag(s, i, "/\\") {
        Some((FBinOp::And, j))
    } else if let Some(j) = tag(s, i, "\\/") {
        Some((FBinOp::Or, j))
    } else if let Some(j) = tag(s, i, "->") {
        Some((FBinOp::Implies, j))
    } else if let Some(j) = tag(s, i, "<->") {
        Some((FBinOp::Iff, j))
    } else if let Some(j) = tag(s, i, "&&") {
        Some((FBinOp::AndAsym, j))
    } else {
        None
    }
}

/// A relation between two expressions.
pub fn rel(s: &[char], i: usize) -> (r: Option<(Formula, usize)>)
    requires
        i <= s@.len(),
    ensures
        agrees_view(r, grammar::rel(s@, i as int), i, s@.len()),
{
    let (a, j) = match expr(s, i) {
        Some(x) => x,
        None => {
            return None;
        },
    };
    let (c, m) = match relation(s, blanks(s, j)) {
        Some(x) => x,
        None => {
            return None;
        },
    };
    match expr(s, blanks(s, m)) {
        Some((b, n)) => Some((Formula::Rel(c, a, b), n)),
        None => None,
    }
}

/// The buffer predicate.
pub fn is_buffer(s: &[char], i: usize) -> (r: Option<(Formula, usize)>)
    requires
        i <= s@.len(),
    ensures
        agrees_view(r, grammar::is_buffer(s@, i as int), i, s@.len()),
{
    let j = match tag(s, i, "is_buffer") {
        Some(x) => x,
        None => {
            return None;
        },
    };
    let k = match open_paren(s, blanks(s, j)) {
        Some(x) => x,
        None => {
            return None;
        },
    };
    let (p, m) = match ident(s, k) {
        Some(x) => x,
        None => {
            return None;
        },
    };
    if !at(s, m, ',') {
        return None;
    }
    let (e, n) = match expr(s, blanks(s, m + 1)) {
        Some(x) => x,
        None => {
            return None;
        },
    };
    match close_paren(s, blanks(s, n)) {
        Some(q) => Some((Formula::IsBuffer(p, e), q)),
        None => None,
    }
}

/// A truth value.
pub fn truth(s: &[char], i: usize) -> (r: Option<(Formula, usize)>)
    requires
        i <= s@.len(),
    ensures
        agrees_view(r, grammar::truth(s@, i as int), i, s@.len()),
{
    match tag(s, i, "true") {
        Some(j) => Some((Formula::Val(true), j)),
        None => match tag(s, i, "false") {
            Some(j) => Some((Formula::Val(false), j)),
            None => None,
        },
    }
}

/// The word of a quantifier.
pub fn quantifier(s: &[char], i: usize) -> (r: Option<(QType, usize)>)
    requires
        i <= s@.len(),
    ensures
        agrees(r, grammar::quantifier(s@, i as int), i, s@.len()),
{
    match tag(s, i, "forall") {
        Some(j) => Some((QType::Forall, j)),
        None => match tag(s, i, "exists") {
            Some(j) => Some((QType::Exists, j)),
            None => None,
        },
    }
}

/// A formula in brackets.
fn formula_parens(s: &[char], i: usize) -> (r: Option<(Formula, usize)>)
    requires
        i <= s@.len(),
    ensures
        agrees_view(r, grammar::formula_parens(s@, i as int), i, s@.len()),
    decreases s@.len() - i, 0int,
{
    let k = match open_paren(s, i) {
        Some(x) => x,
        None => {
            return None;
        },
    };
    let (f, m) = match formula(s, k) {
        Some(x) => x,
        None => {
            return None;
        },
    };
    match close_paren(s, m) {
        Some(q) => Some((f, q)),
        None => None,
    }
}

/// A negation.
fn formula_not(s: &[char], i: usize) -> (r: Option<(Formula, usize)>)
    requires
        i <= s@.len(),
    ensures
        agrees_view(r, grammar::formula_not(s@, i as int), i, s@.len()),
    decreases s@.len() - i, 1int,
{
    let j = match tag(s, i, "not") {
        Some(x) => x,
        None => {
            return None;
        },
    };
    match formula_parens(s, j) {
        Some((f, q)) => Some((Formula::Not(Box::new(f)), q)),
        None => None,
    }
}

/// A connective applied to two formulas in brackets.
fn formula_binary(s: &[char], i: usize) -> (r: Option<(Formula, usize)>)
    requires
        i <= s@.len(),
    ensures
        agrees_view(r, grammar::formula_binary(s@, i as int), i, s@.len()),
    decreases s@.len() - i, 0int,
{
    let (c, j) = match connective(s, i) {
        Some(x) => x,
        None => {
            return None;
        },
    };
    let k = match open_paren(s, j) {
        Some(x) => x,
        None => {
            return None;
        },
    };
    let (a, m) = match formula(s, k) {
        Some(x) => x,
        None => {
            return None;
        },
    };
    let n = match comma(s, m) {
        Some(x) => x,
        None => {
            return None;
        },
    };
    let (b, p) = match formula(s, n) {
        Some(x) => x,
        None => {
            return None;
        },
    };
    match close_paren(s, p) {
        Some(q) => Some((Formula::Bin(c, Box::new((a, b))), q)),
        None => None,
    }
}

/// A quantified formula.
fn formula_quant(s: &[char], i: usize) -> (r: Option<(Formula, usize)>)
    requires
        i <= s@.len(),
    ensures
        agrees_view(r, grammar::formula_quant(s@, i as int), i, s@.len()),
    decreases s@.len() - i, 0int,
{
    let (q, j) = match quantifier(s, i) {
        Some(x) => x,
        None => {
            return None;
        },
    };
    let k = match blanks1(s, j) {
        Some(x) => x,
        None => {
            return None;
        },
    };
    let (x, m) = match ident(s, k) {
        Some(x) => x,
        None => {
            return None;
        },
    };
    if !at(s, m, '.') {
        return None;
    }
    let n = blanks(s, m + 1);
    match formula(s, n) {
        Some((f, p)) => Some((Formula::Quant(q, x, Box::new(f)), p)),
        None => None,
    }
}

/// A formula.
pub fn formula(s: &[char], i: usize) -> (r: Option<(Formula, usize)>)
    requires
        i <= s@.len(),
    ensures
        agrees_view(r, grammar::formula(s@, i as int), i, s@.len()),
    decreases s@.len() - i, 2int,
{
    if let Some(x) = formula_parens(s, i) {
        Some(x)
    } else if let Some(x) = truth(s, i) {
        Some(x)
    } else if let Some(x) = formula_not(s, i) {
        Some(x)
    } else if let Some(x) = formula_binary(s, i) {
        Some(x)
    } else if let Some(x) = formula_quant(s, i) {
        Some(x)
    } else if let Some(x) = rel(s, i) {
        Some(x)
    } else {
        is_buffer(s, i)
    }
}

/// A formula after `;#`, blanks, the word `word` and blanks.
pub fn annotated(s: &[char], i: usize, word: &str) -> (r: Option<(Formula, usize)>)
    requires
        i <= s@.len(),
    ensures
        agrees_view(r, grammar::annotated(s@, i as int, word@), i, s@.len()),
{
    let j = match tag(s, i, ";#") {
        Some(x) => x,
        None => {
            return None;
        },
    };
    let k = match tag(s, blanks(s, j), word) {
        Some(x) => x,
        None => {
            return None;
        },
    };
    formula(s, blanks(s, k))
}

/// A logical annotation inside the program.
pub fn formula_line(s: &[char], i: usize) -> (r: Option<(FormulaLine, usize)>)
    requires
        i <= s@.len(),
    ensures
        agrees_view(r, grammar::formula_line(s@, i as int), i, s@.len()),
{
    match annotated(s, i, "assert") {
        Some((f, j)) => Some((FormulaLine::Assert(f), j)),
        None => match annotated(s, i, "req") {
            Some((f, j)) => Some((FormulaLine::Require(f), j)),
            None => None,
        },
    }
}

} // verus!
