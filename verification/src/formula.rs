//! A builder of formulas, the single source of fresh names, and renaming of
//! free identifiers.

use vstd::prelude::*;
use vstd::hash_map::StringHashMap;
use crate::ast::{
    BinAlu, Cc, Expr, FBinOp, Formula, Ident, Imm, QType, Reg, SpecExpr, SpecFormula, UnAlu,
};
use crate::decimal::{decimal, digit_char, lemma_decimal_injective, Counter};

verus! {

/// Whether the identifier `x` occurs in the expression `e`.
pub open spec fn occurs(x: Seq<char>, e: SpecExpr) -> bool
    decreases e,
{
    match e {
        SpecExpr::Val(_) => false,
        SpecExpr::Var(y) => y == x,
        SpecExpr::Unary(_, a) => occurs(x, *a),
        SpecExpr::Binary(_, a, b) => occurs(x, *a) || occurs(x, *b),
    }
}

/// Whether the identifier `x` occurs free in the formula `f`: outside every
/// quantifier that binds `x`.
pub open spec fn free_in(x: Seq<char>, f: SpecFormula) -> bool
    decreases f,
{
    match f {
        SpecFormula::Val(_) => false,
        SpecFormula::Not(a) => free_in(x, *a),
        SpecFormula::Bin(_, a, b) => free_in(x, *a) || free_in(x, *b),
        SpecFormula::Quant(_, y, a) => y != x && free_in(x, *a),
        SpecFormula::Rel(_, a, b) => occurs(x, a) || occurs(x, b),
        SpecFormula::IsBuffer(p, s) => p == x || occurs(x, s),
    }
}

/// The expression `e` with every occurrence of `prev` turned into `new`.
pub open spec fn rename_expr(prev: Seq<char>, new: Seq<char>, e: SpecExpr) -> SpecExpr
    decreases e,
{
    match e {
        SpecExpr::Val(i) => SpecExpr::Val(i),
        SpecExpr::Var(y) => SpecExpr::Var(
            if y == prev {
                new
            } else {
                y
            },
        ),
        SpecExpr::Unary(op, a) => SpecExpr::Unary(op, Box::new(rename_expr(prev, new, *a))),
        SpecExpr::Binary(op, a, b) => SpecExpr::Binary(
            op,
            Box::new(rename_expr(prev, new, *a)),
            Box::new(rename_expr(prev, new, *b)),
        ),
    }
}

/// The formula `f` with every free occurrence of `prev` turned into `new`.
/// A quantifier that binds `prev` is left as it is, body included.
pub open spec fn rename(prev: Seq<char>, new: Seq<char>, f: SpecFormula) -> SpecFormula
    decreases f,
{
    match f {
        SpecFormula::Val(b) => SpecFormula::Val(b),
        SpecFormula::Not(a) => SpecFormula::Not(Box::new(rename(prev, new, *a))),
        SpecFormula::Bin(op, a, b) => SpecFormula::Bin(
            op,
            Box::new(rename(prev, new, *a)),
            Box::new(rename(prev, new, *b)),
        ),
        SpecFormula::Quant(q, y, a) => if y == prev {
            f
        } else {
            SpecFormula::Quant(q, y, Box::new(rename(prev, new, *a)))
        },
        SpecFormula::Rel(cc, a, b) => SpecFormula::Rel(
            cc,
            rename_expr(prev, new, a),
            rename_expr(prev, new, b),
        ),
        SpecFormula::IsBuffer(p, s) => SpecFormula::IsBuffer(
            if p == prev {
                new
            } else {
                p
            },
            rename_expr(prev, new, s),
        ),
    }
}

/// Renaming an identifier that does not occur changes nothing.
pub(crate) proof fn lemma_rename_expr_absent(prev: Seq<char>, new: Seq<char>, e: SpecExpr)
    requires
        !occurs(prev, e),
    ensures
        rename_expr(prev, new, e) == e,
    decreases e,
{
    match e {
        SpecExpr::Val(_) => {},
        SpecExpr::Var(_) => {},
        SpecExpr::Unary(_, a) => {
            lemma_rename_expr_absent(prev, new, *a);
        },
        SpecExpr::Binary(_, a, b) => {
            lemma_rename_expr_absent(prev, new, *a);
            lemma_rename_expr_absent(prev, new, *b);
        },
    }
}

/// Renaming an identifier that does not occur free changes nothing.
pub(crate) proof fn lemma_rename_absent(prev: Seq<char>, new: Seq<char>, f: SpecFormula)
    requires
        !free_in(prev, f),
    ensures
        rename(prev, new, f) == f,
    decreases f,
{
    match f {
        SpecFormula::Val(_) => {},
        SpecFormula::Not(a) => {
            lemma_rename_absent(prev, new, *a);
        },
        SpecFormula::Bin(_, a, b) => {
            lemma_rename_absent(prev, new, *a);
            lemma_rename_absent(prev, new, *b);
        },
        SpecFormula::Quant(_, y, a) => {
            if y != prev {
                lemma_rename_absent(prev, new, *a);
            }
        },
        SpecFormula::Rel(_, a, b) => {
            lemma_rename_expr_absent(prev, new, a);
            lemma_rename_expr_absent(prev, new, b);
        },
        SpecFormula::IsBuffer(_, s) => {
            lemma_rename_expr_absent(prev, new, s);
        },
    }
}

/// For each base name, the index that its next fresh identifier gets.
/// A base that is absent has minted nothing yet.
pub type Counters = Map<Seq<char>, nat>;

/// The index that the next identifier minted from `base` gets.
pub open spec fn next_index(c: Counters, base: Seq<char>) -> nat {
    if c.contains_key(base) {
        c[base]
    } else {
        0
    }
}

/// The `k`-th identifier minted from `base`: the base followed by the
/// numeral of `k`.
pub open spec fn fresh_name(base: Seq<char>, k: nat) -> Seq<char> {
    base + decimal(k)
}

/// The counters after one more identifier was minted from `base`.
pub open spec fn minted(c: Counters, base: Seq<char>) -> Counters {
    c.insert(base, next_index(c, base) + 1)
}

/// The identifier that stands for a register: `r` and its number.
pub open spec fn reg_name(r: Reg) -> Seq<char> {
    seq!['r'] + decimal(r.index() as nat)
}

/// Minting is monotonic: the index of a base moves up by one with every
/// identifier minted from it, and no other base is touched.
pub proof fn law_minting_counts(c: Counters, base: Seq<char>, other: Seq<char>)
    ensures
        next_index(minted(c, base), base) == next_index(c, base) + 1,
        other != base ==> next_index(minted(c, base), other) == next_index(c, other),
{
}

/// The identifiers minted from one base never repeat: different indices
/// give different identifiers.
pub proof fn law_fresh_names_differ(base: Seq<char>, i: nat, j: nat)
    requires
        i != j,
    ensures
        fresh_name(base, i) != fresh_name(base, j),
{
    if fresh_name(base, i) == fresh_name(base, j) {
        let a = fresh_name(base, i);
        let b = fresh_name(base, j);
        assert(a.skip(base.len() as int) =~= decimal(i));
        assert(b.skip(base.len() as int) =~= decimal(j));
        lemma_decimal_injective(i, j);
    }
}

/// Builds formulas and mints fresh identifiers.
pub struct FormulaBuilder {
    id_counters: StringHashMap<Counter>,
}

impl View for FormulaBuilder {
    type V = Counters;

    closed spec fn view(&self) -> Counters {
        self.id_counters@.map_values(|c: Counter| c.value())
    }
}

impl Default for FormulaBuilder {
    fn default() -> (r: Self)
        ensures
            r@ == Map::<Seq<char>, nat>::empty(),
    {
        FormulaBuilder::new()
    }
}

impl FormulaBuilder {
    /// A builder that has minted nothing.
    pub fn new() -> (r: Self)
        ensures
            r@ == Map::<Seq<char>, nat>::empty(),
    {
        let r = FormulaBuilder { id_counters: StringHashMap::new() };
        assert(r@ =~= Map::<Seq<char>, nat>::empty());
        r
    }

    pub fn top(&self) -> (r: Formula)
        ensures
            r@ == SpecFormula::Val(true),
    {
        Formula::Val(true)
    }

    pub fn bot(&self) -> (r: Formula)
        ensures
            r@ == SpecFormula::Val(false),
    {
        Formula::Val(false)
    }

    pub fn not(&self, f: Formula) -> (r: Formula)
        ensures
            r@ == SpecFormula::Not(Box::new(f@)),
    {
        Formula::Not(Box::new(f))
    }

    pub fn and(&self, a: Formula, b: Formula) -> (r: Formula)
        ensures
            r@ == SpecFormula::Bin(FBinOp::And, Box::new(a@), Box::new(b@)),
    {
        Formula::Bin(FBinOp::And, Box::new((a, b)))
    }

    pub fn asym_and(&self, a: Formula, b: Formula) -> (r: Formula)
        ensures
            r@ == SpecFormula::Bin(FBinOp::AndAsym, Box::new(a@), Box::new(b@)),
    {
        Formula::Bin(FBinOp::AndAsym, Box::new((a, b)))
    }

    pub fn or(&self, a: Formula, b: Formula) -> (r: Formula)
        ensures
            r@ == SpecFormula::Bin(FBinOp::Or, Box::new(a@), Box::new(b@)),
    {
        Formula::Bin(FBinOp::Or, Box::new((a, b)))
    }

    pub fn implies(&self, a: Formula, b: Formula) -> (r: Formula)
        ensures
            r@ == SpecFormula::Bin(FBinOp::Implies, Box::new(a@), Box::new(b@)),
    {
        Formula::Bin(FBinOp::Implies, Box::new((a, b)))
    }

    pub fn iff(&self, a: Formula, b: Formula) -> (r: Formula)
        ensures
            r@ == SpecFormula::Bin(FBinOp::Iff, Box::new(a@), Box::new(b@)),
    {
        Formula::Bin(FBinOp::Iff, Box::new((a, b)))
    }

    /// Universal quantification; the bound identifier is taken as given.
    pub fn for_all(&self, ident: Ident, f: Formula) -> (r: Formula)
        ensures
            r@ == SpecFormula::Quant(QType::Forall, ident@, Box::new(f@)),
    {
        Formula::Quant(QType::Forall, ident, Box::new(f))
    }

    /// Existential quantification; the bound identifier is taken as given.
    pub fn for_some(&self, ident: Ident, f: Formula) -> (r: Formula)
        ensures
            r@ == SpecFormula::Quant(QType::Exists, ident@, Box::new(f@)),
    {
        Formula::Quant(QType::Exists, ident, Box::new(f))
    }

    /// Turns every free occurrence of `prev` in `f` into `new`. Gives `None`
    /// where `prev` does not occur free, so that the caller can keep `f`.
    pub fn replace(&self, prev: &Ident, new: &Ident, f: &Formula) -> (r: Option<Formula>)
        ensures
            r is Some <==> free_in(prev@, f@),
            r is Some ==> r->0@ == rename(prev@, new@, f@),
        decreases f,
    {
        match f {
            Formula::Not(inner) => {
                match self.replace(prev, new, inner) {
                    Some(res) => Some(Formula::Not(Box::new(res))),
                    None => None,
                }
            },
            Formula::Bin(op, fs) => {
                let a = self.replace(prev, new, &fs.0);
                let b = self.replace(prev, new, &fs.1);
                proof {
                    if a is None {
                        lemma_rename_absent(prev@, new@, fs.0@);
                    }
                    if b is None {
                        lemma_rename_absent(prev@, new@, fs.1@);
                    }
                }
                if a.is_some() || b.is_some() {
                    let a = match a {
                        Some(x) => x,
                        None => fs.0.clone(),
                    };
                    let b = match b {
                        Some(x) => x,
                        None => fs.1.clone(),
                    };
                    Some(Formula::Bin(*op, Box::new((a, b))))
                } else {
                    None
                }
            },
            Formula::Quant(qtype, qvar, inner) => {
                if *prev != *qvar {
                    match self.replace(prev, new, inner) {
                        Some(res) => Some(Formula::Quant(*qtype, qvar.clone(), Box::new(res))),
                        None => None,
                    }
                } else {
                    None
                }
            },
            Formula::Rel(rel, e1, e2) => {
                let a = self.replace_expr(prev, new, e1);
                let b = self.replace_expr(prev, new, e2);
                proof {
                    if a is None {
                        lemma_rename_expr_absent(prev@, new@, e1@);
                    }
                    if b is None {
                        lemma_rename_expr_absent(prev@, new@, e2@);
                    }
                }
                if a.is_some() || b.is_some() {
                    let a = match a {
                        Some(x) => x,
                        None => e1.clone(),
                    };
                    let b = match b {
                        Some(x) => x,
                        None => e2.clone(),
                    };
                    Some(Formula::Rel(*rel, a, b))
                } else {
                    None
                }
            },
            Formula::IsBuffer(ptr, sz) => {
                let new_ptr = if *ptr == *prev {
                    Some(new.clone())
                } else {
                    None
                };
                let new_sz = self.replace_expr(prev, new, sz);
                proof {
                    if new_sz is None {
                        lemma_rename_expr_absent(prev@, new@, sz@);
                    }
                }
                if new_ptr.is_some() || new_sz.is_some() {
                    let p = match new_ptr {
                        Some(x) => x,
                        None => ptr.clone(),
                    };
                    let s = match new_sz {
                        Some(x) => x,
                        None => sz.clone(),
                    };
                    Some(Formula::IsBuffer(p, s))
                } else {
                    None
                }
            },
            Formula::Val(_) => None,
        }
    }

    /// `f` with every free occurrence of `prev` turned into `new`; `f`
    /// itself where there is none.
    pub fn renamed(&self, prev: &Ident, new: &Ident, f: Formula) -> (r: Formula)
        ensures
            r@ == rename(prev@, new@, f@),
    {
        match self.replace(prev, new, &f) {
            Some(c) => c,
            None => {
                proof {
                    lemma_rename_absent(prev@, new@, f@);
                }
                f
            },
        }
    }

    /// `e` with every occurrence of `prev` turned into `new`; `e` itself
    /// where there is none.
    pub fn renamed_expr(&self, prev: &Ident, new: &Ident, e: Expr) -> (r: Expr)
        ensures
            r@ == rename_expr(prev@, new@, e@),
    {
        match self.replace_expr(prev, new, &e) {
            Some(c) => c,
            None => {
                proof {
                    lemma_rename_expr_absent(prev@, new@, e@);
                }
                e
            },
        }
    }

    /// Turns every occurrence of `prev` in `e` into `new`. Gives `None`
    /// where `prev` does not occur.
    pub fn replace_expr(&self, prev: &Ident, new: &Ident, e: &Expr) -> (r: Option<Expr>)
        ensures
            r is Some <==> occurs(prev@, e@),
            r is Some ==> r->0@ == rename_expr(prev@, new@, e@),
        decreases e,
    {
        match e {
            Expr::Var(x) => {
                if *x == *prev {
                    Some(Expr::Var(new.clone()))
                } else {
                    None
                }
            },
            Expr::Unary(op, inner) => {
                match self.replace_expr(prev, new, inner) {
                    Some(res) => Some(Expr::Unary(*op, Box::new(res))),
                    None => None,
                }
            },
            Expr::Binary(op, es) => {
                let a = self.replace_expr(prev, new, &es.0);
                let b = self.replace_expr(prev, new, &es.1);
                proof {
                    if a is None {
                        lemma_rename_expr_absent(prev@, new@, es.0@);
                    }
                    if b is None {
                        lemma_rename_expr_absent(prev@, new@, es.1@);
                    }
                }
                if a.is_some() || b.is_some() {
                    let a = match a {
                        Some(x) => x,
                        None => es.0.clone(),
                    };
                    let b = match b {
                        Some(x) => x,
                        None => es.1.clone(),
                    };
                    Some(Expr::Binary(*op, Box::new((a, b))))
                } else {
                    None
                }
            },
            Expr::Val(_) => None,
        }
    }

    pub fn rel(&self, cc: Cc, a: Expr, b: Expr) -> (r: Formula)
        ensures
            r@ == SpecFormula::Rel(cc, a@, b@),
    {
        Formula::Rel(cc, a, b)
    }

    pub fn eq(&self, a: Expr, b: Expr) -> (r: Formula)
        ensures
            r@ == SpecFormula::Rel(Cc::Eq, a@, b@),
    {
        Formula::Rel(Cc::Eq, a, b)
    }

    /// Mints an identifier that this builder has not handed out before from
    /// the same base: the base followed by the next index, which then moves
    /// up by one.
    pub fn var(&mut self, ident: Ident) -> (r: (Expr, Ident))
        ensures
            r.1@ == fresh_name(ident@, next_index(old(self)@, ident@)),
            r.0@ == SpecExpr::Var(r.1@),
            final(self)@ == minted(old(self)@, ident@),
    {
        let (text, next) = match self.id_counters.get(ident.as_str()) {
            Some(c) => (c.text(), c.next()),
            None => {
                let zero = Counter::zero();
                (zero.text(), zero.next())
            },
        };
        let ghost before = self.id_counters@;
        self.id_counters.insert(ident.clone(), next);
        assert(self@ =~= minted(before.map_values(|c: Counter| c.value()), ident@));
        let mut name = ident;
        name.append(text.as_str());
        (Expr::Var(name.clone()), name)
    }

    /// The expression that names `ident`; nothing is minted.
    pub fn var_ident(&self, ident: Ident) -> (r: Expr)
        ensures
            r@ == SpecExpr::Var(ident@),
    {
        Expr::Var(ident)
    }

    /// The variable that stands for a register, and its identifier.
    pub fn reg(&self, reg: Reg) -> (r: (Expr, Ident))
        ensures
            r.1@ == reg_name(reg),
            r.0@ == SpecExpr::Var(r.1@),
    {
        let n = reg.get();
        let mut id = String::new();
        id.push('r');
        id.push(digit_char(n));
        assert(id@ =~= reg_name(reg));
        (Expr::Var(id.clone()), id)
    }

    pub fn val(&self, i: Imm) -> (r: Expr)
        ensures
            r@ == SpecExpr::Val(i),
    {
        Expr::Val(i)
    }

    pub fn unop(&self, op: UnAlu, e: Expr) -> (r: Expr)
        ensures
            r@ == SpecExpr::Unary(op, Box::new(e@)),
    {
        Expr::Unary(op, Box::new(e))
    }

    pub fn binop(&self, op: BinAlu, a: Expr, b: Expr) -> (r: Expr)
        ensures
            r@ == SpecExpr::Binary(op, Box::new(a@), Box::new(b@)),
    {
        Expr::Binary(op, Box::new((a, b)))
    }

    pub fn is_buffer(&self, ptr: Ident, size: Expr) -> (r: Formula)
        ensures
            r@ == SpecFormula::IsBuffer(ptr@, size@),
    {
        Formula::IsBuffer(ptr, size)
    }
}

} // verus!
