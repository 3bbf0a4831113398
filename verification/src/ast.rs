//! Syntax trees: instructions, expressions and formulas, each with the
//! mathematical model that contracts speak of.

use vstd::prelude::*;

verus! {

/// Width of a memory access or of an ALU operation.
#[derive(Debug, Clone, Copy, PartialEq, Eq, Structural)]
pub enum WordSize {
    B8,
    B16,
    B32,
    B64,
}

/// Comparison codes of conditional jumps and of relations in formulas.
#[derive(Debug, Clone, Copy, PartialEq, Eq, Structural)]
pub enum Cc {
    Eq,
    Gt,
    Ge,
    Lt,
    Le,
    /// Bit test: some bit is set in both operands.
    Jset,
    Ne,
    Sgt,
    Sge,
    Slt,
    Sle,
}

/// Unary ALU operations.
#[derive(Debug, Clone, Copy, PartialEq, Eq, Structural)]
pub enum UnAlu {
    Neg,
    Le,
    Be,
}

/// Binary ALU operations.
#[derive(Debug, Clone, Copy, PartialEq, Eq, Structural)]
pub enum BinAlu {
    Mov,
    Add,
    Sub,
    Mul,
    Div,
    Mod,
    And,
    Or,
    Xor,
    Lsh,
    Rsh,
    Arsh,
}

/// One of the ten general-purpose registers `r0` to `r9`.
#[derive(Debug, Clone, Copy, PartialEq, Eq, Structural)]
pub struct Reg(u8);

impl Reg {
    /// The register's number.
    pub closed spec fn index(self) -> u8 {
        self.0
    }

    #[verifier::type_invariant]
    spec fn below_ten(self) -> bool {
        self.0 < 10
    }

    /// The register numbered `id`, for `id` below ten.
    pub closed spec fn of(id: u8) -> Reg {
        Reg(id)
    }

    /// A register is known by its number: the register numbered `id` has
    /// that number, and every register is the one of its number.
    pub proof fn law_known_by_number(id: u8, r: Reg)
        ensures
            Reg::of(id).index() == id,
            Reg::of(r.index()) == r,
    {
    }

    /// The register numbered `id`, if there is one.
    pub fn new(id: u8) -> (r: Option<Self>)
        ensures
            r is Some <==> id < 10,
            r is Some ==> r->0.index() == id && r->0 == Reg::of(id),
    {
        if id < 10 {
            Some(Self(id))
        } else {
            None
        }
    }

    /// The register's number, always below ten. It tells the register:
    /// `Reg::new` of it gives the same register back.
    pub fn get(&self) -> (r: u8)
        ensures
            r == self.index(),
            r < 10,
            *self == Reg::of(r),
    {
        proof {
            use_type_invariant(self);
        }
        self.0
    }
}

pub type Imm = i64;

pub type Offset = i64;

pub type Label = String;

pub type Ident = String;

/// A source operand: a register or an immediate.
#[derive(Debug, Clone, Copy, PartialEq, Eq, Structural)]
pub enum RegImm {
    Reg(Reg),
    Imm(Imm),
}

/// A memory reference: base register and byte offset.
#[derive(Debug, Clone, Copy, PartialEq, Eq, Structural)]
pub struct MemRef(pub Reg, pub Offset);

/// One instruction of the source text, jumps included.
#[derive(Debug, PartialEq, Eq)]
pub enum Instr {
    Unary(WordSize, UnAlu, Reg),
    Binary(WordSize, BinAlu, Reg, RegImm),
    Store(WordSize, MemRef, RegImm),
    Load(WordSize, Reg, MemRef),
    LoadImm(Reg, Imm),
    LoadMapFd(Reg, Imm),
    Jmp(Label),
    Jcc(Cc, Reg, RegImm, Label),
    Call(Imm),
    Exit,
}

/// Model of [`Instr`]: labels are character sequences.
pub enum SpecInstr {
    Unary(WordSize, UnAlu, Reg),
    Binary(WordSize, BinAlu, Reg, RegImm),
    Store(WordSize, MemRef, RegImm),
    Load(WordSize, Reg, MemRef),
    LoadImm(Reg, Imm),
    LoadMapFd(Reg, Imm),
    Jmp(Seq<char>),
    Jcc(Cc, Reg, RegImm, Seq<char>),
    Call(Imm),
    Exit,
}

impl View for Instr {
    type V = SpecInstr;

    open spec fn view(&self) -> SpecInstr {
        match self {
            Instr::Unary(s, op, r) => SpecInstr::Unary(*s, *op, *r),
            Instr::Binary(s, op, d, src) => SpecInstr::Binary(*s, *op, *d, *src),
            Instr::Store(s, m, src) => SpecInstr::Store(*s, *m, *src),
            Instr::Load(s, d, m) => SpecInstr::Load(*s, *d, *m),
            Instr::LoadImm(d, i) => SpecInstr::LoadImm(*d, *i),
            Instr::LoadMapFd(d, i) => SpecInstr::LoadMapFd(*d, *i),
            Instr::Jmp(l) => SpecInstr::Jmp(l@),
            Instr::Jcc(cc, r, ri, l) => SpecInstr::Jcc(*cc, *r, *ri, l@),
            Instr::Call(i) => SpecInstr::Call(*i),
            Instr::Exit => SpecInstr::Exit,
        }
    }
}

impl Clone for Instr {
    fn clone(&self) -> (r: Self)
        ensures
            r@ == self@,
    {
        match self {
            Instr::Unary(s, op, r) => Instr::Unary(*s, *op, *r),
            Instr::Binary(s, op, d, src) => Instr::Binary(*s, *op, *d, *src),
            Instr::Store(s, m, src) => Instr::Store(*s, *m, *src),
            Instr::Load(s, d, m) => Instr::Load(*s, *d, *m),
            Instr::LoadImm(d, i) => Instr::LoadImm(*d, *i),
            Instr::LoadMapFd(d, i) => Instr::LoadMapFd(*d, *i),
            Instr::Jmp(l) => Instr::Jmp(l.clone()),
            Instr::Jcc(cc, r, ri, l) => Instr::Jcc(*cc, *r, *ri, l.clone()),
            Instr::Call(i) => Instr::Call(*i),
            Instr::Exit => Instr::Exit,
        }
    }
}

/// An expression over 64-bit values.
#[derive(Debug, PartialEq, Eq)]
pub enum Expr {
    Val(Imm),
    Var(Ident),
    Unary(UnAlu, Box<Expr>),
    Binary(BinAlu, Box<(Expr, Expr)>),
}

/// Model of [`Expr`].
pub enum SpecExpr {
    Val(Imm),
    Var(Seq<char>),
    Unary(UnAlu, Box<SpecExpr>),
    Binary(BinAlu, Box<SpecExpr>, Box<SpecExpr>),
}

impl View for Expr {
    type V = SpecExpr;

    open spec fn view(&self) -> SpecExpr
        decreases self,
    {
        match self {
            Expr::Val(i) => SpecExpr::Val(*i),
            Expr::Var(x) => SpecExpr::Var(x@),
            Expr::Unary(op, e) => SpecExpr::Unary(*op, Box::new((**e).view())),
            Expr::Binary(op, es) => SpecExpr::Binary(*op, Box::new(es.0@), Box::new(es.1@)),
        }
    }
}

impl Clone for Expr {
    fn clone(&self) -> (r: Self)
        ensures
            r@ == self@,
        decreases self,
    {
        match self {
            Expr::Val(i) => Expr::Val(*i),
            Expr::Var(x) => Expr::Var(x.clone()),
            Expr::Unary(op, e) => Expr::Unary(*op, Box::new((**e).clone())),
            Expr::Binary(op, es) => Expr::Binary(*op, Box::new((es.0.clone(), es.1.clone()))),
        }
    }
}

/// Binary connectives. `AndAsym` is the staged conjunction: its right side
/// is only read where its left side holds.
#[derive(Debug, Clone, Copy, PartialEq, Eq, Structural)]
pub enum FBinOp {
    And,
    Or,
    Implies,
    Iff,
    AndAsym,
}

/// Quantifier kinds.
#[derive(Debug, Clone, Copy, PartialEq, Eq, Structural)]
pub enum QType {
    Exists,
    Forall,
}

/// A first-order formula.
#[derive(Debug, PartialEq, Eq)]
pub enum Formula {
    Val(bool),
    Not(Box<Formula>),
    Bin(FBinOp, Box<(Formula, Formula)>),
    Quant(QType, Ident, Box<Formula>),
    Rel(Cc, Expr, Expr),
    IsBuffer(Ident, Expr),
}

/// Model of [`Formula`].
pub enum SpecFormula {
    Val(bool),
    Not(Box<SpecFormula>),
    Bin(FBinOp, Box<SpecFormula>, Box<SpecFormula>),
    Quant(QType, Seq<char>, Box<SpecFormula>),
    Rel(Cc, SpecExpr, SpecExpr),
    IsBuffer(Seq<char>, SpecExpr),
}

impl View for Formula {
    type V = SpecFormula;

    open spec fn view(&self) -> SpecFormula
        decreases self,
    {
        match self {
            Formula::Val(b) => SpecFormula::Val(*b),
            Formula::Not(f) => SpecFormula::Not(Box::new((**f).view())),
            Formula::Bin(op, fs) => SpecFormula::Bin(*op, Box::new(fs.0@), Box::new(fs.1@)),
            Formula::Quant(q, x, f) => SpecFormula::Quant(*q, x@, Box::new((**f).view())),
            Formula::Rel(cc, a, b) => SpecFormula::Rel(*cc, a@, b@),
            Formula::IsBuffer(p, s) => SpecFormula::IsBuffer(p@, s@),
        }
    }
}

impl Clone for Formula {
    fn clone(&self) -> (r: Self)
        ensures
            r@ == self@,
        decreases self,
    {
        match self {
            Formula::Val(b) => Formula::Val(*b),
            Formula::Not(f) => Formula::Not(Box::new((**f).clone())),
            Formula::Bin(op, fs) => Formula::Bin(*op, Box::new((fs.0.clone(), fs.1.clone()))),
            Formula::Quant(q, x, f) => Formula::Quant(*q, x.clone(), Box::new((**f).clone())),
            Formula::Rel(cc, a, b) => Formula::Rel(*cc, a.clone(), b.clone()),
            Formula::IsBuffer(p, s) => Formula::IsBuffer(p.clone(), s.clone()),
        }
    }
}

/// A logical annotation between instructions.
#[derive(Debug, PartialEq, Eq)]
pub enum FormulaLine {
    /// Must hold at this point of the program.
    Assert(Formula),
    /// Invariant of the block that starts here.
    Require(Formula),
}

/// Model of [`FormulaLine`].
pub enum SpecFormulaLine {
    Assert(SpecFormula),
    Require(SpecFormula),
}

impl View for FormulaLine {
    type V = SpecFormulaLine;

    open spec fn view(&self) -> SpecFormulaLine {
        match self {
            FormulaLine::Assert(f) => SpecFormulaLine::Assert(f@),
            FormulaLine::Require(f) => SpecFormulaLine::Require(f@),
        }
    }
}

/// One line of the source text.
#[derive(Debug, PartialEq, Eq)]
pub enum Line {
    Label(Label),
    Formula(FormulaLine),
    Instr(Instr),
}

/// Model of [`Line`].
pub enum SpecLine {
    Label(Seq<char>),
    Formula(SpecFormulaLine),
    Instr(SpecInstr),
}

impl View for Line {
    type V = SpecLine;

    open spec fn view(&self) -> SpecLine {
        match self {
            Line::Label(l) => SpecLine::Label(l@),
            Line::Formula(f) => SpecLine::Formula(f@),
            Line::Instr(i) => SpecLine::Instr(i@),
        }
    }
}

/// An annotated program as written: what must hold at entry, what must hold
/// at every exit, and the lines in order.
#[derive(Debug, PartialEq, Eq)]
pub struct Module {
    pub requires: Vec<Formula>,
    pub ensures: Vec<Formula>,
    pub lines: Vec<Line>,
}

/// Model of [`Module`].
pub struct SpecModule {
    pub requires: Seq<SpecFormula>,
    pub ensures: Seq<SpecFormula>,
    pub lines: Seq<SpecLine>,
}

/// The models of a sequence of formulas.
pub open spec fn formulas(s: Seq<Formula>) -> Seq<SpecFormula> {
    s.map_values(|f: Formula| f@)
}

/// The models of a sequence of lines.
pub open spec fn lines_of(s: Seq<Line>) -> Seq<SpecLine> {
    s.map_values(|l: Line| l@)
}

impl View for Module {
    type V = SpecModule;

    open spec fn view(&self) -> SpecModule {
        SpecModule {
            requires: formulas(self.requires@),
            ensures: formulas(self.ensures@),
            lines: lines_of(self.lines@),
        }
    }
}

} // verus!
