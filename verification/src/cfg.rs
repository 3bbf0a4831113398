//! Control-flow graphs: basic blocks with an explicit continuation, built
//! from the lines of a program in one pass.

use vstd::prelude::*;
use vstd::hash_map::StringHashMap;
use crate::listing::{instr_text, write_instr};
use crate::ast;
use crate::ast::{
    BinAlu, Cc, Formula, Imm, Label, MemRef, Reg, RegImm, SpecFormula, UnAlu, WordSize,
};

use crate::decimal::{decimal, push_decimal};

pub mod create;
pub mod model;

verus! {

/// One instruction of a block's body. Jumps are not among them: they end a
/// block and are its continuation.
#[derive(Debug, PartialEq, Eq)]
pub enum Instr {
    /// Must hold at this point of the program.
    Assert(Formula),
    Unary(WordSize, UnAlu, Reg),
    Binary(WordSize, BinAlu, Reg, RegImm),
    Store(WordSize, MemRef, RegImm),
    Load(WordSize, Reg, MemRef),
    LoadImm(Reg, Imm),
    LoadMapFd(Reg, Imm),
    Call(Imm),
}

/// Model of [`Instr`].
pub enum SpecInstr {
    Assert(SpecFormula),
    Unary(WordSize, UnAlu, Reg),
    Binary(WordSize, BinAlu, Reg, RegImm),
    Store(WordSize, MemRef, RegImm),
    Load(WordSize, Reg, MemRef),
    LoadImm(Reg, Imm),
    LoadMapFd(Reg, Imm),
    Call(Imm),
}

impl SpecInstr {
    /// Whether the instruction has a meaning here: ALU operations are
    /// modelled at 64 bits only.
    pub open spec fn supported(self) -> bool {
        match self {
            SpecInstr::Unary(size, _, _) => size == WordSize::B64,
            SpecInstr::Binary(size, _, _, _) => size == WordSize::B64,
            _ => true,
        }
    }
}

impl View for Instr {
    type V = SpecInstr;

    open spec fn view(&self) -> SpecInstr {
        match self {
            Instr::Assert(f) => SpecInstr::Assert(f@),
            Instr::Unary(s, op, r) => SpecInstr::Unary(*s, *op, *r),
            Instr::Binary(s, op, d, src) => SpecInstr::Binary(*s, *op, *d, *src),
            Instr::Store(s, m, src) => SpecInstr::Store(*s, *m, *src),
            Instr::Load(s, d, m) => SpecInstr::Load(*s, *d, *m),
            Instr::LoadImm(d, i) => SpecInstr::LoadImm(*d, *i),
            Instr::LoadMapFd(d, i) => SpecInstr::LoadMapFd(*d, *i),
            Instr::Call(i) => SpecInstr::Call(*i),
        }
    }
}

/// How a block ends.
#[derive(Debug, PartialEq, Eq)]
pub enum Continuation {
    Exit,
    Jmp(Label),
    /// Compare, then go to the first label where the comparison holds and
    /// to the second where it does not.
    Jcc(Cc, Reg, RegImm, Label, Label),
}

/// Model of [`Continuation`].
pub enum SpecContinuation {
    Exit,
    Jmp(Seq<char>),
    Jcc(Cc, Reg, RegImm, Seq<char>, Seq<char>),
}

impl View for Continuation {
    type V = SpecContinuation;

    open spec fn view(&self) -> SpecContinuation {
        match self {
            Continuation::Exit => SpecContinuation::Exit,
            Continuation::Jmp(t) => SpecContinuation::Jmp(t@),
            Continuation::Jcc(cc, r, ri, t, f) => SpecContinuation::Jcc(*cc, *r, *ri, t@, f@),
        }
    }
}

/// A basic block: an optional invariant that cuts every loop through the
/// block, a straight-line body and a continuation.
#[derive(Debug, PartialEq, Eq)]
pub struct Block {
    pub require: Option<Formula>,
    pub body: Vec<Instr>,
    pub next: Continuation,
}

/// Model of [`Block`].
pub struct SpecBlock {
    pub require: Option<SpecFormula>,
    pub body: Seq<SpecInstr>,
    pub next: SpecContinuation,
}

/// The model of an optional formula.
pub open spec fn view_opt(f: Option<Formula>) -> Option<SpecFormula> {
    match f {
        Some(x) => Some(x@),
        None => None,
    }
}

/// The model of an optional label.
pub open spec fn view_opt_label(l: Option<Label>) -> Option<Seq<char>> {
    match l {
        Some(x) => Some(x@),
        None => None,
    }
}

/// The model of a body.
pub open spec fn view_body(body: Seq<Instr>) -> Seq<SpecInstr> {
    body.map_values(|i: Instr| i@)
}

impl View for Block {
    type V = SpecBlock;

    open spec fn view(&self) -> SpecBlock {
        SpecBlock {
            require: view_opt(self.require),
            body: view_body(self.body@),
            next: self.next@,
        }
    }
}

/// A program as a graph: what holds at entry, what must hold at every
/// exit, the label of the entry block, and the blocks by label.
pub struct Cfg {
    pub requires: Formula,
    pub ensures: Formula,
    pub start: Label,
    pub blocks: StringHashMap<Block>,
}

/// Model of [`Cfg`].
pub struct SpecCfg {
    pub requires: SpecFormula,
    pub ensures: SpecFormula,
    pub start: Seq<char>,
    pub blocks: Map<Seq<char>, SpecBlock>,
}

impl View for Cfg {
    type V = SpecCfg;

    open spec fn view(&self) -> SpecCfg {
        SpecCfg {
            requires: self.requires@,
            ensures: self.ensures@,
            start: self.start@,
            blocks: self.blocks@.map_values(|b: Block| b@),
        }
    }
}

/// The first label of a continuation that `blocks` has no block for.
pub open spec fn dangling(blocks: Set<Seq<char>>, next: SpecContinuation) -> Option<Seq<char>> {
    match next {
        SpecContinuation::Exit => None,
        SpecContinuation::Jmp(t) => if blocks.contains(t) {
            None
        } else {
            Some(t)
        },
        SpecContinuation::Jcc(_, _, _, t, f) => if !blocks.contains(t) {
            Some(t)
        } else if !blocks.contains(f) {
            Some(f)
        } else {
            None
        },
    }
}

/// Whether every instruction of a body has a meaning.
pub open spec fn supported_body(body: Seq<SpecInstr>) -> bool {
    forall|i: int| 0 <= i < body.len() ==> (#[trigger] body[i]).supported()
}

impl SpecCfg {
    /// Whether every label that the continuation of the block `l` names
    /// has a block.
    pub open spec fn closed_at(self, l: Seq<char>) -> bool {
        dangling(self.blocks.dom(), self.blocks[l].next) is None
    }

    /// Whether every instruction of the block `l` has a meaning.
    pub open spec fn supported_at(self, l: Seq<char>) -> bool {
        supported_body(self.blocks[l].body)
    }

    /// A graph is well formed when it has finitely many blocks, one of them
    /// under the entry label, when every label that a continuation names
    /// has a block, and when every instruction has a meaning.
    pub open spec fn wf(self) -> bool {
        &&& self.blocks.dom().finite()
        &&& self.blocks.contains_key(self.start)
        &&& forall|l: Seq<char>| self.blocks.contains_key(l) ==> #[trigger] self.closed_at(l)
        &&& forall|l: Seq<char>| self.blocks.contains_key(l) ==> #[trigger] self.supported_at(l)
    }
}

/// Why a program could not be turned into a graph.
#[derive(Debug, PartialEq, Eq)]
pub enum ConvertErr {
    /// The last line is not `exit`.
    NoExit,
    /// A jump by offset leaves the program. Jumps here go to labels, so
    /// this is never reported.
    JumpBounds { target: usize, bound: usize },
    /// A jump names a label that stands for no block: neither the label
    /// nor any label that took its place was given one.
    NoLabel(String),
    /// An ALU operation of a width other than 64 bits.
    Unsupported(ast::Instr),
    /// An invariant after the first instruction of its block.
    MisplacedRequire,
    /// Two blocks under one label.
    DuplicateLabel(String),
}

/// Model of [`ConvertErr`].
pub enum SpecConvertErr {
    NoExit,
    JumpBounds { target: usize, bound: usize },
    NoLabel(Seq<char>),
    Unsupported(ast::SpecInstr),
    MisplacedRequire,
    DuplicateLabel(Seq<char>),
}

impl View for ConvertErr {
    type V = SpecConvertErr;

    open spec fn view(&self) -> SpecConvertErr {
        match self {
            ConvertErr::NoExit => SpecConvertErr::NoExit,
            ConvertErr::JumpBounds { target, bound } => SpecConvertErr::JumpBounds {
                target: *target,
                bound: *bound,
            },
            ConvertErr::NoLabel(l) => SpecConvertErr::NoLabel(l@),
            ConvertErr::Unsupported(i) => SpecConvertErr::Unsupported(i@),
            ConvertErr::MisplacedRequire => SpecConvertErr::MisplacedRequire,
            ConvertErr::DuplicateLabel(l) => SpecConvertErr::DuplicateLabel(l@),
        }
    }
}

/// What a failure says, as text.
pub open spec fn message_text(e: SpecConvertErr) -> Seq<char> {
    match e {
        SpecConvertErr::NoExit => "Last instruction must be \"exit\""@,
        SpecConvertErr::NoLabel(l) => "Jump target \""@ + l + "\" doesn't exist"@,
        SpecConvertErr::JumpBounds { target, bound } => "Jump target "@ + decimal(target as nat)
            + " outside bound "@ + decimal(bound as nat),
        SpecConvertErr::Unsupported(i) => "Unsupported instruction: "@ + instr_text(i),
        SpecConvertErr::MisplacedRequire =>
            "Requirements can only be placed at the start of blocks"@,
        SpecConvertErr::DuplicateLabel(l) => "Duplicate label \""@ + l + "\""@,
    }
}

impl ConvertErr {
    /// What the failure says, for a reader.
    pub fn message(&self) -> (r: String)
        ensures
            r@ == message_text(self@),
    {
        let mut out = String::new();
        match self {
            ConvertErr::NoExit => {
                out.append("Last instruction must be \"exit\"");
            },
            ConvertErr::NoLabel(l) => {
                out.append("Jump target \"");
                out.append(l.as_str());
                out.append("\" doesn't exist");
            },
            ConvertErr::JumpBounds { target, bound } => {
                out.append("Jump target ");
                push_decimal(&mut out, *target as u64);
                out.append(" outside bound ");
                push_decimal(&mut out, *bound as u64);
            },
            ConvertErr::Unsupported(i) => {
                out.append("Unsupported instruction: ");
                write_instr(&mut out, i);
            },
            ConvertErr::MisplacedRequire => {
                out.append("Requirements can only be placed at the start of blocks");
            },
            ConvertErr::DuplicateLabel(l) => {
                out.append("Duplicate label \"");
                out.append(l.as_str());
                out.append("\"");
            },
        }
        assert(out@ =~= message_text(self@));
        out
    }
}

impl Cfg {
    /// The block under `label`, if there is one.
    pub fn block(&self, label: &str) -> (r: Option<&Block>)
        ensures
            match r {
                Some(b) => self@.blocks.contains_key(label@) && self@.blocks[label@] == b@,
                None => !self@.blocks.contains_key(label@),
            },
    {
        self.blocks.get(label)
    }

    /// How many blocks the graph has.
    pub fn len(&self) -> (r: usize)
        ensures
            r == self@.blocks.dom().len(),
    {
        proof {
            assert(self@.blocks.dom() =~= self.blocks@.dom());
        }
        self.blocks.len()
    }
}

} // verus!
