//! Instructions as assembly text, as they are named in messages.

use vstd::prelude::*;
use crate::ast::{BinAlu, Cc, Instr, MemRef, Reg, RegImm, SpecInstr, UnAlu, WordSize};
use crate::decimal::{push_decimal, push_signed, signed_decimal};
use crate::formula::reg_name;

verus! {

/// The name of a unary operation.
pub open spec fn un_alu_name(op: UnAlu) -> Seq<char> {
    match op {
        UnAlu::Neg => "neg"@,
        UnAlu::Le => "le"@,
        UnAlu::Be => "be"@,
    }
}

/// The name of a binary operation.
pub open spec fn bin_alu_name(op: BinAlu) -> Seq<char> {
    match op {
        BinAlu::Mov => "mov"@,
        BinAlu::Add => "add"@,
        BinAlu::Sub => "sub"@,
        BinAlu::Mul => "mul"@,
        BinAlu::Div => "div"@,
        BinAlu::Mod => "mod"@,
        BinAlu::And => "and"@,
        BinAlu::Or => "or"@,
        BinAlu::Xor => "xor"@,
        BinAlu::Lsh => "lsh"@,
        BinAlu::Rsh => "rsh"@,
        BinAlu::Arsh => "arsh"@,
    }
}

/// The name of a comparison.
pub open spec fn cc_name(cc: Cc) -> Seq<char> {
    match cc {
        Cc::Eq => "eq"@,
        Cc::Gt => "gt"@,
        Cc::Ge => "ge"@,
        Cc::Lt => "lt"@,
        Cc::Le => "le"@,
        Cc::Jset => "set"@,
        Cc::Ne => "ne"@,
        Cc::Sgt => "sgt"@,
        Cc::Sge => "sge"@,
        Cc::Slt => "slt"@,
        Cc::Sle => "sle"@,
    }
}

/// What follows the name of an ALU operation of a width: nothing for 64
/// bits, else the number of bits.
pub open spec fn alu_suffix(size: WordSize) -> Seq<char> {
    match size {
        WordSize::B8 => "8"@,
        WordSize::B16 => "16"@,
        WordSize::B32 => "32"@,
        WordSize::B64 => ""@,
    }
}

/// What follows `ldx`, `st` or `stx` for an access of a width.
pub open spec fn mem_suffix(size: WordSize) -> Seq<char> {
    match size {
        WordSize::B8 => "b"@,
        WordSize::B16 => "h"@,
        WordSize::B32 => "w"@,
        WordSize::B64 => "dw"@,
    }
}

/// A source operand as text.
pub open spec fn operand_text(src: RegImm) -> Seq<char> {
    match src {
        RegImm::Reg(r) => reg_name(r),
        RegImm::Imm(i) => signed_decimal(i as int),
    }
}

/// A memory reference as text: `[r1]`, `[r1 + 4]` or `[r1 - 4]`.
pub open spec fn mem_text(mem: MemRef) -> Seq<char> {
    if mem.1 == 0 {
        "["@ + reg_name(mem.0) + "]"@
    } else if mem.1 > 0 {
        "["@ + reg_name(mem.0) + " + "@ + signed_decimal(mem.1 as int) + "]"@
    } else {
        "["@ + reg_name(mem.0) + " - "@ + signed_decimal(-(mem.1 as int)) + "]"@
    }
}

/// An instruction as text: its name, then its operands with commas
/// between them.
pub open spec fn instr_text(i: SpecInstr) -> Seq<char> {
    match i {
        SpecInstr::Unary(size, op, r) => un_alu_name(op) + alu_suffix(size) + " "@ + reg_name(r),
        SpecInstr::Binary(size, op, d, src) => bin_alu_name(op) + alu_suffix(size) + " "@
            + reg_name(d) + ", "@ + operand_text(src),
        SpecInstr::Store(size, mem, src) => (match src {
            RegImm::Reg(_) => "stx"@,
            RegImm::Imm(_) => "st"@,
        }) + mem_suffix(size) + " "@ + mem_text(mem) + ", "@ + operand_text(src),
        SpecInstr::Load(size, d, mem) => "ldx"@ + mem_suffix(size) + " "@ + reg_name(d) + ", "@
            + mem_text(mem),
        SpecInstr::LoadImm(d, v) => "lddw "@ + reg_name(d) + ", "@ + signed_decimal(v as int),
        SpecInstr::LoadMapFd(d, v) => "ldmapfd "@ + reg_name(d) + ", "@ + signed_decimal(
            v as int,
        ),
        SpecInstr::Jmp(l) => "ja "@ + l,
        SpecInstr::Jcc(cc, a, b, l) => "j"@ + cc_name(cc) + " "@ + reg_name(a) + ", "@
            + operand_text(b) + ", "@ + l,
        SpecInstr::Call(v) => "call "@ + signed_decimal(v as int),
        SpecInstr::Exit => "exit"@,
    }
}

/// Appends the name of a register.
fn push_reg(out: &mut String, r: Reg)
    ensures
        final(out)@ == old(out)@ + reg_name(r),
{
    out.append("r");
    push_decimal(out, r.get() as u64);
    proof {
        reveal_strlit("r");
        assert(out@ =~= old(out)@ + reg_name(r));
    }
}

/// Appends a source operand.
fn push_operand(out: &mut String, src: &RegImm)
    ensures
        final(out)@ == old(out)@ + operand_text(*src),
{
    match src {
        RegImm::Reg(r) => push_reg(out, *r),
        RegImm::Imm(i) => push_signed(out, *i),
    }
}

/// Appends a memory reference.
fn push_mem(out: &mut String, mem: &MemRef)
    ensures
        final(out)@ == old(out)@ + mem_text(*mem),
{
    out.append("[");
    push_reg(out, mem.0);
    if mem.1 > 0 {
        out.append(" + ");
        push_signed(out, mem.1);
    } else if mem.1 < 0 {
        out.append(" - ");
        let magnitude: u64 = ((-(mem.1 + 1)) as u64) + 1;
        push_decimal(out, magnitude);
    }
    out.append("]");
    assert(out@ =~= old(out)@ + mem_text(*mem));
}

/// Appends what follows the name of a memory access.
fn push_mem_suffix(out: &mut String, size: WordSize)
    ensures
        final(out)@ == old(out)@ + mem_suffix(size),
{
    out.append(
        match size {
            WordSize::B8 => "b",
            WordSize::B16 => "h",
            WordSize::B32 => "w",
            WordSize::B64 => "dw",
        },
    );
}

/// Appends what follows the name of an ALU operation.
fn push_alu_suffix(out: &mut String, size: WordSize)
    ensures
        final(out)@ == old(out)@ + alu_suffix(size),
{
    out.append(
        match size {
            WordSize::B8 => "8",
            WordSize::B16 => "16",
            WordSize::B32 => "32",
            WordSize::B64 => "",
        },
    );
}

/// Appends the name of a unary operation.
pub fn push_un_alu(out: &mut String, op: UnAlu)
    ensures
        final(out)@ == old(out)@ + un_alu_name(op),
{
    out.append(
        match op {
            UnAlu::Neg => "neg",
            UnAlu::Le => "le",
            UnAlu::Be => "be",
        },
    );
}

/// Appends the name of a binary operation.
pub fn push_bin_alu(out: &mut String, op: BinAlu)
    ensures
        final(out)@ == old(out)@ + bin_alu_name(op),
{
    out.append(
        match op {
            BinAlu::Mov => "mov",
            BinAlu::Add => "add",
            BinAlu::Sub => "sub",
            BinAlu::Mul => "mul",
            BinAlu::Div => "div",
            BinAlu::Mod => "mod",
            BinAlu::And => "and",
            BinAlu::Or => "or",
            BinAlu::Xor => "xor",
            BinAlu::Lsh => "lsh",
            BinAlu::Rsh => "rsh",
            BinAlu::Arsh => "arsh",
        },
    );
}

/// Appends the name of a comparison.
pub fn push_cc(out: &mut String, cc: Cc)
    ensures
        final(out)@ == old(out)@ + cc_name(cc),
{
    out.append(
        match cc {
            Cc::Eq => "eq",
            Cc::Gt => "gt",
            Cc::Ge => "ge",
            Cc::Lt => "lt",
            Cc::Le => "le",
            Cc::Jset => "set",
            Cc::Ne => "ne",
            Cc::Sgt => "sgt",
            Cc::Sge => "sge",
            Cc::Slt => "slt",
            Cc::Sle => "sle",
        },
    );
}

/// Appends a unary instruction.
fn write_unary(out: &mut String, size: WordSize, op: UnAlu, r: Reg)
    ensures
        final(out)@ == old(out)@ + instr_text(SpecInstr::Unary(size, op, r)),
{
    push_un_alu(out, op);
    push_alu_suffix(out, size);
    out.append(" ");
    push_reg(out, r);
    assert(out@ =~= old(out)@ + instr_text(SpecInstr::Unary(size, op, r)));
}

/// Appends a binary instruction.
fn write_binary(out: &mut String, size: WordSize, op: BinAlu, d: Reg, src: &RegImm)
    ensures
        final(out)@ == old(out)@ + instr_text(SpecInstr::Binary(size, op, d, *src)),
{
    push_bin_alu(out, op);
    push_alu_suffix(out, size);
    out.append(" ");
    push_reg(out, d);
    out.append(", ");
    push_operand(out, src);
    assert(out@ =~= old(out)@ + instr_text(SpecInstr::Binary(size, op, d, *src)));
}

/// Appends a store.
fn write_store(out: &mut String, size: WordSize, mem: &MemRef, src: &RegImm)
    ensures
        final(out)@ == old(out)@ + instr_text(SpecInstr::Store(size, *mem, *src)),
{
    out.append(
        match src {
            RegImm::Reg(_) => "stx",
            RegImm::Imm(_) => "st",
        },
    );
    push_mem_suffix(out, size);
    out.append(" ");
    push_mem(out, mem);
    out.append(", ");
    push_operand(out, src);
    assert(out@ =~= old(out)@ + instr_text(SpecInstr::Store(size, *mem, *src)));
}

/// Appends a load.
fn write_load(out: &mut String, size: WordSize, d: Reg, mem: &MemRef)
    ensures
        final(out)@ == old(out)@ + instr_text(SpecInstr::Load(size, d, *mem)),
{
    out.append("ldx");
    push_mem_suffix(out, size);
    out.append(" ");
    push_reg(out, d);
    out.append(", ");
    push_mem(out, mem);
    assert(out@ =~= old(out)@ + instr_text(SpecInstr::Load(size, d, *mem)));
}

/// Appends a conditional jump.
fn write_jcc(out: &mut String, cc: Cc, a: Reg, b: &RegImm, l: &str)
    ensures
        final(out)@ == old(out)@ + instr_text(SpecInstr::Jcc(cc, a, *b, l@)),
{
    out.append("j");
    push_cc(out, cc);
    out.append(" ");
    push_reg(out, a);
    out.append(", ");
    push_operand(out, b);
    out.append(", ");
    out.append(l);
    assert(out@ =~= old(out)@ + instr_text(SpecInstr::Jcc(cc, a, *b, l@)));
}

/// Appends a name, a register and a number.
fn write_with_number(out: &mut String, name: &str, d: Reg, v: i64)
    ensures
        final(out)@ == old(out)@ + (name@ + reg_name(d) + ", "@ + signed_decimal(v as int)),
{
    out.append(name);
    push_reg(out, d);
    out.append(", ");
    push_signed(out, v);
    assert(out@ =~= old(out)@ + (name@ + reg_name(d) + ", "@ + signed_decimal(v as int)));
}

/// Appends an instruction.
pub fn write_instr(out: &mut String, i: &Instr)
    ensures
        final(out)@ == old(out)@ + instr_text(i@),
{
    match i {
        Instr::Unary(size, op, r) => write_unary(out, *size, *op, *r),
        Instr::Binary(size, op, d, src) => write_binary(out, *size, *op, *d, src),
        Instr::Store(size, mem, src) => write_store(out, *size, mem, src),
        Instr::Load(size, d, mem) => write_load(out, *size, *d, mem),
        Instr::LoadImm(d, v) => write_with_number(out, "lddw ", *d, *v),
        Instr::LoadMapFd(d, v) => write_with_number(out, "ldmapfd ", *d, *v),
        Instr::Jmp(l) => {
            out.append("ja ");
            out.append(l.as_str());
            assert(out@ =~= old(out)@ + instr_text(i@));
        },
        Instr::Jcc(cc, a, b, l) => write_jcc(out, *cc, *a, b, l.as_str()),
        Instr::Call(v) => {
            out.append("call ");
            push_signed(out, *v);
            assert(out@ =~= old(out)@ + instr_text(i@));
        },
        Instr::Exit => {
            out.append("exit");
        },
    }
}

} // verus!
