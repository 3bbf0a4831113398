//! Reading instructions.

use vstd::prelude::*;
use crate::ast::Instr;
use crate::parse::grammar;
use crate::parse::token::{
    agrees_view, alu_size, at, bin_alu, blanks1, cc, ident, imm, isep, mem_ref, mem_size, reg,
    reg_imm, tag, un_alu,
};

verus! {

/// A unary instruction.
pub fn unary(s: &[char], i: usize) -> (r: Option<(Instr, usize)>)
    requires
        i <= s@.len(),
    ensures
        agrees_view(r, grammar::unary(s@, i as int), i, s@.len()),
{
    let (op, j) = match un_alu(s, i) {
        Some(x) => x,
        None => {
            return None;
        },
    };
    let (size, k) = alu_size(s, j);
    let m = match blanks1(s, k) {
        Some(x) => x,
        None => {
            return None;
        },
    };
    match reg(s, m) {
        Some((r, n)) => Some((Instr::Unary(size, op, r), n)),
        None => None,
    }
}

/// A binary instruction.
pub fn binary(s: &[char], i: usize) -> (r: Option<(Instr, usize)>)
    requires
        i <= s@.len(),
    ensures
        agrees_view(r, grammar::binary(s@, i as int), i, s@.len()),
{
    let (op, j) = match bin_alu(s, i) {
        Some(x) => x,
        None => {
            return None;
        },
    };
    let (size, k) = alu_size(s, j);
    let m = match blanks1(s, k) {
        Some(x) => x,
        None => {
            return None;
        },
    };
    let (d, n) = match reg(s, m) {
        Some(x) => x,
        None => {
            return None;
        },
    };
    let p = match isep(s, n) {
        Some(x) => x,
        None => {
            return None;
        },
    };
    match reg_imm(s, p) {
        Some((src, q)) => Some((Instr::Binary(size, op, d, src), q)),
        None => None,
    }
}

/// A load.
pub fn load(s: &[char], i: usize) -> (r: Option<(Instr, usize)>)
    requires
        i <= s@.len(),
    ensures
        agrees_view(r, grammar::load(s@, i as int), i, s@.len()),
{
    let j = match tag(s, i, "ldx") {
        Some(x) => x,
        None => {
            return None;
        },
    };
    let (size, k) = match mem_size(s, j) {
        Some(x) => x,
        None => {
            return None;
        },
    };
    let m = match blanks1(s, k) {
        Some(x) => x,
        None => {
            return None;
        },
    };
    let (d, n) = match reg(s, m) {
        Some(x) => x,
        None => {
            return None;
        },
    };
    let p = match isep(s, n) {
        Some(x) => x,
        None => {
            return None;
        },
    };
    match mem_ref(s, p) {
        Some((mem, q)) => Some((Instr::Load(size, d, mem), q)),
        None => None,
    }
}

/// A load of an immediate.
pub fn load_imm(s: &[char], i: usize) -> (r: Option<(Instr, usize)>)
    requires
        i <= s@.len(),
    ensures
        agrees_view(r, grammar::load_imm(s@, i as int), i, s@.len()),
{
    let j = match tag(s, i, "lddw") {
        Some(x) => x,
        None => {
            return None;
        },
    };
    let m = match blanks1(s, j) {
        Some(x) => x,
        None => {
            return None;
        },
    };
    let (d, n) = match reg(s, m) {
        Some(x) => x,
        None => {
            return None;
        },
    };
    let p = match isep(s, n) {
        Some(x) => x,
        None => {
            return None;
        },
    };
    match imm(s, p) {
        Some((v, q)) => Some((Instr::LoadImm(d, v), q)),
        None => None,
    }
}

/// A store.
pub fn store(s: &[char], i: usize) -> (r: Option<(Instr, usize)>)
    requires
        i <= s@.len(),
    ensures
        agrees_view(r, grammar::store(s@, i as int), i, s@.len()),
{
    let j = match tag(s, i, "stx") {
        Some(x) => x,
        None => match tag(s, i, "st") {
            Some(x) => x,
            None => {
                return None;
            },
        },
    };
    let (size, k) = match mem_size(s, j) {
        Some(x) => x,
        None => {
            return None;
        },
    };
    let m = match blanks1(s, k) {
        Some(x) => x,
        None => {
            return None;
        },
    };
    let (mem, n) = match mem_ref(s, m) {
        Some(x) => x,
        None => {
            return None;
        },
    };
    let p = match isep(s, n) {
        Some(x) => x,
        None => {
            return None;
        },
    };
    match reg_imm(s, p) {
        Some((src, q)) => Some((Instr::Store(size, mem, src), q)),
        None => None,
    }
}

/// A call.
pub fn call(s: &[char], i: usize) -> (r: Option<(Instr, usize)>)
    requires
        i <= s@.len(),
    ensures
        agrees_view(r, grammar::call(s@, i as int), i, s@.len()),
{
    let j = match tag(s, i, "call") {
        Some(x) => x,
        None => {
            return None;
        },
    };
    let m = match blanks1(s, j) {
        Some(x) => x,
        None => {
            return None;
        },
    };
    match imm(s, m) {
        Some((v, q)) => Some((Instr::Call(v), q)),
        None => None,
    }
}

/// An instruction that does not jump.
pub fn stmt(s: &[char], i: usize) -> (r: Option<(Instr, usize)>)
    requires
        i <= s@.len(),
    ensures
        agrees_view(r, grammar::stmt(s@, i as int), i, s@.len()),
{
    if let Some(x) = unary(s, i) {
        Some(x)
    } else if let Some(x) = binary(s, i) {
        Some(x)
    } else if let Some(x) = load(s, i) {
        Some(x)
    } else if let Some(x) = load_imm(s, i) {
        Some(x)
    } else if let Some(x) = store(s, i) {
        Some(x)
    } else {
        call(s, i)
    }
}

/// A jump.
pub fn jmp(s: &[char], i: usize) -> (r: Option<(Instr, usize)>)
    requires
        i <= s@.len(),
    ensures
        agrees_view(r, grammar::jmp(s@, i as int), i, s@.len()),
{
    let j = match tag(s, i, "ja") {
        Some(x) => x,
        None => match tag(s, i, "jmp") {
            Some(x) => x,
            None => {
                return None;
            },
        },
    };
    let m = match blanks1(s, j) {
        Some(x) => x,
        None => {
            return None;
        },
    };
    match ident(s, m) {
        Some((l, q)) => Some((Instr::Jmp(l), q)),
        None => None,
    }
}

/// A conditional jump.
pub fn jcc(s: &[char], i: usize) -> (r: Option<(Instr, usize)>)
    requires
        i <= s@.len(),
    ensures
        agrees_view(r, grammar::jcc(s@, i as int), i, s@.len()),
{
    if !at(s, i, 'j') {
        return None;
    }
    let (c, k) = match cc(s, i + 1) {
        Some(x) => x,
        None => {
            return None;
        },
    };
    let m = match blanks1(s, k) {
        Some(x) => x,
        None => {
            return None;
        },
    };
    let (a, n) = match reg(s, m) {
        Some(x) => x,
        None => {
            return None;
        },
    };
    let p = match isep(s, n) {
        Some(x) => x,
        None => {
            return None;
        },
    };
    let (b, q) = match reg_imm(s, p) {
        Some(x) => x,
        None => {
            return None;
        },
    };
    let t = match isep(s, q) {
        Some(x) => x,
        None => {
            return None;
        },
    };
    match ident(s, t) {
        Some((l, u)) => Some((Instr::Jcc(c, a, b, l), u)),
        None => None,
    }
}

/// An instruction that ends a block.
pub fn cont(s: &[char], i: usize) -> (r: Option<(Instr, usize)>)
    requires
        i <= s@.len(),
    ensures
        agrees_view(r, grammar::cont(s@, i as int), i, s@.len()),
{
    match tag(s, i, "exit") {
        Some(j) => Some((Instr::Exit, j)),
        None => if let Some(x) = jmp(s, i) {
            Some(x)
        } else {
            jcc(s, i)
        },
    }
}

} // verus!
