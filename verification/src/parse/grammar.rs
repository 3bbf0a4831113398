//! The grammar of annotated assembly, as functions from a text and a
//! position to what is read there and the position after it.
//!
//! Alternatives are tried in the order written and the first that matches
//! is taken; repetitions take as much as they can.

use vstd::prelude::*;
use crate::ast::{
    BinAlu, Cc, FBinOp, MemRef, QType, Reg, RegImm, SpecExpr, SpecFormula, SpecFormulaLine,
    SpecInstr, SpecLine, SpecModule, UnAlu, WordSize,
};

verus! {

/// What was read, and the position after it; `None` where nothing of the
/// kind stands at the position.
pub type Read<T> = Option<(T, int)>;

/// Whether `c` is a blank: a space or a tab.
pub open spec fn is_blank(c: char) -> bool {
    c == ' ' || c == '\t'
}

/// Whether `c` is a letter of the Latin alphabet.
pub open spec fn is_letter(c: char) -> bool {
    ('a' <= c && c <= 'z') || ('A' <= c && c <= 'Z')
}

/// Whether `c` is a decimal digit.
pub open spec fn is_digit(c: char) -> bool {
    '0' <= c && c <= '9'
}

/// Whether `c` may stand inside a name: a letter, a digit or `_`.
pub open spec fn is_word(c: char) -> bool {
    is_letter(c) || is_digit(c) || c == '_'
}

/// Whether `s` holds the character `c` at `i`.
pub open spec fn at(s: Seq<char>, i: int, c: char) -> bool {
    0 <= i < s.len() && s[i] == c
}

/// The position after the blanks at `i`, of which there may be none.
pub open spec fn blanks(s: Seq<char>, i: int) -> int
    decreases s.len() - i,
{
    if 0 <= i < s.len() && is_blank(s[i]) {
        blanks(s, i + 1)
    } else {
        i
    }
}

/// The position after the blanks at `i`, of which there must be one.
pub open spec fn blanks1(s: Seq<char>, i: int) -> Option<int> {
    if 0 <= i < s.len() && is_blank(s[i]) {
        Some(blanks(s, i + 1))
    } else {
        None
    }
}

/// The position after the word `t`, where it stands at `i`.
pub open spec fn tag(s: Seq<char>, i: int, t: Seq<char>) -> Option<int> {
    if 0 <= i && t.len() > 0 && i + t.len() <= s.len() && s.subrange(i, i + t.len()) == t {
        Some(i + t.len())
    } else {
        None
    }
}

/// The value of `c` as a hexadecimal digit, in either case.
pub open spec fn hex_value(c: char) -> Option<int> {
    if c == '0' {
        Some(0)
    } else if c == '1' {
        Some(1)
    } else if c == '2' {
        Some(2)
    } else if c == '3' {
        Some(3)
    } else if c == '4' {
        Some(4)
    } else if c == '5' {
        Some(5)
    } else if c == '6' {
        Some(6)
    } else if c == '7' {
        Some(7)
    } else if c == '8' {
        Some(8)
    } else if c == '9' {
        Some(9)
    } else if c == 'a' || c == 'A' {
        Some(10)
    } else if c == 'b' || c == 'B' {
        Some(11)
    } else if c == 'c' || c == 'C' {
        Some(12)
    } else if c == 'd' || c == 'D' {
        Some(13)
    } else if c == 'e' || c == 'E' {
        Some(14)
    } else if c == 'f' || c == 'F' {
        Some(15)
    } else {
        None
    }
}

/// The value of `c` as a digit of the base `radix`.
pub open spec fn digit_in(c: char, radix: int) -> Option<int> {
    match hex_value(c) {
        Some(v) => if v < radix {
            Some(v)
        } else {
            None
        },
        None => None,
    }
}

/// The position after the digits and underscores at `i`.
pub open spec fn digits_end(s: Seq<char>, i: int, radix: int) -> int
    decreases s.len() - i,
{
    if 0 <= i < s.len() && (digit_in(s[i], radix) is Some || s[i] == '_') {
        digits_end(s, i + 1, radix)
    } else {
        i
    }
}

/// The number that the digits from `i` up to `j` write in the base
/// `radix`; underscores between them count for nothing.
pub open spec fn digits_value(s: Seq<char>, i: int, j: int, radix: int) -> int
    decreases j - i,
{
    if j <= i || j > s.len() || i < 0 {
        0
    } else {
        match digit_in(s[j - 1], radix) {
            Some(d) => digits_value(s, i, j - 1, radix) * radix + d,
            None => digits_value(s, i, j - 1, radix),
        }
    }
}

/// A number in the base `radix`: a digit, then digits and underscores.
/// There is none where the number does not fit in 63 bits.
pub open spec fn digits(s: Seq<char>, i: int, radix: int) -> Read<i64> {
    if 0 <= i < s.len() && digit_in(s[i], radix) is Some {
        let j = digits_end(s, i + 1, radix);
        let v = digits_value(s, i, j, radix);
        if v <= i64::MAX {
            Some((v as i64, j))
        } else {
            None
        }
    } else {
        None
    }
}

/// A number after the mark `mark` of its base.
pub open spec fn marked(s: Seq<char>, i: int, mark: Seq<char>, radix: int) -> Read<i64> {
    match tag(s, i, mark) {
        Some(j) => digits(s, j, radix),
        None => None,
    }
}

/// An unsigned number: hexadecimal after `0x`, binary after `0b`, else
/// decimal.
pub open spec fn num(s: Seq<char>, i: int) -> Read<i64> {
    if marked(s, i, "0x"@, 16) is Some {
        marked(s, i, "0x"@, 16)
    } else if marked(s, i, "0b"@, 2) is Some {
        marked(s, i, "0b"@, 2)
    } else {
        digits(s, i, 10)
    }
}

/// The position after the characters of a name at `i`.
pub open spec fn word_end(s: Seq<char>, i: int) -> int
    decreases s.len() - i,
{
    if 0 <= i < s.len() && is_word(s[i]) {
        word_end(s, i + 1)
    } else {
        i
    }
}

/// A name: at most one `_`, a letter, then letters, digits and
/// underscores.
pub open spec fn ident(s: Seq<char>, i: int) -> Read<Seq<char>> {
    let j = if at(s, i, '_') {
        i + 1
    } else {
        i
    };
    if 0 <= i && 0 <= j < s.len() && is_letter(s[j]) {
        let k = word_end(s, j + 1);
        Some((s.subrange(i, k), k))
    } else {
        None
    }
}

/// A register: `r` and one digit. `r10` is no register, and nothing else
/// either.
pub open spec fn reg(s: Seq<char>, i: int) -> Read<Reg> {
    if at(s, i, 'r') && i + 1 < s.len() && is_digit(s[i + 1]) && !(at(s, i + 1, '1') && at(
        s,
        i + 2,
        '0',
    )) {
        Some((Reg::of(digit_in(s[i + 1], 10)->0 as u8), i + 2))
    } else {
        None
    }
}

/// An immediate: a number, after `+` or `-` and blanks where it has a
/// sign.
pub open spec fn imm(s: Seq<char>, i: int) -> Read<i64> {
    if at(s, i, '+') {
        num(s, blanks(s, i + 1))
    } else if at(s, i, '-') {
        match num(s, blanks(s, i + 1)) {
            Some((n, j)) => Some(((-n) as i64, j)),
            None => None,
        }
    } else {
        num(s, i)
    }
}

/// A register or an immediate.
pub open spec fn reg_imm(s: Seq<char>, i: int) -> Read<RegImm> {
    match reg(s, i) {
        Some((r, j)) => Some((RegImm::Reg(r), j)),
        None => match imm(s, i) {
            Some((n, j)) => Some((RegImm::Imm(n), j)),
            None => None,
        },
    }
}

/// The offset of a memory reference: `+` and an immediate, or `-` and a
/// number.
pub open spec fn offset(s: Seq<char>, i: int) -> Read<i64> {
    if at(s, i, '+') {
        imm(s, blanks(s, i + 1))
    } else if at(s, i, '-') {
        match num(s, blanks(s, i + 1)) {
            Some((n, j)) => Some(((-n) as i64, j)),
            None => None,
        }
    } else {
        None
    }
}

/// The width of an ALU operation: `32`, or 64 bits with or without `64`.
pub open spec fn alu_size(s: Seq<char>, i: int) -> (WordSize, int) {
    match tag(s, i, "32"@) {
        Some(j) => (WordSize::B32, j),
        None => match tag(s, i, "64"@) {
            Some(j) => (WordSize::B64, j),
            None => (WordSize::B64, i),
        },
    }
}

/// What separates the operands of an instruction: blanks, at most one
/// comma, blanks; not nothing.
pub open spec fn isep(s: Seq<char>, i: int) -> Option<int> {
    let j = blanks(s, i);
    let k = if at(s, j, ',') {
        blanks(s, j + 1)
    } else {
        j
    };
    if k > i {
        Some(k)
    } else {
        None
    }
}

/// The first of the words `words` that stands at `i`, by its place in
/// the list, and the position after it.
pub open spec fn first_of(s: Seq<char>, i: int, words: Seq<Seq<char>>, k: int) -> Read<int>
    decreases words.len() - k,
{
    if k < 0 || k >= words.len() {
        None
    } else {
        match tag(s, i, words[k]) {
            Some(j) => Some((k, j)),
            None => first_of(s, i, words, k + 1),
        }
    }
}

/// The names of the unary operations, in the order in which they are
/// tried.
pub open spec fn un_alu_names() -> Seq<Seq<char>> {
    seq!["neg"@, "le"@, "be"@]
}

/// The unary operations, in the same order.
pub open spec fn un_alu_at(k: int) -> UnAlu {
    if k == 0 {
        UnAlu::Neg
    } else if k == 1 {
        UnAlu::Le
    } else {
        UnAlu::Be
    }
}

/// A unary operation.
pub open spec fn un_alu(s: Seq<char>, i: int) -> Read<UnAlu> {
    match first_of(s, i, un_alu_names(), 0) {
        Some((k, j)) => Some((un_alu_at(k), j)),
        None => None,
    }
}

/// The names of the binary operations, in the order in which they are
/// tried.
pub open spec fn bin_alu_names() -> Seq<Seq<char>> {
    seq![
        "mov"@,
        "add"@,
        "sub"@,
        "mul"@,
        "div"@,
        "mod"@,
        "and"@,
        "or"@,
        "xor"@,
        "lsh"@,
        "rsh"@,
        "arsh"@,
    ]
}

/// The binary operations, in the same order.
pub open spec fn bin_alu_at(k: int) -> BinAlu {
    if k == 0 {
        BinAlu::Mov
    } else if k == 1 {
        BinAlu::Add
    } else if k == 2 {
        BinAlu::Sub
    } else if k == 3 {
        BinAlu::Mul
    } else if k == 4 {
        BinAlu::Div
    } else if k == 5 {
        BinAlu::Mod
    } else if k == 6 {
        BinAlu::And
    } else if k == 7 {
        BinAlu::Or
    } else if k == 8 {
        BinAlu::Xor
    } else if k == 9 {
        BinAlu::Lsh
    } else if k == 10 {
        BinAlu::Rsh
    } else {
        BinAlu::Arsh
    }
}

/// A binary operation.
pub open spec fn bin_alu(s: Seq<char>, i: int) -> Read<BinAlu> {
    match first_of(s, i, bin_alu_names(), 0) {
        Some((k, j)) => Some((bin_alu_at(k), j)),
        None => None,
    }
}

/// The names of the comparisons, in the order in which they are tried.
pub open spec fn cc_names() -> Seq<Seq<char>> {
    seq![
        "eq"@,
        "gt"@,
        "ge"@,
        "lt"@,
        "le"@,
        "set"@,
        "ne"@,
        "sgt"@,
        "sge"@,
        "slt"@,
        "sle"@,
    ]
}

/// The comparisons, in the same order.
pub open spec fn cc_at(k: int) -> Cc {
    if k == 0 {
        Cc::Eq
    } else if k == 1 {
        Cc::Gt
    } else if k == 2 {
        Cc::Ge
    } else if k == 3 {
        Cc::Lt
    } else if k == 4 {
        Cc::Le
    } else if k == 5 {
        Cc::Jset
    } else if k == 6 {
        Cc::Ne
    } else if k == 7 {
        Cc::Sgt
    } else if k == 8 {
        Cc::Sge
    } else if k == 9 {
        Cc::Slt
    } else {
        Cc::Sle
    }
}

/// The comparison of a conditional jump.
pub open spec fn cc(s: Seq<char>, i: int) -> Read<Cc> {
    match first_of(s, i, cc_names(), 0) {
        Some((k, j)) => Some((cc_at(k), j)),
        None => None,
    }
}

/// The width of a memory access: `b`, `h`, `w` or `dw`.
pub open spec fn mem_size(s: Seq<char>, i: int) -> Read<WordSize> {
    if at(s, i, 'b') {
        Some((WordSize::B8, i + 1))
    } else if at(s, i, 'h') {
        Some((WordSize::B16, i + 1))
    } else if at(s, i, 'w') {
        Some((WordSize::B32, i + 1))
    } else {
        match tag(s, i, "dw"@) {
            Some(j) => Some((WordSize::B64, j)),
            None => None,
        }
    }
}

/// A memory reference: `[`, a register, an offset or none, `]`, with
/// blanks between them.
pub open spec fn mem_ref(s: Seq<char>, i: int) -> Read<MemRef> {
    if at(s, i, '[') {
        match reg(s, blanks(s, i + 1)) {
            Some((r, j)) => {
                let k = blanks(s, j);
                let (off, m) = match offset(s, k) {
                    Some((o, m)) => (o, m),
                    None => (0i64, k),
                };
                let n = blanks(s, m);
                if at(s, n, ']') {
                    Some((MemRef(r, off), n + 1))
                } else {
                    None
                }
            },
            None => None,
        }
    } else {
        None
    }
}

/// A unary instruction: the operation, its width, blanks, a register.
pub open spec fn unary(s: Seq<char>, i: int) -> Read<SpecInstr> {
    match un_alu(s, i) {
        Some((op, j)) => {
            let (size, k) = alu_size(s, j);
            match blanks1(s, k) {
                Some(m) => match reg(s, m) {
                    Some((r, n)) => Some((SpecInstr::Unary(size, op, r), n)),
                    None => None,
                },
                None => None,
            }
        },
        None => None,
    }
}

/// A binary instruction: the operation, its width, blanks, the
/// destination, a separator, the source.
pub open spec fn binary(s: Seq<char>, i: int) -> Read<SpecInstr> {
    match bin_alu(s, i) {
        Some((op, j)) => {
            let (size, k) = alu_size(s, j);
            match blanks1(s, k) {
                Some(m) => match reg(s, m) {
                    Some((d, n)) => match isep(s, n) {
                        Some(p) => match reg_imm(s, p) {
                            Some((src, q)) => Some((SpecInstr::Binary(size, op, d, src), q)),
                            None => None,
                        },
                        None => None,
                    },
                    None => None,
                },
                None => None,
            }
        },
        None => None,
    }
}

/// A load: `ldx` and the width, blanks, the destination, a separator, a
/// memory reference.
pub open spec fn load(s: Seq<char>, i: int) -> Read<SpecInstr> {
    match tag(s, i, "ldx"@) {
        Some(j) => match mem_size(s, j) {
            Some((size, k)) => match blanks1(s, k) {
                Some(m) => match reg(s, m) {
                    Some((d, n)) => match isep(s, n) {
                        Some(p) => match mem_ref(s, p) {
                            Some((mem, q)) => Some((SpecInstr::Load(size, d, mem), q)),
                            None => None,
                        },
                        None => None,
                    },
                    None => None,
                },
                None => None,
            },
            None => None,
        },
        None => None,
    }
}

/// A load of an immediate: `lddw`, blanks, the destination, a separator,
/// the immediate.
pub open spec fn load_imm(s: Seq<char>, i: int) -> Read<SpecInstr> {
    match tag(s, i, "lddw"@) {
        Some(j) => match blanks1(s, j) {
            Some(m) => match reg(s, m) {
                Some((d, n)) => match isep(s, n) {
                    Some(p) => match imm(s, p) {
                        Some((v, q)) => Some((SpecInstr::LoadImm(d, v), q)),
                        None => None,
                    },
                    None => None,
                },
                None => None,
            },
            None => None,
        },
        None => None,
    }
}

/// A store: `stx` or `st` and the width, blanks, a memory reference, a
/// separator, the source.
pub open spec fn store(s: Seq<char>, i: int) -> Read<SpecInstr> {
    let head = match tag(s, i, "stx"@) {
        Some(j) => Some(j),
        None => tag(s, i, "st"@),
    };
    match head {
        Some(j) => match mem_size(s, j) {
            Some((size, k)) => match blanks1(s, k) {
                Some(m) => match mem_ref(s, m) {
                    Some((mem, n)) => match isep(s, n) {
                        Some(p) => match reg_imm(s, p) {
                            Some((src, q)) => Some((SpecInstr::Store(size, mem, src), q)),
                            None => None,
                        },
                        None => None,
                    },
                    None => None,
                },
                None => None,
            },
            None => None,
        },
        None => None,
    }
}

/// A call: `call`, blanks, an immediate.
pub open spec fn call(s: Seq<char>, i: int) -> Read<SpecInstr> {
    match tag(s, i, "call"@) {
        Some(j) => match blanks1(s, j) {
            Some(m) => match imm(s, m) {
                Some((v, q)) => Some((SpecInstr::Call(v), q)),
                None => None,
            },
            None => None,
        },
        None => None,
    }
}

/// An instruction that does not jump.
pub open spec fn stmt(s: Seq<char>, i: int) -> Read<SpecInstr> {
    if unary(s, i) is Some {
        unary(s, i)
    } else if binary(s, i) is Some {
        binary(s, i)
    } else if load(s, i) is Some {
        load(s, i)
    } else if load_imm(s, i) is Some {
        load_imm(s, i)
    } else if store(s, i) is Some {
        store(s, i)
    } else {
        call(s, i)
    }
}

/// A jump: `ja` or `jmp`, blanks, a label.
pub open spec fn jmp(s: Seq<char>, i: int) -> Read<SpecInstr> {
    let head = match tag(s, i, "ja"@) {
        Some(j) => Some(j),
        None => tag(s, i, "jmp"@),
    };
    match head {
        Some(j) => match blanks1(s, j) {
            Some(m) => match ident(s, m) {
                Some((l, q)) => Some((SpecInstr::Jmp(l), q)),
                None => None,
            },
            None => None,
        },
        None => None,
    }
}

/// A conditional jump: `j` and the comparison, blanks, a register, a
/// separator, a register or an immediate, a separator, a label.
pub open spec fn jcc(s: Seq<char>, i: int) -> Read<SpecInstr> {
    if at(s, i, 'j') {
        match cc(s, i + 1) {
            Some((c, k)) => match blanks1(s, k) {
                Some(m) => match reg(s, m) {
                    Some((a, n)) => match isep(s, n) {
                        Some(p) => match reg_imm(s, p) {
                            Some((b, q)) => match isep(s, q) {
                                Some(t) => match ident(s, t) {
                                    Some((l, u)) => Some((SpecInstr::Jcc(c, a, b, l), u)),
                                    None => None,
                                },
                                None => None,
                            },
                            None => None,
                        },
                        None => None,
                    },
                    None => None,
                },
                None => None,
            },
            None => None,
        }
    } else {
        None
    }
}

/// An instruction that ends a block: `exit`, a jump or a conditional
/// jump.
pub open spec fn cont(s: Seq<char>, i: int) -> Read<SpecInstr> {
    match tag(s, i, "exit"@) {
        Some(j) => Some((SpecInstr::Exit, j)),
        None => if jmp(s, i) is Some {
            jmp(s, i)
        } else {
            jcc(s, i)
        },
    }
}

/// What opens a bracket: `(` and blanks.
pub open spec fn open_paren(s: Seq<char>, i: int) -> Option<int> {
    if at(s, i, '(') {
        Some(blanks(s, i + 1))
    } else {
        None
    }
}

/// What closes a bracket: blanks, `)` and blanks.
pub open spec fn close_paren(s: Seq<char>, i: int) -> Option<int> {
    let j = blanks(s, i);
    if at(s, j, ')') {
        Some(blanks(s, j + 1))
    } else {
        None
    }
}

/// What stands between two operands in brackets: blanks, `,` and blanks.
pub open spec fn comma(s: Seq<char>, i: int) -> Option<int> {
    let j = blanks(s, i);
    if at(s, j, ',') {
        Some(blanks(s, j + 1))
    } else {
        None
    }
}

/// A binary operation applied to two expressions in brackets.
pub open spec fn expr_binary(s: Seq<char>, i: int) -> Read<SpecExpr>
    decreases s.len() - i, 0int,
{
    match bin_alu(s, i) {
        Some((op, j)) => match open_paren(s, blanks(s, j)) {
            Some(k) => if i < k <= s.len() {
                match expr(s, k) {
                    Some((a, m)) => match comma(s, m) {
                        Some(n) => if i < n <= s.len() {
                            match expr(s, n) {
                                Some((b, p)) => match close_paren(s, p) {
                                    Some(q) => Some(
                                        (SpecExpr::Binary(op, Box::new(a), Box::new(b)), q),
                                    ),
                                    None => None,
                                },
                                None => None,
                            }
                        } else {
                            None
                        },
                        None => None,
                    },
                    None => None,
                }
            } else {
                None
            },
            None => None,
        },
        None => None,
    }
}

/// A unary operation applied to an expression in brackets.
pub open spec fn expr_unary(s: Seq<char>, i: int) -> Read<SpecExpr>
    decreases s.len() - i, 0int,
{
    match un_alu(s, i) {
        Some((op, j)) => match open_paren(s, j) {
            Some(k) => if i < k <= s.len() {
                match expr(s, k) {
                    Some((a, m)) => match close_paren(s, m) {
                        Some(q) => Some((SpecExpr::Unary(op, Box::new(a)), q)),
                        None => None,
                    },
                    None => None,
                }
            } else {
                None
            },
            None => None,
        },
        None => None,
    }
}

/// An expression: an operation applied in brackets, an immediate, or a
/// name.
pub open spec fn expr(s: Seq<char>, i: int) -> Read<SpecExpr>
    decreases s.len() - i, 1int,
{
    if expr_binary(s, i) is Some {
        expr_binary(s, i)
    } else if expr_unary(s, i) is Some {
        expr_unary(s, i)
    } else {
        match imm(s, i) {
            Some((v, j)) => Some((SpecExpr::Val(v), j)),
            None => match ident(s, i) {
                Some((x, j)) => Some((SpecExpr::Var(x), j)),
                None => None,
            },
        }
    }
}

/// The signs of the connectives, in the order in which they are tried.
pub open spec fn connective_names() -> Seq<Seq<char>> {
    seq!["/\\"@, "\\/"@, "->"@, "<->"@, "&&"@]
}

/// The connectives, in the same order.
pub open spec fn connective_at(k: int) -> FBinOp {
    if k == 0 {
        FBinOp::And
    } else if k == 1 {
        FBinOp::Or
    } else if k == 2 {
        FBinOp::Implies
    } else if k == 3 {
        FBinOp::Iff
    } else {
        FBinOp::AndAsym
    }
}

/// The signs of the relations, in the order in which they are tried.
pub open spec fn relation_names() -> Seq<Seq<char>> {
    seq!["="@, "<>"@, ">="@, "<="@, "<"@, ">"@]
}

/// The relations, in the same order.
pub open spec fn relation_at(k: int) -> Cc {
    if k == 0 {
        Cc::Eq
    } else if k == 1 {
        Cc::Ne
    } else if k == 2 {
        Cc::Ge
    } else if k == 3 {
        Cc::Le
    } else if k == 4 {
        Cc::Lt
    } else {
        Cc::Gt
    }
}

/// The sign of a connective.
pub open spec fn connective(s: Seq<char>, i: int) -> Read<FBinOp> {
    match first_of(s, i, connective_names(), 0) {
        Some((k, j)) => Some((connective_at(k), j)),
        None => None,
    }
}

/// The sign of a relation.
pub open spec fn relation(s: Seq<char>, i: int) -> Read<Cc> {
    match first_of(s, i, relation_names(), 0) {
        Some((k, j)) => Some((relation_at(k), j)),
        None => None,
    }
}

/// A relation between two expressions, with blanks round its sign.
pub open spec fn rel(s: Seq<char>, i: int) -> Read<SpecFormula> {
    match expr(s, i) {
        Some((a, j)) => match relation(s, blanks(s, j)) {
            Some((c, m)) => match expr(s, blanks(s, m)) {
                Some((b, n)) => Some((SpecFormula::Rel(c, a, b), n)),
                None => None,
            },
            None => None,
        },
        None => None,
    }
}

/// The buffer predicate: `is_buffer`, then in brackets a name, `,` and an
/// expression.
pub open spec fn is_buffer(s: Seq<char>, i: int) -> Read<SpecFormula> {
    match tag(s, i, "is_buffer"@) {
        Some(j) => match open_paren(s, blanks(s, j)) {
            Some(k) => match ident(s, k) {
                Some((p, m)) => if at(s, m, ',') {
                    match expr(s, blanks(s, m + 1)) {
                        Some((e, n)) => match close_paren(s, blanks(s, n)) {
                            Some(q) => Some((SpecFormula::IsBuffer(p, e), q)),
                            None => None,
                        },
                        None => None,
                    }
                } else {
                    None
                },
                None => None,
            },
            None => None,
        },
        None => None,
    }
}

/// A truth value: `true` or `false`.
pub open spec fn truth(s: Seq<char>, i: int) -> Read<SpecFormula> {
    match tag(s, i, "true"@) {
        Some(j) => Some((SpecFormula::Val(true), j)),
        None => match tag(s, i, "false"@) {
            Some(j) => Some((SpecFormula::Val(false), j)),
            None => None,
        },
    }
}

/// The word of a quantifier.
pub open spec fn quantifier(s: Seq<char>, i: int) -> Read<QType> {
    match tag(s, i, "forall"@) {
        Some(j) => Some((QType::Forall, j)),
        None => match tag(s, i, "exists"@) {
            Some(j) => Some((QType::Exists, j)),
            None => None,
        },
    }
}

/// A formula in brackets.
pub open spec fn formula_parens(s: Seq<char>, i: int) -> Read<SpecFormula>
    decreases s.len() - i, 0int,
{
    match open_paren(s, i) {
        Some(k) => if i < k <= s.len() {
            match formula(s, k) {
                Some((f, m)) => match close_paren(s, m) {
                    Some(q) => Some((f, q)),
                    None => None,
                },
                None => None,
            }
        } else {
            None
        },
        None => None,
    }
}

/// A negation: `not` and a formula in brackets.
pub open spec fn formula_not(s: Seq<char>, i: int) -> Read<SpecFormula>
    decreases s.len() - i, 1int,
{
    match tag(s, i, "not"@) {
        Some(j) => match formula_parens(s, j) {
            Some((f, q)) => Some((SpecFormula::Not(Box::new(f)), q)),
            None => None,
        },
        None => None,
    }
}

/// A connective applied to two formulas in brackets.
pub open spec fn formula_binary(s: Seq<char>, i: int) -> Read<SpecFormula>
    decreases s.len() - i, 0int,
{
    match connective(s, i) {
        Some((c, j)) => match open_paren(s, j) {
            Some(k) => if i < k <= s.len() {
                match formula(s, k) {
                    Some((a, m)) => match comma(s, m) {
                        Some(n) => if i < n <= s.len() {
                            match formula(s, n) {
                                Some((b, p)) => match close_paren(s, p) {
                                    Some(q) => Some(
                                        (
                                            SpecFormula::Bin(c, Box::new(a), Box::new(b)),
                                            q,
                                        ),
                                    ),
                                    None => None,
                                },
                                None => None,
                            }
                        } else {
                            None
                        },
                        None => None,
                    },
                    None => None,
                }
            } else {
                None
            },
            None => None,
        },
        None => None,
    }
}

/// A quantified formula: the quantifier, blanks, a name, `.`, blanks, a
/// formula.
pub open spec fn formula_quant(s: Seq<char>, i: int) -> Read<SpecFormula>
    decreases s.len() - i, 0int,
{
    match quantifier(s, i) {
        Some((q, j)) => match blanks1(s, j) {
            Some(k) => match ident(s, k) {
                Some((x, m)) => if at(s, m, '.') {
                    let n = blanks(s, m + 1);
                    if i < n <= s.len() {
                        match formula(s, n) {
                            Some((f, p)) => Some((SpecFormula::Quant(q, x, Box::new(f)), p)),
                            None => None,
                        }
                    } else {
                        None
                    }
                } else {
                    None
                },
                None => None,
            },
            None => None,
        },
        None => None,
    }
}

/// A formula: in brackets, a truth value, a negation, a connective
/// applied, a quantified formula, a relation, or the buffer predicate.
pub open spec fn formula(s: Seq<char>, i: int) -> Read<SpecFormula>
    decreases s.len() - i, 2int,
{
    if formula_parens(s, i) is Some {
        formula_parens(s, i)
    } else if truth(s, i) is Some {
        truth(s, i)
    } else if formula_not(s, i) is Some {
        formula_not(s, i)
    } else if formula_binary(s, i) is Some {
        formula_binary(s, i)
    } else if formula_quant(s, i) is Some {
        formula_quant(s, i)
    } else if rel(s, i) is Some {
        rel(s, i)
    } else {
        is_buffer(s, i)
    }
}

/// A formula after `;#`, blanks, the word `word` and blanks.
pub open spec fn annotated(s: Seq<char>, i: int, word: Seq<char>) -> Read<SpecFormula> {
    match tag(s, i, ";#"@) {
        Some(j) => match tag(s, blanks(s, j), word) {
            Some(k) => formula(s, blanks(s, k)),
            None => None,
        },
        None => None,
    }
}

/// A logical annotation inside the program: an assertion after `assert`,
/// an invariant after `req`.
pub open spec fn formula_line(s: Seq<char>, i: int) -> Read<SpecFormulaLine> {
    match annotated(s, i, "assert"@) {
        Some((f, j)) => Some((SpecFormulaLine::Assert(f), j)),
        None => match annotated(s, i, "req"@) {
            Some((f, j)) => Some((SpecFormulaLine::Require(f), j)),
            None => None,
        },
    }
}

/// The position of the end of the line at `i`: of the next line feed, or
/// of the end of the text.
pub open spec fn line_end(s: Seq<char>, i: int) -> int
    decreases s.len() - i,
{
    if 0 <= i < s.len() && s[i] != '\n' {
        line_end(s, i + 1)
    } else {
        i
    }
}

/// The end of one line: blanks, a comment or none, a line feed, blanks. A
/// comment starts with `;` and another character that is not `#`.
pub open spec fn line_break(s: Seq<char>, i: int) -> Option<int> {
    let j = blanks(s, i);
    let k = if at(s, j, ';') && j + 1 < s.len() && s[j + 1] != '#' {
        line_end(s, j + 1)
    } else {
        j
    };
    if at(s, k, '\n') {
        Some(blanks(s, k + 1))
    } else {
        None
    }
}

/// The position after the line ends at `i`, of which there may be none.
pub open spec fn line_breaks(s: Seq<char>, i: int) -> int
    decreases s.len() - i,
{
    match line_break(s, i) {
        Some(j) => if i < j <= s.len() {
            line_breaks(s, j)
        } else {
            i
        },
        None => i,
    }
}

/// What separates two lines: one line end or more.
pub open spec fn line_sep(s: Seq<char>, i: int) -> Option<int> {
    match line_break(s, i) {
        Some(j) => Some(line_breaks(s, j)),
        None => None,
    }
}

/// A label: a name, blanks and `:`.
pub open spec fn label(s: Seq<char>, i: int) -> Read<Seq<char>> {
    match ident(s, i) {
        Some((l, j)) => if at(s, blanks(s, j), ':') {
            Some((l, blanks(s, j) + 1))
        } else {
            None
        },
        None => None,
    }
}

/// One line of a program: a label, an annotation or an instruction.
pub open spec fn line(s: Seq<char>, i: int) -> Read<SpecLine> {
    match label(s, i) {
        Some((l, j)) => Some((SpecLine::Label(l), j)),
        None => match formula_line(s, i) {
            Some((f, j)) => Some((SpecLine::Formula(f), j)),
            None => match stmt(s, i) {
                Some((x, j)) => Some((SpecLine::Instr(x), j)),
                None => match cont(s, i) {
                    Some((x, j)) => Some((SpecLine::Instr(x), j)),
                    None => None,
                },
            },
        },
    }
}

/// The formulas of the lines at `i` that start with `;#` and `word`, each
/// followed by a line separator; and the position after them.
pub open spec fn clauses(s: Seq<char>, i: int, word: Seq<char>) -> (Seq<SpecFormula>, int)
    decreases s.len() - i,
{
    match annotated(s, i, word) {
        Some((f, j)) => match line_sep(s, j) {
            Some(k) => if i < k <= s.len() {
                let (rest, end) = clauses(s, k, word);
                (seq![f] + rest, end)
            } else {
                (Seq::empty(), i)
            },
            None => (Seq::empty(), i),
        },
        None => (Seq::empty(), i),
    }
}

/// The lines that follow a first one at `i`, each after a line
/// separator; and the position after the last of them.
pub open spec fn more_lines(s: Seq<char>, i: int) -> (Seq<SpecLine>, int)
    decreases s.len() - i,
{
    match line_sep(s, i) {
        Some(j) => match line(s, j) {
            Some((l, k)) => if i < k <= s.len() {
                let (rest, end) = more_lines(s, k);
                (seq![l] + rest, end)
            } else {
                (Seq::empty(), i)
            },
            None => (Seq::empty(), i),
        },
        None => (Seq::empty(), i),
    }
}

/// The lines at `i`, separated by line separators; there may be none.
pub open spec fn lines(s: Seq<char>, i: int) -> (Seq<SpecLine>, int) {
    match line(s, i) {
        Some((l, j)) => {
            let (rest, end) = more_lines(s, j);
            (seq![l] + rest, end)
        },
        None => (Seq::empty(), i),
    }
}

/// A whole text: line ends, the clauses that say what holds at entry,
/// those that say what must hold at exit, the lines of the program, line
/// ends, and then nothing. Where something is left, the result is the
/// position of what could not be read.
pub open spec fn module(s: Seq<char>) -> Result<SpecModule, int> {
    let start = match line_sep(s, 0) {
        Some(j) => j,
        None => 0,
    };
    let (pre, a) = clauses(s, start, "requires"@);
    let (post, b) = clauses(s, a, "ensures"@);
    let (body, c) = lines(s, blanks(s, b));
    let end = match line_sep(s, c) {
        Some(j) => j,
        None => c,
    };
    if end == s.len() {
        Ok(SpecModule { requires: pre, ensures: post, lines: body })
    } else {
        Err(end)
    }
}

} // verus!
