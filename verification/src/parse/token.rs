//! Reading the smallest parts of the text: blanks, words, numbers, names,
//! registers and operands.

use vstd::prelude::*;
use crate::ast::{BinAlu, Cc, MemRef, Reg, RegImm, UnAlu, WordSize};
use crate::parse::grammar;
use crate::parse::grammar::Read;

verus! {

/// Whether a result that was computed is the one that the grammar gives,
/// and lies after `i` and inside the text.
pub open spec fn agrees<T>(r: Option<(T, usize)>, g: Read<T>, i: usize, len: nat) -> bool {
    match r {
        Some((v, j)) => g == Some((v, j as int)) && i < j <= len,
        None => g is None,
    }
}

/// The same for a result that is held by its model.
pub open spec fn agrees_view<T: View>(r: Option<(T, usize)>, g: Read<T::V>, i: usize, len: nat)
    -> bool {
    match r {
        Some((v, j)) => g == Some((v@, j as int)) && i < j <= len,
        None => g is None,
    }
}

/// The same for a position alone.
pub open spec fn agrees_at(r: Option<usize>, g: Option<int>, i: usize, len: nat) -> bool {
    match r {
        Some(j) => g == Some(j as int) && i < j <= len,
        None => g is None,
    }
}

/// Whether `c` is a blank.
pub fn blank(c: char) -> (r: bool)
    ensures
        r == grammar::is_blank(c),
{
    c == ' ' || c == '\t'
}

/// Whether `c` is a letter.
pub fn letter(c: char) -> (r: bool)
    ensures
        r == grammar::is_letter(c),
{
    ('a' <= c && c <= 'z') || ('A' <= c && c <= 'Z')
}

/// Whether `c` is a decimal digit.
pub fn decimal_digit(c: char) -> (r: bool)
    ensures
        r == grammar::is_digit(c),
{
    '0' <= c && c <= '9'
}

/// Whether `s` holds the character `c` at `i`.
pub fn at(s: &[char], i: usize, c: char) -> (r: bool)
    ensures
        r == grammar::at(s@, i as int, c),
        r ==> i < s@.len() && i < usize::MAX,
{
    i < s.len() && s[i] == c
}

/// The position after the blanks at `i`.
pub fn blanks(s: &[char], i: usize) -> (r: usize)
    requires
        i <= s@.len(),
    ensures
        r == grammar::blanks(s@, i as int),
        i <= r <= s@.len(),
{
    let mut j = i;
    while j < s.len() && blank(s[j])
        invariant
            i <= j <= s@.len(),
            grammar::blanks(s@, i as int) == grammar::blanks(s@, j as int),
        decreases s@.len() - j,
    {
        j += 1;
    }
    j
}

/// The position after the blanks at `i`, of which there must be one.
pub fn blanks1(s: &[char], i: usize) -> (r: Option<usize>)
    requires
        i <= s@.len(),
    ensures
        agrees_at(r, grammar::blanks1(s@, i as int), i, s@.len()),
{
    if i < s.len() && blank(s[i]) {
        Some(blanks(s, i + 1))
    } else {
        None
    }
}

/// The position after the word `t`, where it stands at `i`.
pub fn tag(s: &[char], i: usize, t: &str) -> (r: Option<usize>)
    requires
        i <= s@.len(),
    ensures
        agrees_at(r, grammar::tag(s@, i as int, t@), i, s@.len()),
{
    let n = t.unicode_len();
    let len = s.len();
    if n == 0 || n > len - i {
        return None;
    }
    let mut k: usize = 0;
    while k < n
        invariant
            n == t@.len(),
            len == s@.len(),
            i + n <= len,
            k <= n,
            s@.subrange(i as int, i + k) == t@.take(k as int),
        decreases n - k,
    {
        if s[i + k] != t.get_char(k) {
            proof {
                if s@.subrange(i as int, i + n) == t@ {
                    assert(s@.subrange(i as int, i + n)[k as int] == t@[k as int]);
                }
            }
            return None;
        }
        k += 1;
        assert(s@.subrange(i as int, i + k) =~= t@.take(k as int));
    }
    assert(t@.take(n as int) =~= t@);
    Some(i + n)
}

/// The value of `c` as a digit of the base `radix`.
pub fn digit_in(c: char, radix: u8) -> (r: Option<u8>)
    ensures
        match r {
            Some(v) => grammar::digit_in(c, radix as int) == Some(v as int) && v < radix,
            None => grammar::digit_in(c, radix as int) is None,
        },
{
    let v: u8 = if c == '0' {
        0
    } else if c == '1' {
        1
    } else if c == '2' {
        2
    } else if c == '3' {
        3
    } else if c == '4' {
        4
    } else if c == '5' {
        5
    } else if c == '6' {
        6
    } else if c == '7' {
        7
    } else if c == '8' {
        8
    } else if c == '9' {
        9
    } else if c == 'a' || c == 'A' {
        10
    } else if c == 'b' || c == 'B' {
        11
    } else if c == 'c' || c == 'C' {
        12
    } else if c == 'd' || c == 'D' {
        13
    } else if c == 'e' || c == 'E' {
        14
    } else if c == 'f' || c == 'F' {
        15
    } else {
        return None;
    };
    if v < radix {
        Some(v)
    } else {
        None
    }
}

/// The digits and underscores at `i` end at or after `i`, inside the
/// text.
pub(crate) proof fn lemma_digits_end(s: Seq<char>, i: int, radix: int)
    requires
        0 <= i <= s.len(),
    ensures
        i <= grammar::digits_end(s, i, radix) <= s.len(),
    decreases s.len() - i,
{
    if i < s.len() && (grammar::digit_in(s[i], radix) is Some || s[i] == '_') {
        lemma_digits_end(s, i + 1, radix);
    }
}

/// More digits write no smaller number.
pub(crate) proof fn lemma_digits_value(s: Seq<char>, i: int, j: int, k: int, radix: int)
    requires
        0 <= i <= j <= k <= s.len(),
        radix >= 1,
    ensures
        0 <= grammar::digits_value(s, i, j, radix) <= grammar::digits_value(s, i, k, radix),
    decreases k - i,
{
    if j < k {
        lemma_digits_value(s, i, j, k - 1, radix);
        let v = grammar::digits_value(s, i, k - 1, radix);
        assert(v * radix >= v) by (nonlinear_arith)
            requires
                v >= 0,
                radix >= 1,
        ;
    } else if i < j {
        lemma_digits_value(s, i, i, j - 1, radix);
        let v = grammar::digits_value(s, i, j - 1, radix);
        assert(v * radix >= 0) by (nonlinear_arith)
            requires
                v >= 0,
                radix >= 1,
        ;
    }
}

/// A number in the base `radix`.
pub fn digits(s: &[char], i: usize, radix: u8) -> (r: Option<(i64, usize)>)
    requires
        i <= s@.len(),
        1 <= radix <= 16,
    ensures
        agrees(r, grammar::digits(s@, i as int, radix as int), i, s@.len()),
        r matches Some((v, _)) ==> v >= 0,
{
    if i >= s.len() {
        return None;
    }
    let first = match digit_in(s[i], radix) {
        Some(d) => d,
        None => {
            return None;
        },
    };
    let ghost end = grammar::digits_end(s@, i + 1, radix as int);
    proof {
        lemma_digits_end(s@, i + 1, radix as int);
        reveal_with_fuel(grammar::digits_value, 2);
    }
    let mut acc: i64 = first as i64;
    let mut j: usize = i + 1;
    while j < s.len() && (s[j] == '_' || digit_in(s[j], radix).is_some())
        invariant
            i < j <= s@.len(),
            1 <= radix <= 16,
            end == grammar::digits_end(s@, j as int, radix as int),
            end == grammar::digits_end(s@, i + 1, radix as int),
            grammar::digit_in(s@[i as int], radix as int) is Some,
            j <= end <= s@.len(),
            acc == grammar::digits_value(s@, i as int, j as int, radix as int),
            0 <= acc,
        decreases s@.len() - j,
    {
        proof {
            lemma_digits_end(s@, j + 1, radix as int);
        }
        match digit_in(s[j], radix) {
            Some(d) => {
                if acc > (i64::MAX - d as i64) / (radix as i64) {
                    proof {
                        let v = acc as int;
                        let x = radix as int;
                        assert(v * x + d > i64::MAX) by (nonlinear_arith)
                            requires
                                v > (i64::MAX - d) / x,
                                x >= 1,
                                d >= 0,
                        ;
                        lemma_digits_value(s@, i as int, j + 1, end, x);
                    }
                    return None;
                }
                proof {
                    let v = acc as int;
                    let x = radix as int;
                    assert(0 <= v * x + d <= i64::MAX) by (nonlinear_arith)
                        requires
                            0 <= v <= (i64::MAX - d) / x,
                            x >= 1,
                            d >= 0,
                    ;
                }
                acc = acc * (radix as i64) + d as i64;
            },
            None => {},
        }
        j += 1;
    }
    Some((acc, j))
}

/// An unsigned number.
pub fn num(s: &[char], i: usize) -> (r: Option<(i64, usize)>)
    requires
        i <= s@.len(),
    ensures
        agrees(r, grammar::num(s@, i as int), i, s@.len()),
        r matches Some((v, _)) ==> v >= 0,
{
    match tag(s, i, "0x") {
        Some(j) => match digits(s, j, 16) {
            Some(x) => {
                return Some(x);
            },
            None => {},
        },
        None => {},
    }
    match tag(s, i, "0b") {
        Some(j) => match digits(s, j, 2) {
            Some(x) => {
                return Some(x);
            },
            None => {},
        },
        None => {},
    }
    digits(s, i, 10)
}

/// Whether `c` may stand inside a name.
pub fn word(c: char) -> (r: bool)
    ensures
        r == grammar::is_word(c),
{
    letter(c) || decimal_digit(c) || c == '_'
}

/// The text from `i` up to `j`.
pub fn text_of(s: &[char], i: usize, j: usize) -> (r: String)
    requires
        i <= j <= s@.len(),
    ensures
        r@ == s@.subrange(i as int, j as int),
{
    let mut out = String::new();
    let mut k = i;
    while k < j
        invariant
            i <= k <= j <= s@.len(),
            out@ == s@.subrange(i as int, k as int),
        decreases j - k,
    {
        out.push(s[k]);
        k += 1;
        assert(out@ =~= s@.subrange(i as int, k as int));
    }
    out
}

/// A name.
pub fn ident(s: &[char], i: usize) -> (r: Option<(String, usize)>)
    requires
        i <= s@.len(),
    ensures
        agrees_view(r, grammar::ident(s@, i as int), i, s@.len()),
{
    let j = if at(s, i, '_') {
        i + 1
    } else {
        i
    };
    if j < s.len() && letter(s[j]) {
        let mut k = j + 1;
        while k < s.len() && word(s[k])
            invariant
                j < k <= s@.len(),
                grammar::word_end(s@, j + 1) == grammar::word_end(s@, k as int),
            decreases s@.len() - k,
        {
            k += 1;
        }
        Some((text_of(s, i, k), k))
    } else {
        None
    }
}

/// A register.
pub fn reg(s: &[char], i: usize) -> (r: Option<(Reg, usize)>)
    requires
        i <= s@.len(),
    ensures
        agrees(r, grammar::reg(s@, i as int), i, s@.len()),
{
    if !at(s, i, 'r') {
        return None;
    }
    if i + 1 >= s.len() {
        return None;
    }
    if at(s, i + 1, '1') && at(s, i + 2, '0') {
        return None;
    }
    if !decimal_digit(s[i + 1]) {
        return None;
    }
    match digit_in(s[i + 1], 10) {
        Some(d) => match Reg::new(d) {
            Some(r) => Some((r, i + 2)),
            None => None,
        },
        None => None,
    }
}

/// An immediate.
pub fn imm(s: &[char], i: usize) -> (r: Option<(i64, usize)>)
    requires
        i <= s@.len(),
    ensures
        agrees(r, grammar::imm(s@, i as int), i, s@.len()),
{
    if at(s, i, '+') {
        num(s, blanks(s, i + 1))
    } else if at(s, i, '-') {
        match num(s, blanks(s, i + 1)) {
            Some((n, j)) => Some((-n, j)),
            None => None,
        }
    } else {
        num(s, i)
    }
}

/// A register or an immediate.
pub fn reg_imm(s: &[char], i: usize) -> (r: Option<(RegImm, usize)>)
    requires
        i <= s@.len(),
    ensures
        agrees(r, grammar::reg_imm(s@, i as int), i, s@.len()),
{
    match reg(s, i) {
        Some((r, j)) => Some((RegImm::Reg(r), j)),
        None => match imm(s, i) {
            Some((n, j)) => Some((RegImm::Imm(n), j)),
            None => None,
        },
    }
}

/// The offset of a memory reference.
pub fn offset(s: &[char], i: usize) -> (r: Option<(i64, usize)>)
    requires
        i <= s@.len(),
    ensures
        agrees(r, grammar::offset(s@, i as int), i, s@.len()),
{
    if at(s, i, '+') {
        imm(s, blanks(s, i + 1))
    } else if at(s, i, '-') {
        match num(s, blanks(s, i + 1)) {
            Some((n, j)) => Some((-n, j)),
            None => None,
        }
    } else {
        None
    }
}

/// The width of an ALU operation.
pub fn alu_size(s: &[char], i: usize) -> (r: (WordSize, usize))
    requires
        i <= s@.len(),
    ensures
        grammar::alu_size(s@, i as int) == (r.0, r.1 as int),
        i <= r.1 <= s@.len(),
{
    match tag(s, i, "32") {
        Some(j) => (WordSize::B32, j),
        None => match tag(s, i, "64") {
            Some(j) => (WordSize::B64, j),
            None => (WordSize::B64, i),
        },
    }
}

/// What separates the operands of an instruction.
pub fn isep(s: &[char], i: usize) -> (r: Option<usize>)
    requires
        i <= s@.len(),
    ensures
        agrees_at(r, grammar::isep(s@, i as int), i, s@.len()),
{
    let j = blanks(s, i);
    let k = if at(s, j, ',') {
        blanks(s, j + 1)
    } else {
        j
    };
    if k > i {
        Some(k)
    } else {
        None
    }
}

/// A unary operation.
pub fn un_alu(s: &[char], i: usize) -> (r: Option<(UnAlu, usize)>)
    requires
        i <= s@.len(),
    ensures
        agrees(r, grammar::un_alu(s@, i as int), i, s@.len()),
{
    proof {
        reveal_with_fuel(grammar::first_of, 4);
    }
    if let Some(j) = tag(s, i, "neg") {
        Some((UnAlu::Neg, j))
    } else if let Some(j) = tag(s, i, "le") {
        Some((UnAlu::Le, j))
    } else if let Some(j) = tag(s, i, "be") {
        Some((UnAlu::Be, j))
    } else {
        None
    }
}

/// A binary operation.
pub fn bin_alu(s: &[char], i: usize) -> (r: Option<(BinAlu, usize)>)
    requires
        i <= s@.len(),
    ensures
        agrees(r, grammar::bin_alu(s@, i as int), i, s@.len()),
{
    proof {
        reveal_with_fuel(grammar::first_of, 13);
    }
    if let Some(j) = tag(s, i, "mov") {
        Some((BinAlu::Mov, j))
    } else if let Some(j) = tag(s, i, "add") {
        Some((BinAlu::Add, j))
    } else if let Some(j) = tag(s, i, "sub") {
        Some((BinAlu::Sub, j))
    } else if let Some(j) = tag(s, i, "mul") {
        Some((BinAlu::Mul, j))
    } else if let Some(j) = tag(s, i, "div") {
        Some((BinAlu::Div, j))
    } else if let Some(j) = tag(s, i, "mod") {
        Some((BinAlu::Mod, j))
    } else if let Some(j) = tag(s, i, "and") {
        Some((BinAlu::And, j))
    } else if let Some(j) = tag(s, i, "or") {
        Some((BinAlu::Or, j))
    } else if let Some(j) = tag(s, i, "xor") {
        Some((BinAlu::Xor, j))
    } else if let Some(j) = tag(s, i, "lsh") {
        Some((BinAlu::Lsh, j))
    } else if let Some(j) = tag(s, i, "rsh") {
        Some((BinAlu::Rsh, j))
    } else if let Some(j) = tag(s, i, "arsh") {
        Some((BinAlu::Arsh, j))
    } else {
        None
    }
}

/// The comparison of a conditional jump.
pub fn cc(s: &[char], i: usize) -> (r: Option<(Cc, usize)>)
    requires
        i <= s@.len(),
    ensures
        agrees(r, grammar::cc(s@, i as int), i, s@.len()),
{
    proof {
        reveal_with_fuel(grammar::first_of, 12);
    }
    if let Some(j) = tag(s, i, "eq") {
        Some((Cc::Eq, j))
    } else if let Some(j) = tag(s, i, "gt") {
        Some((Cc::Gt, j))
    } else if let Some(j) = tag(s, i, "ge") {
        Some((Cc::Ge, j))
    } else if let Some(j) = tag(s, i, "lt") {
        Some((Cc::Lt, j))
    } else if let Some(j) = tag(s, i, "le") {
        Some((Cc::Le, j))
    } else if let Some(j) = tag(s, i, "set") {
        Some((Cc::Jset, j))
    } else if let Some(j) = tag(s, i, "ne") {
        Some((Cc::Ne, j))
    } else if let Some(j) = tag(s, i, "sgt") {
        Some((Cc::Sgt, j))
    } else if let Some(j) = tag(s, i, "sge") {
        Some((Cc::Sge, j))
    } else if let Some(j) = tag(s, i, "slt") {
        Some((Cc::Slt, j))
    } else if let Some(j) = tag(s, i, "sle") {
        Some((Cc::Sle, j))
    } else {
        None
    }
}

/// The width of a memory access.
pub fn mem_size(s: &[char], i: usize) -> (r: Option<(WordSize, usize)>)
    requires
        i <= s@.len(),
    ensures
        agrees(r, grammar::mem_size(s@, i as int), i, s@.len()),
{
    if at(s, i, 'b') {
        Some((WordSize::B8, i + 1))
    } else if at(s, i, 'h') {
        Some((WordSize::B16, i + 1))
    } else if at(s, i, 'w') {
        Some((WordSize::B32, i + 1))
    } else {
        match tag(s, i, "dw") {
            Some(j) => Some((WordSize::B64, j)),
            None => None,
        }
    }
}

/// A memory reference.
pub fn mem_ref(s: &[char], i: usize) -> (r: Option<(MemRef, usize)>)
    requires
        i <= s@.len(),
    ensures
        agrees(r, grammar::mem_ref(s@, i as int), i, s@.len()),
{
    if !at(s, i, '[') {
        return None;
    }
    match reg(s, blanks(s, i + 1)) {
        Some((r, j)) => {
            let k = blanks(s, j);
            let (off, m) = match offset(s, k) {
                Some((o, m)) => (o, m),
                None => (0i64, k),
            };
            let n = blanks(s, m);
            if at(s, n, ']') {
                Some((MemRef(r, off), n + 1))
            } else {
                None
            }
        },
        None => None,
    }
}

} // verus!
