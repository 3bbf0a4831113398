use ebpf_vc::ast::{
    BinAlu, Cc, Expr, FBinOp, Formula, FormulaLine, Instr, Line, MemRef, QType, Reg, RegImm,
    UnAlu, WordSize,
};
use ebpf_vc::formula::FormulaBuilder;
use ebpf_vc::parse::instr::{cont, stmt};
use ebpf_vc::parse::logic::{formula, formula_line};
use ebpf_vc::parse::token::{ident, imm, isep, mem_ref, num, reg, reg_imm};
use ebpf_vc::parse::{label, line_sep, module, ParseErr};

fn chars(text: &str) -> Vec<char> {
    text.chars().collect()
}

/// What `read` gives at the start of `text`, where it reads all of it.
fn whole<T>(read: fn(&[char], usize) -> Option<(T, usize)>, text: &str) -> Option<T> {
    let s = chars(text);
    match read(&s, 0) {
        Some((v, end)) if end == s.len() => Some(v),
        _ => None,
    }
}

fn whole_at(read: fn(&[char], usize) -> Option<usize>, text: &str) -> bool {
    let s = chars(text);
    read(&s, 0) == Some(s.len())
}

fn r(n: u8) -> Reg {
    Reg::new(n).unwrap()
}

#[test]
fn numbers() {
    assert_eq!(whole(num, "0"), Some(0));
    assert_eq!(whole(num, "1"), Some(1));
    assert_eq!(whole(num, "9"), Some(9));
    assert_eq!(whole(num, "009"), Some(9));
    assert_eq!(whole(num, "39824"), Some(39824));
    assert_eq!(whole(num, "1234567890"), Some(1234567890));
    assert_eq!(whole(num, "348_922_30_875_"), Some(34892230875));

    assert_eq!(whole(num, "_123"), None);
    assert_eq!(whole(num, "123a"), None);
    assert_eq!(whole(num, "123a456"), None);
    assert_eq!(whole(num, "123 456"), None);
    assert_eq!(whole(num, "-123"), None);
    assert_eq!(whole(num, "- 123"), None);

    assert_eq!(whole(num, "0x0"), Some(0));
    assert_eq!(whole(num, "0x1"), Some(1));
    assert_eq!(whole(num, "0xf"), Some(0xf));
    assert_eq!(whole(num, "0x1234567890abcdef"), Some(0x1234567890abcdef));
    assert_eq!(whole(num, "0xdeadbeef"), Some(0xdeadbeef));
    assert_eq!(whole(num, "0xdE_aD_bE_eF_"), Some(0xdeadbeef));

    assert_eq!(whole(num, "0x_123"), None);
    assert_eq!(whole(num, "_0x123"), None);
    assert_eq!(whole(num, "x123"), None);
    assert_eq!(whole(num, "0x"), None);
    assert_eq!(whole(num, "0xx"), None);
    assert_eq!(whole(num, "deadbeef"), None);

    assert_eq!(whole(num, "0b0"), Some(0));
    assert_eq!(whole(num, "0b1"), Some(1));
    assert_eq!(whole(num, "0b11"), Some(3));
    assert_eq!(whole(num, "0b101010"), Some(42));
    assert_eq!(whole(num, "0b11010010"), Some(0b11010010));
    assert_eq!(whole(num, "0b1_1_010_010_"), Some(0b11010010));

    assert_eq!(whole(num, "1_1_010_010_"), Some(11010010));
    assert_eq!(whole(num, "0b123"), None);
    assert_eq!(whole(num, "0bb"), None);
    assert_eq!(whole(num, "0b_101"), None);
    assert_eq!(whole(num, "_0b101"), None);
    assert_eq!(whole(num, "b101"), None);
    assert_eq!(whole(num, "0b"), None);
}

#[test]
fn numbers_stop_where_the_digits_end() {
    let s = chars("0b123");
    assert_eq!(num(&s, 0), Some((1, 3)));
    let s = chars("0x");
    assert_eq!(num(&s, 0), Some((0, 1)));
    let s = chars("12 34");
    assert_eq!(num(&s, 3), Some((34, 5)));
}

#[test]
fn numbers_must_fit_in_63_bits() {
    assert_eq!(whole(num, "9223372036854775807"), Some(i64::MAX));
    assert_eq!(whole(num, "9223372036854775808"), None);
    assert_eq!(whole(num, "0x7fffffffffffffff"), Some(i64::MAX));
    // The hexadecimal reading fails, so the decimal one takes the zero.
    let s = chars("0x8000000000000000");
    assert_eq!(num(&s, 0), Some((0, 1)));
    assert_eq!(whole(num, "99999999999999999999999999"), None);
}

#[test]
fn identifiers() {
    for text in [
        "identifier",
        "identifier_again",
        "sphinx_of_black_quartz_judge_my_vow",
        "PACK_MY_BOX_WITH_FIVE_DOZEN_LIQOUR_JUGS",
        "_hello_WORLD_",
        "abc123",
    ] {
        assert_eq!(whole(ident, text), Some(text.to_owned()));
    }
    for text in ["_", "__", "________", "123", "123abc", "_123", ""] {
        assert_eq!(whole(ident, text), None);
    }
    for c in " `~!@#$%^&*[]+-=()\\{}|;':\",./<>?".chars() {
        assert_eq!(whole(ident, format!("hello{c}world").as_str()), None);
    }
}

#[test]
fn instruction_separators() {
    for text in [" ", " ,", " , ", "\t , ", "\t , \t", "\t\t , \t\t", "  \t\t    ,    \t\t  ", ","] {
        assert!(whole_at(isep, text));
    }
    for text in ["", ",,", "\n", " \n ", ", \n ", " \n ,"] {
        assert!(!whole_at(isep, text));
    }
}

#[test]
fn registers() {
    for n in 0..10u8 {
        assert_eq!(whole(reg, format!("r{n}").as_str()), Some(r(n)));
    }
    for text in ["r", "rcx", "r10", "r11", "%r11"] {
        assert_eq!(whole(reg, text), None);
    }
    // `r11` is `r1` and a digit left over; `r10` is nothing.
    assert_eq!(reg(&chars("r11"), 0), Some((r(1), 2)));
    assert_eq!(reg(&chars("r10"), 0), None);
}

#[test]
fn immediates() {
    assert_eq!(whole(imm, "123"), Some(123));
    assert_eq!(whole(imm, "+123"), Some(123));
    assert_eq!(whole(imm, "+0x38fa"), Some(0x38fa));
    assert_eq!(whole(imm, "+0b101010"), Some(42));
    assert_eq!(whole(imm, "-123"), Some(-123));
    assert_eq!(whole(imm, "-0x38fa"), Some(-0x38fa));
    assert_eq!(whole(imm, "-0b101010"), Some(-42));
    assert_eq!(whole(imm, "+ \t 123"), Some(123));
    assert_eq!(whole(imm, "+ \t 0x38fa"), Some(0x38fa));
    assert_eq!(whole(imm, "+ \t 0b101010"), Some(42));
    assert_eq!(whole(imm, "- \t 123"), Some(-123));
    assert_eq!(whole(imm, "- \t 0x38fa"), Some(-0x38fa));
    assert_eq!(whole(imm, "- \t 0b101010"), Some(-42));
    assert_eq!(whole(imm, "-9223372036854775807"), Some(-i64::MAX));
    assert_eq!(whole(imm, "--1"), None);
}

#[test]
fn register_or_immediates() {
    assert_eq!(whole(reg_imm, "r0"), Some(RegImm::Reg(r(0))));
    assert_eq!(whole(reg_imm, "r1"), Some(RegImm::Reg(r(1))));
    assert_eq!(whole(reg_imm, "r8"), Some(RegImm::Reg(r(8))));
    assert_eq!(whole(reg_imm, "r9"), Some(RegImm::Reg(r(9))));
    assert_eq!(whole(reg_imm, "123"), Some(RegImm::Imm(123)));
    assert_eq!(whole(reg_imm, "-123"), Some(RegImm::Imm(-123)));
    assert_eq!(whole(reg_imm, "0xde_aDBe_Ef"), Some(RegImm::Imm(0xdeadbeef)));
    assert_eq!(whole(reg_imm, "-0xde_aDBe_Ef"), Some(RegImm::Imm(-0xdeadbeef)));
    assert_eq!(whole(reg_imm, "-0b1001"), Some(RegImm::Imm(-0b1001)));
    for text in ["-r0", "r0 ", "0 ", "label "] {
        assert_eq!(whole(reg_imm, text), None);
    }
}

#[test]
fn memory_references() {
    assert_eq!(whole(mem_ref, "[r0]"), Some(MemRef(r(0), 0)));
    assert_eq!(whole(mem_ref, "[ r0 ]"), Some(MemRef(r(0), 0)));
    assert_eq!(whole(mem_ref, "[ r9 + 24 ]"), Some(MemRef(r(9), 24)));
    assert_eq!(whole(mem_ref, "[ r5 -\t 3 ]"), Some(MemRef(r(5), -3)));
    assert_eq!(whole(mem_ref, "[ r5 -\t 0b1001001 ]"), Some(MemRef(r(5), -0b1001001)));
    assert_eq!(whole(mem_ref, "[r2+0xdeadbeef]"), Some(MemRef(r(2), 0xdeadbeef)));
    assert_eq!(whole(mem_ref, "[r2 + -4]"), Some(MemRef(r(2), -4)));
    for text in ["r0", "[r0", "r0]", "[[r0]", "[r0]]", "[[r0]]", "[]", "[r4 10]", "[10 + r4]"] {
        assert_eq!(whole(mem_ref, text), None);
    }
}

#[test]
fn unary_instrs() {
    assert_eq!(whole(stmt, "neg r0"), Some(Instr::Unary(WordSize::B64, UnAlu::Neg, r(0))));
    assert_eq!(whole(stmt, "le r3"), Some(Instr::Unary(WordSize::B64, UnAlu::Le, r(3))));
    assert_eq!(whole(stmt, "be r8"), Some(Instr::Unary(WordSize::B64, UnAlu::Be, r(8))));
    assert_eq!(whole(stmt, "neg32 r0"), Some(Instr::Unary(WordSize::B32, UnAlu::Neg, r(0))));
    assert_eq!(whole(stmt, "le32 r3"), Some(Instr::Unary(WordSize::B32, UnAlu::Le, r(3))));
    assert_eq!(whole(stmt, "be32 r8"), Some(Instr::Unary(WordSize::B32, UnAlu::Be, r(8))));
    assert_eq!(whole(stmt, "neg64 r0"), Some(Instr::Unary(WordSize::B64, UnAlu::Neg, r(0))));
    for text in ["neg r0,", "neg32, r0", "neg16 r0", "neg8 r0", "neg r0 r1", "be r0 r1", "le r0 r1"] {
        assert_eq!(whole(stmt, text), None);
    }
}

#[test]
fn binary_instrs() {
    let ops = [
        ("mov", BinAlu::Mov),
        ("add", BinAlu::Add),
        ("sub", BinAlu::Sub),
        ("mul", BinAlu::Mul),
        ("div", BinAlu::Div),
        ("mod", BinAlu::Mod),
        ("and", BinAlu::And),
        ("or", BinAlu::Or),
        ("xor", BinAlu::Xor),
        ("lsh", BinAlu::Lsh),
        ("rsh", BinAlu::Rsh),
        ("arsh", BinAlu::Arsh),
    ];
    for (name, op) in ops {
        assert_eq!(
            whole(stmt, format!("{name} r1 r2").as_str()),
            Some(Instr::Binary(WordSize::B64, op, r(1), RegImm::Reg(r(2))))
        );
        assert_eq!(
            whole(stmt, format!("{name} r1 0xfaef").as_str()),
            Some(Instr::Binary(WordSize::B64, op, r(1), RegImm::Imm(0xfaef)))
        );
        assert_eq!(
            whole(stmt, format!("{name}32 r1 r2").as_str()),
            Some(Instr::Binary(WordSize::B32, op, r(1), RegImm::Reg(r(2))))
        );
        assert_eq!(
            whole(stmt, format!("{name}32 r1 0xfaef").as_str()),
            Some(Instr::Binary(WordSize::B32, op, r(1), RegImm::Imm(0xfaef)))
        );
    }
    assert_eq!(
        whole(stmt, "mov32 r1, - 0b1001"),
        Some(Instr::Binary(WordSize::B32, BinAlu::Mov, r(1), RegImm::Imm(-0b1001)))
    );
    assert_eq!(
        whole(stmt, "or32 r1, r2"),
        Some(Instr::Binary(WordSize::B32, BinAlu::Or, r(1), RegImm::Reg(r(2))))
    );
    assert_eq!(
        whole(stmt, "div32 r1,+0b1001"),
        Some(Instr::Binary(WordSize::B32, BinAlu::Div, r(1), RegImm::Imm(0b1001)))
    );
    assert_eq!(
        whole(stmt, "mul32 r1,r2"),
        Some(Instr::Binary(WordSize::B32, BinAlu::Mul, r(1), RegImm::Reg(r(2))))
    );
    assert_eq!(
        whole(stmt, "add64 r1, r2"),
        Some(Instr::Binary(WordSize::B64, BinAlu::Add, r(1), RegImm::Reg(r(2))))
    );
    for text in [
        "mov",
        "mov,",
        "mov r1",
        "mov r1,",
        "mov32, r1, r2",
        "mov32 r1,, 0xfaef",
        "mov32r1 0xfaef",
        "movr1 0xfaef",
        "mov r1r2",
        "mov 32 r1 r2",
        "mov 0 r2",
    ] {
        assert_eq!(whole(stmt, text), None);
    }
}

#[test]
fn load_instructions() {
    assert_eq!(whole(stmt, "ldxb r0  [r1]"), Some(Instr::Load(WordSize::B8, r(0), MemRef(r(1), 0))));
    assert_eq!(whole(stmt, "ldxh r0  [r1]"), Some(Instr::Load(WordSize::B16, r(0), MemRef(r(1), 0))));
    assert_eq!(whole(stmt, "ldxw r0  [r1]"), Some(Instr::Load(WordSize::B32, r(0), MemRef(r(1), 0))));
    assert_eq!(whole(stmt, "ldxdw r0 [r1]"), Some(Instr::Load(WordSize::B64, r(0), MemRef(r(1), 0))));
    assert_eq!(whole(stmt, "lddw r0, 123"), Some(Instr::LoadImm(r(0), 123)));
    assert_eq!(whole(stmt, "call 7"), Some(Instr::Call(7)));
    assert_eq!(whole(stmt, "ld r0 [r1]"), None);
    assert_eq!(whole(stmt, "ldx r0 [r1]"), None);
}

#[test]
fn store_instructions() {
    for (name, size) in [("b", WordSize::B8), ("h", WordSize::B16), ("w", WordSize::B32), ("dw", WordSize::B64)] {
        assert_eq!(
            whole(stmt, format!("st{name}  [r0] 123").as_str()),
            Some(Instr::Store(size, MemRef(r(0), 0), RegImm::Imm(123)))
        );
        assert_eq!(
            whole(stmt, format!("stx{name}  [r0] r1").as_str()),
            Some(Instr::Store(size, MemRef(r(0), 0), RegImm::Reg(r(1))))
        );
    }
    assert_eq!(whole(stmt, "st [r0] r1"), None);
    assert_eq!(whole(stmt, "stx [r0] r1"), None);
}

#[test]
fn jump_instructions() {
    assert_eq!(whole(cont, "exit"), Some(Instr::Exit));
    assert_eq!(whole(cont, "ja label"), Some(Instr::Jmp("label".to_owned())));
    assert_eq!(whole(cont, "jmp label"), Some(Instr::Jmp("label".to_owned())));
    assert_eq!(
        whole(cont, "jeq r0 r1 l"),
        Some(Instr::Jcc(Cc::Eq, r(0), RegImm::Reg(r(1)), "l".to_owned()))
    );
    let codes = [
        ("eq", Cc::Eq),
        ("gt", Cc::Gt),
        ("ge", Cc::Ge),
        ("lt", Cc::Lt),
        ("le", Cc::Le),
        ("set", Cc::Jset),
        ("ne", Cc::Ne),
        ("sgt", Cc::Sgt),
        ("sge", Cc::Sge),
        ("slt", Cc::Slt),
        ("sle", Cc::Sle),
    ];
    for (name, cc) in codes {
        assert_eq!(
            whole(cont, format!("j{name} r0 0 l").as_str()),
            Some(Instr::Jcc(cc, r(0), RegImm::Imm(0), "l".to_owned()))
        );
    }
    assert_eq!(whole(cont, "jeq 0 r1 l"), None);
    assert_eq!(whole(cont, "jax"), None);
}

#[test]
fn line_separators() {
    for text in [
        "\n",
        "    \n",
        "\t    \n",
        "    \n   ",
        ";\n",
        "   ;\n",
        "   ;\n   ",
        ";comment\n",
        "   ; a comment \n   ",
        "   ;; ; comments can be unicode: æØ§ŒfïÐ§ÓÍ \n   ",
        "\n\n\n",
        "\n;\n\n",
        "; comment \n\n ;comment   \n",
    ] {
        assert!(whole_at(line_sep, text), "rejects {text:?}");
    }
    for text in [
        "",
        ";#",
        ";#some comment",
        ";# some comment",
        ";# assert x <> y",
        " ",
        "a\n",
        "a \n",
        "not a comment \n",
        "\n ; comments have to end with a newline",
        "\n ; \n; \n;",
    ] {
        assert!(!whole_at(line_sep, text), "accepts {text:?}");
    }
}

#[test]
fn labels() {
    for (input, expect) in [
        ("l:", "l"),
        ("l :", "l"),
        ("LABEL :", "LABEL"),
        ("_XYZ123_:", "_XYZ123_"),
        ("_XYZ123_  \t  :", "_XYZ123_"),
    ] {
        assert_eq!(whole(label, input), Some(expect.to_owned()));
    }
    for text in [":", "some_identifier", "some identifiers"] {
        assert_eq!(whole(label, text), None);
    }
}

#[test]
fn formulas() {
    let f = FormulaBuilder::new();
    assert_eq!(whole(formula, "true"), Some(f.top()));
    assert_eq!(whole(formula, "false"), Some(f.bot()));

    let x = f.var_ident("x".to_owned());
    let y = f.var_ident("y".to_owned());
    let z = f.var_ident("z".to_owned());
    assert_eq!(whole(formula, "x = y"), Some(f.rel(Cc::Eq, x.clone(), y.clone())));
    assert_eq!(whole(formula, "x <> y"), Some(f.rel(Cc::Ne, x.clone(), y.clone())));
    assert_eq!(whole(formula, "x > y"), Some(f.rel(Cc::Gt, x.clone(), y.clone())));
    assert_eq!(whole(formula, "x >= y"), Some(f.rel(Cc::Ge, x.clone(), y.clone())));
    assert_eq!(whole(formula, "x < y"), Some(f.rel(Cc::Lt, x.clone(), y.clone())));
    assert_eq!(whole(formula, "x <= y"), Some(f.rel(Cc::Le, x.clone(), y.clone())));

    assert_eq!(
        whole(formula, "x <= sub(y, z)"),
        Some(f.rel(Cc::Le, x.clone(), f.binop(BinAlu::Sub, y.clone(), z.clone())))
    );
    assert_eq!(
        whole(formula, "sub(x, y) >= add(mov(neg(x), z), y)"),
        Some(f.rel(
            Cc::Ge,
            f.binop(BinAlu::Sub, x.clone(), y.clone()),
            f.binop(
                BinAlu::Add,
                f.binop(BinAlu::Mov, f.unop(UnAlu::Neg, x.clone()), z.clone()),
                y.clone()
            )
        ))
    );
}

#[test]
fn connectives_and_quantifiers() {
    let x = || Expr::Var("x".to_owned());
    let one = || Formula::Rel(Cc::Eq, x(), Expr::Val(1));
    assert_eq!(
        whole(formula, "not(x = 1)"),
        Some(Formula::Not(Box::new(one())))
    );
    for (sign, op) in [
        ("/\\", FBinOp::And),
        ("\\/", FBinOp::Or),
        ("->", FBinOp::Implies),
        ("<->", FBinOp::Iff),
        ("&&", FBinOp::AndAsym),
    ] {
        assert_eq!(
            whole(formula, format!("{sign}(x = 1, true)").as_str()),
            Some(Formula::Bin(op, Box::new((one(), Formula::Val(true)))))
        );
    }
    assert_eq!(
        whole(formula, "forall x. x = 1"),
        Some(Formula::Quant(QType::Forall, "x".to_owned(), Box::new(one())))
    );
    assert_eq!(
        whole(formula, "exists x. ( x = 1 )"),
        Some(Formula::Quant(QType::Exists, "x".to_owned(), Box::new(one())))
    );
    assert_eq!(
        whole(formula, "is_buffer(p, add(x, 4))"),
        Some(Formula::IsBuffer(
            "p".to_owned(),
            Expr::Binary(BinAlu::Add, Box::new((x(), Expr::Val(4))))
        ))
    );
    // A name that starts like an operation is still a name.
    assert_eq!(
        whole(formula, "address = nothing"),
        Some(Formula::Rel(
            Cc::Eq,
            Expr::Var("address".to_owned()),
            Expr::Var("nothing".to_owned())
        ))
    );
    assert_eq!(whole(formula, "forall x x = 1"), None);
    assert_eq!(whole(formula, "/\\(x = 1)"), None);
    assert_eq!(whole(formula, "x == 1"), None);
}

#[test]
fn assertions() {
    let f = FormulaBuilder::new();
    assert_eq!(whole(formula_line, ";# assert true"), Some(FormulaLine::Assert(f.top())));
    assert_eq!(whole(formula_line, ";# assert false"), Some(FormulaLine::Assert(f.bot())));
    let x = f.var_ident("x".to_owned());
    let y = f.var_ident("y".to_owned());
    assert_eq!(
        whole(formula_line, ";# assert x <> y"),
        Some(FormulaLine::Assert(f.rel(Cc::Ne, x.clone(), y.clone())))
    );
    assert_eq!(
        whole(formula_line, ";#req x <> y"),
        Some(FormulaLine::Require(f.rel(Cc::Ne, x, y)))
    );
    assert_eq!(whole(formula_line, "; assert true"), None);
}

fn bin(op: BinAlu, d: u8, src: RegImm) -> Line {
    Line::Instr(Instr::Binary(WordSize::B64, op, r(d), src))
}

#[test]
fn gcd() {
    let exit = module("exit").unwrap();
    assert_eq!(exit.lines, vec![Line::Instr(Instr::Exit)]);
    assert!(exit.requires.is_empty());
    assert!(exit.ensures.is_empty());

    let parsed = module(
        "
            ;; Solution to day 1, part 1 of Advent of Code 2022.
            ;; r0 - return value, max elf
            ;; r1 - input ptr
            ;; r2 - input size
            ;; r3 - index
            ;; r4 - load dst
            ;; r5 - number parsing accumulator
            ;; r6 - current elf

            mov r0 0
            mov r3 0
            mov r5 0
            mov r6 0
            outer: ;; loop
                jeq r3 r2 submit ;; submit final elf if end of input has been reached
                mov r4 r1 ;; load next byte
                add r4 r3
                ldxb r4 [r4]
                add r3 1
                jeq r4 10 submit ;; newline check

            inner: ;; loop. parses a number from a decimal string, terminated by newline
                mul r5 10
                add r5 r4
                sub r5 48
                mov r4 r1 ;; load next byte
                add r4 r3
                ldxb r4 [r4]
                add r3 1
                jne r4 10 inner ;; newline check

                add r6 r5
                mov r5 0
                ja outer

            submit: ;; finishes an elf. compare to current max and replace if better, reset elf to 0
                jgt r0 r6 skip
                mov r0 r6
            skip:
                mov r6 0
                jeq r3 r2 end
                ja outer

            end:
                exit
        ",
    )
    .unwrap();
    let jcc = |cc, a, b, l: &str| Line::Instr(Instr::Jcc(cc, r(a), b, l.to_owned()));
    let load = |d, m| Line::Instr(Instr::Load(WordSize::B8, r(d), MemRef(r(m), 0)));
    assert_eq!(
        parsed.lines,
        vec![
            bin(BinAlu::Mov, 0, RegImm::Imm(0)),
            bin(BinAlu::Mov, 3, RegImm::Imm(0)),
            bin(BinAlu::Mov, 5, RegImm::Imm(0)),
            bin(BinAlu::Mov, 6, RegImm::Imm(0)),
            Line::Label("outer".to_owned()),
            jcc(Cc::Eq, 3, RegImm::Reg(r(2)), "submit"),
            bin(BinAlu::Mov, 4, RegImm::Reg(r(1))),
            bin(BinAlu::Add, 4, RegImm::Reg(r(3))),
            load(4, 4),
            bin(BinAlu::Add, 3, RegImm::Imm(1)),
            jcc(Cc::Eq, 4, RegImm::Imm(10), "submit"),
            Line::Label("inner".to_owned()),
            bin(BinAlu::Mul, 5, RegImm::Imm(10)),
            bin(BinAlu::Add, 5, RegImm::Reg(r(4))),
            bin(BinAlu::Sub, 5, RegImm::Imm(48)),
            bin(BinAlu::Mov, 4, RegImm::Reg(r(1))),
            bin(BinAlu::Add, 4, RegImm::Reg(r(3))),
            load(4, 4),
            bin(BinAlu::Add, 3, RegImm::Imm(1)),
            jcc(Cc::Ne, 4, RegImm::Imm(10), "inner"),
            bin(BinAlu::Add, 6, RegImm::Reg(r(5))),
            bin(BinAlu::Mov, 5, RegImm::Imm(0)),
            Line::Instr(Instr::Jmp("outer".to_owned())),
            Line::Label("submit".to_owned()),
            jcc(Cc::Gt, 0, RegImm::Reg(r(6)), "skip"),
            bin(BinAlu::Mov, 0, RegImm::Reg(r(6))),
            Line::Label("skip".to_owned()),
            bin(BinAlu::Mov, 6, RegImm::Imm(0)),
            jcc(Cc::Eq, 3, RegImm::Reg(r(2)), "end"),
            Line::Instr(Instr::Jmp("outer".to_owned())),
            Line::Label("end".to_owned()),
            Line::Instr(Instr::Exit),
        ]
    );
}

#[test]
fn rejects_bad_module() {
    assert_eq!(module("asdf"), Err(ParseErr { position: 0 }));
}

#[test]
fn module_reports_where_reading_stopped() {
    assert_eq!(module("exit\nfoo bar\n"), Err(ParseErr { position: 5 }));
    assert_eq!(module("mov r0 1 junk\nexit"), Err(ParseErr { position: 8 }));
    assert_eq!(module("mov r10 1\nexit"), Err(ParseErr { position: 0 }));
}

#[test]
fn module_reads_clauses_before_the_program() {
    let m = module(
        "; a comment\n;# requires r1 > 0\n;# requires r2 > 0\n;# ensures r0 = 1\n  mov r0 1\n;# assert r0 = 1\n  exit\n\n",
    )
    .unwrap();
    let gt = |name: &str| Formula::Rel(Cc::Gt, Expr::Var(name.to_owned()), Expr::Val(0));
    let one = Formula::Rel(Cc::Eq, Expr::Var("r0".to_owned()), Expr::Val(1));
    assert_eq!(m.requires, vec![gt("r1"), gt("r2")]);
    assert_eq!(m.ensures, vec![one.clone()]);
    assert_eq!(
        m.lines,
        vec![
            bin(BinAlu::Mov, 0, RegImm::Imm(1)),
            Line::Formula(FormulaLine::Assert(one)),
            Line::Instr(Instr::Exit),
        ]
    );
}

#[test]
fn empty_text_is_an_empty_module() {
    let m = module("").unwrap();
    assert!(m.requires.is_empty() && m.ensures.is_empty() && m.lines.is_empty());
    let m = module("\n\n ; only a comment\n").unwrap();
    assert!(m.lines.is_empty());
}
