use ebpf_vc::ast;
use ebpf_vc::ast::{
    BinAlu, Cc, Expr, FBinOp, Formula, FormulaLine, Line, MemRef, Module, Reg, RegImm, UnAlu,
    WordSize,
};
use ebpf_vc::cfg::{Block, Cfg, Continuation, ConvertErr, Instr};
use ebpf_vc::formula::FormulaBuilder;

fn r(n: u8) -> Reg {
    Reg::new(n).unwrap()
}

fn program(lines: Vec<Line>) -> Module {
    Module { requires: vec![], ensures: vec![], lines }
}

fn create(lines: Vec<Line>) -> Result<Cfg, ConvertErr> {
    Cfg::create(program(lines), &mut FormulaBuilder::new())
}

fn failure(lines: Vec<Line>) -> ConvertErr {
    match create(lines) {
        Ok(_) => panic!("a graph was built"),
        Err(e) => e,
    }
}

fn label(l: &str) -> Line {
    Line::Label(l.to_owned())
}

fn mov(d: u8, v: i64) -> ast::Instr {
    ast::Instr::Binary(WordSize::B64, BinAlu::Mov, r(d), RegImm::Imm(v))
}

fn moved(d: u8, v: i64) -> Instr {
    Instr::Binary(WordSize::B64, BinAlu::Mov, r(d), RegImm::Imm(v))
}

fn exit() -> Line {
    Line::Instr(ast::Instr::Exit)
}

fn positive(name: &str) -> Formula {
    Formula::Rel(Cc::Gt, Expr::Var(name.to_owned()), Expr::Val(0))
}

#[test]
fn the_last_line_must_be_exit() {
    assert_eq!(failure(vec![]), ConvertErr::NoExit);
    assert_eq!(failure(vec![Line::Instr(mov(0, 1))]), ConvertErr::NoExit);
    assert_eq!(failure(vec![exit(), label("end")]), ConvertErr::NoExit);
    assert_eq!(
        failure(vec![exit(), Line::Instr(ast::Instr::Jmp("a".to_owned()))]),
        ConvertErr::NoExit
    );
}

#[test]
fn a_single_exit_is_one_empty_block() {
    let cfg = create(vec![exit()]).ok().unwrap();
    assert_eq!(cfg.start, "@0");
    assert_eq!(cfg.requires, Formula::Val(true));
    assert_eq!(cfg.ensures, Formula::Val(true));
    assert_eq!(cfg.len(), 1);
    assert_eq!(
        cfg.block("@0"),
        Some(&Block { require: None, body: vec![], next: Continuation::Exit })
    );
}

#[test]
fn clauses_are_conjoined_from_truth() {
    let m = Module {
        requires: vec![positive("r1"), positive("r2")],
        ensures: vec![positive("r0")],
        lines: vec![exit()],
    };
    let cfg = Cfg::create(m, &mut FormulaBuilder::new()).ok().unwrap();
    let and = |a, b| Formula::Bin(FBinOp::And, Box::new((a, b)));
    assert_eq!(cfg.requires, and(and(Formula::Val(true), positive("r1")), positive("r2")));
    assert_eq!(cfg.ensures, and(Formula::Val(true), positive("r0")));
}

#[test]
fn a_label_after_instructions_ends_the_block_with_a_jump() {
    let cfg = create(vec![Line::Instr(mov(0, 1)), label("next"), Line::Instr(mov(0, 2)), exit()])
        .ok()
        .unwrap();
    assert_eq!(cfg.start, "@0");
    assert_eq!(
        cfg.block("@0"),
        Some(&Block {
            require: None,
            body: vec![moved(0, 1)],
            next: Continuation::Jmp("next".to_owned())
        })
    );
    assert_eq!(
        cfg.block("next"),
        Some(&Block { require: None, body: vec![moved(0, 2)], next: Continuation::Exit })
    );
    assert_eq!(cfg.len(), 2);
}

#[test]
fn a_label_at_the_start_names_the_entry() {
    let cfg = create(vec![label("main"), exit()]).ok().unwrap();
    assert_eq!(cfg.start, "main");
    assert!(cfg.block("@0").is_none());
    assert!(cfg.block("main").is_some());
}

#[test]
fn a_conditional_jump_falls_through_to_a_made_up_label() {
    let cfg = create(vec![
        Line::Instr(ast::Instr::Jcc(Cc::Eq, r(0), RegImm::Imm(0), "L".to_owned())),
        Line::Instr(mov(1, 1)),
        exit(),
        label("L"),
        Line::Instr(mov(1, 2)),
        exit(),
    ])
    .ok()
    .unwrap();
    assert_eq!(
        cfg.block("@0").unwrap().next,
        Continuation::Jcc(Cc::Eq, r(0), RegImm::Imm(0), "L".to_owned(), "@1".to_owned())
    );
    assert_eq!(cfg.block("@1").unwrap().body, vec![moved(1, 1)]);
    assert_eq!(cfg.block("L").unwrap().body, vec![moved(1, 2)]);
    assert_eq!(cfg.len(), 3);
}

#[test]
fn a_made_up_label_gives_way_to_the_label_that_follows() {
    // The false branch falls through to `@1`, which the text names `next`.
    let cfg = create(vec![
        Line::Instr(ast::Instr::Jcc(Cc::Ne, r(0), RegImm::Reg(r(1)), "next".to_owned())),
        label("next"),
        exit(),
    ])
    .ok()
    .unwrap();
    assert_eq!(
        cfg.block("@0").unwrap().next,
        Continuation::Jcc(Cc::Ne, r(0), RegImm::Reg(r(1)), "next".to_owned(), "next".to_owned())
    );
    assert!(cfg.block("@1").is_none());
}

#[test]
fn invariants_are_staged_in_order() {
    let cfg = create(vec![
        label("L"),
        Line::Formula(FormulaLine::Require(positive("r1"))),
        Line::Formula(FormulaLine::Require(positive("r2"))),
        Line::Formula(FormulaLine::Assert(positive("r3"))),
        exit(),
    ])
    .ok()
    .unwrap();
    let block = cfg.block("L").unwrap();
    assert_eq!(
        block.require,
        Some(Formula::Bin(FBinOp::AndAsym, Box::new((positive("r1"), positive("r2")))))
    );
    assert_eq!(block.body, vec![Instr::Assert(positive("r3"))]);
}

#[test]
fn an_invariant_after_an_instruction_is_misplaced() {
    assert_eq!(
        failure(vec![
            Line::Instr(mov(0, 1)),
            Line::Formula(FormulaLine::Require(positive("r0"))),
            exit()
        ]),
        ConvertErr::MisplacedRequire
    );
    assert_eq!(
        failure(vec![
            Line::Formula(FormulaLine::Assert(positive("r0"))),
            Line::Formula(FormulaLine::Require(positive("r0"))),
            exit()
        ]),
        ConvertErr::MisplacedRequire
    );
}

#[test]
fn a_label_may_name_one_block_only() {
    assert_eq!(
        failure(vec![label("a"), exit(), label("a"), exit()]),
        ConvertErr::DuplicateLabel("a".to_owned())
    );
    assert_eq!(
        failure(vec![
            Line::Instr(ast::Instr::Jmp("@1".to_owned())),
            label("@0"),
            exit()
        ]),
        ConvertErr::DuplicateLabel("@0".to_owned())
    );
}

#[test]
fn a_jump_must_name_a_block() {
    assert_eq!(
        failure(vec![Line::Instr(ast::Instr::Jmp("gone".to_owned())), exit()]),
        ConvertErr::NoLabel("gone".to_owned())
    );
    assert_eq!(
        failure(vec![
            Line::Instr(ast::Instr::Jcc(Cc::Eq, r(0), RegImm::Imm(0), "gone".to_owned())),
            exit()
        ]),
        ConvertErr::NoLabel("gone".to_owned())
    );
    // The target is reported as it is written, not as what it leads to.
    assert_eq!(
        failure(vec![
            label("a"),
            label("b"),
            Line::Instr(ast::Instr::Jmp("a".to_owned())),
            label("c"),
            Line::Instr(ast::Instr::Jmp("lost".to_owned())),
            exit()
        ]),
        ConvertErr::NoLabel("lost".to_owned())
    );
}

#[test]
fn labels_in_a_row_name_one_block() {
    let cfg = create(vec![label("a"), label("b"), exit()]).ok().unwrap();
    assert_eq!(cfg.start, "b");
    assert_eq!(cfg.len(), 1);
    assert_eq!(
        cfg.block("b"),
        Some(&Block { require: None, body: vec![], next: Continuation::Exit })
    );
    assert!(cfg.block("a").is_none());

    let cfg = create(vec![label("a"), label("b"), label("c"), exit()]).ok().unwrap();
    assert_eq!(cfg.start, "c");
    assert_eq!(cfg.len(), 1);
    assert!(cfg.block("c").is_some());
}

#[test]
fn a_jump_follows_the_labels_to_the_block() {
    let cfg = create(vec![
        Line::Instr(ast::Instr::Jmp("a".to_owned())),
        label("a"),
        label("b"),
        label("c"),
        exit(),
    ])
    .ok()
    .unwrap();
    assert_eq!(cfg.start, "@0");
    assert_eq!(cfg.len(), 2);
    assert_eq!(cfg.block("@0").unwrap().next, Continuation::Jmp("c".to_owned()));
    assert_eq!(cfg.block("c").unwrap().next, Continuation::Exit);

    // Both sides of a branch are followed, and so is the label that was
    // made up for the side that falls through.
    let cfg = create(vec![
        Line::Instr(ast::Instr::Jcc(Cc::Eq, r(0), RegImm::Imm(0), "x".to_owned())),
        label("x"),
        label("y"),
        Line::Instr(mov(0, 1)),
        exit(),
    ])
    .ok()
    .unwrap();
    assert_eq!(
        cfg.block("@0").unwrap().next,
        Continuation::Jcc(Cc::Eq, r(0), RegImm::Imm(0), "y".to_owned(), "y".to_owned())
    );
}

#[test]
fn a_label_with_a_block_stands_for_itself() {
    // `a` is given up for `b` and then comes back: the jump goes to the
    // block that `a` gets in the end.
    let cfg = create(vec![
        Line::Instr(ast::Instr::Jmp("a".to_owned())),
        label("a"),
        label("b"),
        label("a"),
        exit(),
    ])
    .ok()
    .unwrap();
    assert_eq!(cfg.block("@0").unwrap().next, Continuation::Jmp("a".to_owned()));
    assert!(cfg.block("a").is_some());
    assert!(cfg.block("b").is_none());
    // And a jump to `b` finds the same block.
    let cfg = create(vec![
        Line::Instr(ast::Instr::Jmp("b".to_owned())),
        label("a"),
        label("b"),
        label("a"),
        exit(),
    ])
    .ok()
    .unwrap();
    assert_eq!(cfg.block("@0").unwrap().next, Continuation::Jmp("a".to_owned()));
}

#[test]
fn an_empty_label_is_a_label_like_any_other() {
    let cfg = create(vec![label(""), label("a"), exit()]).ok().unwrap();
    assert_eq!(cfg.start, "a");
    let cfg = create(vec![
        Line::Instr(ast::Instr::Jmp("".to_owned())),
        exit(),
    ]);
    assert!(matches!(cfg, Err(ConvertErr::NoLabel(l)) if l.is_empty()));
}

#[test]
fn only_64_bit_alu_operations_have_a_meaning() {
    let narrow = ast::Instr::Binary(WordSize::B32, BinAlu::Add, r(1), RegImm::Reg(r(2)));
    assert_eq!(
        failure(vec![Line::Instr(narrow.clone()), exit()]),
        ConvertErr::Unsupported(narrow)
    );
    let narrow = ast::Instr::Unary(WordSize::B32, UnAlu::Neg, r(1));
    assert_eq!(
        failure(vec![Line::Instr(narrow.clone()), exit()]),
        ConvertErr::Unsupported(narrow)
    );
    // Memory accesses may be of any width.
    let cfg = create(vec![
        Line::Instr(ast::Instr::Load(WordSize::B8, r(0), MemRef(r(1), 0))),
        Line::Instr(ast::Instr::Store(WordSize::B16, MemRef(r(1), 2), RegImm::Imm(0))),
        Line::Instr(ast::Instr::LoadImm(r(2), 5)),
        Line::Instr(ast::Instr::LoadMapFd(r(3), 6)),
        Line::Instr(ast::Instr::Call(7)),
        exit(),
    ])
    .ok()
    .unwrap();
    assert_eq!(
        cfg.block("@0").unwrap().body,
        vec![
            Instr::Load(WordSize::B8, r(0), MemRef(r(1), 0)),
            Instr::Store(WordSize::B16, MemRef(r(1), 2), RegImm::Imm(0)),
            Instr::LoadImm(r(2), 5),
            Instr::LoadMapFd(r(3), 6),
            Instr::Call(7),
        ]
    );
}

#[test]
fn the_first_failure_is_the_one_reported() {
    assert_eq!(
        failure(vec![
            Line::Instr(mov(0, 1)),
            Line::Formula(FormulaLine::Require(positive("r0"))),
            Line::Instr(ast::Instr::Jmp("gone".to_owned())),
            exit()
        ]),
        ConvertErr::MisplacedRequire
    );
}

#[test]
fn failures_read_as_sentences() {
    assert_eq!(ConvertErr::NoExit.message(), "Last instruction must be \"exit\"");
    assert_eq!(
        ConvertErr::NoLabel("out".to_owned()).message(),
        "Jump target \"out\" doesn't exist"
    );
    assert_eq!(
        ConvertErr::JumpBounds { target: 12, bound: 7 }.message(),
        "Jump target 12 outside bound 7"
    );
    assert_eq!(
        ConvertErr::MisplacedRequire.message(),
        "Requirements can only be placed at the start of blocks"
    );
    assert_eq!(
        ConvertErr::DuplicateLabel("twice".to_owned()).message(),
        "Duplicate label \"twice\""
    );
    assert_eq!(
        ConvertErr::Unsupported(ast::Instr::Binary(
            WordSize::B32,
            BinAlu::Add,
            r(1),
            RegImm::Imm(-5)
        ))
        .message(),
        "Unsupported instruction: add32 r1, -5"
    );
}
