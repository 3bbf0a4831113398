use ebpf_vc::ast::{BinAlu, Cc, Reg, RegImm, WordSize};
use ebpf_vc::cfg::create::State;
use ebpf_vc::cfg::{Block, Continuation, ConvertErr};
use ebpf_vc::decimal::{push_decimal, push_hex, push_signed, Counter};

#[test]
fn state_finishes_blocks_under_their_labels() {
    let mut state = State::new();
    assert!(state.finish(Continuation::Jmp("a".to_owned())).is_ok());
    state.change_label("a".to_owned());
    assert!(state.finish(Continuation::Exit).is_ok());
    let blocks = state.resolve_aliases();
    assert_eq!(blocks.len(), 2);
    assert_eq!(
        blocks.get("@0"),
        Some(&Block { require: None, body: vec![], next: Continuation::Jmp("a".to_owned()) })
    );
    assert_eq!(
        blocks.get("a"),
        Some(&Block { require: None, body: vec![], next: Continuation::Exit })
    );
}

#[test]
fn state_refuses_a_label_twice() {
    let mut state = State::new();
    assert!(state.finish(Continuation::Exit).is_ok());
    state.change_label("@0".to_owned());
    assert_eq!(
        state.finish(Continuation::Exit),
        Err(ConvertErr::DuplicateLabel("@0".to_owned()))
    );
}

#[test]
fn state_makes_up_labels_in_order() {
    let mut state = State::new();
    assert_eq!(state.next_label(), "@1");
    assert_eq!(state.next_label(), "@2");
    for _ in 3..10 {
        state.next_label();
    }
    assert_eq!(state.next_label(), "@10");
}

#[test]
fn state_resolves_a_label_that_gave_way() {
    let r0 = Reg::new(0).unwrap();
    let mut state = State::new();
    let fall = state.next_label();
    let branch = Continuation::Jcc(Cc::Eq, r0, RegImm::Imm(0), "far".to_owned(), fall.clone());
    assert!(state.finish(branch).is_ok());
    state.change_label(fall);
    // The made-up label gives way to the one that the text has.
    state.change_label("near".to_owned());
    assert!(state.finish(Continuation::Exit).is_ok());
    let blocks = state.resolve_aliases();
    assert_eq!(
        blocks.get("@0").unwrap().next,
        Continuation::Jcc(Cc::Eq, r0, RegImm::Imm(0), "far".to_owned(), "near".to_owned())
    );
    assert!(blocks.get("@1").is_none());
    assert!(blocks.get("near").is_some());
    let _ = (BinAlu::Mov, WordSize::B64);
}

#[test]
fn counter_carries_over_nines() {
    let mut c = Counter::zero();
    assert_eq!(c.text(), "0");
    for k in 1..=1000u32 {
        c = c.next();
        assert_eq!(c.text(), k.to_string());
    }
}

#[test]
fn numbers_as_text() {
    let mut out = String::from("n=");
    push_decimal(&mut out, 0);
    out.push(' ');
    push_decimal(&mut out, u64::MAX);
    out.push(' ');
    push_signed(&mut out, -40);
    out.push(' ');
    push_signed(&mut out, i64::MIN);
    out.push(' ');
    push_hex(&mut out, 0xabc, 4);
    out.push(' ');
    push_hex(&mut out, 0x12345, 2);
    out.push(' ');
    push_hex(&mut out, 7, 0);
    assert_eq!(out, "n=0 18446744073709551615 -40 -9223372036854775808 0abc 45 ");
}
