//! Why the obligations suffice: where all of them are valid, the
//! preconditions that the collector settled on are assertions that the
//! program keeps.

use vstd::prelude::*;
use crate::ast::{Cc, Reg, RegImm, SpecFormula};
use crate::cfg::{SpecCfg, SpecContinuation};
use crate::formula::Counters;
use crate::semantics::{holds, mentions, Interp, Valuation};
use crate::sound::{
    clean, is_base, law_wp_sound, lemma_holds_same, lemma_names_apart, lemma_runs_end,
    lemma_runs_safe, lemma_unminted_later, lemma_wp_unminted, may_end, may_fault, modelled,
    no_less, runs_to, same, standard, unminted,
};
use crate::vc::model::{
    branch, collect, comparison, cut, implication, law_collect_rests, lemma_collect,
    lemma_initial_inv, lemma_post_of, lemma_run_inv, lemma_runs_empty, obligations, Collector,
};
use crate::wp::wp_spec;

verus! {

/// What may be assumed on entering `t`, as things stand: the precondition
/// of a block that is done, and of any other what cuts it.
pub open spec fn expected(g: SpecCfg, c: Collector, t: Seq<char>) -> SpecFormula {
    if c.done(t) {
        c.status[t]->PreCond_0
    } else {
        cut(g, t)
    }
}

/// The postcondition of the block `l`, as things stand.
pub open spec fn expected_post(g: SpecCfg, c: Collector, l: Seq<char>) -> SpecFormula {
    match g.blocks[l].next {
        SpecContinuation::Exit => g.ensures,
        SpecContinuation::Jmp(t) => expected(g, c, t),
        SpecContinuation::Jcc(cc, a, b, t, f) => branch(
            cc,
            a,
            b,
            expected(g, c, t),
            expected(g, c, f),
        ),
    }
}

/// Whether what may be assumed on entering `t` will not change: `t` is
/// done, or lies on a loop and will be cut.
pub open spec fn anchored(c: Collector, t: Seq<char>) -> bool {
    c.status.contains_key(t) && (c.status[t] is PreCond || c.status[t] is Cyclic)
}

/// Whether the targets of the block `l` are anchored.
pub open spec fn targets_anchored(g: SpecCfg, c: Collector, l: Seq<char>) -> bool {
    match g.blocks[l].next {
        SpecContinuation::Exit => true,
        SpecContinuation::Jmp(t) => anchored(c, t),
        SpecContinuation::Jcc(_, _, _, t, f) => anchored(c, t) && anchored(c, f),
    }
}

/// Whether `d` is `c` after some targets were asked for: the blocks that
/// are done are the same and have the same preconditions, and what was
/// anchored still is.
pub open spec fn asked_from(c: Collector, d: Collector) -> bool {
    &&& d.counters == c.counters
    &&& d.emitted == c.emitted
    &&& forall|u: Seq<char>| #[trigger] d.done(u) == c.done(u)
    &&& forall|u: Seq<char>| c.done(u) ==> #[trigger] d.status[u] == c.status[u]
    &&& forall|u: Seq<char>| anchored(c, u) ==> #[trigger] anchored(d, u)
}

/// What asking for a target gives is what may be assumed on entering it,
/// and anchors it.
pub(crate) proof fn lemma_lookup_expected(c: Collector, g: SpecCfg, from: Seq<char>, t: Seq<char>)
    ensures
        asked_from(c, c.lookup(g, from, t).1),
        c.lookup(g, from, t).0 matches Some(x) ==> x == expected(g, c, t) && anchored(
            c.lookup(g, from, t).1,
            t,
        ),
{
    let d = c.lookup(g, from, t).1;
    assert forall|u: Seq<char>| anchored(c, u) implies #[trigger] anchored(d, u) by {
        if u != t {
            assert(d.status.contains_key(u) && d.status[u] == c.status[u]);
        }
    }
}

/// Asking one after the other is asking.
pub(crate) proof fn lemma_asked_twice(c: Collector, d: Collector, e: Collector)
    requires
        asked_from(c, d),
        asked_from(d, e),
    ensures
        asked_from(c, e),
{
    assert forall|u: Seq<char>| #[trigger] e.done(u) == c.done(u) by {
        assert(d.done(u) == c.done(u));
    }
    assert forall|u: Seq<char>| c.done(u) implies #[trigger] e.status[u] == c.status[u] by {
        assert(d.done(u) == c.done(u));
        assert(d.status[u] == c.status[u]);
    }
    assert forall|u: Seq<char>| anchored(c, u) implies #[trigger] anchored(e, u) by {
        assert(anchored(d, u));
    }
}

/// What may be assumed on entering a block is the same after asking.
pub(crate) proof fn lemma_asked_expected(g: SpecCfg, c: Collector, d: Collector, u: Seq<char>)
    requires
        asked_from(c, d),
    ensures
        expected(g, d, u) == expected(g, c, u),
{
    assert(d.done(u) == c.done(u));
    if c.done(u) {
        assert(d.status[u] == c.status[u]);
    }
}

/// The postcondition of a block is the same after asking.
pub(crate) proof fn lemma_asked_expected_post(g: SpecCfg, c: Collector, d: Collector, l: Seq<char>)
    requires
        asked_from(c, d),
    ensures
        expected_post(g, d, l) == expected_post(g, c, l),
        targets_anchored(g, c, l) ==> targets_anchored(g, d, l),
{
    match g.blocks[l].next {
        SpecContinuation::Exit => {},
        SpecContinuation::Jmp(t) => {
            lemma_asked_expected(g, c, d, t);
            if anchored(c, t) {
                assert(anchored(d, t));
            }
        },
        SpecContinuation::Jcc(_, _, _, t, f) => {
            lemma_asked_expected(g, c, d, t);
            lemma_asked_expected(g, c, d, f);
            if anchored(c, t) {
                assert(anchored(d, t));
            }
            if anchored(c, f) {
                assert(anchored(d, f));
            }
        },
    }
}

/// The postcondition that a block gets is the one that it has as things
/// stand, and its targets are then anchored.
pub(crate) proof fn lemma_post_of_expected(c: Collector, g: SpecCfg, l: Seq<char>)
    ensures
        asked_from(c, c.post_of(g, l).1),
        c.post_of(g, l).0 matches Some(p) ==> p == expected_post(g, c.post_of(g, l).1, l)
            && targets_anchored(g, c.post_of(g, l).1, l),
{
    match g.blocks[l].next {
        SpecContinuation::Exit => {},
        SpecContinuation::Jmp(t) => {
            lemma_lookup_expected(c, g, l, t);
            lemma_asked_expected(g, c, c.lookup(g, l, t).1, t);
        },
        SpecContinuation::Jcc(cc, a, b, t, f) => {
            lemma_lookup_expected(c, g, l, t);
            let (x, c1) = c.lookup(g, l, t);
            lemma_lookup_expected(c1, g, l, f);
            let (y, c2) = c1.lookup(g, l, f);
            lemma_asked_twice(c, c1, c2);
            lemma_asked_expected(g, c, c2, t);
            lemma_asked_expected(g, c1, c2, f);
            if x is Some && y is Some {
                assert(anchored(c2, t));
            }
        },
    }
}

/// A comparison of registers and values is written without any minted
/// name, and so is a branch on it between two formulas that are.
pub(crate) proof fn lemma_branch_unminted(
    c: Counters,
    cc: Cc,
    a: Reg,
    b: RegImm,
    x: SpecFormula,
    y: SpecFormula,
)
    requires
        unminted(c, x),
        unminted(c, y),
    ensures
        unminted(c, branch(cc, a, b, x, y)),
{
    reveal_with_fuel(mentions, 4);
    assert forall|base: Seq<char>, k: nat|
        is_base(base) && k >= crate::formula::next_index(c, base) implies !mentions(
        #[trigger] crate::formula::fresh_name(base, k),
        branch(cc, a, b, x, y),
    ) by {
        lemma_names_apart(base, k);
        let name = crate::formula::fresh_name(base, k);
        assert(!mentions(name, comparison(cc, a, b)));
    }
}

/// Whether the formulas that the program was written with hold no name
/// that is still to be minted, and every instruction has a meaning as a
/// step.
pub open spec fn written_before(g: SpecCfg, c0: Counters) -> bool {
    &&& unminted(c0, g.requires)
    &&& unminted(c0, g.ensures)
    &&& forall|l: Seq<char>| g.blocks.contains_key(l) ==> #[trigger] block_written_before(g, c0, l)
}

/// The same of one block.
pub open spec fn block_written_before(g: SpecCfg, c0: Counters, l: Seq<char>) -> bool {
    &&& unminted(c0, cut(g, l))
    &&& clean(c0, g.blocks[l].body)
    &&& forall|i: int| 0 <= i < g.blocks[l].body.len() ==> modelled(#[trigger] g.blocks[l].body[i])
}

/// What is known of a block that is done. With the counters `d` that its
/// body was taken with and its postcondition as things stand, its
/// precondition is the weakest precondition of its body, or is what cuts
/// the block, and then that this implies the weakest precondition is an
/// obligation.
pub open spec fn justified(g: SpecCfg, c: Collector, c0: Counters, l: Seq<char>, d: Counters)
    -> bool {
    let post = expected_post(g, c, l);
    let w = wp_spec(d, g.blocks[l].body, post).0;
    let pre = c.status[l]->PreCond_0;
    &&& g.blocks.contains_key(l)
    &&& no_less(c0, d)
    &&& unminted(d, post)
    &&& unminted(c.counters, pre)
    &&& targets_anchored(g, c, l)
    &&& pre == w || (pre == cut(g, l) && exists|i: int|
        0 <= i < c.emitted.len() && #[trigger] c.emitted[i] == implication(cut(g, l), w))
}

/// What holds of the collector after any number of steps, for the
/// counters `origin` that each body was taken with.
pub open spec fn sound_inv(
    g: SpecCfg,
    c: Collector,
    c0: Counters,
    origin: Map<Seq<char>, Counters>,
) -> bool {
    &&& no_less(c0, c.counters)
    &&& forall|l: Seq<char>| #[trigger]
        c.done(l) ==> origin.contains_key(l) && justified(g, c, c0, l, origin[l])
}

/// Marking a block as reached is asking.
pub(crate) proof fn lemma_reach_asked(c: Collector, l: Seq<char>)
    requires
        !c.done(l),
    ensures
        asked_from(c, c.reach(l)),
        !c.reach(l).done(l),
        c.reach(l).status.contains_key(l),
{
    let d = c.reach(l);
    assert forall|u: Seq<char>| anchored(c, u) implies #[trigger] anchored(d, u) by {
        assert(d.status.contains_key(u) && d.status[u] == c.status[u]);
    }
}

/// The postcondition of a block is written without any name that is
/// still to be minted.
pub(crate) proof fn lemma_expected_post_unminted(
    g: SpecCfg,
    c: Collector,
    c0: Counters,
    origin: Map<Seq<char>, Counters>,
    l: Seq<char>,
)
    requires
        g.wf(),
        g.blocks.contains_key(l),
        written_before(g, c0),
        sound_inv(g, c, c0, origin),
    ensures
        unminted(c.counters, expected_post(g, c, l)),
{
    assert(g.closed_at(l));
    lemma_unminted_later(c0, c.counters, g.ensures);
    match g.blocks[l].next {
        SpecContinuation::Exit => {},
        SpecContinuation::Jmp(t) => {
            lemma_expected_unminted(g, c, c0, origin, t);
        },
        SpecContinuation::Jcc(cc, a, b, t, f) => {
            lemma_expected_unminted(g, c, c0, origin, t);
            lemma_expected_unminted(g, c, c0, origin, f);
            lemma_branch_unminted(c.counters, cc, a, b, expected(g, c, t), expected(g, c, f));
        },
    }
}

/// What may be assumed on entering a block is written without any name
/// that is still to be minted.
pub(crate) proof fn lemma_expected_unminted(
    g: SpecCfg,
    c: Collector,
    c0: Counters,
    origin: Map<Seq<char>, Counters>,
    t: Seq<char>,
)
    requires
        g.blocks.contains_key(t),
        written_before(g, c0),
        sound_inv(g, c, c0, origin),
    ensures
        unminted(c.counters, expected(g, c, t)),
{
    if c.done(t) {
        assert(justified(g, c, c0, t, origin[t]));
    } else {
        assert(block_written_before(g, c0, t));
        lemma_unminted_later(c0, c.counters, cut(g, t));
    }
}

/// Settling a block leaves what may be assumed on entering an anchored
/// block as it is, and the block anchored.
pub(crate) proof fn lemma_settle_expected(
    g: SpecCfg,
    c: Collector,
    l: Seq<char>,
    w: SpecFormula,
    t: Seq<char>,
)
    requires
        c.status.contains_key(l),
        !c.done(l),
        anchored(c, t),
    ensures
        expected(g, c.settle(g, l, w), t) == expected(g, c, t),
        anchored(c.settle(g, l, w), t),
{
}

/// Settling a block leaves the postcondition of a block whose targets
/// are anchored as it is, and the targets anchored.
pub(crate) proof fn lemma_settle_expected_post(
    g: SpecCfg,
    c: Collector,
    l: Seq<char>,
    w: SpecFormula,
    u: Seq<char>,
)
    requires
        c.status.contains_key(l),
        !c.done(l),
        targets_anchored(g, c, u),
    ensures
        expected_post(g, c.settle(g, l, w), u) == expected_post(g, c, u),
        targets_anchored(g, c.settle(g, l, w), u),
{
    match g.blocks[u].next {
        SpecContinuation::Exit => {},
        SpecContinuation::Jmp(t) => {
            lemma_settle_expected(g, c, l, w, t);
        },
        SpecContinuation::Jcc(_, _, _, t, f) => {
            lemma_settle_expected(g, c, l, w, t);
            lemma_settle_expected(g, c, l, w, f);
        },
    }
}

/// What is known of a block that is done is still known after asking.
pub(crate) proof fn lemma_asked_justified(
    g: SpecCfg,
    c: Collector,
    d: Collector,
    c0: Counters,
    u: Seq<char>,
    from: Counters,
)
    requires
        asked_from(c, d),
        c.done(u),
        justified(g, c, c0, u, from),
    ensures
        justified(g, d, c0, u, from),
{
    lemma_asked_expected_post(g, c, d, u);
    assert(d.status[u] == c.status[u]);
    let w = wp_spec(from, g.blocks[u].body, expected_post(g, c, u)).0;
    if c.status[u]->PreCond_0 != w {
        let i = choose|i: int|
            0 <= i < c.emitted.len() && #[trigger] c.emitted[i] == implication(cut(g, u), w);
        assert(d.emitted[i] == implication(cut(g, u), w));
    }
}

/// What is known of a block that is done is still known after another
/// block was settled.
pub(crate) proof fn lemma_settled_justified(
    g: SpecCfg,
    c: Collector,
    c0: Counters,
    l: Seq<char>,
    w: SpecFormula,
    u: Seq<char>,
    from: Counters,
)
    requires
        c.status.contains_key(l),
        !c.done(l),
        c.done(u),
        justified(g, c, c0, u, from),
    ensures
        justified(g, c.settle(g, l, w), c0, u, from),
{
    let next = c.settle(g, l, w);
    lemma_settle_expected_post(g, c, l, w, u);
    assert(u != l);
    assert(next.status[u] == c.status[u]);
    let v = wp_spec(from, g.blocks[u].body, expected_post(g, c, u)).0;
    if c.status[u]->PreCond_0 != v {
        let i = choose|i: int|
            0 <= i < c.emitted.len() && #[trigger] c.emitted[i] == implication(cut(g, u), v);
        assert(next.emitted[i] == implication(cut(g, u), v));
    }
}

/// More names minted leave what is known of a block as it is.
pub(crate) proof fn lemma_later_justified(
    g: SpecCfg,
    c: Collector,
    counters: Counters,
    c0: Counters,
    u: Seq<char>,
    from: Counters,
)
    requires
        c.done(u),
        justified(g, c, c0, u, from),
        no_less(c.counters, counters),
    ensures
        justified(g, Collector { counters, ..c }, c0, u, from),
{
    let d = Collector { counters, ..c };
    lemma_unminted_later(c.counters, counters, c.status[u]->PreCond_0);
    lemma_expected_post_same_status(g, c, d, u);
    let v = wp_spec(from, g.blocks[u].body, expected_post(g, c, u)).0;
    if c.status[u]->PreCond_0 != v {
        let i = choose|i: int|
            0 <= i < c.emitted.len() && #[trigger] c.emitted[i] == implication(cut(g, u), v);
        assert(d.emitted[i] == implication(cut(g, u), v));
    }
}

/// The postcondition of a block depends on the table alone.
pub(crate) proof fn lemma_expected_post_same_status(g: SpecCfg, c: Collector, d: Collector, u: Seq<char>)
    requires
        d.status == c.status,
    ensures
        expected_post(g, d, u) == expected_post(g, c, u),
        targets_anchored(g, d, u) == targets_anchored(g, c, u),
{
}

/// One step keeps what is known of the blocks that are done, and adds the
/// block that it settles.
pub(crate) proof fn lemma_step_justifies(
    g: SpecCfg,
    c: Collector,
    c0: Counters,
    origin: Map<Seq<char>, Counters>,
) -> (after: Map<Seq<char>, Counters>)
    requires
        g.wf(),
        c.inv(g),
        c.stack.len() > 0,
        written_before(g, c0),
        sound_inv(g, c, c0, origin),
    ensures
        sound_inv(g, c.step(g), c0, after),
{
    let l = c.stack.last();
    let popped = Collector { stack: c.stack.drop_last(), ..c };
    let next = c.step(g);
    assert(g.blocks.contains_key(c.stack[c.stack.len() - 1]));
    if popped.done(l) {
        assert forall|u: Seq<char>| #[trigger] next.done(u) implies origin.contains_key(u)
            && justified(g, next, c0, u, origin[u]) by {
            assert(c.done(u));
            lemma_expected_post_same_status(g, c, next, u);
        }
        origin
    } else {
        lemma_reach_asked(popped, l);
        let reached = popped.reach(l);
        lemma_post_of_expected(reached, g, l);
        let (post, asked) = reached.post_of(g, l);
        lemma_asked_twice(popped, reached, asked);
        assert(sound_inv(g, asked, c0, origin)) by {
            assert forall|u: Seq<char>| #[trigger] asked.done(u) implies origin.contains_key(u)
                && justified(g, asked, c0, u, origin[u]) by {
                assert(popped.done(u) == asked.done(u));
                assert(c.done(u));
                lemma_expected_post_same_status(g, c, popped, u);
                lemma_asked_justified(g, popped, asked, c0, u, origin[u]);
            }
        }
        match post {
            None => {
                origin
            },
            Some(p) => {
                let d = asked.counters;
                let body = g.blocks[l].body;
                let (w, counters) = wp_spec(d, body, p);
                let ready = Collector { counters, ..asked };
                assert(next == ready.settle(g, l, w));
                assert(asked.done(l) == reached.done(l));
                assert(block_written_before(g, c0, l));
                lemma_expected_post_unminted(g, asked, c0, origin, l);
                assert(clean(d, body)) by {
                    assert forall|i: int| 0 <= i < body.len() implies crate::sound::clean_at(
                        d,
                        #[trigger] body[i],
                    ) by {
                        assert(crate::sound::clean_at(c0, body[i]));
                        match body[i] {
                            crate::cfg::SpecInstr::Assert(a) => {
                                lemma_unminted_later(c0, d, a);
                            },
                            _ => {},
                        }
                    }
                }
                lemma_wp_unminted(d, body, p);
                assert(no_less(c0, counters)) by {
                    assert forall|b: Seq<char>| crate::formula::next_index(c0, b)
                        <= #[trigger] crate::formula::next_index(counters, b) by {
                        assert(crate::formula::next_index(c0, b) <= crate::formula::next_index(
                            d,
                            b,
                        ));
                    }
                }
                let after = origin.insert(l, d);
                assert(ready.status.contains_key(l) && !ready.done(l)) by {
                    assert(asked.status.dom() =~= reached.status.dom()) by {
                        lemma_post_of(reached, g, l);
                    }
                }
                assert forall|u: Seq<char>| #[trigger] next.done(u) implies after.contains_key(u)
                    && justified(g, next, c0, u, after[u]) by {
                    if u == l {
                        lemma_expected_post_same_status(g, asked, ready, l);
                        lemma_settle_expected_post(g, ready, l, w, l);
                        lemma_unminted_later(c0, counters, cut(g, l));
                        if g.blocks[l].require is Some || ready.status[l] is Cyclic {
                            assert(next.emitted[next.emitted.len() - 1] == implication(
                                cut(g, l),
                                w,
                            ));
                        }
                    } else {
                        assert(asked.done(u));
                        lemma_later_justified(g, asked, counters, c0, u, origin[u]);
                        lemma_settled_justified(g, ready, c0, l, w, u, origin[u]);
                    }
                }
                after
            },
        }
    }
}

/// Every run keeps what is known of the blocks that are done.
pub(crate) proof fn lemma_run_justifies(g: SpecCfg, c0: Counters, n: nat) -> (origin: Map<
    Seq<char>,
    Counters,
>)
    requires
        g.wf(),
        written_before(g, c0),
    ensures
        sound_inv(g, Collector::initial(g, c0).run(g, n), c0, origin),
    decreases n,
{
    let init = Collector::initial(g, c0);
    if n == 0 {
        Map::empty()
    } else {
        let origin = lemma_run_justifies(g, c0, (n - 1) as nat);
        let before = init.run(g, (n - 1) as nat);
        lemma_initial_inv(g, c0);
        lemma_run_inv(init, g, (n - 1) as nat);
        if before.stack.len() == 0 {
            origin
        } else {
            lemma_step_justifies(g, before, c0, origin)
        }
    }
}

/// Whether every formula of `fs` is true under every valuation.
pub open spec fn all_valid(m: Interp, fs: Seq<SpecFormula>) -> bool {
    forall|i: int, env: Valuation| 0 <= i < fs.len() ==> #[trigger] holds(m, env, fs[i])
}

/// The precondition that the collector settles on for the block `l`.
pub open spec fn settled(g: SpecCfg, c0: Counters, l: Seq<char>) -> SpecFormula {
    collect(g, c0).status[l]->PreCond_0
}

/// What must hold where the block `l` ends: at an exit what the program
/// promises, before a jump the precondition settled on for its target,
/// and before a conditional jump that of the target that is taken.
pub open spec fn settled_post(g: SpecCfg, c0: Counters, l: Seq<char>) -> SpecFormula {
    match g.blocks[l].next {
        SpecContinuation::Exit => g.ensures,
        SpecContinuation::Jmp(t) => settled(g, c0, t),
        SpecContinuation::Jcc(cc, a, b, t, f) => branch(
            cc,
            a,
            b,
            settled(g, c0, t),
            settled(g, c0, f),
        ),
    }
}

/// Whether the collector has settled the targets of the block `l`.
pub open spec fn targets_settled(g: SpecCfg, c0: Counters, l: Seq<char>) -> bool {
    match g.blocks[l].next {
        SpecContinuation::Exit => true,
        SpecContinuation::Jmp(t) => collect(g, c0).done(t),
        SpecContinuation::Jcc(_, _, _, t, f) => collect(g, c0).done(t) && collect(g, c0).done(f),
    }
}

/// A branch holds where the formula of the side that is taken holds.
pub proof fn law_branch_means(
    m: Interp,
    env: Valuation,
    cc: Cc,
    a: Reg,
    b: RegImm,
    x: SpecFormula,
    y: SpecFormula,
)
    ensures
        holds(m, env, branch(cc, a, b, x, y)) == (if holds(m, env, comparison(cc, a, b)) {
            holds(m, env, x)
        } else {
            holds(m, env, y)
        }),
{
    reveal_with_fuel(holds, 4);
}

/// What is known of one block once the collector has come to rest.
pub(crate) proof fn lemma_block_kept(
    g: SpecCfg,
    c0: Counters,
    m: Interp,
    origin: Map<Seq<char>, Counters>,
    l: Seq<char>,
    env: Valuation,
)
    requires
        g.wf(),
        standard(m),
        written_before(g, c0),
        all_valid(m, obligations(g, c0)),
        sound_inv(g, collect(g, c0), c0, origin),
        collect(g, c0).done(l),
        forall|u: Seq<char>| #[trigger]
            collect(g, c0).status.contains_key(u) ==> collect(g, c0).done(u),
        holds(m, env, settled(g, c0, l)),
    ensures
        targets_settled(g, c0, l),
        runs_to(m, env, g.blocks[l].body, settled_post(g, c0, l)),
{
    let end = collect(g, c0);
    let d = origin[l];
    let body = g.blocks[l].body;
    assert(justified(g, end, c0, l, d));
    let post = expected_post(g, end, l);
    assert(targets_settled(g, c0, l) && post == settled_post(g, c0, l)) by {
        match g.blocks[l].next {
            SpecContinuation::Exit => {},
            SpecContinuation::Jmp(t) => {
                assert(end.status.contains_key(t));
            },
            SpecContinuation::Jcc(_, _, _, t, f) => {
                assert(end.status.contains_key(t));
                assert(end.status.contains_key(f));
            },
        }
    }
    let w = wp_spec(d, body, post).0;
    if settled(g, c0, l) != w {
        let i = choose|i: int|
            0 <= i < end.emitted.len() && #[trigger] end.emitted[i] == implication(cut(g, l), w);
        assert(obligations(g, c0)[i] == end.emitted[i]);
        assert(holds(m, env, obligations(g, c0)[i]));
        assert(holds(m, env, w)) by {
            reveal_with_fuel(holds, 2);
        }
    }
    assert(block_written_before(g, c0, l));
    assert(clean(d, body)) by {
        assert forall|i: int| 0 <= i < body.len() implies crate::sound::clean_at(
            d,
            #[trigger] body[i],
        ) by {
            assert(crate::sound::clean_at(c0, body[i]));
            match body[i] {
                crate::cfg::SpecInstr::Assert(a) => {
                    lemma_unminted_later(c0, d, a);
                },
                _ => {},
            }
        }
    }
    law_wp_sound(m, d, env, body, post);
}

/// The obligations suffice. Let the graph be well formed, let its
/// formulas be written without any name that is still to be minted and
/// its instructions have a meaning as steps, let equality and difference
/// mean what they say, and let every obligation be true under every
/// valuation. Then the preconditions that the collector settles on are
/// assertions that the program keeps:
///
/// - the entry block is settled, and its precondition holds wherever what
///   the program asks for at entry holds;
/// - every block that is settled, started where its precondition holds,
///   goes through without going wrong and ends where the precondition of
///   the block that follows holds, or, at an exit, what the program
///   promises; and the blocks that may follow are settled too.
pub proof fn law_obligations_suffice(g: SpecCfg, c0: Counters, m: Interp)
    requires
        g.wf(),
        standard(m),
        written_before(g, c0),
        all_valid(m, obligations(g, c0)),
    ensures
        collect(g, c0).done(g.start),
        forall|env: Valuation|
            holds(m, env, g.requires) ==> #[trigger] holds(m, env, settled(g, c0, g.start)),
        forall|l: Seq<char>| #[trigger] collect(g, c0).done(l) ==> targets_settled(g, c0, l),
        forall|l: Seq<char>, env: Valuation|
            collect(g, c0).done(l) && holds(m, env, settled(g, c0, l)) ==> #[trigger] runs_to(
                m,
                env,
                g.blocks[l].body,
                settled_post(g, c0, l),
            ),
{
    let init = Collector::initial(g, c0);
    lemma_initial_inv(g, c0);
    let n = lemma_runs_empty(init, g);
    lemma_collect(g, c0, n);
    let origin = lemma_run_justifies(g, c0, n);
    law_collect_rests(g, c0);
    let end = collect(g, c0);
    let all = obligations(g, c0);
    assert forall|env: Valuation| holds(m, env, g.requires) implies #[trigger] holds(
        m,
        env,
        settled(g, c0, g.start),
    ) by {
        assert(all[all.len() - 1] == implication(g.requires, settled(g, c0, g.start)));
        assert(holds(m, env, all[all.len() - 1]));
        reveal_with_fuel(holds, 2);
    }
    assert forall|l: Seq<char>| #[trigger] end.done(l) implies targets_settled(g, c0, l) by {
        assert(justified(g, end, c0, l, origin[l]));
        match g.blocks[l].next {
            SpecContinuation::Exit => {},
            SpecContinuation::Jmp(t) => {
                assert(end.status.contains_key(t));
            },
            SpecContinuation::Jcc(_, _, _, t, f) => {
                assert(end.status.contains_key(t));
                assert(end.status.contains_key(f));
            },
        }
    }
    assert forall|l: Seq<char>, env: Valuation|
        end.done(l) && holds(m, env, settled(g, c0, l)) implies #[trigger] runs_to(
        m,
        env,
        g.blocks[l].body,
        settled_post(g, c0, l),
    ) by {
        lemma_block_kept(g, c0, m, origin, l, env);
    }
}

/// Whether a run that has come to the end of the block `l` with the
/// valuation `end` goes on with the block `to`.
pub open spec fn goes(g: SpecCfg, m: Interp, l: Seq<char>, end: Valuation, to: Seq<char>) -> bool {
    match g.blocks[l].next {
        SpecContinuation::Exit => false,
        SpecContinuation::Jmp(t) => to == t,
        SpecContinuation::Jcc(cc, a, b, t, f) => if holds(m, end, comparison(cc, a, b)) {
            to == t
        } else {
            to == f
        },
    }
}

/// Whether some run of the block `l` from `start` ends in `there` and
/// goes on with the block `to`.
pub open spec fn hops(
    g: SpecCfg,
    m: Interp,
    l: Seq<char>,
    start: Valuation,
    to: Seq<char>,
    there: Valuation,
) -> bool {
    &&& g.blocks.contains_key(l)
    &&& may_end(m, start, g.blocks[l].body, there)
    &&& goes(g, m, l, there, to)
}

/// Whether some run that enters the block `from` with the valuation
/// `env` enters, `n` blocks later, the block `to` with the valuation
/// `there`.
pub open spec fn reaches(
    g: SpecCfg,
    m: Interp,
    from: Seq<char>,
    env: Valuation,
    n: nat,
    to: Seq<char>,
    there: Valuation,
) -> bool
    decreases n,
{
    if n == 0 {
        to == from && same(there, env)
    } else {
        exists|l: Seq<char>, start: Valuation|
            reaches(g, m, from, env, (n - 1) as nat, l, start) && #[trigger] hops(
                g,
                m,
                l,
                start,
                to,
                there,
            )
    }
}

/// Programs whose obligations are valid are correct. Under what
/// [`law_obligations_suffice`] asks for, take any run that enters the
/// program where what it asks for at entry holds, and any block that the
/// run comes to. The block is one that the collector settled, and its
/// precondition holds there; from there no run of the block goes wrong;
/// and where the block is an exit, every run of it ends where what the
/// program promises holds.
pub proof fn law_valid_programs_are_correct(
    g: SpecCfg,
    c0: Counters,
    m: Interp,
    env: Valuation,
    n: nat,
    l: Seq<char>,
    there: Valuation,
)
    requires
        g.wf(),
        standard(m),
        written_before(g, c0),
        all_valid(m, obligations(g, c0)),
        holds(m, env, g.requires),
        reaches(g, m, g.start, env, n, l, there),
    ensures
        collect(g, c0).done(l),
        holds(m, there, settled(g, c0, l)),
        !may_fault(m, there, g.blocks[l].body),
        g.blocks[l].next is Exit ==> forall|end: Valuation| #[trigger]
            may_end(m, there, g.blocks[l].body, end) ==> holds(m, end, g.ensures),
    decreases n,
{
    law_obligations_suffice(g, c0, m);
    if n == 0 {
        assert(holds(m, env, settled(g, c0, g.start)));
        lemma_holds_same(m, there, env, settled(g, c0, l));
    } else {
        let (k, start) = choose|k: Seq<char>, start: Valuation|
            reaches(g, m, g.start, env, (n - 1) as nat, k, start) && #[trigger] hops(
                g,
                m,
                k,
                start,
                l,
                there,
            );
        law_valid_programs_are_correct(g, c0, m, env, (n - 1) as nat, k, start);
        assert(runs_to(m, start, g.blocks[k].body, settled_post(g, c0, k)));
        lemma_runs_end(m, start, g.blocks[k].body, settled_post(g, c0, k), there);
        assert(targets_settled(g, c0, k));
        match g.blocks[k].next {
            SpecContinuation::Exit => {},
            SpecContinuation::Jmp(t) => {},
            SpecContinuation::Jcc(cc, a, b, t, f) => {
                law_branch_means(m, there, cc, a, b, settled(g, c0, t), settled(g, c0, f));
            },
        }
    }
    assert(runs_to(m, there, g.blocks[l].body, settled_post(g, c0, l)));
    lemma_runs_safe(m, there, g.blocks[l].body, settled_post(g, c0, l));
    if g.blocks[l].next is Exit {
        assert forall|end: Valuation| #[trigger]
            may_end(m, there, g.blocks[l].body, end) implies holds(m, end, g.ensures) by {
            lemma_runs_end(m, there, g.blocks[l].body, settled_post(g, c0, l), end);
        }
    }
}

} // verus!
