//! The collector of proof obligations as a state machine over models: a
//! work stack of labels and, for each block, how far it has come.

use vstd::prelude::*;
use crate::ast::{Cc, FBinOp, Reg, RegImm, SpecFormula};
use crate::cfg::{SpecCfg, SpecContinuation};
use crate::formula::Counters;
use crate::wp::{operand, reg_var, wp_spec};

verus! {

/// How far a block has come.
pub enum SpecStatus {
    /// Reached, its precondition not known yet.
    Pending,
    /// Reached again before its precondition was known: it lies on a loop.
    Cyclic,
    /// Done: what may be assumed to hold when the block is entered.
    PreCond(SpecFormula),
}

/// The collector between two steps.
pub struct Collector {
    /// The labels still to be looked at, the next one last.
    pub stack: Seq<Seq<char>>,
    /// The blocks reached so far.
    pub status: Map<Seq<char>, SpecStatus>,
    /// The names minted so far.
    pub counters: Counters,
    /// The obligations so far.
    pub emitted: Seq<SpecFormula>,
}

/// The formula `a -> b`.
pub open spec fn implication(a: SpecFormula, b: SpecFormula) -> SpecFormula {
    SpecFormula::Bin(FBinOp::Implies, Box::new(a), Box::new(b))
}

/// What cuts a loop through the block `l`: its invariant, or truth where
/// it has none.
pub open spec fn cut(g: SpecCfg, l: Seq<char>) -> SpecFormula {
    match g.blocks[l].require {
        Some(inv) => inv,
        None => SpecFormula::Val(true),
    }
}

/// The comparison of a conditional jump.
pub open spec fn comparison(cc: Cc, a: Reg, b: RegImm) -> SpecFormula {
    SpecFormula::Rel(cc, reg_var(a), operand(b))
}

/// The postcondition of a block that ends in a conditional jump: where the
/// comparison holds, `x`, and where it does not, `y`:
/// `(cmp && x) \/ (not(cmp) && y)`.
pub open spec fn branch(cc: Cc, a: Reg, b: RegImm, x: SpecFormula, y: SpecFormula) -> SpecFormula {
    SpecFormula::Bin(
        FBinOp::Or,
        Box::new(SpecFormula::Bin(FBinOp::AndAsym, Box::new(comparison(cc, a, b)), Box::new(x))),
        Box::new(
            SpecFormula::Bin(
                FBinOp::AndAsym,
                Box::new(SpecFormula::Not(Box::new(comparison(cc, a, b)))),
                Box::new(y),
            ),
        ),
    )
}

impl Collector {
    /// The collector before the first step: only the entry is to be looked
    /// at.
    pub open spec fn initial(g: SpecCfg, counters: Counters) -> Collector {
        Collector { stack: seq![g.start], status: Map::empty(), counters, emitted: Seq::empty() }
    }

    /// Whether the block `l` is done.
    pub open spec fn done(self, l: Seq<char>) -> bool {
        self.status.contains_key(l) && self.status[l] is PreCond
    }

    /// What may be assumed on entering `target`, asked for the block
    /// `from`.
    ///
    /// A block that is done gives its precondition. One that was reached
    /// and is not done lies on a loop: it is marked, and gives what cuts
    /// it. One that was never reached gives nothing: `from` and then
    /// `target` go onto the stack, so that `target` comes first.
    pub open spec fn lookup(self, g: SpecCfg, from: Seq<char>, target: Seq<char>) -> (
        Option<SpecFormula>,
        Collector,
    ) {
        if self.status.contains_key(target) {
            match self.status[target] {
                SpecStatus::PreCond(c) => (Some(c), self),
                _ => (
                    Some(cut(g, target)),
                    Collector { status: self.status.insert(target, SpecStatus::Cyclic), ..self },
                ),
            }
        } else {
            (None, Collector { stack: self.stack.push(from).push(target), ..self })
        }
    }

    /// The postcondition of the block `l`, from its continuation. Both
    /// targets of a conditional jump are asked, the first one first.
    pub open spec fn post_of(self, g: SpecCfg, l: Seq<char>) -> (Option<SpecFormula>, Collector) {
        match g.blocks[l].next {
            SpecContinuation::Exit => (Some(g.ensures), self),
            SpecContinuation::Jmp(t) => self.lookup(g, l, t),
            SpecContinuation::Jcc(cc, a, b, t, f) => {
                let (x, c1) = self.lookup(g, l, t);
                let (y, c2) = c1.lookup(g, l, f);
                (
                    match (x, y) {
                        (Some(x), Some(y)) => Some(branch(cc, a, b, x, y)),
                        _ => None,
                    },
                    c2,
                )
            },
        }
    }

    /// The collector after the block `l` got the precondition `w` of its
    /// body.
    ///
    /// A block with an invariant yields the obligation that the invariant
    /// implies `w`, and may from then on be entered under the invariant. A
    /// block without one that lies on a loop is cut by truth in the same
    /// way. Any other may be entered under `w`, and yields nothing.
    pub open spec fn settle(self, g: SpecCfg, l: Seq<char>, w: SpecFormula) -> Collector {
        if g.blocks[l].require is Some || self.status[l] is Cyclic {
            Collector {
                status: self.status.insert(l, SpecStatus::PreCond(cut(g, l))),
                emitted: self.emitted.push(implication(cut(g, l), w)),
                ..self
            }
        } else {
            Collector { status: self.status.insert(l, SpecStatus::PreCond(w)), ..self }
        }
    }

    /// The collector with the block `l` marked as reached.
    pub open spec fn reach(self, l: Seq<char>) -> Collector {
        if self.status.contains_key(l) {
            self
        } else {
            Collector { status: self.status.insert(l, SpecStatus::Pending), ..self }
        }
    }

    /// One step: takes the last label off the stack. A block that is done
    /// is passed over. Otherwise, where the postcondition is known, the
    /// block is settled with the weakest precondition of its body; where it
    /// is not, the block waits on the stack below the target it needs.
    pub open spec fn step(self, g: SpecCfg) -> Collector {
        let l = self.stack.last();
        let popped = Collector { stack: self.stack.drop_last(), ..self };
        if popped.done(l) {
            popped
        } else {
            let (post, asked) = popped.reach(l).post_of(g, l);
            match post {
                None => asked,
                Some(p) => {
                    let (w, counters) = wp_spec(asked.counters, g.blocks[l].body, p);
                    Collector { counters, ..asked }.settle(g, l, w)
                },
            }
        }
    }

    /// The collector after `n` steps, or after fewer where the stack was
    /// empty before.
    pub open spec fn run(self, g: SpecCfg, n: nat) -> Collector
        decreases n,
    {
        if n == 0 {
            self
        } else {
            let before = self.run(g, (n - 1) as nat);
            if before.stack.len() == 0 {
                before
            } else {
                before.step(g)
            }
        }
    }

    /// What holds of the collector after any number of steps: the stack
    /// and the table name blocks of the graph only, a block that was
    /// reached and is not done waits on the stack, and the entry was
    /// reached or waits there.
    pub open spec fn inv(self, g: SpecCfg) -> bool {
        &&& forall|i: int| 0 <= i < self.stack.len() ==> g.blocks.contains_key(#[trigger] self.stack[i])
        &&& forall|l: Seq<char>| #[trigger] self.status.contains_key(l) ==> g.blocks.contains_key(l)
        &&& forall|l: Seq<char>| #[trigger]
            self.status.contains_key(l) && !(self.status[l] is PreCond) ==> self.stack.contains(l)
        &&& self.status.contains_key(g.start) || self.stack.contains(g.start)
    }

    /// The blocks of the graph that were never reached.
    pub open spec fn unseen(self, g: SpecCfg) -> Set<Seq<char>> {
        g.blocks.dom().difference(self.status.dom())
    }

    /// A number that every step makes smaller and that never falls below
    /// zero.
    pub open spec fn measure(self, g: SpecCfg) -> int {
        8 * self.unseen(g).len() + self.stack.len() - (if self.stack.len() > 0
            && !self.status.contains_key(self.stack.last()) {
            4int
        } else {
            0int
        })
    }
}

/// Whether `b` is `a` with labels pushed on top.
pub open spec fn grown(a: Seq<Seq<char>>, b: Seq<Seq<char>>) -> bool {
    &&& a.len() <= b.len()
    &&& forall|i: int| 0 <= i < a.len() ==> a[i] == #[trigger] b[i]
}

/// What asking for a target changes.
pub(crate) proof fn lemma_lookup(c: Collector, g: SpecCfg, from: Seq<char>, target: Seq<char>)
    requires
        g.blocks.contains_key(from),
        g.blocks.contains_key(target),
    ensures
        ({
            let (r, d) = c.lookup(g, from, target);
            &&& d.counters == c.counters
            &&& d.emitted == c.emitted
            &&& d.status.dom() =~= c.status.dom()
            &&& forall|l: Seq<char>| #[trigger] d.done(l) <==> c.done(l)
            &&& r is Some ==> d.stack == c.stack
            &&& r is None ==> {
                &&& d.status == c.status
                &&& d.stack == c.stack.push(from).push(target)
                &&& !c.status.contains_key(target)
            }
        }),
{
}

/// What asking for the postcondition of a block changes: the table keeps
/// its blocks and those that are done; and either the postcondition is
/// known and the stack is as before, or the block and a target that was
/// never reached were pushed, that target last.
pub(crate) proof fn lemma_post_of(c: Collector, g: SpecCfg, l: Seq<char>)
    requires
        g.wf(),
        g.blocks.contains_key(l),
    ensures
        ({
            let (r, d) = c.post_of(g, l);
            &&& d.counters == c.counters
            &&& d.emitted == c.emitted
            &&& d.status.dom() =~= c.status.dom()
            &&& forall|x: Seq<char>| #[trigger] d.done(x) <==> c.done(x)
            &&& r is Some ==> d.stack == c.stack
            &&& r is None ==> {
                &&& grown(c.stack, d.stack)
                &&& c.stack.len() + 2 <= d.stack.len() <= c.stack.len() + 4
                &&& !d.status.contains_key(d.stack.last())
                &&& d.stack[c.stack.len() as int] == l
                &&& forall|i: int|
                    c.stack.len() <= i < d.stack.len() ==> g.blocks.contains_key(
                        #[trigger] d.stack[i],
                    )
            }
        }),
{
    assert(g.closed_at(l));
    match g.blocks[l].next {
        SpecContinuation::Exit => {},
        SpecContinuation::Jmp(t) => {
            lemma_lookup(c, g, l, t);
        },
        SpecContinuation::Jcc(cc, a, b, t, f) => {
            lemma_lookup(c, g, l, t);
            let (x, c1) = c.lookup(g, l, t);
            lemma_lookup(c1, g, l, f);
            let (y, c2) = c1.lookup(g, l, f);
            assert forall|z: Seq<char>| #[trigger] c2.done(z) <==> c.done(z) by {
                assert(c1.done(z) <==> c.done(z));
            }
        },
    }
}

/// What one step does to the stack and the table, whatever the formulas:
/// the top label `l` leaves the stack and is in the table from then on;
/// either nothing is pushed and `l` is done, or `l` and a target that was
/// never reached are pushed, that target last; no other block becomes done
/// or stops being so.
pub open spec fn follows(c: Collector, g: SpecCfg, next: Collector) -> bool {
    let l = c.stack.last();
    let base = c.stack.drop_last();
    &&& next.status.dom() =~= c.status.dom().insert(l)
    &&& grown(base, next.stack)
    &&& next.stack.len() <= base.len() + 4
    &&& forall|i: int|
        base.len() <= i < next.stack.len() ==> g.blocks.contains_key(#[trigger] next.stack[i])
    &&& next.stack.len() > base.len() ==> {
        &&& !next.status.contains_key(next.stack.last())
        &&& next.stack[base.len() as int] == l
        &&& next.stack.len() >= base.len() + 2
    }
    &&& next.stack.len() == base.len() ==> next.done(l)
    &&& forall|x: Seq<char>| x != l ==> (#[trigger] next.done(x) <==> c.done(x))
}

/// A step does what `follows` says.
pub(crate) proof fn lemma_step_follows(c: Collector, g: SpecCfg)
    requires
        g.wf(),
        c.inv(g),
        c.stack.len() > 0,
    ensures
        follows(c, g, c.step(g)),
{
    let s = c.stack;
    let l = s.last();
    let base = s.drop_last();
    let popped = Collector { stack: base, ..c };
    let next = c.step(g);
    assert(g.blocks.contains_key(s[s.len() - 1]));
    if popped.done(l) {
        assert(next == popped);
        assert(next.status.dom() =~= c.status.dom().insert(l));
    } else {
        let reached = popped.reach(l);
        lemma_post_of(reached, g, l);
        let (post, asked) = reached.post_of(g, l);
        assert(asked.status.dom() =~= c.status.dom().insert(l));
        assert forall|x: Seq<char>| x != l implies (asked.done(x) <==> c.done(x)) by {
            assert(asked.done(x) <==> reached.done(x));
        }
        match post {
            None => {
                assert(next == asked);
            },
            Some(p) => {
                let (w, counters) = wp_spec(asked.counters, g.blocks[l].body, p);
                let ready = Collector { counters, ..asked };
                assert(next == ready.settle(g, l, w));
                assert(next.stack == base);
                assert(next.status.dom() =~= asked.status.dom());
                assert(next.done(l));
                assert forall|x: Seq<char>| x != l implies (#[trigger] next.done(x) <==> c.done(
                    x,
                )) by {
                    assert(next.done(x) <==> asked.done(x));
                }
            },
        }
    }
}

/// What `follows` says of a step is enough to keep what holds of the
/// collector and to make its measure smaller.
pub(crate) proof fn lemma_follows_suffices(c: Collector, g: SpecCfg, next: Collector)
    requires
        g.wf(),
        c.inv(g),
        c.stack.len() > 0,
        follows(c, g, next),
    ensures
        next.inv(g),
        0 <= next.measure(g) < c.measure(g),
{
    let s = c.stack;
    let l = s.last();
    let base = s.drop_last();
    assert(g.blocks.contains_key(s[s.len() - 1]));
    assert(c.unseen(g).finite());
    assert(next.unseen(g) =~= c.unseen(g).remove(l));
    if !c.status.contains_key(l) {
        assert(c.unseen(g).contains(l));
    }
    assert forall|i: int| 0 <= i < next.stack.len() implies g.blocks.contains_key(
        #[trigger] next.stack[i],
    ) by {
        if i < base.len() {
            assert(next.stack[i] == base[i]);
            assert(base[i] == s[i]);
        }
    }
    if next.stack.len() > 0 && !next.status.contains_key(next.stack.last()) {
        assert(g.blocks.contains_key(next.stack[next.stack.len() - 1]));
        assert(next.unseen(g).contains(next.stack.last()));
    }
    assert forall|x: Seq<char>| s.contains(x) && x != l implies next.stack.contains(x) by {
        let i = choose|i: int| 0 <= i < s.len() && s[i] == x;
        assert(base[i] == x);
        assert(next.stack[i] == x);
    }
    assert forall|x: Seq<char>| #[trigger]
        next.status.contains_key(x) && !(next.status[x] is PreCond) implies next.stack.contains(
        x,
    ) by {
        assert(!next.done(x));
        if x == l {
            assert(next.stack[base.len() as int] == l);
        } else {
            assert(!c.done(x));
            assert(c.status.contains_key(x));
            assert(s.contains(x));
        }
    }
    if !next.status.contains_key(g.start) {
        assert(s.contains(g.start));
    }
}

/// One step keeps what holds of the collector and makes its measure
/// smaller.
pub(crate) proof fn lemma_step(c: Collector, g: SpecCfg)
    requires
        g.wf(),
        c.inv(g),
        c.stack.len() > 0,
    ensures
        c.step(g).inv(g),
        0 <= c.step(g).measure(g) < c.measure(g),
{
    lemma_step_follows(c, g);
    lemma_follows_suffices(c, g, c.step(g));
}

/// A run whose stack is empty has come to rest.
pub(crate) proof fn lemma_run_rests(c: Collector, g: SpecCfg, n: nat, m: nat)
    requires
        c.run(g, n).stack.len() == 0,
        n <= m,
    ensures
        c.run(g, m) == c.run(g, n),
    decreases m,
{
    if n < m {
        lemma_run_rests(c, g, n, (m - 1) as nat);
    }
}

/// A run of one step more is the run of the collector after one step.
pub(crate) proof fn lemma_run_shift(c: Collector, g: SpecCfg, n: nat)
    requires
        c.stack.len() > 0,
    ensures
        c.run(g, n + 1) == c.step(g).run(g, n),
    decreases n,
{
    if n > 0 {
        lemma_run_shift(c, g, (n - 1) as nat);
    } else {
        assert(c.run(g, 0) == c);
    }
}

/// Every run keeps what holds of the collector.
pub(crate) proof fn lemma_run_inv(c: Collector, g: SpecCfg, n: nat)
    requires
        g.wf(),
        c.inv(g),
    ensures
        c.run(g, n).inv(g),
    decreases n,
{
    if n > 0 {
        lemma_run_inv(c, g, (n - 1) as nat);
        let before = c.run(g, (n - 1) as nat);
        if before.stack.len() > 0 {
            lemma_step(before, g);
        }
    }
}

/// From any collector the stack runs empty after finitely many steps.
pub(crate) proof fn lemma_runs_empty(c: Collector, g: SpecCfg) -> (n: nat)
    requires
        g.wf(),
        c.inv(g),
    ensures
        c.run(g, n).stack.len() == 0,
    decreases c.measure(g),
{
    if c.stack.len() == 0 {
        0
    } else {
        lemma_step(c, g);
        let k = lemma_runs_empty(c.step(g), g);
        lemma_run_shift(c, g, k);
        k + 1
    }
}

/// The collector at the start keeps what holds of every collector.
pub(crate) proof fn lemma_initial_inv(g: SpecCfg, counters: Counters)
    requires
        g.wf(),
    ensures
        Collector::initial(g, counters).inv(g),
{
    let c = Collector::initial(g, counters);
    assert(c.stack[0] == g.start);
    assert(c.stack.contains(g.start));
}

/// Whether the collector has come to rest after `n` steps.
pub open spec fn at_rest(g: SpecCfg, counters: Counters, n: nat) -> bool {
    Collector::initial(g, counters).run(g, n).stack.len() == 0
}

/// The collector at rest: after as many steps from the start as empty the
/// stack.
pub open spec fn collect(g: SpecCfg, counters: Counters) -> Collector {
    Collector::initial(g, counters).run(g, choose|n: nat| at_rest(g, counters, n))
}

/// The obligations of a graph: those that the collector yields on its way,
/// in that order, and last that what holds at entry implies the
/// precondition of the entry block.
pub open spec fn obligations(g: SpecCfg, counters: Counters) -> Seq<SpecFormula> {
    let end = collect(g, counters);
    end.emitted.push(implication(g.requires, end.status[g.start]->PreCond_0))
}

/// Any run that has come to rest is the collector at rest.
pub(crate) proof fn lemma_collect(g: SpecCfg, counters: Counters, n: nat)
    requires
        at_rest(g, counters, n),
    ensures
        collect(g, counters) == Collector::initial(g, counters).run(g, n),
{
    let m = choose|m: nat| at_rest(g, counters, m);
    let c = Collector::initial(g, counters);
    if m <= n {
        lemma_run_rests(c, g, m, n);
    } else {
        lemma_run_rests(c, g, n, m);
    }
}

/// The collector comes to rest on every well-formed graph, and every block
/// that it reached is then done, the entry among them.
pub proof fn law_collect_rests(g: SpecCfg, counters: Counters)
    requires
        g.wf(),
    ensures
        collect(g, counters).stack.len() == 0,
        collect(g, counters).inv(g),
        collect(g, counters).done(g.start),
        forall|l: Seq<char>| #[trigger]
            collect(g, counters).status.contains_key(l) ==> collect(g, counters).done(l),
{
    let c = Collector::initial(g, counters);
    lemma_initial_inv(g, counters);
    let n = lemma_runs_empty(c, g);
    lemma_collect(g, counters, n);
    lemma_run_inv(c, g, n);
    let end = collect(g, counters);
    assert forall|l: Seq<char>| #[trigger] end.status.contains_key(l) implies end.done(l) by {
        if !(end.status[l] is PreCond) {
            assert(end.stack.contains(l));
        }
    }
    assert(!end.stack.contains(g.start));
}

/// The last obligation is that what holds at entry implies the
/// precondition of the entry block.
pub proof fn law_entry_obligation(g: SpecCfg, counters: Counters)
    requires
        g.wf(),
    ensures
        collect(g, counters).status.contains_key(g.start),
        collect(g, counters).status[g.start] is PreCond,
        obligations(g, counters).last() == implication(
            g.requires,
            collect(g, counters).status[g.start]->PreCond_0,
        ),
{
    law_collect_rests(g, counters);
}

/// Whether the next step settles the block `l` and yields the obligation
/// that cuts it: what cuts `l` implies the weakest precondition of its body
/// for its postcondition. From then on `l` may be entered under what cuts
/// it.
pub open spec fn cuts(c: Collector, g: SpecCfg, l: Seq<char>) -> bool {
    let popped = Collector { stack: c.stack.drop_last(), ..c };
    let (post, asked) = popped.reach(l).post_of(g, l);
    &&& c.stack.len() > 0
    &&& c.stack.last() == l
    &&& !c.done(l)
    &&& post is Some
    &&& c.step(g).emitted == c.emitted.push(
        implication(cut(g, l), wp_spec(asked.counters, g.blocks[l].body, post->0).0),
    )
    &&& c.step(g).status.contains_key(l)
    &&& c.step(g).status[l] == SpecStatus::PreCond(cut(g, l))
}

/// A step only adds obligations, and a block on a loop stays on a loop
/// until it is done.
pub(crate) proof fn lemma_step_keeps(c: Collector, g: SpecCfg, l: Seq<char>)
    requires
        g.wf(),
        c.inv(g),
        c.stack.len() > 0,
    ensures
        grown_by(c.emitted, c.step(g).emitted),
        c.status.contains_key(l) && c.status[l] is Cyclic && !c.step(g).done(l) ==> c.step(
            g,
        ).status.contains_key(l) && c.step(g).status[l] is Cyclic,
        c.status.contains_key(l) && c.status[l] is Cyclic && c.step(g).done(l) ==> cuts(c, g, l),
{
    let top = c.stack.last();
    let popped = Collector { stack: c.stack.drop_last(), ..c };
    assert(g.blocks.contains_key(c.stack[c.stack.len() - 1]));
    if !popped.done(top) {
        let reached = popped.reach(top);
        lemma_post_of(reached, g, top);
        let (post, asked) = reached.post_of(g, top);
        if c.status.contains_key(l) && c.status[l] is Cyclic {
            lemma_post_of_keeps(reached, g, top, l);
            if c.step(g).done(l) {
                assert(!c.done(l));
                assert(!asked.done(l));
                assert(top == l);
            }
        }
    }
}

/// Whether `b` is `a` with formulas appended.
pub open spec fn grown_by(a: Seq<SpecFormula>, b: Seq<SpecFormula>) -> bool {
    &&& a.len() <= b.len()
    &&& forall|i: int| 0 <= i < a.len() ==> a[i] == #[trigger] b[i]
}

/// Asking for a postcondition leaves a block that lies on a loop on it.
pub(crate) proof fn lemma_post_of_keeps(c: Collector, g: SpecCfg, from: Seq<char>, l: Seq<char>)
    requires
        c.status.contains_key(l),
        c.status[l] is Cyclic,
    ensures
        c.post_of(g, from).1.status.contains_key(l),
        c.post_of(g, from).1.status[l] is Cyclic,
{
}

/// A run of `n` steps and then `k` is a run of `n + k` steps.
pub(crate) proof fn lemma_run_add(c: Collector, g: SpecCfg, n: nat, k: nat)
    ensures
        c.run(g, n).run(g, k) == c.run(g, n + k),
    decreases k,
{
    if k > 0 {
        lemma_run_add(c, g, n, (k - 1) as nat);
    }
}

/// A run only adds obligations.
pub(crate) proof fn lemma_run_grows(c: Collector, g: SpecCfg, n: nat)
    requires
        g.wf(),
        c.inv(g),
    ensures
        grown_by(c.emitted, c.run(g, n).emitted),
    decreases n,
{
    if n > 0 {
        lemma_run_grows(c, g, (n - 1) as nat);
        lemma_run_inv(c, g, (n - 1) as nat);
        let before = c.run(g, (n - 1) as nat);
        if before.stack.len() > 0 {
            lemma_step_keeps(before, g, Seq::empty());
        }
    }
}

/// A block that lies on a loop is settled after finitely many steps, by a
/// step that yields the obligation that cuts it.
pub(crate) proof fn lemma_cyclic_settles(c: Collector, g: SpecCfg, l: Seq<char>) -> (k: nat)
    requires
        g.wf(),
        c.inv(g),
        c.status.contains_key(l),
        c.status[l] is Cyclic,
    ensures
        cuts(c.run(g, k), g, l),
    decreases c.measure(g),
{
    assert(c.stack.contains(l));
    lemma_step(c, g);
    lemma_step_keeps(c, g, l);
    if c.step(g).done(l) {
        0
    } else {
        let k = lemma_cyclic_settles(c.step(g), g, l);
        lemma_run_shift(c, g, k);
        k + 1
    }
}

/// Loops are cut soundly. A block that the collector has marked as lying
/// on a loop is settled by a later step. That step yields one obligation:
/// what cuts the block, its invariant or truth where it has none, implies
/// the weakest precondition of its body for its postcondition. The
/// obligation is among those of the graph.
pub proof fn law_loop_cut(g: SpecCfg, counters: Counters, n: nat, l: Seq<char>) -> (m: nat)
    requires
        g.wf(),
        Collector::initial(g, counters).run(g, n).status.contains_key(l),
        Collector::initial(g, counters).run(g, n).status[l] is Cyclic,
    ensures
        n <= m,
        cuts(Collector::initial(g, counters).run(g, m), g, l),
        Collector::initial(g, counters).run(g, m).emitted.len() < obligations(g, counters).len(),
        obligations(g, counters)[Collector::initial(g, counters).run(g, m).emitted.len() as int]
            == Collector::initial(g, counters).run(g, m).step(g).emitted.last(),
{
    let init = Collector::initial(g, counters);
    lemma_initial_inv(g, counters);
    lemma_run_inv(init, g, n);
    let k = lemma_cyclic_settles(init.run(g, n), g, l);
    lemma_run_add(init, g, n, k);
    let m = n + k;
    let at = init.run(g, m);
    let after = at.step(g);
    lemma_run_inv(init, g, m);
    lemma_step(at, g);
    // The run from `after` on to rest only adds obligations.
    let rest = lemma_runs_empty(after, g);
    lemma_run_grows(after, g, rest);
    lemma_run_shift(at, g, rest);
    lemma_run_add(init, g, m, rest + 1);
    lemma_collect(g, counters, m + rest + 1);
    assert(after.emitted[at.emitted.len() as int] == after.emitted.last());
    m
}

/// The obligation that cuts a block guards every division of the block
/// where it stands. Let the `i`-th instruction of the block divide. Then
/// the obligation is that what cuts the block implies the precondition of
/// what comes before the division for this: the guard on the divisor,
/// staged before the quantified assignment for the precondition of what
/// follows the division.
pub proof fn law_cut_guards_divisor(c: Collector, g: SpecCfg, l: Seq<char>, i: int)
    requires
        cuts(c, g, l),
        0 <= i < g.blocks[l].body.len(),
        crate::wp::is_division(g.blocks[l].body[i]),
    ensures
        ({
            let popped = Collector { stack: c.stack.drop_last(), ..c };
            let (post, asked) = popped.reach(l).post_of(g, l);
            let body = g.blocks[l].body;
            let (after, c1) = wp_spec(asked.counters, body.skip(i + 1), post->0);
            c.step(g).emitted.last() == implication(
                cut(g, l),
                wp_spec(
                    crate::formula::minted(c1, crate::wp::value_base()),
                    body.take(i),
                    crate::wp::division_at(c1, body[i], after),
                ).0,
            )
        }),
{
    let popped = Collector { stack: c.stack.drop_last(), ..c };
    let (post, asked) = popped.reach(l).post_of(g, l);
    crate::wp::law_division_in_body(asked.counters, g.blocks[l].body, i, post->0);
}

} // verus!
