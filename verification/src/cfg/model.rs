//! The graph builder as a state machine over models: one transition per
//! source line, then the resolution of labels.

use vstd::prelude::*;
use crate::ast;
use crate::ast::{FBinOp, SpecFormula, SpecFormulaLine, SpecLine, SpecModule, WordSize};
use crate::cfg::{
    dangling, supported_body, SpecBlock, SpecCfg, SpecContinuation, SpecConvertErr, SpecInstr,
};
use crate::decimal::decimal;

verus! {

/// The `k`-th label that the builder makes up: `@` and the numeral of `k`.
pub open spec fn synthetic(k: nat) -> Seq<char> {
    seq!['@'] + decimal(k)
}

/// The builder between two lines.
pub struct SpecState {
    /// The blocks finished so far, by label.
    pub blocks: Map<Seq<char>, SpecBlock>,
    /// Their labels in the order in which they were finished.
    pub order: Seq<Seq<char>>,
    /// For a label that was given up for another before it got a block,
    /// the label that took its place.
    pub aliases: Map<Seq<char>, Seq<char>>,
    /// How many labels were made up.
    pub counter: nat,
    /// The label of the block in progress.
    pub label: Seq<char>,
    /// Whether the block in progress was given its label: not so between
    /// the end of a block and the label of the next.
    pub named: bool,
    /// The invariant of the block in progress.
    pub require: Option<SpecFormula>,
    /// The body of the block in progress.
    pub body: Seq<SpecInstr>,
}

impl SpecState {
    /// The builder before the first line: the block in progress is `@0`.
    pub open spec fn initial() -> SpecState {
        SpecState {
            blocks: Map::empty(),
            order: Seq::empty(),
            aliases: Map::empty(),
            counter: 0,
            label: synthetic(0),
            named: true,
            require: None,
            body: Seq::empty(),
        }
    }

    /// Ends the block in progress with `next`. The label must be new. What
    /// follows has no label until `change_label` names it.
    pub open spec fn finish(self, next: SpecContinuation) -> Result<SpecState, SpecConvertErr> {
        if self.blocks.contains_key(self.label) {
            Err(SpecConvertErr::DuplicateLabel(self.label))
        } else {
            Ok(
                SpecState {
                    blocks: self.blocks.insert(
                        self.label,
                        SpecBlock { require: self.require, body: self.body, next },
                    ),
                    order: self.order.push(self.label),
                    label: Seq::empty(),
                    named: false,
                    require: None,
                    body: Seq::empty(),
                    ..self
                },
            )
        }
    }

    /// Names the block in progress `l`, and records that `l` stands for the
    /// label it had, where it had one.
    pub open spec fn change_label(self, l: Seq<char>) -> SpecState {
        SpecState {
            aliases: if self.named {
                self.aliases.insert(self.label, l)
            } else {
                self.aliases
            },
            label: l,
            named: true,
            ..self
        }
    }

    /// The label of the block in progress, where it has one.
    pub open spec fn current(self) -> Option<Seq<char>> {
        if self.named {
            Some(self.label)
        } else {
            None
        }
    }

    /// Makes up the next label and names the block in progress by it.
    pub open spec fn fresh_label(self) -> SpecState {
        SpecState { counter: self.counter + 1, ..self }.change_label(synthetic(self.counter + 1))
    }

    /// Appends an instruction to the block in progress.
    pub open spec fn push(self, i: SpecInstr) -> SpecState {
        SpecState { body: self.body.push(i), ..self }
    }

    /// Takes one source line.
    pub open spec fn feed(self, line: SpecLine) -> Result<SpecState, SpecConvertErr> {
        match line {
            SpecLine::Label(l) => if self.body.len() > 0 {
                match self.finish(SpecContinuation::Jmp(l)) {
                    Ok(st) => Ok(st.change_label(l)),
                    Err(e) => Err(e),
                }
            } else {
                Ok(self.change_label(l))
            },
            SpecLine::Formula(SpecFormulaLine::Assert(a)) => Ok(self.push(SpecInstr::Assert(a))),
            SpecLine::Formula(SpecFormulaLine::Require(i)) => if self.body.len() == 0 {
                Ok(
                    SpecState {
                        require: Some(
                            match self.require {
                                Some(pa) => SpecFormula::Bin(
                                    FBinOp::AndAsym,
                                    Box::new(pa),
                                    Box::new(i),
                                ),
                                None => i,
                            },
                        ),
                        ..self
                    },
                )
            } else {
                Err(SpecConvertErr::MisplacedRequire)
            },
            SpecLine::Instr(i) => match i {
                ast::SpecInstr::Unary(s, op, r) => if s == WordSize::B64 {
                    Ok(self.push(SpecInstr::Unary(s, op, r)))
                } else {
                    Err(SpecConvertErr::Unsupported(i))
                },
                ast::SpecInstr::Binary(s, op, d, src) => if s == WordSize::B64 {
                    Ok(self.push(SpecInstr::Binary(s, op, d, src)))
                } else {
                    Err(SpecConvertErr::Unsupported(i))
                },
                ast::SpecInstr::Store(s, m, src) => Ok(self.push(SpecInstr::Store(s, m, src))),
                ast::SpecInstr::Load(s, d, m) => Ok(self.push(SpecInstr::Load(s, d, m))),
                ast::SpecInstr::LoadImm(d, v) => Ok(self.push(SpecInstr::LoadImm(d, v))),
                ast::SpecInstr::LoadMapFd(d, v) => Ok(self.push(SpecInstr::LoadMapFd(d, v))),
                ast::SpecInstr::Call(v) => Ok(self.push(SpecInstr::Call(v))),
                ast::SpecInstr::Jmp(t) => match self.finish(SpecContinuation::Jmp(t)) {
                    Ok(st) => Ok(st.fresh_label()),
                    Err(e) => Err(e),
                },
                ast::SpecInstr::Jcc(cc, r, ri, t) => match self.finish(
                    SpecContinuation::Jcc(cc, r, ri, t, synthetic(self.counter + 1)),
                ) {
                    Ok(st) => Ok(st.fresh_label()),
                    Err(e) => Err(e),
                },
                ast::SpecInstr::Exit => match self.finish(SpecContinuation::Exit) {
                    Ok(st) => Ok(st.fresh_label()),
                    Err(e) => Err(e),
                },
            },
        }
    }

    /// Takes the lines in order and stops at the first that fails.
    pub open spec fn feed_all(self, lines: Seq<SpecLine>) -> Result<SpecState, SpecConvertErr>
        decreases lines.len(),
    {
        if lines.len() == 0 {
            Ok(self)
        } else {
            match self.feed(lines[0]) {
                Ok(st) => st.feed_all(lines.drop_first()),
                Err(e) => Err(e),
            }
        }
    }

    /// The label with a block that `l` stands for once all lines are read.
    ///
    /// A label that has a block stands for itself. Any other stands for
    /// what the label stands for that took its place, and for nothing
    /// where none did. A chain of more steps than there are aliases goes in
    /// a circle and meets no block: see [`law_resolve_meets`].
    pub open spec fn resolve(self, l: Seq<char>) -> Option<Seq<char>> {
        follow(self.blocks.dom(), self.aliases, l, self.aliases.dom().len())
    }

    /// What is written for the label `l` in the graph: the label with a
    /// block that it stands for, and `l` itself where there is none.
    pub open spec fn canonical(self, l: Seq<char>) -> Seq<char> {
        match self.resolve(l) {
            Some(x) => x,
            None => l,
        }
    }

    /// The first label of a continuation, as it is written in the program,
    /// that stands for no block.
    pub open spec fn unresolved(self, next: SpecContinuation) -> Option<Seq<char>> {
        match next {
            SpecContinuation::Exit => None,
            SpecContinuation::Jmp(t) => if self.resolve(t) is None {
                Some(t)
            } else {
                None
            },
            SpecContinuation::Jcc(_, _, _, t, f) => if self.resolve(t) is None {
                Some(t)
            } else if self.resolve(f) is None {
                Some(f)
            } else {
                None
            },
        }
    }

    /// A continuation with its labels resolved.
    pub open spec fn resolve_next(self, next: SpecContinuation) -> SpecContinuation {
        match next {
            SpecContinuation::Exit => SpecContinuation::Exit,
            SpecContinuation::Jmp(t) => SpecContinuation::Jmp(self.canonical(t)),
            SpecContinuation::Jcc(cc, r, ri, t, f) => SpecContinuation::Jcc(
                cc,
                r,
                ri,
                self.canonical(t),
                self.canonical(f),
            ),
        }
    }

    /// A block with the labels of its continuation resolved.
    pub open spec fn resolve_block(self, b: SpecBlock) -> SpecBlock {
        SpecBlock { next: self.resolve_next(b.next), ..b }
    }

    /// The finished blocks with the labels of their continuations resolved.
    pub open spec fn resolved(self) -> Map<Seq<char>, SpecBlock> {
        self.blocks.map_values(|b: SpecBlock| self.resolve_block(b))
    }

    /// The first label that stands for no block among those that the
    /// continuations name, going through the blocks from the `i`-th on in
    /// the order in which they were finished.
    pub open spec fn first_unresolved(self, i: int) -> Option<Seq<char>>
        decreases self.order.len() - i,
    {
        if i < 0 || i >= self.order.len() {
            None
        } else {
            match self.unresolved(self.blocks[self.order[i]].next) {
                Some(t) => Some(t),
                None => self.first_unresolved(i + 1),
            }
        }
    }

    /// What holds of the builder after any number of lines: there are
    /// finitely many aliases, the blocks are those in the order kept, and
    /// every instruction has a meaning.
    pub open spec fn inv(self) -> bool {
        &&& self.aliases.dom().finite()
        &&& self.blocks.dom() =~= self.order.to_set()
        &&& supported_body(self.body)
        &&& forall|l: Seq<char>| #[trigger]
            self.blocks.contains_key(l) ==> supported_body(self.blocks[l].body)
    }
}

/// The label with a block that `l` stands for, where at most `n` aliases
/// lead to it: `l` itself where it has a block, else what its alias stands
/// for.
pub open spec fn follow(
    blocks: Set<Seq<char>>,
    aliases: Map<Seq<char>, Seq<char>>,
    l: Seq<char>,
    n: nat,
) -> Option<Seq<char>>
    decreases n,
{
    if blocks.contains(l) {
        Some(l)
    } else if n > 0 && aliases.contains_key(l) {
        follow(blocks, aliases, aliases[l], (n - 1) as nat)
    } else {
        None
    }
}

/// What a label stands for has a block.
pub(crate) proof fn lemma_follow_has_block(
    blocks: Set<Seq<char>>,
    aliases: Map<Seq<char>, Seq<char>>,
    l: Seq<char>,
    n: nat,
)
    ensures
        follow(blocks, aliases, l, n) matches Some(x) ==> blocks.contains(x),
    decreases n,
{
    if !blocks.contains(l) && n > 0 && aliases.contains_key(l) {
        lemma_follow_has_block(blocks, aliases, aliases[l], (n - 1) as nat);
    }
}

/// More steps allowed lead to the same block.
pub(crate) proof fn lemma_follow_more(
    blocks: Set<Seq<char>>,
    aliases: Map<Seq<char>, Seq<char>>,
    l: Seq<char>,
    n: nat,
    m: nat,
)
    requires
        n <= m,
        follow(blocks, aliases, l, n) is Some,
    ensures
        follow(blocks, aliases, l, m) == follow(blocks, aliases, l, n),
    decreases n,
{
    if !blocks.contains(l) {
        lemma_follow_more(blocks, aliases, aliases[l], (n - 1) as nat, (m - 1) as nat);
    }
}

/// How many aliases lead from `l` to a block, where at most `n` do.
pub open spec fn distance(
    blocks: Set<Seq<char>>,
    aliases: Map<Seq<char>, Seq<char>>,
    l: Seq<char>,
    n: nat,
) -> nat
    decreases n,
{
    if !blocks.contains(l) && n > 0 && aliases.contains_key(l) {
        1 + distance(blocks, aliases, aliases[l], (n - 1) as nat)
    } else {
        0
    }
}

/// The label that `i` aliases lead to from `l`.
pub open spec fn hop(aliases: Map<Seq<char>, Seq<char>>, l: Seq<char>, i: nat) -> Seq<char>
    decreases i,
{
    if i == 0 {
        l
    } else {
        hop(aliases, aliases[l], (i - 1) as nat)
    }
}

/// The distance to a block does not depend on how many steps are allowed,
/// as long as they are enough; and exactly as many steps are enough.
pub(crate) proof fn lemma_distance(
    blocks: Set<Seq<char>>,
    aliases: Map<Seq<char>, Seq<char>>,
    l: Seq<char>,
    n: nat,
    m: nat,
)
    requires
        follow(blocks, aliases, l, n) is Some,
        follow(blocks, aliases, l, m) is Some,
    ensures
        distance(blocks, aliases, l, n) == distance(blocks, aliases, l, m),
        distance(blocks, aliases, l, n) <= n,
        follow(blocks, aliases, l, distance(blocks, aliases, l, n)) == follow(
            blocks,
            aliases,
            l,
            n,
        ),
    decreases n,
{
    if !blocks.contains(l) {
        lemma_distance(blocks, aliases, aliases[l], (n - 1) as nat, (m - 1) as nat);
    }
}

/// On the way to a block every label has an alias and no block, and from
/// each of them the block is as much nearer as the label is far.
pub(crate) proof fn lemma_on_the_way(
    blocks: Set<Seq<char>>,
    aliases: Map<Seq<char>, Seq<char>>,
    l: Seq<char>,
    n: nat,
    i: nat,
)
    requires
        follow(blocks, aliases, l, n) is Some,
        i < distance(blocks, aliases, l, n),
    ensures
        aliases.contains_key(hop(aliases, l, i)),
        follow(blocks, aliases, hop(aliases, l, i), (n - i) as nat) is Some,
        distance(blocks, aliases, hop(aliases, l, i), (n - i) as nat) == distance(
            blocks,
            aliases,
            l,
            n,
        ) - i,
        i < n,
    decreases i,
{
    if i > 0 {
        lemma_on_the_way(blocks, aliases, aliases[l], (n - 1) as nat, (i - 1) as nat);
    }
}

/// No more aliases lead to a block than there are.
pub(crate) proof fn lemma_distance_bounded(
    blocks: Set<Seq<char>>,
    aliases: Map<Seq<char>, Seq<char>>,
    l: Seq<char>,
    n: nat,
)
    requires
        aliases.dom().finite(),
        follow(blocks, aliases, l, n) is Some,
    ensures
        distance(blocks, aliases, l, n) <= aliases.dom().len(),
{
    let k = distance(blocks, aliases, l, n);
    let way = Seq::new(k, |i: int| hop(aliases, l, i as nat));
    assert forall|i: int, j: int| 0 <= i < k && 0 <= j < k && i != j implies way[i] != way[j] by {
        lemma_on_the_way(blocks, aliases, l, n, i as nat);
        lemma_on_the_way(blocks, aliases, l, n, j as nat);
        if way[i] == way[j] {
            lemma_distance(blocks, aliases, way[i], (n - i) as nat, (n - j) as nat);
        }
    }
    way.unique_seq_to_set();
    assert(way.to_set().subset_of(aliases.dom())) by {
        assert forall|x: Seq<char>| way.to_set().contains(x) implies aliases.dom().contains(x) by {
            let i = choose|i: int| 0 <= i < way.len() && way[i] == x;
            lemma_on_the_way(blocks, aliases, l, n, i as nat);
        }
    }
    vstd::set_lib::lemma_len_subset(way.to_set(), aliases.dom());
}

/// Resolving meets the block wherever following the aliases meets one: a
/// label stands for the block that any number of aliases lead to from it.
/// Only a chain that goes in a circle, or ends at a label that was never
/// given a block, stands for nothing.
pub proof fn law_resolve_meets(st: SpecState, l: Seq<char>, n: nat)
    requires
        st.aliases.dom().finite(),
        follow(st.blocks.dom(), st.aliases, l, n) is Some,
    ensures
        st.resolve(l) == follow(st.blocks.dom(), st.aliases, l, n),
{
    let blocks = st.blocks.dom();
    let k = distance(blocks, st.aliases, l, n);
    lemma_distance(blocks, st.aliases, l, n, n);
    lemma_distance_bounded(blocks, st.aliases, l, n);
    lemma_follow_more(blocks, st.aliases, l, k, st.aliases.dom().len());
}

/// Whether at most `n` aliases lead from `l` to a block or to the label
/// `cur` of the block in progress.
pub open spec fn leads(
    blocks: Set<Seq<char>>,
    aliases: Map<Seq<char>, Seq<char>>,
    cur: Option<Seq<char>>,
    l: Seq<char>,
    n: nat,
) -> bool
    decreases n,
{
    blocks.contains(l) || cur == Some(l) || (n > 0 && aliases.contains_key(l) && leads(
        blocks,
        aliases,
        cur,
        aliases[l],
        (n - 1) as nat,
    ))
}

/// What leads to a block leads to it whatever block is in progress.
pub(crate) proof fn lemma_follow_leads(
    blocks: Set<Seq<char>>,
    aliases: Map<Seq<char>, Seq<char>>,
    cur: Option<Seq<char>>,
    l: Seq<char>,
    n: nat,
)
    requires
        follow(blocks, aliases, l, n) is Some,
    ensures
        leads(blocks, aliases, cur, l, n),
    decreases n,
{
    if !blocks.contains(l) {
        lemma_follow_leads(blocks, aliases, cur, aliases[l], (n - 1) as nat);
    }
}

/// Once the block in progress is finished, what led to it or to a block
/// leads to a block.
pub(crate) proof fn lemma_finish_leads(st: SpecState, next: SpecContinuation, l: Seq<char>, n: nat)
    requires
        leads(st.blocks.dom(), st.aliases, st.current(), l, n),
        st.finish(next) is Ok,
    ensures
        follow(st.finish(next)->Ok_0.blocks.dom(), st.aliases, l, n) is Some,
    decreases n,
{
    let after = st.finish(next)->Ok_0;
    assert(after.blocks.dom() =~= st.blocks.dom().insert(st.label));
    if !after.blocks.dom().contains(l) {
        lemma_finish_leads(st, next, st.aliases[l], (n - 1) as nat);
    }
}

/// Once the block in progress has another label, what led to the old one
/// or to a block leads to the new one or to a block.
pub(crate) proof fn lemma_change_leads(st: SpecState, x: Seq<char>, l: Seq<char>, n: nat)
    requires
        leads(st.blocks.dom(), st.aliases, st.current(), l, n),
    ensures
        leads(
            st.change_label(x).blocks.dom(),
            st.change_label(x).aliases,
            st.change_label(x).current(),
            l,
            n + 1,
        ),
    decreases n,
{
    let after = st.change_label(x);
    if st.blocks.dom().contains(l) {
    } else if st.current() == Some(l) {
        assert(after.aliases[l] == x);
        assert(leads(after.blocks.dom(), after.aliases, after.current(), x, n));
    } else {
        lemma_change_leads(st, x, st.aliases[l], (n - 1) as nat);
        assert(after.aliases.contains_key(l) && after.aliases[l] == st.aliases[l]);
    }
}

/// A line keeps that a label leads to a block or to the block in
/// progress.
pub(crate) proof fn lemma_feed_leads(st: SpecState, line: SpecLine, l: Seq<char>, n: nat)
    requires
        leads(st.blocks.dom(), st.aliases, st.current(), l, n),
        st.feed(line) is Ok,
    ensures
        leads(
            st.feed(line)->Ok_0.blocks.dom(),
            st.feed(line)->Ok_0.aliases,
            st.feed(line)->Ok_0.current(),
            l,
            n + 1,
        ),
{
    let after = st.feed(line)->Ok_0;
    let next = match line {
        SpecLine::Label(x) => Some(SpecContinuation::Jmp(x)),
        SpecLine::Instr(ast::SpecInstr::Jmp(t)) => Some(SpecContinuation::Jmp(t)),
        SpecLine::Instr(ast::SpecInstr::Jcc(cc, r, ri, t)) => Some(
            SpecContinuation::Jcc(cc, r, ri, t, synthetic(st.counter + 1)),
        ),
        SpecLine::Instr(ast::SpecInstr::Exit) => Some(SpecContinuation::Exit),
        _ => None,
    };
    if after.blocks != st.blocks {
        let done = st.finish(next->0)->Ok_0;
        lemma_finish_leads(st, next->0, l, n);
        lemma_follow_leads(done.blocks.dom(), done.aliases, done.current(), l, n);
        let named = SpecState { counter: after.counter, ..done };
        lemma_change_leads(named, after.label, l, n);
    } else if after.label != st.label || after.aliases != st.aliases || after.named != st.named {
        lemma_change_leads(st, after.label, l, n);
    } else {
        lemma_leads_more(st.blocks.dom(), st.aliases, st.current(), l, n, n + 1);
    }
}

/// What leads somewhere in some steps leads there in more.
pub(crate) proof fn lemma_leads_more(
    blocks: Set<Seq<char>>,
    aliases: Map<Seq<char>, Seq<char>>,
    cur: Option<Seq<char>>,
    l: Seq<char>,
    n: nat,
    m: nat,
)
    requires
        n <= m,
        leads(blocks, aliases, cur, l, n),
    ensures
        leads(blocks, aliases, cur, l, m),
    decreases n,
{
    if !blocks.contains(l) && cur != Some(l) {
        lemma_leads_more(blocks, aliases, cur, aliases[l], (n - 1) as nat, (m - 1) as nat);
    }
}

/// Any number of lines keep that a label leads to a block or to the block
/// in progress; and where the last of them is `exit`, to a block.
pub(crate) proof fn lemma_feed_all_leads(st: SpecState, lines: Seq<SpecLine>, l: Seq<char>, n: nat)
    requires
        leads(st.blocks.dom(), st.aliases, st.current(), l, n),
        st.feed_all(lines) is Ok,
    ensures
        leads(
            st.feed_all(lines)->Ok_0.blocks.dom(),
            st.feed_all(lines)->Ok_0.aliases,
            st.feed_all(lines)->Ok_0.current(),
            l,
            n + lines.len(),
        ),
        lines.len() > 0 && lines.last() == SpecLine::Instr(ast::SpecInstr::Exit) ==> follow(
            st.feed_all(lines)->Ok_0.blocks.dom(),
            st.feed_all(lines)->Ok_0.aliases,
            l,
            n + lines.len(),
        ) is Some,
    decreases lines.len(),
{
    if lines.len() > 0 {
        let mid = st.feed(lines[0])->Ok_0;
        lemma_feed_leads(st, lines[0], l, n);
        if lines.len() == 1 {
            assert(lines.drop_first().len() == 0);
            assert(mid.feed_all(lines.drop_first()) == Ok::<SpecState, SpecConvertErr>(mid));
            if lines.last() == SpecLine::Instr(ast::SpecInstr::Exit) {
                let done = st.finish(SpecContinuation::Exit)->Ok_0;
                lemma_finish_leads(st, SpecContinuation::Exit, l, n);
                lemma_follow_more(done.blocks.dom(), done.aliases, l, n, n + 1);
            }
        } else {
            lemma_feed_all_leads(mid, lines.drop_first(), l, n + 1);
            assert(lines.drop_first().last() == lines.last());
        }
    }
}

/// The entry of a program that was read has a block: once the lines of a
/// program that ends in `exit` are read, `@0` stands for a block.
pub proof fn law_entry_resolves(lines: Seq<SpecLine>)
    requires
        lines.len() > 0,
        lines.last() == SpecLine::Instr(ast::SpecInstr::Exit),
        SpecState::initial().feed_all(lines) is Ok,
    ensures
        SpecState::initial().feed_all(lines)->Ok_0.resolve(synthetic(0)) is Some,
{
    let init = SpecState::initial();
    let st = init.feed_all(lines)->Ok_0;
    lemma_feed_all_leads(init, lines, synthetic(0), 0);
    assert(init.inv()) by {
        assert(init.order.to_set() =~= Set::<Seq<char>>::empty());
        assert(init.aliases.dom() =~= Set::<Seq<char>>::empty());
    }
    lemma_feed_all_inv(init, lines);
    law_resolve_meets(st, synthetic(0), lines.len());
}

/// The conjunction of the formulas in order, starting from truth.
pub open spec fn conj(fs: Seq<SpecFormula>) -> SpecFormula
    decreases fs.len(),
{
    if fs.len() == 0 {
        SpecFormula::Val(true)
    } else {
        SpecFormula::Bin(FBinOp::And, Box::new(conj(fs.drop_last())), Box::new(fs.last()))
    }
}

/// The graph of a program, or why it has none.
///
/// The last line must be `exit`. The lines are then read in order. Then
/// the labels are resolved. The targets of the jumps come first, going
/// through the blocks in the order in which they were finished: a target
/// that stands for no block is reported as it is written in the program.
/// The entry is what `@0` stands for; it always has a block, see
/// [`law_entry_resolves`].
pub open spec fn built(m: SpecModule) -> Result<SpecCfg, SpecConvertErr> {
    if m.lines.len() == 0 || m.lines.last() != SpecLine::Instr(ast::SpecInstr::Exit) {
        Err(SpecConvertErr::NoExit)
    } else {
        match SpecState::initial().feed_all(m.lines) {
            Err(e) => Err(e),
            Ok(st) => match st.first_unresolved(0) {
                Some(t) => Err(SpecConvertErr::NoLabel(t)),
                None => Ok(
                    SpecCfg {
                        requires: conj(m.requires),
                        ensures: conj(m.ensures),
                        start: st.canonical(synthetic(0)),
                        blocks: st.resolved(),
                    },
                ),
            },
        }
    }
}

/// Finishing a block keeps what holds of the builder.
pub(crate) proof fn lemma_finish_inv(st: SpecState, next: SpecContinuation)
    requires
        st.inv(),
    ensures
        st.finish(next) is Ok ==> st.finish(next)->Ok_0.inv(),
{
    if st.finish(next) is Ok {
        let after = st.finish(next)->Ok_0;
        let s = st.order;
        let t = s.push(st.label);
        assert(after.blocks.dom() =~= st.blocks.dom().insert(st.label));
        assert forall|l: Seq<char>|
            t.to_set().contains(l) <==> s.to_set().insert(st.label).contains(l) by {
            if t.to_set().contains(l) {
                let i = choose|i: int| 0 <= i < t.len() && t[i] == l;
                if i < s.len() {
                    assert(s[i] == l);
                }
            }
            if s.to_set().contains(l) {
                let i = choose|i: int| 0 <= i < s.len() && s[i] == l;
                assert(t[i] == l);
            }
            if l == st.label {
                assert(t[s.len() as int] == l);
            }
        }
        assert(t.to_set() =~= s.to_set().insert(st.label));
    }
}

/// One line keeps what holds of the builder.
pub(crate) proof fn lemma_feed_inv(st: SpecState, line: SpecLine)
    requires
        st.inv(),
    ensures
        st.feed(line) is Ok ==> st.feed(line)->Ok_0.inv(),
{
    match line {
        SpecLine::Label(l) => {
            lemma_finish_inv(st, SpecContinuation::Jmp(l));
        },
        SpecLine::Formula(_) => {},
        SpecLine::Instr(i) => {
            match i {
                ast::SpecInstr::Jmp(t) => {
                    lemma_finish_inv(st, SpecContinuation::Jmp(t));
                },
                ast::SpecInstr::Jcc(cc, r, ri, t) => {
                    lemma_finish_inv(
                        st,
                        SpecContinuation::Jcc(cc, r, ri, t, synthetic(st.counter + 1)),
                    );
                },
                ast::SpecInstr::Exit => {
                    lemma_finish_inv(st, SpecContinuation::Exit);
                },
                _ => {},
            }
        },
    }
}

/// Any number of lines keep what holds of the builder.
pub(crate) proof fn lemma_feed_all_inv(st: SpecState, lines: Seq<SpecLine>)
    requires
        st.inv(),
    ensures
        st.feed_all(lines) is Ok ==> st.feed_all(lines)->Ok_0.inv(),
    decreases lines.len(),
{
    if lines.len() > 0 {
        lemma_feed_inv(st, lines[0]);
        if st.feed(lines[0]) is Ok {
            lemma_feed_all_inv(st.feed(lines[0])->Ok_0, lines.drop_first());
        }
    }
}

/// Where every label resolves from the `i`-th block on, the resolved
/// continuation of any block after it names blocks only.
pub(crate) proof fn lemma_all_resolved(st: SpecState, i: int, j: int)
    requires
        0 <= i <= j < st.order.len(),
        st.first_unresolved(i) is None,
    ensures
        dangling(st.blocks.dom(), st.resolve_next(st.blocks[st.order[j]].next)) is None,
    decreases j - i,
{
    if i < j {
        lemma_all_resolved(st, i + 1, j);
    } else {
        let n = st.aliases.dom().len();
        match st.blocks[st.order[j]].next {
            SpecContinuation::Exit => {},
            SpecContinuation::Jmp(t) => {
                lemma_follow_has_block(st.blocks.dom(), st.aliases, t, n);
            },
            SpecContinuation::Jcc(_, _, _, t, f) => {
                lemma_follow_has_block(st.blocks.dom(), st.aliases, t, n);
                lemma_follow_has_block(st.blocks.dom(), st.aliases, f, n);
            },
        }
    }
}

/// Every graph that is built is well formed: the entry and every label
/// that a continuation names have a block, and every instruction has a
/// meaning.
pub proof fn law_built_wf(m: SpecModule)
    ensures
        built(m) is Ok ==> built(m)->Ok_0.wf(),
{
    if built(m) is Ok {
        let init = SpecState::initial();
        assert(init.inv()) by {
            assert(init.order.to_set() =~= Set::<Seq<char>>::empty());
            assert(init.aliases.dom() =~= Set::<Seq<char>>::empty());
        }
        lemma_feed_all_inv(init, m.lines);
        let st = init.feed_all(m.lines)->Ok_0;
        let g = built(m)->Ok_0;
        assert(g.blocks.dom() =~= st.blocks.dom());
        law_entry_resolves(m.lines);
        lemma_follow_has_block(st.blocks.dom(), st.aliases, synthetic(0), st.aliases.dom().len());
        vstd::seq_lib::seq_to_set_is_finite(st.order);
        assert forall|l: Seq<char>| g.blocks.contains_key(l) implies #[trigger] g.closed_at(l) by {
            assert(st.blocks.contains_key(l));
            assert(st.order.to_set().contains(l));
            let j = choose|j: int| 0 <= j < st.order.len() && st.order[j] == l;
            lemma_all_resolved(st, 0, j);
        }
        assert forall|l: Seq<char>| g.blocks.contains_key(l) implies #[trigger] g.supported_at(
            l,
        ) by {
            assert(st.blocks.contains_key(l));
        }
    }
}

} // verus!
