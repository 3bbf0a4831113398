//! The graph builder, executable.

use vstd::prelude::*;
use vstd::hash_map::StringHashMap;
use crate::ast;
use crate::ast::{
    formulas, Formula, FormulaLine, Label, Line, Module, SpecFormula, SpecLine, WordSize,
};
use crate::cfg::model::{built, conj, follow, law_built_wf, synthetic, SpecState};
use crate::cfg::{
    view_body, view_opt, view_opt_label, Block, Cfg, Continuation, ConvertErr, Instr, SpecBlock,
    SpecConvertErr,
};
use crate::decimal::Counter;
use crate::formula::FormulaBuilder;

verus! {

/// The elements of `v` in the opposite order.
fn reversed<T>(v: Vec<T>) -> (r: Vec<T>)
    ensures
        r@ == v@.reverse(),
{
    let mut v = v;
    let ghost all = v@;
    let mut r: Vec<T> = Vec::new();
    while v.len() > 0
        invariant
            v@.len() + r@.len() == all.len(),
            v@ == all.take(v@.len() as int),
            forall|i: int| 0 <= i < r@.len() ==> r@[i] == all[all.len() - 1 - i],
        decreases v.len(),
    {
        let x = v.pop().unwrap();
        r.push(x);
    }
    assert(r@ =~= all.reverse());
    r
}

/// The label that the builder makes up after `counter` others.
fn synthetic_label(counter: &Counter) -> (r: Label)
    ensures
        r@ == synthetic(counter.value()),
{
    let mut l = String::new();
    l.push('@');
    let digits = counter.text();
    l.append(digits.as_str());
    assert(l@ =~= synthetic(counter.value()));
    l
}

/// The labels of the finished blocks, in order.
pub open spec fn labels_of(done: Seq<(Label, Block)>) -> Seq<Seq<char>> {
    done.map_values(|p: (Label, Block)| p.0@)
}

/// The builder between two lines.
///
/// The finished blocks wait in a list until the labels of their
/// continuations can be resolved, which is when all lines are read: the
/// hash map of the graph gives no way to change a block in place or to
/// take one out again. `seen` holds their labels for the look-up, and
/// `blocks` is the map that the model speaks of.
pub struct State {
    done: Vec<(Label, Block)>,
    seen: StringHashMap<bool>,
    blocks: Ghost<Map<Seq<char>, SpecBlock>>,
    label_aliases: StringHashMap<String>,
    label_counter: Counter,
    label: String,
    named: bool,
    require: Option<Formula>,
    body: Vec<Instr>,
}

impl View for State {
    type V = SpecState;

    closed spec fn view(&self) -> SpecState {
        SpecState {
            blocks: self.blocks@,
            order: labels_of(self.done@),
            aliases: self.label_aliases@.map_values(|s: String| s@),
            counter: self.label_counter.value(),
            label: self.label@,
            named: self.named,
            require: view_opt(self.require),
            body: view_body(self.body@),
        }
    }
}

impl State {
    /// The finished blocks are those of the model, each label once.
    pub closed spec fn wf(&self) -> bool {
        &&& self@.inv()
        &&& self.seen@.dom() =~= self.blocks@.dom()
        &&& forall|i: int|
            0 <= i < self.done@.len() ==> self.blocks@[(#[trigger] self.done@[i]).0@]
                == self.done@[i].1@
        &&& forall|i: int, j: int|
            0 <= i < j < self.done@.len() ==> (#[trigger] self.done@[i]).0@ != (
            #[trigger] self.done@[j]).0@
    }

    /// The builder before the first line.
    pub fn new() -> (r: Self)
        ensures
            r@ == SpecState::initial(),
            r.wf(),
    {
        let label_counter = Counter::zero();
        let label = synthetic_label(&label_counter);
        let r = State {
            done: Vec::new(),
            seen: StringHashMap::new(),
            blocks: Ghost(Map::empty()),
            label_aliases: StringHashMap::new(),
            label_counter,
            label,
            named: true,
            require: None,
            body: Vec::new(),
        };
        proof {
            assert(r@.order =~= Seq::<Seq<char>>::empty());
            assert(r@.aliases =~= Map::<Seq<char>, Seq<char>>::empty());
            assert(r@.body =~= Seq::empty());
            assert(r@.order.to_set() =~= Set::<Seq<char>>::empty());
            assert(r@ == SpecState::initial());
        }
        r
    }

    /// Ends the block in progress with `next`, unless its label has a block
    /// already.
    pub fn finish(&mut self, next: Continuation) -> (r: Result<(), ConvertErr>)
        requires
            old(self).wf(),
        ensures
            match r {
                Ok(_) => old(self)@.finish(next@) == Ok::<SpecState, SpecConvertErr>(final(self)@)
                    && final(self).wf(),
                Err(e) => old(self)@.finish(next@) == Err::<SpecState, SpecConvertErr>(e@),
            },
    {
        if self.seen.contains_key(self.label.as_str()) {
            return Err(ConvertErr::DuplicateLabel(self.label.clone()));
        }
        let ghost before = *self;
        let mut label = String::new();
        let mut require = None;
        let mut body = Vec::new();
        std::mem::swap(&mut self.label, &mut label);
        std::mem::swap(&mut self.require, &mut require);
        std::mem::swap(&mut self.body, &mut body);
        self.named = false;
        let block = Block { require, body, next };
        proof {
            self.blocks = Ghost(self.blocks@.insert(label@, block@));
        }
        self.seen.insert(label.clone(), true);
        self.done.push((label, block));
        proof {
            let after = before@.finish(next@)->Ok_0;
            assert(self@.order =~= after.order);
            assert(self@.body =~= after.body);
            assert(self@.label =~= after.label);
            assert(self@ == after);
            crate::cfg::model::lemma_finish_inv(before@, next@);
            assert forall|i: int| 0 <= i < self.done@.len() implies self.blocks@[(
            #[trigger] self.done@[i]).0@] == self.done@[i].1@ by {
                if i < before.done@.len() {
                    assert(self.done@[i] == before.done@[i]);
                    assert(labels_of(before.done@)[i] == before.done@[i].0@);
                    assert(before@.order.to_set().contains(before.done@[i].0@));
                }
            }
            assert forall|i: int, j: int| 0 <= i < j < self.done@.len() implies (
            #[trigger] self.done@[i]).0@ != (#[trigger] self.done@[j]).0@ by {
                assert(self.done@[i] == before.done@[i]);
                if j < before.done@.len() {
                    assert(self.done@[j] == before.done@[j]);
                } else {
                    assert(labels_of(before.done@)[i] == before.done@[i].0@);
                    assert(before@.order.to_set().contains(before.done@[i].0@));
                }
            }
        }
        Ok(())
    }

    /// Names the block in progress `l`.
    pub fn change_label(&mut self, l: Label)
        requires
            old(self).wf(),
        ensures
            final(self)@ == old(self)@.change_label(l@),
            final(self).wf(),
    {
        let ghost before = *self;
        let mut tmp = l.clone();
        std::mem::swap(&mut self.label, &mut tmp);
        if self.named {
            self.label_aliases.insert(tmp, l);
        }
        self.named = true;
        proof {
            assert(self@.aliases =~= before@.change_label(l@).aliases);
        }
    }

    /// Makes up the next label.
    pub fn next_label(&mut self) -> (r: Label)
        requires
            old(self).wf(),
        ensures
            r@ == synthetic(old(self)@.counter + 1),
            final(self)@ == (SpecState { counter: old(self)@.counter + 1, ..old(self)@ }),
            final(self).wf(),
    {
        self.label_counter = self.label_counter.next();
        synthetic_label(&self.label_counter)
    }

    /// Appends an instruction to the block in progress.
    fn push(&mut self, i: Instr)
        requires
            old(self).wf(),
            i@.supported(),
        ensures
            final(self)@ == old(self)@.push(i@),
            final(self).wf(),
    {
        let ghost before = *self;
        self.body.push(i);
        proof {
            assert(self@.body =~= before@.body.push(i@));
        }
    }

    /// Takes one source line.
    fn feed(&mut self, line: Line, f: &FormulaBuilder) -> (r: Result<(), ConvertErr>)
        requires
            old(self).wf(),
        ensures
            match r {
                Ok(_) => old(self)@.feed(line@) == Ok::<SpecState, SpecConvertErr>(final(self)@)
                    && final(self).wf(),
                Err(e) => old(self)@.feed(line@) == Err::<SpecState, SpecConvertErr>(e@),
            },
    {
        let ghost before = self@;
        match line {
            Line::Label(l) => {
                if self.body.len() > 0 {
                    match self.finish(Continuation::Jmp(l.clone())) {
                        Ok(_) => {},
                        Err(e) => {
                            return Err(e);
                        },
                    }
                }
                self.change_label(l);
                Ok(())
            },
            Line::Formula(FormulaLine::Assert(a)) => {
                self.push(Instr::Assert(a));
                Ok(())
            },
            Line::Formula(FormulaLine::Require(i)) => {
                if self.body.len() == 0 {
                    let mut prev = None;
                    std::mem::swap(&mut self.require, &mut prev);
                    self.require = match prev {
                        Some(pa) => Some(f.asym_and(pa, i)),
                        None => Some(i),
                    };
                    Ok(())
                } else {
                    Err(ConvertErr::MisplacedRequire)
                }
            },
            Line::Instr(i) => match i {
                ast::Instr::Unary(s, op, r) => {
                    match s {
                        WordSize::B64 => {
                            self.push(Instr::Unary(s, op, r));
                            Ok(())
                        },
                        _ => Err(ConvertErr::Unsupported(ast::Instr::Unary(s, op, r))),
                    }
                },
                ast::Instr::Binary(s, op, d, src) => {
                    match s {
                        WordSize::B64 => {
                            self.push(Instr::Binary(s, op, d, src));
                            Ok(())
                        },
                        _ => Err(ConvertErr::Unsupported(ast::Instr::Binary(s, op, d, src))),
                    }
                },
                ast::Instr::Store(s, m, src) => {
                    self.push(Instr::Store(s, m, src));
                    Ok(())
                },
                ast::Instr::Load(s, d, m) => {
                    self.push(Instr::Load(s, d, m));
                    Ok(())
                },
                ast::Instr::LoadImm(d, v) => {
                    self.push(Instr::LoadImm(d, v));
                    Ok(())
                },
                ast::Instr::LoadMapFd(d, v) => {
                    self.push(Instr::LoadMapFd(d, v));
                    Ok(())
                },
                ast::Instr::Call(v) => {
                    self.push(Instr::Call(v));
                    Ok(())
                },
                ast::Instr::Jmp(t) => {
                    match self.finish(Continuation::Jmp(t)) {
                        Ok(_) => {},
                        Err(e) => {
                            return Err(e);
                        },
                    }
                    let next_label = self.next_label();
                    self.change_label(next_label);
                    Ok(())
                },
                ast::Instr::Jcc(cc, reg, reg_imm, target) => {
                    let peek = synthetic_label(&self.label_counter.next());
                    match self.finish(Continuation::Jcc(cc, reg, reg_imm, target, peek)) {
                        Ok(_) => {},
                        Err(e) => {
                            return Err(e);
                        },
                    }
                    let next_label = self.next_label();
                    self.change_label(next_label);
                    Ok(())
                },
                ast::Instr::Exit => {
                    match self.finish(Continuation::Exit) {
                        Ok(_) => {},
                        Err(e) => {
                            return Err(e);
                        },
                    }
                    let next_label = self.next_label();
                    self.change_label(next_label);
                    Ok(())
                },
            },
        }
    }

    /// The label with a block that `target` stands for.
    fn follow(seen: &StringHashMap<bool>, aliases: &StringHashMap<String>, target: &Label) -> (r:
        Option<Label>)
        ensures
            view_opt_label(r) == follow(
                seen@.dom(),
                aliases@.map_values(|s: String| s@),
                target@,
                aliases@.dom().len(),
            ),
    {
        let ghost names = aliases@.map_values(|s: String| s@);
        let mut cur = target.clone();
        let mut n = aliases.len();
        loop
            invariant
                names == aliases@.map_values(|s: String| s@),
                follow(seen@.dom(), names, target@, aliases@.dom().len()) == follow(
                    seen@.dom(),
                    names,
                    cur@,
                    n as nat,
                ),
            decreases n,
        {
            if seen.contains_key(cur.as_str()) {
                return Some(cur);
            }
            if n == 0 {
                return None;
            }
            match aliases.get(cur.as_str()) {
                Some(l) => {
                    cur = l.clone();
                    n -= 1;
                },
                None => {
                    return None;
                },
            }
        }
    }

    /// What is written for the label `target` in the graph.
    fn canonical(seen: &StringHashMap<bool>, aliases: &StringHashMap<String>, target: Label) -> (r:
        Label)
        ensures
            forall|st: SpecState|
                st.aliases == aliases@.map_values(|s: String| s@) && st.blocks.dom() == seen@.dom()
                    ==> r@ == #[trigger] st.canonical(target@),
    {
        assert(aliases@.map_values(|s: String| s@).dom() =~= aliases@.dom());
        match Self::follow(seen, aliases, &target) {
            Some(l) => l,
            None => target,
        }
    }

    /// A continuation with its labels resolved.
    fn resolve_next(
        seen: &StringHashMap<bool>,
        aliases: &StringHashMap<String>,
        next: Continuation,
    ) -> (r: Continuation)
        ensures
            forall|st: SpecState|
                st.aliases == aliases@.map_values(|s: String| s@) && st.blocks.dom() == seen@.dom()
                    ==> r@ == #[trigger] st.resolve_next(next@),
    {
        match next {
            Continuation::Exit => Continuation::Exit,
            Continuation::Jmp(t) => Continuation::Jmp(Self::canonical(seen, aliases, t)),
            Continuation::Jcc(cc, r, ri, t, f) => Continuation::Jcc(
                cc,
                r,
                ri,
                Self::canonical(seen, aliases, t),
                Self::canonical(seen, aliases, f),
            ),
        }
    }

    /// The label with a block that `target` stands for once all lines are
    /// read.
    fn resolve(&self, target: &Label) -> (r: Option<Label>)
        requires
            self.wf(),
        ensures
            view_opt_label(r) == self@.resolve(target@),
    {
        assert(self@.aliases.dom() =~= self.label_aliases@.dom());
        Self::follow(&self.seen, &self.label_aliases, target)
    }

    /// The first label of a continuation that stands for no block.
    fn unresolved_of(&self, next: &Continuation) -> (r: Option<Label>)
        requires
            self.wf(),
        ensures
            view_opt_label(r) == self@.unresolved(next@),
    {
        match next {
            Continuation::Exit => None,
            Continuation::Jmp(t) => {
                if self.resolve(t).is_none() {
                    Some(t.clone())
                } else {
                    None
                }
            },
            Continuation::Jcc(_, _, _, t, f) => {
                if self.resolve(t).is_none() {
                    Some(t.clone())
                } else if self.resolve(f).is_none() {
                    Some(f.clone())
                } else {
                    None
                }
            },
        }
    }

    /// The first label that stands for no block among those that the
    /// continuations name, going through the blocks in the order in which
    /// they were finished.
    fn first_unresolved(&self) -> (r: Option<Label>)
        requires
            self.wf(),
        ensures
            view_opt_label(r) == self@.first_unresolved(0),
    {
        let mut i: usize = 0;
        while i < self.done.len()
            invariant
                self.wf(),
                i <= self.done@.len(),
                self@.first_unresolved(0) == self@.first_unresolved(i as int),
            decreases self.done.len() - i,
        {
            proof {
                assert(self@.order[i as int] == self.done@[i as int].0@);
            }
            match self.unresolved_of(&self.done[i].1.next) {
                Some(t) => {
                    return Some(t);
                },
                None => {},
            }
            i += 1;
        }
        None
    }

    /// The finished blocks by label, the labels of their continuations
    /// resolved.
    pub fn resolve_aliases(self) -> (r: StringHashMap<Block>)
        requires
            self.wf(),
        ensures
            r@.map_values(|b: Block| b@) == self@.resolved(),
    {
        let ghost st = self@;
        let ghost all = self.done@;
        let State { done, label_aliases, seen, .. } = self;
        let mut done = done;
        let mut blocks: StringHashMap<Block> = StringHashMap::new();
        while done.len() > 0
            invariant
                done@.len() <= all.len(),
                done@ == all.take(done@.len() as int),
                st.aliases == label_aliases@.map_values(|s: String| s@),
                st.blocks.dom() == seen@.dom(),
                forall|i: int, j: int|
                    0 <= i < j < all.len() ==> (#[trigger] all[i]).0@ != (#[trigger] all[j]).0@,
                forall|l: Seq<char>|
                    blocks@.contains_key(l) <==> exists|i: int|
                        done@.len() <= i < all.len() && (#[trigger] all[i]).0@ == l,
                forall|i: int|
                    done@.len() <= i < all.len() ==> blocks@[(#[trigger] all[i]).0@]@
                        == st.resolve_block(all[i].1@),
            decreases done.len(),
        {
            let ghost n = done@.len() - 1;
            assert(all.take(n + 1)[n] == all[n]);
            let (label, block) = done.pop().unwrap();
            assert(all[n] == (label, block));
            assert(done@ =~= all.take(n));
            let Block { require, body, next } = block;
            let next = Self::resolve_next(&seen, &label_aliases, next);
            let ghost prev = blocks@;
            blocks.insert(label, Block { require, body, next });
            proof {
                assert forall|l: Seq<char>| blocks@.contains_key(l) <==> exists|i: int|
                    n <= i < all.len() && (#[trigger] all[i]).0@ == l by {
                    if prev.contains_key(l) {
                        let i = choose|i: int| n + 1 <= i < all.len() && (#[trigger] all[i]).0@ == l;
                        assert(n <= i < all.len() && all[i].0@ == l);
                    }
                    if l == all[n].0@ {
                        assert(n <= n < all.len() && all[n].0@ == l);
                    }
                }
            }
        }
        proof {
            let got = blocks@.map_values(|b: Block| b@);
            assert forall|l: Seq<char>| got.contains_key(l) <==> st.resolved().contains_key(l) by {
                if got.contains_key(l) {
                    let i = choose|i: int| 0 <= i < all.len() && (#[trigger] all[i]).0@ == l;
                    assert(st.order[i] == l);
                    assert(st.order.to_set().contains(l));
                }
                if st.resolved().contains_key(l) {
                    assert(st.order.to_set().contains(l));
                    let i = choose|i: int| 0 <= i < st.order.len() && st.order[i] == l;
                    assert(all[i].0@ == l);
                }
            }
            assert forall|l: Seq<char>| got.contains_key(l) implies got[l] == st.resolved()[l] by {
                let i = choose|i: int| 0 <= i < all.len() && (#[trigger] all[i]).0@ == l;
                assert(st.blocks[all[i].0@] == all[i].1@);
            }
            assert(got =~= st.resolved());
        }
        blocks
    }
}

/// The conjunction of the formulas in order, starting from truth.
fn conjunction(fs: Vec<Formula>, f: &FormulaBuilder) -> (r: Formula)
    ensures
        r@ == conj(formulas(fs@)),
{
    let ghost all = formulas(fs@);
    let mut rest = reversed(fs);
    let mut acc = f.top();
    assert(all.take(0) =~= Seq::<SpecFormula>::empty());
    while rest.len() > 0
        invariant
            rest@.len() <= all.len(),
            acc@ == conj(all.take(all.len() - rest@.len())),
            forall|i: int| 0 <= i < rest@.len() ==> rest@[i]@ == all[all.len() - 1 - i],
        decreases rest.len(),
    {
        let ghost k = all.len() - rest@.len();
        let x = rest.pop().unwrap();
        assert(x@ == all[k]);
        acc = f.and(acc, x);
        proof {
            let t = all.take(k + 1);
            assert(t.drop_last() =~= all.take(k));
            assert(t.last() == all[k]);
        }
    }
    assert(all.take(all.len() as int) =~= all);
    acc
}

impl Cfg {
    /// The graph of a program.
    ///
    /// The result is exactly what [`built`] gives for the program: the
    /// graph, or the reason why there is none. A graph that is built is
    /// well formed. The builder `f` only assembles formulas: it mints
    /// nothing.
    pub fn create(ast: Module, f: &mut FormulaBuilder) -> (r: Result<Cfg, ConvertErr>)
        ensures
            match r {
                Ok(cfg) => built(ast@) == Ok::<crate::cfg::SpecCfg, SpecConvertErr>(cfg@)
                    && cfg@.wf(),
                Err(e) => built(ast@) == Err::<crate::cfg::SpecCfg, SpecConvertErr>(e@),
            },
            final(f)@ == old(f)@,
    {
        let ghost lines = ast@.lines;
        proof {
            law_built_wf(ast@);
        }
        let Module { requires: pre, ensures: post, lines: source } = ast;
        let n = source.len();
        let ends = if n == 0 {
            false
        } else {
            match &source[n - 1] {
                Line::Instr(ast::Instr::Exit) => true,
                _ => false,
            }
        };
        if !ends {
            return Err(ConvertErr::NoExit);
        }
        assert(lines.len() > 0 && lines.last() == SpecLine::Instr(ast::SpecInstr::Exit)) by {
            assert(lines.last() == source@[n - 1]@);
        }
        let mut state = State::new();
        let mut rest = reversed(source);
        assert(lines.skip(0) =~= lines);
        while rest.len() > 0
            invariant
                state.wf(),
                lines == ast@.lines,
                lines.len() > 0,
                lines.last() == SpecLine::Instr(ast::SpecInstr::Exit),
                rest@.len() <= lines.len(),
                forall|i: int| 0 <= i < rest@.len() ==> rest@[i]@ == lines[lines.len() - 1 - i],
                SpecState::initial().feed_all(lines) == state@.feed_all(
                    lines.skip(lines.len() - rest@.len()),
                ),
            decreases rest.len(),
        {
            let ghost k = lines.len() - rest@.len();
            let ghost before = state@;
            let line = rest.pop().unwrap();
            assert(line@ == lines[k]);
            proof {
                assert(lines.skip(k)[0] == lines[k]);
                assert(lines.skip(k).drop_first() =~= lines.skip(k + 1));
            }
            match state.feed(line, f) {
                Ok(_) => {
                    assert(before.feed_all(lines.skip(k)) == state@.feed_all(lines.skip(k + 1)));
                },
                Err(e) => {
                    assert(before.feed_all(lines.skip(k)) == Err::<SpecState, SpecConvertErr>(e@));
                    return Err(e);
                },
            }
        }
        assert(lines.skip(lines.len() as int) =~= Seq::<SpecLine>::empty());
        match state.first_unresolved() {
            Some(t) => {
                return Err(ConvertErr::NoLabel(t));
            },
            None => {},
        }
        let pre = conjunction(pre, f);
        let post = conjunction(post, f);
        let start = State::canonical(
            &state.seen,
            &state.label_aliases,
            synthetic_label(&Counter::zero()),
        );
        let blocks = state.resolve_aliases();
        Ok(Cfg { requires: pre, ensures: post, start, blocks })
    }
}

} // verus!
