//! Generation of proof obligations from a control-flow graph.

use vstd::prelude::*;
use vstd::hash_map::StringHashMap;
use crate::ast::{formulas, Formula, Label, Module, RegImm, SpecFormula, SpecModule};
use crate::cfg::model::built;
use crate::cfg::{view_opt, Block, Cfg, Continuation, ConvertErr, SpecConvertErr};
use crate::formula::{Counters, FormulaBuilder};
use crate::vc::model::{
    collect, lemma_collect, lemma_initial_inv, lemma_step, obligations, at_rest, Collector,
    SpecStatus,
};
use crate::wp::wp;

pub mod model;
pub mod sound;

verus! {

/// How far a block has come.
enum BlockStatus {
    Pending,
    Cyclic,
    PreCond(Formula),
}

impl View for BlockStatus {
    type V = SpecStatus;

    closed spec fn view(&self) -> SpecStatus {
        match self {
            BlockStatus::Pending => SpecStatus::Pending,
            BlockStatus::Cyclic => SpecStatus::Cyclic,
            BlockStatus::PreCond(c) => SpecStatus::PreCond(c@),
        }
    }
}

/// The models of a sequence of labels.
pub open spec fn labels(s: Seq<Label>) -> Seq<Seq<char>> {
    s.map_values(|l: Label| l@)
}

/// The models of a table of blocks.
spec fn statuses(m: Map<Seq<char>, BlockStatus>) -> Map<Seq<char>, SpecStatus> {
    m.map_values(|s: BlockStatus| s@)
}

/// What may be assumed on entering `target`, asked for the block `from`.
fn get_post_cond(
    module: &Cfg,
    from: &Label,
    target: &Label,
    pre_conds: &mut StringHashMap<BlockStatus>,
    stack: &mut Vec<Label>,
    f: &FormulaBuilder,
) -> (r: Option<Formula>)
    requires
        module@.blocks.contains_key(target@),
    ensures
        forall|c: Collector|
            c.stack == labels(old(stack)@) && c.status == statuses(old(pre_conds)@) ==> (
            #[trigger] c.lookup(module@, from@, target@)) == (
                view_opt(r),
                Collector {
                    stack: labels(final(stack)@),
                    status: statuses(final(pre_conds)@),
                    ..c
                },
            ),
{
    let ghost before_stack = stack@;
    let ghost before_status = pre_conds@;
    let known = match pre_conds.get(target.as_str()) {
        Some(BlockStatus::PreCond(c)) => Some(Some(c.clone())),
        Some(_) => Some(None),
        None => None,
    };
    match known {
        Some(Some(c)) => {
            proof {
                assert(labels(stack@) =~= labels(before_stack));
            }
            Some(c)
        },
        Some(None) => {
            pre_conds.insert(target.clone(), BlockStatus::Cyclic);
            proof {
                assert(statuses(pre_conds@) =~= statuses(before_status).insert(
                    target@,
                    SpecStatus::Cyclic,
                ));
            }
            let block = module.blocks.get(target.as_str()).unwrap();
            match &block.require {
                Some(c) => Some(c.clone()),
                None => Some(f.top()),
            }
        },
        None => {
            stack.push(from.clone());
            stack.push(target.clone());
            proof {
                assert(labels(stack@) =~= labels(before_stack).push(from@).push(target@));
            }
            None
        },
    }
}

/// The postcondition of a block, from its continuation.
fn post_cond(
    module: &Cfg,
    label: &Label,
    block: &Block,
    pre_conds: &mut StringHashMap<BlockStatus>,
    stack: &mut Vec<Label>,
    f: &FormulaBuilder,
) -> (r: Option<Formula>)
    requires
        module@.wf(),
        module@.blocks.contains_key(label@),
        module@.blocks[label@] == block@,
    ensures
        forall|c: Collector|
            c.stack == labels(old(stack)@) && c.status == statuses(old(pre_conds)@) ==> (
            #[trigger] c.post_of(module@, label@)) == (
                view_opt(r),
                Collector {
                    stack: labels(final(stack)@),
                    status: statuses(final(pre_conds)@),
                    ..c
                },
            ),
{
    let ghost g = module@;
    proof {
        assert(g.closed_at(label@));
    }
    match &block.next {
        Continuation::Exit => Some(module.ensures.clone()),
        Continuation::Jmp(target) => get_post_cond(module, label, target, pre_conds, stack, f),
        Continuation::Jcc(cc, lhs, rhs, target_t, target_f) => {
            let cond_t = get_post_cond(module, label, target_t, pre_conds, stack, f);
            let cond_f = get_post_cond(module, label, target_f, pre_conds, stack, f);
            let lhs = f.reg(*lhs).0;
            let rhs = match rhs {
                RegImm::Reg(r) => f.reg(*r).0,
                RegImm::Imm(i) => f.val(*i),
            };
            let cmp = f.rel(*cc, lhs, rhs);
            match (cond_t, cond_f) {
                (Some(cond_t), Some(cond_f)) => Some(
                    f.or(f.asym_and(cmp.clone(), cond_t), f.asym_and(f.not(cmp), cond_f)),
                ),
                _ => None,
            }
        },
    }
}

/// The proof obligations of a graph.
///
/// The result is exactly what [`obligations`] gives for the graph and the
/// names that `f` has minted: one obligation for every block with an
/// invariant and for every block that a loop was cut at, in the order in
/// which the blocks were settled, and last that what holds at entry
/// implies the precondition of the entry block. The graph must be well
/// formed.
pub fn vc(module: Cfg, f: &mut FormulaBuilder) -> (r: Vec<Formula>)
    requires
        module@.wf(),
    ensures
        formulas(r@) == obligations(module@, old(f)@),
        final(f)@ == collect(module@, old(f)@).counters,
{
    let ghost g = module@;
    let ghost start = f@;
    let mut verif_conds: Vec<Formula> = Vec::new();
    let mut pre_conds: StringHashMap<BlockStatus> = StringHashMap::new();
    let mut stack: Vec<Label> = Vec::new();
    stack.push(module.start.clone());
    let ghost mut n: nat = 0;
    let ghost mut cur = Collector::initial(g, start);
    proof {
        lemma_initial_inv(g, start);
        assert(labels(stack@) =~= cur.stack);
        assert(statuses(pre_conds@) =~= cur.status);
        assert(formulas(verif_conds@) =~= cur.emitted);
    }
    while stack.len() > 0
        invariant
            g == module@,
            g.wf(),
            cur == Collector::initial(g, start).run(g, n),
            cur.inv(g),
            cur.stack == labels(stack@),
            cur.status == statuses(pre_conds@),
            cur.counters == f@,
            cur.emitted == formulas(verif_conds@),
        decreases cur.measure(g),
    {
        let ghost before = cur;
        proof {
            lemma_step(before, g);
            cur = before.step(g);
            n = n + 1;
            assert(before.stack.last() == stack@[stack@.len() - 1]@);
            assert(g.blocks.contains_key(before.stack[before.stack.len() - 1]));
        }
        let label = stack.pop().unwrap();
        proof {
            assert(labels(stack@) =~= before.stack.drop_last());
        }
        let ghost popped = Collector { stack: before.stack.drop_last(), ..before };
        let seen = match pre_conds.get(label.as_str()) {
            Some(BlockStatus::PreCond(_)) => Some(true),
            Some(_) => Some(false),
            None => None,
        };
        match seen {
            Some(true) => {
                continue ;
            },
            Some(false) => {},
            None => {
                pre_conds.insert(label.clone(), BlockStatus::Pending);
                proof {
                    assert(statuses(pre_conds@) =~= popped.status.insert(
                        label@,
                        SpecStatus::Pending,
                    ));
                }
            },
        }
        let ghost reached = popped.reach(label@);
        let block = module.blocks.get(label.as_str()).unwrap();
        let post = post_cond(&module, &label, block, &mut pre_conds, &mut stack, f);
        let ghost asked = reached.post_of(g, label@).1;
        match post {
            None => {
                continue ;
            },
            Some(post) => {
                proof {
                    assert(g.supported_at(label@));
                }
                let wp_result = wp(f, block.body.as_slice(), post);
                let cyclic = match pre_conds.get(label.as_str()) {
                    Some(BlockStatus::Cyclic) => true,
                    _ => false,
                };
                let ghost before_status = pre_conds@;
                let ghost before_conds = verif_conds@;
                match &block.require {
                    Some(require) => {
                        verif_conds.push(f.implies(require.clone(), wp_result));
                        pre_conds.insert(label, BlockStatus::PreCond(require.clone()));
                        proof {
                            assert(statuses(pre_conds@) =~= cur.status);
                            assert(formulas(verif_conds@) =~= cur.emitted);
                        }
                    },
                    None => {
                        if cyclic {
                            verif_conds.push(f.implies(f.top(), wp_result));
                            pre_conds.insert(label, BlockStatus::PreCond(f.top()));
                            proof {
                                assert(statuses(pre_conds@) =~= cur.status);
                                assert(formulas(verif_conds@) =~= cur.emitted);
                            }
                        } else {
                            pre_conds.insert(label, BlockStatus::PreCond(wp_result));
                            proof {
                                assert(statuses(pre_conds@) =~= cur.status);
                            }
                        }
                    },
                }
            },
        }
    }
    proof {
        assert(at_rest(g, start, n));
        lemma_collect(g, start, n);
        assert(cur.status.contains_key(g.start));
        if !(cur.status[g.start] is PreCond) {
            assert(cur.stack.contains(g.start));
        }
    }
    let last = match pre_conds.get(module.start.as_str()) {
        Some(BlockStatus::PreCond(c)) => f.implies(module.requires, c.clone()),
        _ => vstd::pervasive::unreached(),
    };
    verif_conds.push(last);
    proof {
        assert(formulas(verif_conds@) =~= obligations(g, start));
    }
    verif_conds
}

/// What [`conditions`] gives: the obligations of the graph of a program,
/// or why the program has no graph.
pub open spec fn conditions_of(m: SpecModule, counters: Counters) -> Result<
    Seq<SpecFormula>,
    SpecConvertErr,
> {
    match built(m) {
        Ok(g) => Ok(obligations(g, counters)),
        Err(e) => Err(e),
    }
}

/// The proof obligations of a program: those of its graph, where it has
/// one. If all of them are valid, the program meets what it says of
/// itself.
pub fn conditions(ast: Module, f: &mut FormulaBuilder) -> (r: Result<Vec<Formula>, ConvertErr>)
    ensures
        match r {
            Ok(v) => conditions_of(ast@, old(f)@) == Ok::<Seq<SpecFormula>, SpecConvertErr>(
                formulas(v@),
            ),
            Err(e) => conditions_of(ast@, old(f)@) == Err::<Seq<SpecFormula>, SpecConvertErr>(
                e@,
            ),
        },
{
    match Cfg::create(ast, f) {
        Ok(cfg) => Ok(vc(cfg, f)),
        Err(e) => Err(e),
    }
}

} // verus!
