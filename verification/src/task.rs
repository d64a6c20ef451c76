//! The explicit task context: cell storage for materialized values, the
//! per-task collectible set (set semantics: repeated emission of one
//! reference collapses to one membership), the current diagnostic span, and
//! the record of effect executions observed by the drain routine.
use vstd::prelude::*;

use crate::effect::EffectInner;
use crate::effect::EffectInstance;
use crate::effect::ExecOutcome;
use crate::resolved::ResolvedVc;
use crate::EFFECT_CAPABILITY_ID;
use crate::EFFECT_TYPE_ID;

verus! {

/// What one cell holds: a plain materialized value, or a registered effect
/// instance.
pub enum CellContent {
    Value(u64),
    Effect(EffectInstance),
}

/// One memoized cell: the concrete type identifier of its content, and the
/// content itself.
pub struct CellData {
    pub ty: u64,
    pub content: CellContent,
}

/// One observed effect execution: the cell whose instance was applied, the
/// operation's tag, the diagnostic span re-attached for the run, and the
/// termination that the independent execution reached.
pub struct ExecRecord {
    pub cell: u64,
    pub tag: u64,
    pub span: u64,
    pub outcome: ExecOutcome,
}

impl CellData {
    /// The operation still pending in this cell's effect instance, if the
    /// cell holds one at all.
    pub open spec fn pending_of(self) -> Option<EffectInner> {
        match self.content {
            CellContent::Effect(inst) => inst.pending(),
            CellContent::Value(_) => None,
        }
    }

    /// An effect cell: typed as the effect-instance type and holding one.
    pub open spec fn is_effect_cell(self) -> bool {
        self.ty == EFFECT_TYPE_ID && self.content is Effect
    }
}

/// The collectible predicate for one capability tag.
pub open spec fn tagged(cap: u64) -> spec_fn((u64, u64)) -> bool {
    |p: (u64, u64)| p.0 == cap
}

/// The ambient context of one task subgraph, passed explicitly: cells by
/// index identity, the collectible set as (capability, cell) pairs, the
/// diagnostic spans opened so far (each tagged with its batch size), the
/// log of effect executions, and the currently captured span.
pub struct TaskContext {
    pub cells: Vec<CellData>,
    pub collectibles: Vec<(u64, u64)>,
    pub spans_opened: Vec<u64>,
    pub executed: Vec<ExecRecord>,
    pub current_span: u64,
}

impl TaskContext {
    /// A reference is valid here: its cell exists and carries its type.
    pub open spec fn valid_ref(self, r: ResolvedVc) -> bool {
        r.cell < self.cells@.len() && self.cells@[r.cell as int].ty == r.ty
    }

    /// Context invariant: the collectible set holds no duplicate pairs, every
    /// pair denotes an existing cell, and a pair tagged with the effect
    /// capability always denotes an effect cell — the internal invariant the
    /// drain routine relies on when narrowing.
    pub open spec fn wf(self) -> bool {
        &&& self.collectibles@.no_duplicates()
        &&& forall|p: (u64, u64)| #[trigger]
            self.collectibles@.contains(p) ==> p.1 < self.cells@.len() && (p.0
                == EFFECT_CAPABILITY_ID ==> self.cells@[p.1 as int].is_effect_cell())
    }

    /// A fresh, empty context.
    pub fn new() -> (r: TaskContext)
        ensures
            r.wf(),
            r.cells@.len() == 0,
            r.collectibles@.len() == 0,
            r.spans_opened@.len() == 0,
            r.executed@.len() == 0,
            r.current_span == 0,
    {
        TaskContext {
            cells: Vec::new(),
            collectibles: Vec::new(),
            spans_opened: Vec::new(),
            executed: Vec::new(),
            current_span: 0,
        }
    }

    /// Sets the diagnostic span that effect registration will capture.
    pub fn set_current_span(&mut self, span: u64)
        ensures
            final(self).current_span == span,
            final(self).cells@ == old(self).cells@,
            final(self).collectibles@ == old(self).collectibles@,
            final(self).spans_opened@ == old(self).spans_opened@,
            final(self).executed@ == old(self).executed@,
            old(self).wf() ==> final(self).wf(),
    {
        self.current_span = span;
    }

    /// Emits a reference into the collectible set under a capability tag.
    /// Set semantics: emitting an already-present membership changes nothing.
    pub fn emit(&mut self, cap: u64, r: ResolvedVc)
        requires
            old(self).wf(),
            old(self).valid_ref(r),
            r.facet == cap,
            cap == EFFECT_CAPABILITY_ID ==> old(self).cells@[r.cell as int].is_effect_cell(),
        ensures
            final(self).wf(),
            final(self).cells@ == old(self).cells@,
            final(self).spans_opened@ == old(self).spans_opened@,
            final(self).executed@ == old(self).executed@,
            final(self).current_span == old(self).current_span,
            old(self).collectibles@.contains((cap, r.cell)) ==> final(self).collectibles@ == old(
                self,
            ).collectibles@,
            !old(self).collectibles@.contains((cap, r.cell)) ==> final(self).collectibles@ == old(
                self,
            ).collectibles@.push((cap, r.cell)),
            forall|p: (u64, u64)| #[trigger]
                final(self).collectibles@.contains(p) <==> (old(self).collectibles@.contains(p)
                    || p == (cap, r.cell)),
    {
        if !contains_pair(&self.collectibles, cap, r.cell) {
            self.collectibles.push((cap, r.cell));
            proof {
                assert forall|p: (u64, u64)| #[trigger]
                    self.collectibles@.contains(p) <==> (old(self).collectibles@.contains(p) || p
                        == (cap, r.cell)) by {
                    if self.collectibles@.contains(p) {
                        let j = choose|j: int|
                            0 <= j < self.collectibles@.len() && self.collectibles@[j] == p;
                        if j < old(self).collectibles@.len() {
                            assert(old(self).collectibles@[j] == p);
                        }
                    }
                    if old(self).collectibles@.contains(p) {
                        let j = choose|j: int|
                            0 <= j < old(self).collectibles@.len() && old(self).collectibles@[j]
                                == p;
                        assert(self.collectibles@[j] == p);
                    }
                    if p == (cap, r.cell) {
                        assert(self.collectibles@[old(self).collectibles@.len() as int] == p);
                    }
                }
            }
        }
    }

    /// Destructively takes every collectible under one capability tag,
    /// returning a resolved reference for each taken pair; pairs under other
    /// tags stay. A second drain observes none of them.
    pub fn take_collectibles(&mut self, cap: u64) -> (out: Vec<ResolvedVc>)
        requires
            old(self).wf(),
        ensures
            final(self).wf(),
            final(self).cells@ == old(self).cells@,
            final(self).spans_opened@ == old(self).spans_opened@,
            final(self).executed@ == old(self).executed@,
            final(self).current_span == old(self).current_span,
            forall|p: (u64, u64)| #[trigger]
                final(self).collectibles@.contains(p) <==> (old(self).collectibles@.contains(p)
                    && p.0 != cap),
            out@.len() == old(self).collectibles@.filter(tagged(cap)).len(),
            forall|k: int|
                0 <= k < out@.len() ==> {
                    let r = #[trigger] out@[k];
                    &&& r.facet == cap
                    &&& old(self).collectibles@.contains((cap, r.cell))
                    &&& r.cell < old(self).cells@.len()
                    &&& r.ty == old(self).cells@[r.cell as int].ty
                },
            forall|k: int, l: int| 0 <= k < l < out@.len() ==> out@[k].cell != out@[l].cell,
            forall|p: (u64, u64)|
                old(self).collectibles@.contains(p) && p.0 == cap ==> exists|k: int|
                    0 <= k < out@.len() && (#[trigger] out@[k]).cell == p.1,
    {
        let ghost src = old(self).collectibles@;
        let mut kept: Vec<(u64, u64)> = Vec::new();
        let mut out: Vec<ResolvedVc> = Vec::new();
        let mut i: usize = 0;
        while i < self.collectibles.len()
            invariant
                *self == *old(self),
                old(self).wf(),
                src == old(self).collectibles@,
                i <= src.len(),
                out@.len() == src.take(i as int).filter(tagged(cap)).len(),
                forall|k: int|
                    0 <= k < out@.len() ==> {
                        let r = #[trigger] out@[k];
                        &&& r.facet == cap
                        &&& r.cell < old(self).cells@.len()
                        &&& r.ty == old(self).cells@[r.cell as int].ty
                        &&& exists|j: int| 0 <= j < i && src[j] == (cap, r.cell)
                    },
                forall|k: int, l: int| 0 <= k < l < out@.len() ==> out@[k].cell != out@[l].cell,
                forall|j: int|
                    0 <= j < i && src[j].0 == cap ==> exists|k: int|
                        0 <= k < out@.len() && (#[trigger] out@[k]).cell == src[j].1,
                kept@.no_duplicates(),
                forall|k: int|
                    0 <= k < kept@.len() ==> (#[trigger] kept@[k]).0 != cap && exists|j: int|
                        0 <= j < i && src[j] == kept@[k],
                forall|j: int|
                    0 <= j < i && src[j].0 != cap ==> kept@.contains(#[trigger] src[j]),
            decreases src.len() - i,
        {
            let p = self.collectibles[i];
            proof {
                assert(src[i as int] == p);
                assert(src.contains(p));
                assert(src.take(i + 1) =~= src.take(i as int).push(p));
                lemma_filter_push(src.take(i as int), tagged(cap), p);
            }
            if p.0 == cap {
                proof {
                    assert forall|k: int| 0 <= k < out@.len() implies out@[k].cell != p.1 by {
                        let j = choose|j: int| 0 <= j < i && src[j] == (cap, out@[k].cell);
                        if out@[k].cell == p.1 {
                            assert(src[j] == src[i as int]);
                            assert(false);
                        }
                    }
                }
                let nc = self.cells.len();
                proof {
                    assert(p.1 < nc);
                }
                let ghost out0 = out@;
                let ty = self.cells[p.1 as usize].ty;
                out.push(ResolvedVc { cell: p.1, ty, facet: cap });
                proof {
                    assert(src[i as int] == (cap, p.1));
                    assert(out@[out@.len() - 1].cell == p.1);
                    assert forall|j: int|
                        0 <= j < i + 1 && src[j].0 == cap implies exists|k: int|
                        0 <= k < out@.len() && (#[trigger] out@[k]).cell == src[j].1 by {
                        if j < i {
                            let k = choose|k: int|
                                0 <= k < out0.len() && (#[trigger] out0[k]).cell == src[j].1;
                            assert(out@[k].cell == src[j].1);
                        } else {
                            assert(out@[out@.len() - 1].cell == src[j].1);
                        }
                    }
                }
            } else {
                proof {
                    assert forall|k: int| 0 <= k < kept@.len() implies kept@[k] != p by {
                        let j = choose|j: int| 0 <= j < i && src[j] == kept@[k];
                        if kept@[k] == p {
                            assert(src[j] == src[i as int]);
                            assert(false);
                        }
                    }
                }
                let ghost kept0 = kept@;
                kept.push(p);
                proof {
                    assert forall|j: int|
                        0 <= j < i + 1 && src[j].0 != cap implies kept@.contains(
                        #[trigger] src[j],
                    ) by {
                        if j < i {
                            let k = choose|k: int| 0 <= k < kept0.len() && kept0[k] == src[j];
                            assert(kept@[k] == src[j]);
                        } else {
                            assert(kept@[kept@.len() - 1] == src[j]);
                        }
                    }
                }
            }
            i += 1;
        }
        proof {
            assert(src.take(src.len() as int) =~= src);
        }
        self.collectibles = kept;
        proof {
            assert forall|p: (u64, u64)| #[trigger]
                self.collectibles@.contains(p) <==> (src.contains(p) && p.0 != cap) by {
                if self.collectibles@.contains(p) {
                    let k = choose|k: int|
                        0 <= k < self.collectibles@.len() && self.collectibles@[k] == p;
                    let j = choose|j: int| 0 <= j < src.len() && src[j] == self.collectibles@[k];
                    assert(src.contains(p));
                }
                if src.contains(p) && p.0 != cap {
                    let j = choose|j: int| 0 <= j < src.len() && src[j] == p;
                    assert(self.collectibles@.contains(src[j]));
                }
            }
            assert forall|p: (u64, u64)|
                src.contains(p) && p.0 == cap implies exists|k: int|
                0 <= k < out@.len() && (#[trigger] out@[k]).cell == p.1 by {
                let j = choose|j: int| 0 <= j < src.len() && src[j] == p;
                assert(src[j].0 == cap);
            }
        }
        out
    }

    /// Applies the effect instance held in one cell: takes its pending
    /// operation, leaving the instance consumed in place. Every other cell
    /// and every other part of the context is untouched.
    pub fn take_effect(&mut self, cell: u64) -> (r: Option<EffectInner>)
        requires
            cell < old(self).cells@.len(),
        ensures
            final(self).cells@.len() == old(self).cells@.len(),
            forall|i: int|
                0 <= i < old(self).cells@.len() && i != cell ==> final(self).cells@[i] == old(
                    self,
                ).cells@[i],
            r == old(self).cells@[cell as int].pending_of(),
            final(self).cells@[cell as int].pending_of() is None,
            final(self).cells@[cell as int].ty == old(self).cells@[cell as int].ty,
            final(self).cells@[cell as int].is_effect_cell()
                == old(self).cells@[cell as int].is_effect_cell(),
            final(self).collectibles@ == old(self).collectibles@,
            final(self).spans_opened@ == old(self).spans_opened@,
            final(self).executed@ == old(self).executed@,
            final(self).current_span == old(self).current_span,
            old(self).wf() ==> final(self).wf(),
    {
        let n = self.cells.len();
        proof {
            assert(cell < n);
        }
        let idx = cell as usize;
        let ghost pre = self.cells@;
        self.cells.push(CellData { ty: 0, content: CellContent::Value(0) });
        let cd = self.cells.swap_remove(idx);
        proof {
            assert(cd == pre[cell as int]);
        }
        let (r, spent): (Option<EffectInner>, CellData) = match cd {
            CellData { ty, content: CellContent::Effect(inst) } => {
                let mut inst = inst;
                let r = inst.apply();
                (r, CellData { ty, content: CellContent::Effect(inst) })
            },
            CellData { ty, content: CellContent::Value(v) } => (
                None,
                CellData { ty, content: CellContent::Value(v) },
            ),
        };
        self.cells.push(spent);
        let _placeholder = self.cells.swap_remove(idx);
        proof {
            assert(self.cells@ =~= pre.update(cell as int, spent));
        }
        r
    }
}

/// Linear membership test for a (capability, cell) pair.
pub fn contains_pair(v: &Vec<(u64, u64)>, cap: u64, cell: u64) -> (r: bool)
    ensures
        r == v@.contains((cap, cell)),
{
    let mut i: usize = 0;
    while i < v.len()
        invariant
            i <= v@.len(),
            forall|j: int| 0 <= j < i ==> v@[j] != (cap, cell),
        decreases v@.len() - i,
    {
        if v[i].0 == cap && v[i].1 == cell {
            proof {
                assert(v@[i as int] == (cap, cell));
            }
            return true;
        }
        i += 1;
    }
    false
}

/// Filtering one more element keeps the filtered prefix and appends the
/// element exactly when it satisfies the predicate.
pub proof fn lemma_filter_push<A>(s: Seq<A>, pred: spec_fn(A) -> bool, x: A)
    ensures
        s.push(x).filter(pred) == if pred(x) {
            s.filter(pred).push(x)
        } else {
            s.filter(pred)
        },
{
    reveal(Seq::filter);
    assert(s.push(x).drop_last() =~= s);
    assert(s.push(x).last() == x);
}

} // verus!
