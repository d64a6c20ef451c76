//! Deferred effect channel: a cacheable computation registers a one-shot
//! side-effecting operation, which runs only when a later checkpoint drains
//! the collectible set; failures across a batch are aggregated, with the
//! first failure observed winning while every effect still runs.
use vstd::prelude::*;
use vstd::string::StringExecFns;

use crate::registry::TypeRegistry;
use crate::resolved::ResolvedVc;
use crate::task::tagged;
use crate::task::CellContent;
use crate::task::ExecRecord;
use crate::task::TaskContext;
use crate::EFFECT_CAPABILITY_ID;
use crate::EFFECT_TYPE_ID;

verus! {

/// How one independent effect execution terminated: normally, with an
/// ordinary failure, or abnormally with a textual or an opaque payload.
#[derive(Debug)]
pub enum ExecOutcome {
    Success,
    Failure(String),
    PanicMessage(String),
    PanicOpaque,
}

/// An aggregated effect failure, carrying a human-readable message.
#[derive(Debug)]
pub struct EffectError {
    pub message: String,
}

/// The payload of one registered effect: the deferred operation (identified
/// by its tag and described by the termination it will reach) together with
/// the diagnostic span captured at registration time.
#[derive(Debug)]
pub struct EffectInner {
    pub tag: u64,
    pub outcome: ExecOutcome,
    pub span: u64,
}

/// Declares lock_api's `Mutex` (the struct behind parking_lot's `Mutex`
/// alias) so the one-shot slot can be held in a real mutual-exclusion lock;
/// the value is opaque here and reached only through the trusted wrappers.
#[verifier::external_type_specification]
#[verifier::external_body]
#[verifier::reject_recursive_types(R)]
#[verifier::reject_recursive_types(T)]
pub struct ExMutex<R, T: ?Sized>(lock_api::Mutex<R, T>);

/// Declares parking_lot's `RawMutex`, the raw lock parameter of the alias.
#[verifier::external_type_specification]
#[verifier::external_body]
pub struct ExRawMutex(parking_lot::RawMutex);

/// What the guarded slot currently holds.

pub uninterp spec fn slot_view(m: parking_lot::Mutex<Option<EffectInner>>) -> Option<EffectInner>;

/// A one-shot holder for a deferred operation: the guarded slot starts full
/// and is taken at most once.
pub struct EffectInstance {
    pub inner: parking_lot::Mutex<Option<EffectInner>>,
}

impl EffectInstance {
    /// The operation still waiting in the slot, if any.
    pub open spec fn pending(self) -> Option<EffectInner> {
        slot_view(self.inner)
    }

    /// Relies on parking_lot's `Mutex::new` (`lock_api::Mutex::new`): the
    /// freshly created lock holds exactly the value it was given.
    #[verifier::external_body]
    fn new_slot(inner: EffectInner) -> (m: parking_lot::Mutex<Option<EffectInner>>)
        ensures
            slot_view(m) == Some(inner),
    {
        parking_lot::Mutex::new(Some(inner))
    }

    /// Relies on parking_lot's `Mutex::lock` (`lock_api::Mutex::lock`): the
    /// guard gives mutually exclusive access to the slot, and `Option::take`
    /// through it removes and returns the held value, leaving the slot empty.
    #[verifier::external_body]
    fn take_slot(m: &mut parking_lot::Mutex<Option<EffectInner>>) -> (r: Option<EffectInner>)
        ensures
            r == slot_view(*old(m)),
            slot_view(*final(m)) is None,
    {
        m.lock().take()
    }

    /// A new instance whose slot holds the given operation.
    pub fn new(inner: EffectInner) -> (r: EffectInstance)
        ensures
            r.pending() == Some(inner),
    {
        EffectInstance { inner: EffectInstance::new_slot(inner) }
    }

    /// What one `apply` call does to an instance: it takes whatever the slot
    /// held, and the slot is empty afterwards.
    pub open spec fn apply_step(pre: EffectInstance, post: EffectInstance, r: Option<
        EffectInner,
    >) -> bool {
        r == pre.pending() && post.pending() is None
    }

    /// Atomically takes the pending operation out of the guarded slot. A
    /// second or later call observes the slot already empty and takes
    /// nothing; the operation taken here is what the caller schedules as an
    /// independent execution.
    pub fn apply(&mut self) -> (r: Option<EffectInner>)
        ensures
            r == old(self).pending(),
            final(self).pending() is None,
            EffectInstance::apply_step(*old(self), *final(self), r),
    {
        EffectInstance::take_slot(&mut self.inner)
    }
}

/// Run-once law: across two successive `apply` calls on one instance, at
/// most one of them yields an operation to execute.
pub proof fn lemma_apply_run_once(
    e0: EffectInstance,
    e1: EffectInstance,
    e2: EffectInstance,
    r1: Option<EffectInner>,
    r2: Option<EffectInner>,
)
    requires
        EffectInstance::apply_step(e0, e1, r1),
        EffectInstance::apply_step(e1, e2, r2),
    ensures
        !(r1 is Some && r2 is Some),
{
}

/// The failure message, if any, that one execution's termination turns into:
/// an ordinary failure keeps its message; an abnormal termination with a
/// textual payload embeds that text; an opaque one gets the fixed message.
pub open spec fn error_of_outcome(o: ExecOutcome) -> Option<Seq<char>> {
    match o {
        ExecOutcome::Success => None,
        ExecOutcome::Failure(m) => Some(m@),
        ExecOutcome::PanicMessage(t) => Some("Task effect panicked: "@ + t@),
        ExecOutcome::PanicOpaque => Some("Task effect panicked"@),
    }
}

/// Translates one observed termination into the failure it contributes to
/// the aggregate, exactly as `error_of_outcome` states.
pub fn outcome_to_error(o: &ExecOutcome) -> (r: Option<EffectError>)
    ensures
        match r {
            Some(e) => error_of_outcome(*o) == Some(e.message@),
            None => error_of_outcome(*o) is None,
        },
{
    match o {
        ExecOutcome::Success => None,
        ExecOutcome::Failure(m) => Some(EffectError { message: m.clone() }),
        ExecOutcome::PanicMessage(t) => Some(
            EffectError { message: String::from_str("Task effect panicked: ").concat(t.as_str()) },
        ),
        ExecOutcome::PanicOpaque => Some(
            EffectError { message: String::from_str("Task effect panicked") },
        ),
    }
}

/// The first failure among a batch of terminations, in their order.
pub open spec fn first_failure_spec(outcomes: Seq<ExecOutcome>) -> Option<Seq<char>>
    decreases outcomes.len(),
{
    if outcomes.len() == 0 {
        None
    } else {
        match error_of_outcome(outcomes[0]) {
            Some(m) => Some(m),
            None => first_failure_spec(outcomes.drop_first()),
        }
    }
}

/// Appending one more termination changes the first failure only when none
/// was recorded yet.
pub proof fn lemma_first_failure_push(outcomes: Seq<ExecOutcome>, o: ExecOutcome)
    ensures
        first_failure_spec(outcomes.push(o)) == match first_failure_spec(outcomes) {
            Some(m) => Some(m),
            None => error_of_outcome(o),
        },
    decreases outcomes.len(),
{
    let s = outcomes.push(o);
    if outcomes.len() == 0 {
        assert(s[0] == o);
        assert(s.drop_first() =~= Seq::<ExecOutcome>::empty());
        assert(first_failure_spec(s.drop_first()) is None);
    } else {
        assert(s[0] == outcomes[0]);
        assert(s.drop_first() =~= outcomes.drop_first().push(o));
        lemma_first_failure_push(outcomes.drop_first(), o);
        match error_of_outcome(outcomes[0]) {
            Some(m) => {
                assert(first_failure_spec(s) == Some(m));
                assert(first_failure_spec(outcomes) == Some(m));
            },
            None => {
                assert(first_failure_spec(s) == first_failure_spec(s.drop_first()));
                assert(first_failure_spec(outcomes) == first_failure_spec(
                    outcomes.drop_first(),
                ));
            },
        }
    }
}

/// A batch has no first failure exactly when no termination in it fails.
pub proof fn lemma_first_failure_none_iff(outcomes: Seq<ExecOutcome>)
    ensures
        (first_failure_spec(outcomes) is None) <==> (forall|j: int|
            0 <= j < outcomes.len() ==> error_of_outcome(#[trigger] outcomes[j]) is None),
    decreases outcomes.len(),
{
    if outcomes.len() > 0 {
        let rest = outcomes.drop_first();
        lemma_first_failure_none_iff(rest);
        if error_of_outcome(outcomes[0]) is None {
            if first_failure_spec(rest) is None {
                assert forall|j: int|
                    0 <= j < outcomes.len() implies error_of_outcome(
                    #[trigger] outcomes[j],
                ) is None by {
                    if j > 0 {
                        assert(rest[j - 1] == outcomes[j]);
                        assert(error_of_outcome(rest[j - 1]) is None);
                    }
                }
            } else {
                let j = choose|j: int|
                    0 <= j < rest.len() && !(error_of_outcome(#[trigger] rest[j]) is None);
                assert(outcomes[j + 1] == rest[j]);
                assert(!(error_of_outcome(outcomes[j + 1]) is None));
            }
        } else {
            assert(!(error_of_outcome(outcomes[0]) is None));
        }
    }
}

/// When exactly one termination in a batch fails, the batch's first failure
/// is that termination's failure, wherever the iteration order placed it.
pub proof fn lemma_single_failure(outcomes: Seq<ExecOutcome>, k: int)
    requires
        0 <= k < outcomes.len(),
        error_of_outcome(outcomes[k]) is Some,
        forall|j: int|
            0 <= j < outcomes.len() && j != k ==> error_of_outcome(#[trigger] outcomes[j]) is None,
    ensures
        first_failure_spec(outcomes) == error_of_outcome(outcomes[k]),
    decreases outcomes.len(),
{
    if k == 0 {
    } else {
        assert(error_of_outcome(outcomes[0]) is None);
        assert forall|j: int|
            0 <= j < outcomes.drop_first().len() && j != k - 1 implies error_of_outcome(
            #[trigger] outcomes.drop_first()[j],
        ) is None by {
            assert(outcomes.drop_first()[j] == outcomes[j + 1]);
        }
        assert(outcomes.drop_first()[k - 1] == outcomes[k]);
        lemma_single_failure(outcomes.drop_first(), k - 1);
    }
}

/// Folds a batch of observed terminations into the aggregate result: the
/// first failure in order, after every termination has been inspected.
pub fn first_failure(outcomes: &Vec<ExecOutcome>) -> (r: Option<EffectError>)
    ensures
        match r {
            Some(e) => first_failure_spec(outcomes@) == Some(e.message@),
            None => first_failure_spec(outcomes@) is None,
        },
{
    let mut first: Option<EffectError> = None;
    let mut i: usize = 0;
    while i < outcomes.len()
        invariant
            i <= outcomes@.len(),
            match first {
                Some(e) => first_failure_spec(outcomes@.take(i as int)) == Some(e.message@),
                None => first_failure_spec(outcomes@.take(i as int)) is None,
            },
        decreases outcomes@.len() - i,
    {
        proof {
            assert(outcomes@.take(i + 1) =~= outcomes@.take(i as int).push(outcomes@[i as int]));
            lemma_first_failure_push(outcomes@.take(i as int), outcomes@[i as int]);
        }
        if first.is_none() {
            first = outcome_to_error(&outcomes[i]);
        }
        i += 1;
    }
    proof {
        assert(outcomes@.take(outcomes@.len() as int) =~= outcomes@);
    }
    first
}

} // verus!

verus! {

/// The outcomes of a batch of execution records, in order.
pub open spec fn outcomes_of(recs: Seq<ExecRecord>) -> Seq<ExecOutcome> {
    recs.map_values(|rc: ExecRecord| rc.outcome)
}

/// Registers a deferred side effect during otherwise-pure evaluation: the
/// operation and the currently captured diagnostic span are wrapped into a
/// fresh one-shot effect instance, materialized in a new cell, and the
/// resolved reference to it is emitted into the task's collectible set under
/// the effect capability. Nothing runs yet.
pub fn effect(ctx: &mut TaskContext, reg: &TypeRegistry, tag: u64, outcome: ExecOutcome)
    requires
        old(ctx).wf(),
        reg.implements_spec(EFFECT_TYPE_ID, EFFECT_CAPABILITY_ID),
    ensures
        final(ctx).wf(),
        final(ctx).cells@.len() == old(ctx).cells@.len() + 1,
        forall|i: int|
            0 <= i < old(ctx).cells@.len() ==> final(ctx).cells@[i] == old(ctx).cells@[i],
        ({
            let c = final(ctx).cells@[old(ctx).cells@.len() as int];
            c.is_effect_cell() && c.pending_of() == Some(
                EffectInner { tag, outcome, span: old(ctx).current_span },
            )
        }),
        final(ctx).collectibles@ == old(ctx).collectibles@.push(
            (EFFECT_CAPABILITY_ID, old(ctx).cells@.len() as u64),
        ),
        final(ctx).spans_opened@ == old(ctx).spans_opened@,
        final(ctx).executed@ == old(ctx).executed@,
        final(ctx).current_span == old(ctx).current_span,
{
    let span = ctx.current_span;
    let inst = EffectInstance::new(EffectInner { tag, outcome, span });
    let r = ResolvedVc::cell_private(ctx, EFFECT_TYPE_ID, CellContent::Effect(inst));
    let r = ResolvedVc::upcast(r, EFFECT_CAPABILITY_ID, reg);
    proof {
        if old(ctx).collectibles@.contains((EFFECT_CAPABILITY_ID, r.cell)) {
            assert(false);
        }
    }
    ctx.emit(EFFECT_CAPABILITY_ID, r);
}

/// One cell among a batch is touched when some reference in the batch
/// denotes it.
pub open spec fn touches(refs: Seq<ResolvedVc>, c: u64) -> bool {
    exists|j: int| 0 <= j < refs.len() && (#[trigger] refs[j]).cell == c
}

/// Drains one collectible of the batch: narrows it to the concrete effect
/// instance (the caller's invariant rules a narrowing failure out), applies
/// the instance, and, when an operation was still pending, observes the
/// termination of its independent execution under the captured span and
/// records it. Returns the failure this effect contributes, if any.
fn drain_one(ctx: &mut TaskContext, reg: &TypeRegistry, rv: ResolvedVc) -> (e: Option<EffectError>)
    requires
        reg.wf(),
        reg.registered_spec(EFFECT_TYPE_ID),
        rv.ty == EFFECT_TYPE_ID,
        rv.cell < old(ctx).cells@.len(),
        old(ctx).cells@[rv.cell as int].is_effect_cell(),
    ensures
        final(ctx).cells@.len() == old(ctx).cells@.len(),
        forall|c: int|
            0 <= c < old(ctx).cells@.len() && c != rv.cell ==> final(ctx).cells@[c] == old(
                ctx,
            ).cells@[c],
        final(ctx).cells@[rv.cell as int].pending_of() is None,
        final(ctx).cells@[rv.cell as int].is_effect_cell(),
        final(ctx).collectibles@ == old(ctx).collectibles@,
        final(ctx).spans_opened@ == old(ctx).spans_opened@,
        final(ctx).current_span == old(ctx).current_span,
        match old(ctx).cells@[rv.cell as int].pending_of() {
            Some(inner) => final(ctx).executed@ == old(ctx).executed@.push(
                (ExecRecord { cell: rv.cell, tag: inner.tag, span: inner.span, outcome: inner.outcome }),
            ) && (match e {
                Some(er) => error_of_outcome(inner.outcome) == Some(er.message@),
                None => error_of_outcome(inner.outcome) is None,
            }),
            None => final(ctx).executed@ == old(ctx).executed@ && e is None,
        },
{
    let d = ResolvedVc::try_downcast_type(rv, EFFECT_TYPE_ID, reg);
    let inst_ref = match d {
        Result::Ok(Option::Some(x)) => x,
        _ => {
            proof {
                assert(false);
            }
            rv
        },
    };
    let taken = ctx.take_effect(inst_ref.cell);
    match taken {
        Option::Some(inner) => {
            let e = outcome_to_error(&inner.outcome);
            let rec = ExecRecord {
                cell: rv.cell,
                tag: inner.tag,
                span: inner.span,
                outcome: inner.outcome,
            };
            ctx.executed.push(rec);
            e
        },
        Option::None => None,
    }
}

/// One drain step extends the execution log by one record for the current
/// reference: membership, distinctness and the observed outcomes all extend
/// accordingly.
proof fn lemma_drain_record_step(
    effects: Seq<ResolvedVc>,
    i: int,
    base: int,
    exec0: Seq<ExecRecord>,
    exec1: Seq<ExecRecord>,
    rec: ExecRecord,
)
    requires
        0 <= i < effects.len(),
        forall|k: int, l: int| 0 <= k < l < effects.len() ==> effects[k].cell != effects[l].cell,
        0 <= base <= exec0.len(),
        rec.cell == effects[i].cell,
        exec1 == exec0.push(rec),
        forall|k: int|
            base <= k < exec0.len() ==> {
                let rc = #[trigger] exec0[k];
                exists|j: int| 0 <= j < i && (#[trigger] effects[j]).cell == rc.cell
            },
        forall|k: int, l: int|
            base <= k < l < exec0.len() ==> exec0[k].cell != exec0[l].cell,
    ensures
        forall|k: int|
            base <= k < exec1.len() ==> {
                let rc = #[trigger] exec1[k];
                exists|j: int| 0 <= j < i + 1 && (#[trigger] effects[j]).cell == rc.cell
            },
        forall|k: int, l: int|
            base <= k < l < exec1.len() ==> exec1[k].cell != exec1[l].cell,
        outcomes_of(exec1.skip(base)) == outcomes_of(exec0.skip(base)).push(rec.outcome),
        exec1.take(base) == exec0.take(base),
{
    assert(outcomes_of(exec1.skip(base)) =~= outcomes_of(exec0.skip(base)).push(rec.outcome));
    assert(exec1.take(base) =~= exec0.take(base));
    assert forall|k: int| base <= k < exec1.len() implies ({
        let rc = #[trigger] exec1[k];
        exists|j: int| 0 <= j < i + 1 && (#[trigger] effects[j]).cell == rc.cell
    }) by {
        if k < exec0.len() {
            let j = choose|j: int| 0 <= j < i && (#[trigger] effects[j]).cell == exec0[k].cell;
            assert(exec1[k] == exec0[k]);
            assert(effects[j].cell == exec1[k].cell);
        } else {
            assert(exec1[k] == rec);
            assert(effects[i].cell == exec1[k].cell);
        }
    }
    assert forall|k: int, l: int|
        base <= k < l < exec1.len() implies exec1[k].cell != exec1[l].cell by {
        if l == exec1.len() - 1 {
            let j = choose|j: int| 0 <= j < i && (#[trigger] effects[j]).cell == exec0[k].cell;
            assert(effects[j].cell != effects[i].cell);
            assert(exec1[k] == exec0[k]);
        } else {
            assert(exec1[k] == exec0[k] && exec1[l] == exec0[l]);
        }
    }
}

/// The drain loop proper: applies every effect of the batch exactly once, in
/// order, and keeps the first failure observed while always finishing the
/// batch.
#[verifier::rlimit(100)]
#[verifier::spinoff_prover]
fn drain_all(ctx: &mut TaskContext, reg: &TypeRegistry, effects: &Vec<ResolvedVc>) -> (first:
    Option<EffectError>)
    requires
        old(ctx).wf(),
        reg.wf(),
        reg.registered_spec(EFFECT_TYPE_ID),
        forall|k: int|
            0 <= k < effects@.len() ==> {
                let r = #[trigger] effects@[k];
                &&& r.ty == EFFECT_TYPE_ID
                &&& r.cell < old(ctx).cells@.len()
                &&& old(ctx).cells@[r.cell as int].is_effect_cell()
            },
        forall|k: int, l: int| 0 <= k < l < effects@.len() ==> effects@[k].cell != effects@[l].cell,
    ensures
        final(ctx).wf(),
        final(ctx).cells@.len() == old(ctx).cells@.len(),
        final(ctx).collectibles@ == old(ctx).collectibles@,
        final(ctx).spans_opened@ == old(ctx).spans_opened@,
        final(ctx).current_span == old(ctx).current_span,
        forall|c: int|
            0 <= c < old(ctx).cells@.len() && !touches(effects@, c as u64) ==> final(ctx).cells@[c] == old(ctx).cells@[c],
        forall|j: int|
            0 <= j < effects@.len() ==> {
                let c = (#[trigger] effects@[j]).cell;
                final(ctx).cells@[c as int].pending_of() is None && final(ctx).cells@[
                    c as int
                ].is_effect_cell()
            },
        final(ctx).executed@.len() >= old(ctx).executed@.len(),
        final(ctx).executed@.take(old(ctx).executed@.len() as int) == old(ctx).executed@,
        forall|k: int|
            old(ctx).executed@.len() <= k < final(ctx).executed@.len() ==> {
                let rec = #[trigger] final(ctx).executed@[k];
                &&& touches(effects@, rec.cell)
                &&& old(ctx).cells@[rec.cell as int].pending_of() == Some(
                    EffectInner { tag: rec.tag, outcome: rec.outcome, span: rec.span },
                )
            },
        forall|j: int|
            0 <= j < effects@.len() && old(ctx).cells@[(
            #[trigger] effects@[j]).cell as int].pending_of() is Some ==> exists|k: int|
                old(ctx).executed@.len() <= k < final(ctx).executed@.len() && (#[trigger] final(ctx).executed@[k]).cell == effects@[j].cell,
        forall|k: int, l: int|
            old(ctx).executed@.len() <= k < l < final(ctx).executed@.len()
                ==> final(ctx).executed@[k].cell != final(ctx).executed@[l].cell,
        ({
            let ran = outcomes_of(final(ctx).executed@.skip(old(ctx).executed@.len() as int));
            match first {
                Some(e) => first_failure_spec(ran) == Some(e.message@),
                None => first_failure_spec(ran) is None,
            }
        }),
{
    let ghost ctx0 = *ctx;
    let ghost base = ctx.executed@.len() as int;
    let mut first: Option<EffectError> = None;
    let mut i: usize = 0;
    while i < effects.len()
        invariant
            i <= effects@.len(),
            reg.wf(),
            reg.registered_spec(EFFECT_TYPE_ID),
            forall|k: int|
                0 <= k < effects@.len() ==> {
                    let r = #[trigger] effects@[k];
                    &&& r.ty == EFFECT_TYPE_ID
                    &&& r.cell < ctx0.cells@.len()
                    &&& ctx0.cells@[r.cell as int].is_effect_cell()
                },
            forall|k: int, l: int|
                0 <= k < l < effects@.len() ==> effects@[k].cell != effects@[l].cell,
            ctx.collectibles@ == ctx0.collectibles@,
            ctx.spans_opened@ == ctx0.spans_opened@,
            ctx.current_span == ctx0.current_span,
            ctx.cells@.len() == ctx0.cells@.len(),
            forall|j: int|
                0 <= j < i ==> {
                    let c = (#[trigger] effects@[j]).cell;
                    ctx.cells@[c as int].pending_of() is None && ctx.cells@[
                        c as int
                    ].is_effect_cell()
                },
            forall|j: int|
                i <= j < effects@.len() ==> ctx.cells@[(#[trigger] effects@[j]).cell as int]
                    == ctx0.cells@[effects@[j].cell as int],
            forall|c: int|
                0 <= c < ctx0.cells@.len() && !touches(effects@, c as u64) ==> ctx.cells@[c]
                    == ctx0.cells@[c],
            base == ctx0.executed@.len(),
            ctx.executed@.len() >= base,
            ctx.executed@.take(base) == ctx0.executed@,
            forall|k: int|
                base <= k < ctx.executed@.len() ==> {
                    let rec = #[trigger] ctx.executed@[k];
                    &&& ctx0.cells@[rec.cell as int].pending_of() == Some(
                        EffectInner { tag: rec.tag, outcome: rec.outcome, span: rec.span },
                    )
                    &&& exists|j: int| 0 <= j < i && (#[trigger] effects@[j]).cell == rec.cell
                },
            forall|k: int, l: int|
                base <= k < l < ctx.executed@.len() ==> ctx.executed@[k].cell
                    != ctx.executed@[l].cell,
            forall|j: int|
                0 <= j < i && ctx0.cells@[(#[trigger] effects@[j]).cell as int].pending_of()
                    is Some ==> exists|k: int|
                    base <= k < ctx.executed@.len() && (#[trigger] ctx.executed@[k]).cell
                        == effects@[j].cell,
            ({
                let ran = outcomes_of(ctx.executed@.skip(base));
                match first {
                    Some(e) => first_failure_spec(ran) == Some(e.message@),
                    None => first_failure_spec(ran) is None,
                }
            }),
        decreases effects@.len() - i,
    {
        let rv = effects[i];
        let ghost exec0 = ctx.executed@;
        let e = drain_one(ctx, reg, rv);
        proof {
            assert(touches(effects@, rv.cell));
            let ran0 = outcomes_of(exec0.skip(base));
            let ran1 = outcomes_of(ctx.executed@.skip(base));
            match ctx0.cells@[rv.cell as int].pending_of() {
                Some(inner) => {
                    let last = ctx.executed@[ctx.executed@.len() - 1];
                    lemma_drain_record_step(effects@, i as int, base, exec0, ctx.executed@, last);
                    lemma_first_failure_push(ran0, last.outcome);
                    assert forall|j: int|
                        0 <= j < i + 1 && ctx0.cells@[(
                        #[trigger] effects@[j]).cell as int].pending_of() is Some implies exists|
                        k: int,
                    |
                        base <= k < ctx.executed@.len() && (#[trigger] ctx.executed@[k]).cell
                            == effects@[j].cell by {
                        if j < i {
                            let k = choose|k: int|
                                base <= k < exec0.len() && (#[trigger] exec0[k]).cell
                                    == effects@[j].cell;
                            assert(ctx.executed@[k].cell == effects@[j].cell);
                        } else {
                            assert(ctx.executed@[ctx.executed@.len() - 1].cell
                                == effects@[j].cell);
                        }
                    }
                },
                None => {
                    assert(ctx.executed@ == exec0);
                    assert(ran1 == ran0);
                },
            }
        }
        if first.is_none() {
            first = e;
        }
        i += 1;
    }
    proof {
        assert forall|k: int| base <= k < ctx.executed@.len() implies touches(
            effects@,
            (#[trigger] ctx.executed@[k]).cell,
        ) by {
            let j = choose|j: int|
                0 <= j < i && (#[trigger] effects@[j]).cell == ctx.executed@[k].cell;
        }
        assert forall|p: (u64, u64)| #[trigger]
            ctx.collectibles@.contains(p) implies p.1 < ctx.cells@.len() && (p.0
            == EFFECT_CAPABILITY_ID ==> ctx.cells@[p.1 as int].is_effect_cell()) by {
            assert(ctx0.collectibles@.contains(p));
            if touches(effects@, p.1) {
                let j = choose|j: int|
                    0 <= j < effects@.len() && (#[trigger] effects@[j]).cell == p.1;
                assert(ctx.cells@[effects@[j].cell as int].is_effect_cell());
            }
        }
    }
    first
}

/// The end-to-end drain: takes every effect collectible of the context,
/// narrows each to the concrete effect instance (the context invariant rules
/// a narrowing failure out), applies each exactly once, observes each
/// independent execution's termination under the effect's captured span, and
/// aggregates failures — the first failure in observation order is returned
/// once every effect in the batch has had its chance to run. A batch with
/// nothing to do returns success without opening a diagnostic span.
#[verifier::rlimit(60)]
pub fn apply_effects(ctx: &mut TaskContext, reg: &TypeRegistry) -> (result: Result<
    (),
    EffectError,
>)
    requires
        old(ctx).wf(),
        reg.wf(),
        reg.registered_spec(EFFECT_TYPE_ID),
    ensures
        final(ctx).wf(),
        final(ctx).cells@.len() == old(ctx).cells@.len(),
        final(ctx).current_span == old(ctx).current_span,
        forall|c: int|
            0 <= c < old(ctx).cells@.len() && !old(ctx).collectibles@.contains(
                (EFFECT_CAPABILITY_ID, c as u64),
            ) ==> final(ctx).cells@[c] == old(ctx).cells@[c],
        forall|p: (u64, u64)| #[trigger]
            old(ctx).collectibles@.contains(p) && p.0 == EFFECT_CAPABILITY_ID ==> {
                &&& final(ctx).cells@[p.1 as int].pending_of() is None
                &&& final(ctx).cells@[p.1 as int].is_effect_cell()
            },
        forall|p: (u64, u64)| #[trigger]
            final(ctx).collectibles@.contains(p) <==> (old(ctx).collectibles@.contains(p) && p.0
                != EFFECT_CAPABILITY_ID),
        ({
            let n = old(ctx).collectibles@.filter(tagged(EFFECT_CAPABILITY_ID)).len();
            if n == 0 {
                final(ctx).spans_opened@ == old(ctx).spans_opened@ && final(ctx).executed@ == old(
                    ctx,
                ).executed@ && result is Ok
            } else {
                final(ctx).spans_opened@ == old(ctx).spans_opened@.push(n as u64)
            }
        }),
        final(ctx).executed@.len() >= old(ctx).executed@.len(),
        final(ctx).executed@.take(old(ctx).executed@.len() as int) == old(ctx).executed@,
        forall|k: int|
            old(ctx).executed@.len() <= k < final(ctx).executed@.len() ==> {
                let rec = #[trigger] final(ctx).executed@[k];
                &&& old(ctx).collectibles@.contains((EFFECT_CAPABILITY_ID, rec.cell))
                &&& old(ctx).cells@[rec.cell as int].pending_of() == Some(
                    EffectInner { tag: rec.tag, outcome: rec.outcome, span: rec.span },
                )
            },
        forall|p: (u64, u64)| #[trigger]
            old(ctx).collectibles@.contains(p) && p.0 == EFFECT_CAPABILITY_ID
                && old(ctx).cells@[p.1 as int].pending_of() is Some ==> exists|k: int|
                old(ctx).executed@.len() <= k < final(ctx).executed@.len()
                    && (#[trigger] final(ctx).executed@[k]).cell == p.1,
        forall|k: int, l: int|
            old(ctx).executed@.len() <= k < l < final(ctx).executed@.len()
                ==> final(ctx).executed@[k].cell != final(ctx).executed@[l].cell,
        ({
            let ran = outcomes_of(final(ctx).executed@.skip(old(ctx).executed@.len() as int));
            match result {
                Ok(_) => first_failure_spec(ran) is None,
                Err(e) => first_failure_spec(ran) == Some(e.message@),
            }
        }),
        (result is Ok) <==> (forall|k: int|
            old(ctx).executed@.len() <= k < final(ctx).executed@.len() ==> error_of_outcome(
                (#[trigger] final(ctx).executed@[k]).outcome,
            ) is None),
{
    let ghost ctx0 = *ctx;
    let effects = ctx.take_collectibles(EFFECT_CAPABILITY_ID);
    let ghost base = ctx.executed@.len() as int;
    if effects.len() == 0 {
        proof {
            assert(ctx.executed@.take(base) =~= ctx.executed@);
            assert(outcomes_of(ctx.executed@.skip(base)) =~= Seq::<ExecOutcome>::empty());
        }
        return Ok(());
    }
    let n = effects.len() as u64;
    ctx.spans_opened.push(n);
    proof {
        assert forall|k: int| 0 <= k < effects@.len() implies ({
            let r = #[trigger] effects@[k];
            r.ty == EFFECT_TYPE_ID && r.cell < ctx.cells@.len() && ctx.cells@[
                r.cell as int
            ].is_effect_cell()
        }) by {
            assert(ctx0.collectibles@.contains((EFFECT_CAPABILITY_ID, effects@[k].cell)));
        }
    }
    let first = drain_all(ctx, reg, &effects);
    proof {
        assert(ctx.executed@.take(base) == ctx0.executed@);
        assert forall|p: (u64, u64)| #[trigger]
            ctx0.collectibles@.contains(p) && p.0 == EFFECT_CAPABILITY_ID implies {
            &&& ctx.cells@[p.1 as int].pending_of() is None
            &&& ctx.cells@[p.1 as int].is_effect_cell()
        } by {
            let k = choose|k: int| 0 <= k < effects@.len() && (#[trigger] effects@[k]).cell == p.1;
            assert(ctx.cells@[effects@[k].cell as int].pending_of() is None);
        }
        assert forall|c: int|
            0 <= c < ctx0.cells@.len() && !ctx0.collectibles@.contains(
                (EFFECT_CAPABILITY_ID, c as u64),
            ) implies ctx.cells@[c] == ctx0.cells@[c] by {
            if touches(effects@, c as u64) {
                let j = choose|j: int|
                    0 <= j < effects@.len() && (#[trigger] effects@[j]).cell == c as u64;
                assert(ctx0.collectibles@.contains((EFFECT_CAPABILITY_ID, effects@[j].cell)));
                assert(false);
            }
        }
        assert forall|k: int|
            base <= k < ctx.executed@.len() implies old(ctx).collectibles@.contains(
            (EFFECT_CAPABILITY_ID, (#[trigger] ctx.executed@[k]).cell),
        ) by {
            let j = choose|j: int|
                0 <= j < effects@.len() && (#[trigger] effects@[j]).cell == ctx.executed@[k].cell;
            assert(ctx0.collectibles@.contains((EFFECT_CAPABILITY_ID, effects@[j].cell)));
        }
        assert forall|p: (u64, u64)| #[trigger]
            ctx0.collectibles@.contains(p) && p.0 == EFFECT_CAPABILITY_ID && ctx0.cells@[
            p.1 as int].pending_of() is Some implies exists|k: int|
            base <= k < ctx.executed@.len() && (#[trigger] ctx.executed@[k]).cell == p.1 by {
            let j = choose|j: int| 0 <= j < effects@.len() && (#[trigger] effects@[j]).cell == p.1;
            assert(ctx0.cells@[effects@[j].cell as int].pending_of() is Some);
        }
        let ran = outcomes_of(ctx.executed@.skip(base));
        lemma_first_failure_none_iff(ran);
        assert forall|m: int| 0 <= m < ran.len() implies ran[m] == ctx.executed@[base
            + m].outcome by {}
        assert forall|k: int|
            base <= k < ctx.executed@.len() implies ran[k - base] == (
        #[trigger] ctx.executed@[k]).outcome by {}
    }
    match first {
        None => Ok(()),
        Some(e) => Err(e),
    }
}

} // verus!
