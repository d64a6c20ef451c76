use turbo_tasks::effect::apply_effects;
use turbo_tasks::effect::effect;
use turbo_tasks::effect::first_failure;
use turbo_tasks::effect::outcome_to_error;
use turbo_tasks::effect::EffectError;
use turbo_tasks::effect::EffectInner;
use turbo_tasks::effect::EffectInstance;
use turbo_tasks::effect::ExecOutcome;
use turbo_tasks::registry::TypeRegistry;
use turbo_tasks::resolved::ResolvedVc;
use turbo_tasks::task::CellContent;
use turbo_tasks::task::TaskContext;
use turbo_tasks::EFFECT_CAPABILITY_ID;
use turbo_tasks::EFFECT_TYPE_ID;

fn assert_sync<T: Sync + Send>(_: T) {}

#[test]
fn apply_effects_is_sync_and_send() {
    let mut ctx = TaskContext::new();
    let reg = TypeRegistry::new();
    assert_sync(apply_effects(&mut ctx, &reg));
    assert_sync(ctx);
    assert_sync(reg);
    assert_sync(EffectInstance::new(EffectInner {
        tag: 0,
        outcome: ExecOutcome::Success,
        span: 0,
    }));
}

#[test]
fn effect_apply_runs_once() {
    let mut inst = EffectInstance::new(EffectInner {
        tag: 9,
        outcome: ExecOutcome::Success,
        span: 3,
    });
    let first = inst.apply();
    let second = inst.apply();
    assert!(first.is_some());
    let inner = first.unwrap();
    assert_eq!(inner.tag, 9);
    assert_eq!(inner.span, 3);
    assert!(second.is_none());
}

#[test]
fn apply_effects_empty_no_span() {
    let mut ctx = TaskContext::new();
    let reg = TypeRegistry::new();
    let result = apply_effects(&mut ctx, &reg);
    assert!(result.is_ok());
    assert_eq!(ctx.spans_opened.len(), 0);
    assert_eq!(ctx.executed.len(), 0);
}

#[test]
fn all_effects_run_single_failure() {
    let mut ctx = TaskContext::new();
    let reg = TypeRegistry::new();
    effect(&mut ctx, &reg, 1, ExecOutcome::Success);
    effect(&mut ctx, &reg, 2, ExecOutcome::Failure(String::from("second failed")));
    effect(&mut ctx, &reg, 3, ExecOutcome::Success);
    let result = apply_effects(&mut ctx, &reg);
    let err = result.unwrap_err();
    assert_eq!(err.message, "second failed");
    assert_eq!(ctx.executed.len(), 3);
    for tag in [1u64, 2, 3] {
        assert_eq!(ctx.executed.iter().filter(|r| r.tag == tag).count(), 1);
    }
    assert_eq!(ctx.spans_opened, vec![3]);
}

#[test]
fn panic_text_embeds_message() {
    let mut ctx = TaskContext::new();
    let reg = TypeRegistry::new();
    effect(&mut ctx, &reg, 1, ExecOutcome::PanicMessage(String::from("boom")));
    let err = apply_effects(&mut ctx, &reg).unwrap_err();
    assert_eq!(err.message, "Task effect panicked: boom");
    assert!(err.message.contains("boom"));
}

#[test]
fn panic_opaque_generic_message() {
    let mut ctx = TaskContext::new();
    let reg = TypeRegistry::new();
    effect(&mut ctx, &reg, 1, ExecOutcome::PanicOpaque);
    let err = apply_effects(&mut ctx, &reg).unwrap_err();
    assert_eq!(err.message, "Task effect panicked");
}

#[test]
fn effect_counter_scenario() {
    let mut ctx = TaskContext::new();
    let reg = TypeRegistry::new();
    effect(&mut ctx, &reg, 7, ExecOutcome::Success);
    effect(&mut ctx, &reg, 8, ExecOutcome::Failure(String::from("boom")));
    let err = apply_effects(&mut ctx, &reg).unwrap_err();
    assert!(err.message.contains("boom"));
    let counter = ctx.executed.iter().filter(|r| r.tag == 7).count();
    assert_eq!(counter, 1);
    assert_eq!(ctx.executed.len(), 2);
}

#[test]
fn first_failure_picks_first_in_order() {
    let outcomes = vec![
        ExecOutcome::Success,
        ExecOutcome::Failure(String::from("a")),
        ExecOutcome::Failure(String::from("b")),
    ];
    let e: Option<EffectError> = first_failure(&outcomes);
    assert_eq!(e.unwrap().message, "a");
    let empty: Vec<ExecOutcome> = Vec::new();
    assert!(first_failure(&empty).is_none());
}

#[test]
fn outcome_to_error_exact_values() {
    assert!(outcome_to_error(&ExecOutcome::Success).is_none());
    let e = outcome_to_error(&ExecOutcome::Failure(String::from("x"))).unwrap();
    assert_eq!(e.message, "x");
    let p = outcome_to_error(&ExecOutcome::PanicMessage(String::from("boom"))).unwrap();
    assert_eq!(p.message, "Task effect panicked: boom");
    let o = outcome_to_error(&ExecOutcome::PanicOpaque).unwrap();
    assert_eq!(o.message, "Task effect panicked");
}

#[test]
fn second_drain_sees_nothing() {
    let mut ctx = TaskContext::new();
    let reg = TypeRegistry::new();
    effect(&mut ctx, &reg, 1, ExecOutcome::Success);
    assert!(apply_effects(&mut ctx, &reg).is_ok());
    assert_eq!(ctx.spans_opened.len(), 1);
    assert_eq!(ctx.executed.len(), 1);
    assert!(apply_effects(&mut ctx, &reg).is_ok());
    assert_eq!(ctx.spans_opened.len(), 1);
    assert_eq!(ctx.executed.len(), 1);
}

#[test]
fn emit_deduplicates_same_reference() {
    let mut ctx = TaskContext::new();
    let reg = TypeRegistry::new();
    let inst = EffectInstance::new(EffectInner {
        tag: 1,
        outcome: ExecOutcome::Success,
        span: 0,
    });
    let r = ResolvedVc::cell_private(&mut ctx, EFFECT_TYPE_ID, CellContent::Effect(inst));
    let up = ResolvedVc::upcast(r, EFFECT_CAPABILITY_ID, &reg);
    ctx.emit(EFFECT_CAPABILITY_ID, up);
    ctx.emit(EFFECT_CAPABILITY_ID, up);
    assert_eq!(ctx.collectibles.len(), 1);
    let taken = ctx.take_collectibles(EFFECT_CAPABILITY_ID);
    assert_eq!(taken.len(), 1);
    assert_eq!(taken[0].cell, r.cell);
    assert_eq!(ctx.collectibles.len(), 0);
}

#[test]
fn captured_span_reattached_at_execution() {
    let mut ctx = TaskContext::new();
    let reg = TypeRegistry::new();
    ctx.set_current_span(42);
    effect(&mut ctx, &reg, 1, ExecOutcome::Success);
    ctx.set_current_span(0);
    assert!(apply_effects(&mut ctx, &reg).is_ok());
    assert_eq!(ctx.executed.len(), 1);
    assert_eq!(ctx.executed[0].span, 42);
    assert_eq!(ctx.executed[0].tag, 1);
}

#[test]
fn drained_effect_cell_is_consumed_in_place() {
    let mut ctx = TaskContext::new();
    let reg = TypeRegistry::new();
    effect(&mut ctx, &reg, 5, ExecOutcome::Success);
    assert_eq!(ctx.cells.len(), 1);
    assert!(apply_effects(&mut ctx, &reg).is_ok());
    assert_eq!(ctx.cells.len(), 1);
    let taken_again = ctx.take_effect(0);
    assert!(taken_again.is_none());
}
