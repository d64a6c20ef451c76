use std::collections::hash_map::DefaultHasher;
use std::hash::Hash;
use std::hash::Hasher;

use turbo_tasks::registry::ResolveTypeError;
use turbo_tasks::registry::TypeRegistry;
use turbo_tasks::resolved::ResolvedValue;
use turbo_tasks::resolved::ResolvedVc;
use turbo_tasks::task::TaskContext;

fn hash_of(r: &ResolvedVc) -> u64 {
    let mut h = DefaultHasher::new();
    r.hash(&mut h);
    h.finish()
}

fn requires_resolved<T: ResolvedValue>(_: &T) {}

#[test]
fn upcast_downcast_roundtrip() {
    let mut reg = TypeRegistry::new();
    reg.register(10, vec![20]);
    let mut ctx = TaskContext::new();
    let r = ResolvedVc::cell(&mut ctx, 10, 5);
    let up = ResolvedVc::upcast(r, 20, &reg);
    assert_eq!(up.cell, r.cell);
    assert_eq!(up.facet, 20);
    let down = ResolvedVc::try_downcast_type(up, 10, &reg).unwrap().unwrap();
    assert_eq!(down, r);
}

#[test]
fn sidecast_unrelated_is_absent_not_error() {
    let mut reg = TypeRegistry::new();
    reg.register(10, vec![20]);
    let mut ctx = TaskContext::new();
    let r = ResolvedVc::cell(&mut ctx, 10, 5);
    let res = ResolvedVc::try_sidecast(r, 99, &reg);
    assert_eq!(res, Ok(None));
}

#[test]
fn sidecast_unregistered_type_errors() {
    let reg = TypeRegistry::new();
    let mut ctx = TaskContext::new();
    let r = ResolvedVc::cell(&mut ctx, 33, 5);
    let res = ResolvedVc::try_sidecast(r, 20, &reg);
    assert_eq!(res, Err(ResolveTypeError { ty: 33 }));
}

#[test]
fn identity_equality_and_hash() {
    let mut ctx = TaskContext::new();
    let r1 = ResolvedVc::cell(&mut ctx, 10, 5);
    let r1b = r1;
    assert_eq!(r1, r1b);
    assert_eq!(hash_of(&r1), hash_of(&r1b));
    // a distinct cell holding a value-equal payload is a different identity
    let r2 = ResolvedVc::cell(&mut ctx, 10, 5);
    assert_ne!(r1, r2);
    assert_ne!(r1.cell, r2.cell);
}

#[test]
fn downcast_to_wrong_concrete_type_is_absent() {
    let mut reg = TypeRegistry::new();
    reg.register(10, vec![20]);
    let mut ctx = TaskContext::new();
    let r = ResolvedVc::cell(&mut ctx, 10, 5);
    let res = ResolvedVc::try_downcast_type(r, 11, &reg);
    assert_eq!(res, Ok(None));
}

#[test]
fn downcast_between_capabilities() {
    let mut reg = TypeRegistry::new();
    reg.register(10, vec![20, 21]);
    let mut ctx = TaskContext::new();
    let r = ResolvedVc::cell(&mut ctx, 10, 5);
    let up = ResolvedVc::upcast(r, 20, &reg);
    let down = ResolvedVc::try_downcast(up, 21, &reg).unwrap().unwrap();
    assert_eq!(down.facet, 21);
    assert_eq!(down.cell, r.cell);
    assert_eq!(ResolvedVc::try_downcast(up, 99, &reg), Ok(None));
}

#[test]
fn registry_register_and_query() {
    let mut reg = TypeRegistry::new();
    assert!(reg.is_registered(turbo_tasks::EFFECT_TYPE_ID));
    assert!(!reg.is_registered(10));
    reg.register(10, vec![20]);
    assert!(reg.is_registered(10));
    assert!(reg.implements(10, 20));
    assert!(!reg.implements(10, 21));
    // re-registering an already-known type changes nothing
    reg.register(10, vec![77]);
    assert!(reg.implements(10, 20));
    assert!(!reg.implements(10, 77));
}

#[test]
fn resolved_value_marker_composes() {
    let mut ctx = TaskContext::new();
    let r = ResolvedVc::cell(&mut ctx, 10, 5);
    requires_resolved(&r);
    requires_resolved(&5u64);
    requires_resolved(&Some(vec![1u64, 2]));
    requires_resolved(&(r, String::from("label")));
}
