//! Runtime type-identifier registry: maps each concrete value type to the set
//! of erased capabilities it implements. Narrowing a resolved reference
//! consults this registry; a type the registry does not know cannot be
//! queried at all, which is the registry-unavailable failure mode, distinct
//! from an ordinary mismatch.
use vstd::prelude::*;

use crate::EFFECT_CAPABILITY_ID;
use crate::EFFECT_TYPE_ID;

verus! {

/// Error for a narrowing query whose type metadata could not be consulted:
/// the concrete type identifier is not known to the registry.
#[derive(Clone, Copy, Debug, PartialEq, Eq, Structural)]
pub struct ResolveTypeError {
    pub ty: u64,
}

/// One registered concrete type with the capabilities it implements.
#[derive(Debug)]
pub struct TypeEntry {
    pub ty: u64,
    pub caps: Vec<u64>,
}

/// The capability registry itself: at most one entry per concrete type.
#[derive(Debug)]
pub struct TypeRegistry {
    pub entries: Vec<TypeEntry>,
}

impl TypeRegistry {
    /// Well-formed: concrete type identifiers are unique.
    pub open spec fn wf(self) -> bool {
        forall|i: int, j: int|
            0 <= i < j < self.entries@.len() ==> (#[trigger] self.entries@[i]).ty != (
            #[trigger] self.entries@[j]).ty
    }

    /// The registry can be consulted about this concrete type.
    pub open spec fn registered_spec(self, ty: u64) -> bool {
        exists|i: int| 0 <= i < self.entries@.len() && (#[trigger] self.entries@[i]).ty == ty
    }

    /// The concrete type is registered as implementing this capability.
    pub open spec fn implements_spec(self, ty: u64, cap: u64) -> bool {
        exists|i: int|
            0 <= i < self.entries@.len() && (#[trigger] self.entries@[i]).ty == ty
                && self.entries@[i].caps@.contains(cap)
    }

    /// A fresh registry knows exactly the framework's own effect-instance
    /// type, which implements exactly the effect capability.
    pub fn new() -> (r: TypeRegistry)
        ensures
            r.wf(),
            forall|t: u64| r.registered_spec(t) <==> t == EFFECT_TYPE_ID,
            forall|t: u64, c: u64|
                r.implements_spec(t, c) <==> (t == EFFECT_TYPE_ID && c == EFFECT_CAPABILITY_ID),
    {
        let mut caps: Vec<u64> = Vec::new();
        caps.push(EFFECT_CAPABILITY_ID);
        let mut entries: Vec<TypeEntry> = Vec::new();
        entries.push(TypeEntry { ty: EFFECT_TYPE_ID, caps });
        let r = TypeRegistry { entries };
        proof {
            assert(r.entries@[0].ty == EFFECT_TYPE_ID);
            assert(r.entries@[0].caps@ =~= seq![EFFECT_CAPABILITY_ID]);
            assert forall|t: u64, c: u64| r.implements_spec(t, c) implies (t == EFFECT_TYPE_ID
                && c == EFFECT_CAPABILITY_ID) by {
                if r.implements_spec(t, c) {
                    let i = choose|i: int|
                        0 <= i < r.entries@.len() && (#[trigger] r.entries@[i]).ty == t
                            && r.entries@[i].caps@.contains(c);
                    assert(i == 0);
                }
            }
            assert(r.implements_spec(EFFECT_TYPE_ID, EFFECT_CAPABILITY_ID)) by {
                assert(r.entries@[0].caps@[0] == EFFECT_CAPABILITY_ID);
            }
        }
        r
    }

    /// Registers a concrete type with its capability set; a type already
    /// known is left exactly as it was.
    pub fn register(&mut self, ty: u64, caps: Vec<u64>)
        requires
            old(self).wf(),
        ensures
            final(self).wf(),
            old(self).registered_spec(ty) ==> final(self).entries@ == old(self).entries@,
            !old(self).registered_spec(ty) ==> final(self).entries@ == old(self).entries@.push(
                (TypeEntry { ty, caps }),
            ),
            forall|t: u64|
                final(self).registered_spec(t) <==> (old(self).registered_spec(t) || t == ty),
            forall|t: u64, c: u64|
                final(self).implements_spec(t, c) <==> (old(self).implements_spec(t, c) || (!old(
                    self,
                ).registered_spec(ty) && t == ty && caps@.contains(c))),
    {
        if !self.is_registered(ty) {
            let ghost pre = *self;
            self.entries.push(TypeEntry { ty, caps });
            proof {
                let n = pre.entries@.len() as int;
                assert(self.entries@[n].ty == ty);
                assert forall|t: u64|
                    self.registered_spec(t) <==> (pre.registered_spec(t) || t == ty) by {
                    if self.registered_spec(t) {
                        let i = choose|i: int|
                            0 <= i < self.entries@.len() && (#[trigger] self.entries@[i]).ty == t;
                        if i < n {
                            assert(pre.entries@[i].ty == t);
                        }
                    }
                    if pre.registered_spec(t) {
                        let i = choose|i: int|
                            0 <= i < pre.entries@.len() && (#[trigger] pre.entries@[i]).ty == t;
                        assert(self.entries@[i].ty == t);
                    }
                }
                assert forall|t: u64, c: u64|
                    self.implements_spec(t, c) <==> (pre.implements_spec(t, c) || (
                    !pre.registered_spec(ty) && t == ty && caps@.contains(c))) by {
                    if self.implements_spec(t, c) {
                        let i = choose|i: int|
                            0 <= i < self.entries@.len() && (#[trigger] self.entries@[i]).ty == t
                                && self.entries@[i].caps@.contains(c);
                        if i < n {
                            assert(pre.entries@[i].ty == t && pre.entries@[i].caps@.contains(c));
                        }
                    }
                    if pre.implements_spec(t, c) {
                        let i = choose|i: int|
                            0 <= i < pre.entries@.len() && (#[trigger] pre.entries@[i]).ty == t
                                && pre.entries@[i].caps@.contains(c);
                        assert(self.entries@[i].ty == t && self.entries@[i].caps@.contains(c));
                    }
                }
            }
        }
    }

    /// Whether the registry can be consulted about this type at all.
    pub fn is_registered(&self, ty: u64) -> (r: bool)
        ensures
            r == self.registered_spec(ty),
    {
        let mut i: usize = 0;
        while i < self.entries.len()
            invariant
                i <= self.entries@.len(),
                forall|j: int| 0 <= j < i ==> (#[trigger] self.entries@[j]).ty != ty,
            decreases self.entries@.len() - i,
        {
            if self.entries[i].ty == ty {
                return true;
            }
            i += 1;
        }
        false
    }

    /// The runtime capability check behind every narrowing operation.
    pub fn implements(&self, ty: u64, cap: u64) -> (r: bool)
        requires
            self.wf(),
        ensures
            r == self.implements_spec(ty, cap),
    {
        let mut i: usize = 0;
        while i < self.entries.len()
            invariant
                self.wf(),
                i <= self.entries@.len(),
                forall|j: int| 0 <= j < i ==> (#[trigger] self.entries@[j]).ty != ty,
            decreases self.entries@.len() - i,
        {
            if self.entries[i].ty == ty {
                let r = contains_u64(&self.entries[i].caps, cap);
                proof {
                    if self.implements_spec(ty, cap) {
                        let k = choose|k: int|
                            0 <= k < self.entries@.len() && (#[trigger] self.entries@[k]).ty == ty
                                && self.entries@[k].caps@.contains(cap);
                        assert(k == i);
                    }
                }
                return r;
            }
            i += 1;
        }
        false
    }
}

/// Linear membership test on a capability list.
pub fn contains_u64(v: &Vec<u64>, x: u64) -> (r: bool)
    ensures
        r == v@.contains(x),
{
    let mut i: usize = 0;
    while i < v.len()
        invariant
            i <= v@.len(),
            forall|j: int| 0 <= j < i ==> v@[j] != x,
        decreases v@.len() - i,
    {
        if v[i] == x {
            return true;
        }
        i += 1;
    }
    false
}

} // verus!
