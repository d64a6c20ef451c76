//! Resolved references: a reference to a task-graph cell that is guaranteed
//! to be materialized already, compared and hashed by cell identity alone,
//! with infallible widening and registry-checked narrowing across the erased
//! capability hierarchy.
use vstd::prelude::*;

use crate::registry::ResolveTypeError;
use crate::registry::TypeRegistry;
use crate::task::CellContent;
use crate::task::TaskContext;

verus! {

/// A reference to an already-materialized cell. `cell` is the identity of
/// the underlying cell, `ty` the identifier of the concrete type stored
/// there, and `facet` the capability or concrete type identifier under
/// which the reference is currently viewed (the erased static type).
///
/// Two well-formed references under one facet are structurally equal exactly
/// when they denote the same cell, so derived equality and hashing coincide
/// with cell identity (see `lemma_equality_is_cell_identity`).
#[derive(Clone, Copy, Debug, PartialEq, Eq, Hash, Structural)]
pub struct ResolvedVc {
    pub cell: u64,
    pub ty: u64,
    pub facet: u64,
}

/// What widening does: the same cell and concrete type, viewed as `cap`.
pub open spec fn upcast_spec(this: ResolvedVc, cap: u64) -> ResolvedVc {
    ResolvedVc { cell: this.cell, ty: this.ty, facet: cap }
}

/// What a sidecast returns: an error when the registry cannot be consulted
/// about the concrete type; otherwise the reference under the new facet if
/// the concrete type implements the capability, and absence if not.
pub open spec fn sidecast_spec(this: ResolvedVc, cap: u64, reg: TypeRegistry) -> Result<
    Option<ResolvedVc>,
    ResolveTypeError,
> {
    if !reg.registered_spec(this.ty) {
        Err(ResolveTypeError { ty: this.ty })
    } else if reg.implements_spec(this.ty, cap) {
        Ok(Some(upcast_spec(this, cap)))
    } else {
        Ok(None)
    }
}

/// What a downcast to a concrete value type returns: an error when the
/// registry cannot be consulted, the concretely-viewed reference when the
/// underlying type is exactly the requested one, absence otherwise.
pub open spec fn downcast_type_spec(this: ResolvedVc, ty: u64, reg: TypeRegistry) -> Result<
    Option<ResolvedVc>,
    ResolveTypeError,
> {
    if !reg.registered_spec(this.ty) {
        Err(ResolveTypeError { ty: this.ty })
    } else if this.ty == ty {
        Ok(Some(ResolvedVc { cell: this.cell, ty: this.ty, facet: ty }))
    } else {
        Ok(None)
    }
}

impl ResolvedVc {
    /// Wraps a value already materialized into a fresh cell, producing a
    /// reference with no resolution step. Framework-internal constructor:
    /// the caller chooses the concrete type identifier and raw content.
    pub fn cell_private(ctx: &mut TaskContext, ty: u64, content: CellContent) -> (r: ResolvedVc)
        requires
            old(ctx).wf(),
        ensures
            final(ctx).wf(),
            r.cell == old(ctx).cells@.len(),
            r.ty == ty,
            r.facet == ty,
            final(ctx).valid_ref(r),
            final(ctx).cells@.len() == old(ctx).cells@.len() + 1,
            forall|i: int|
                0 <= i < old(ctx).cells@.len() ==> final(ctx).cells@[i] == old(ctx).cells@[i],
            final(ctx).cells@[r.cell as int].ty == ty,
            final(ctx).cells@[r.cell as int].content == content,
            final(ctx).collectibles@ == old(ctx).collectibles@,
            final(ctx).spans_opened@ == old(ctx).spans_opened@,
            final(ctx).executed@ == old(ctx).executed@,
            final(ctx).current_span == old(ctx).current_span,
    {
        let cell = ctx.cells.len() as u64;
        ctx.cells.push(crate::task::CellData { ty, content });
        ResolvedVc { cell, ty, facet: ty }
    }

    /// Constructs a reference directly from a plain value, for transparent
    /// wrapper types represented identically to their inner value.
    pub fn cell(ctx: &mut TaskContext, ty: u64, inner: u64) -> (r: ResolvedVc)
        requires
            old(ctx).wf(),
        ensures
            final(ctx).wf(),
            r.cell == old(ctx).cells@.len(),
            r.ty == ty,
            r.facet == ty,
            final(ctx).valid_ref(r),
            final(ctx).cells@.len() == old(ctx).cells@.len() + 1,
            forall|i: int|
                0 <= i < old(ctx).cells@.len() ==> final(ctx).cells@[i] == old(ctx).cells@[i],
            final(ctx).cells@[r.cell as int].ty == ty,
            final(ctx).cells@[r.cell as int].content == (CellContent::Value(inner)),
            final(ctx).collectibles@ == old(ctx).collectibles@,
            final(ctx).spans_opened@ == old(ctx).spans_opened@,
            final(ctx).executed@ == old(ctx).executed@,
            final(ctx).current_span == old(ctx).current_span,
    {
        ResolvedVc::cell_private(ctx, ty, CellContent::Value(inner))
    }

    /// Widens the reference to a broader capability that its concrete type
    /// is declared to implement. The declaration is demanded up front, so
    /// the operation is total, zero-cost and identity-preserving.
    pub fn upcast(this: ResolvedVc, cap: u64, reg: &TypeRegistry) -> (r: ResolvedVc)
        requires
            reg.implements_spec(this.ty, cap),
        ensures
            r == upcast_spec(this, cap),
            r.cell == this.cell,
    {
        ResolvedVc { cell: this.cell, ty: this.ty, facet: cap }
    }

    /// Attempts to view the reference under a structurally unrelated
    /// capability implemented by the same concrete type. Absence means the
    /// concrete type does not implement it; an error means only that the
    /// registry could not be consulted.
    pub fn try_sidecast(this: ResolvedVc, cap: u64, reg: &TypeRegistry) -> (r: Result<
        Option<ResolvedVc>,
        ResolveTypeError,
    >)
        requires
            reg.wf(),
        ensures
            r == sidecast_spec(this, cap, *reg),
    {
        if !reg.is_registered(this.ty) {
            Err(ResolveTypeError { ty: this.ty })
        } else if reg.implements(this.ty, cap) {
            Ok(Some(ResolvedVc { cell: this.cell, ty: this.ty, facet: cap }))
        } else {
            Ok(None)
        }
    }

    /// Narrows the reference to a capability statically known to widen back
    /// into the current facet. The runtime check is the same capability
    /// query as a sidecast; only the static relation differs.
    pub fn try_downcast(this: ResolvedVc, cap: u64, reg: &TypeRegistry) -> (r: Result<
        Option<ResolvedVc>,
        ResolveTypeError,
    >)
        requires
            reg.wf(),
        ensures
            r == sidecast_spec(this, cap, *reg),
    {
        ResolvedVc::try_sidecast(this, cap, reg)
    }

    /// Narrows the reference to a concrete value type: present exactly when
    /// the underlying concrete type is the requested one.
    pub fn try_downcast_type(this: ResolvedVc, ty: u64, reg: &TypeRegistry) -> (r: Result<
        Option<ResolvedVc>,
        ResolveTypeError,
    >)
        requires
            reg.wf(),
        ensures
            r == downcast_type_spec(this, ty, *reg),
    {
        if !reg.is_registered(this.ty) {
            Err(ResolveTypeError { ty: this.ty })
        } else if this.ty == ty {
            Ok(Some(ResolvedVc { cell: this.cell, ty: this.ty, facet: ty }))
        } else {
            Ok(None)
        }
    }
}

/// Round-trip law: upcasting a concretely-viewed reference to a broader
/// capability and then downcasting back to its concrete type yields the
/// identical reference.
pub proof fn lemma_upcast_downcast_roundtrip(this: ResolvedVc, cap: u64, reg: TypeRegistry)
    requires
        this.facet == this.ty,
        reg.registered_spec(this.ty),
        reg.implements_spec(this.ty, cap),
    ensures
        downcast_type_spec(upcast_spec(this, cap), this.ty, reg) == Ok::<
            Option<ResolvedVc>,
            ResolveTypeError,
        >(Some(this)),
{
}

/// Mismatch law: a sidecast to a capability the concrete type does not
/// implement reports absence, never an error, whenever the registry can be
/// consulted.
pub proof fn lemma_sidecast_mismatch_is_absent(this: ResolvedVc, cap: u64, reg: TypeRegistry)
    requires
        reg.registered_spec(this.ty),
        !reg.implements_spec(this.ty, cap),
    ensures
        sidecast_spec(this, cap, reg) == Ok::<Option<ResolvedVc>, ResolveTypeError>(None),
{
}

/// Identity law: references valid in one context and viewed under one facet
/// are equal exactly when they denote the same underlying cell — equality
/// never looks at value content.
pub proof fn lemma_equality_is_cell_identity(ctx: TaskContext, a: ResolvedVc, b: ResolvedVc)
    requires
        ctx.valid_ref(a),
        ctx.valid_ref(b),
        a.facet == b.facet,
    ensures
        (a == b) <==> (a.cell == b.cell),
{
}

/// Marker capability for values that are safe to retain across resolution
/// boundaries: composed only of immediate values and resolved references,
/// never of unresolved handles. Any aggregate built entirely from qualifying
/// parts qualifies itself.
pub trait ResolvedValue {

}

impl ResolvedValue for ResolvedVc {

}

impl ResolvedValue for bool {

}

impl ResolvedValue for u8 {

}

impl ResolvedValue for u32 {

}

impl ResolvedValue for u64 {

}

impl ResolvedValue for usize {

}

impl ResolvedValue for i64 {

}

impl ResolvedValue for String {

}

impl ResolvedValue for () {

}

impl<T: ResolvedValue> ResolvedValue for Option<T> {

}

impl<T: ResolvedValue> ResolvedValue for Vec<T> {

}

impl<A: ResolvedValue, B: ResolvedValue> ResolvedValue for (A, B) {

}

} // verus!
