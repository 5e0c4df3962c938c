//! The function bodies the `Result` flow analysis reads, as plain values,
//! and the effect of their statements on the flow state.
//!
//! A body is given by its locals' type facts and its places, operands and
//! right-hand sides; each place carries the facts of its own type and the
//! keys of its projection steps.  The facts are those the analysis asks
//! the compiler about: whether a type is a `Result` (or a `Poll` of one),
//! whether it is a `Poll`, whether its error type is uninhabited, and
//! whether it holds a coroutine.
use vstd::prelude::*;

use crate::flow_map::{FlowKey, FlowMap, PlaceView};
use crate::result_flow::{
    rvs_merge_reference_maps, rvs_nest_reference_map, spec_discriminant_view, spec_predicate_view, rvs_preserve_direct_variants, spec_merged_reference,
    rvs_invalidate_relations_for_source_M, rvs_set_result_target_unknown_M, rvs_set_result_target_value_M, spec_overlapped, spec_tests_source, ResultDiscriminant,
    rvs_projection_paths_overlap, spec_inner_get, spec_path_view, spec_projection_view, spec_paths_overlap, ResultFlowState, ResultPlaceKey,
    ResultProjectionKey, ResultReference, ResultReferenceMap, RVS_RESULT_ERR, RVS_RESULT_OK, RVS_RESULT_PENDING,
    RVS_RESULT_UNINITIALIZED, RVS_RESULT_UNKNOWN,
};

verus! {

/// The type facts the analysis asks about.
#[derive(Debug, Clone, Copy, PartialEq, Eq, Structural)]
pub struct TypeFacts {
    /// A `Result`, or a `Poll` of a `Result`.
    pub is_result: bool,
    /// A `Poll` of anything.
    pub is_poll: bool,
    /// The `Result`'s error type has no values.
    pub error_uninhabited: bool,
    /// The type holds a coroutine of this crate.
    pub holds_coroutine: bool,
}

/// The kind of a projection step.
#[derive(Debug, Clone, Copy, PartialEq, Eq, Structural)]
pub enum ProjectionKind {
    Deref,
    Field,
    Downcast,
    Index,
    ConstantIndex,
    Other,
}

/// A projection step: its kind and its key.
#[derive(Debug, Clone)]
pub struct MirProjection {
    pub kind: ProjectionKind,
    pub key: ResultProjectionKey,
}

/// A place: a local, the projection steps into it, and the facts of the
/// place's type.
#[derive(Debug, Clone)]
pub struct MirPlace {
    pub local: u32,
    pub projection: Vec<MirProjection>,
    pub ty: TypeFacts,
}

/// An operand.
#[derive(Debug, Clone)]
pub enum MirOperand {
    Copy(MirPlace),
    Move(MirPlace),
    Constant,
}

/// The variant an aggregate builds, for `Result` and for `Poll` of a
/// `Result`; any other enum's variant is `Other`.
#[derive(Debug, Clone, Copy, PartialEq, Eq, Structural)]
pub enum AdtVariant {
    ResultOk,
    ResultErr,
    PollReady,
    PollPending,
    Other,
}

/// A right-hand side.
#[derive(Debug, Clone)]
pub enum MirRvalue {
    Use(MirOperand),
    /// A borrow: whether it is mutable, and the borrowed place.
    Ref(bool, MirPlace),
    RawPtr(MirPlace),
    Cast(MirOperand),
    Repeat(MirOperand),
    UnaryOp(MirOperand),
    BinaryOp(MirOperand, MirOperand),
    /// An aggregate: the enum variant it builds when it is an ADT, and its
    /// operands.
    Aggregate(Option<AdtVariant>, Vec<MirOperand>),
    Discriminant(MirPlace),
    Other,
}

/// A statement.
#[derive(Debug, Clone)]
pub enum MirStatement {
    Assign(MirPlace, MirRvalue),
    SetDiscriminant(MirPlace, AdtVariant),
    /// A `copy_nonoverlapping` intrinsic: its destination operand.
    CopyNonOverlapping(MirOperand),
    StorageDead(u32),
    Other,
}

// ---------------------------------------------------------------- places

/// A place's key as a plain value.
pub open spec fn spec_mir_key(p: MirPlace) -> PlaceView {
    (p.local, spec_path_view(p.projection@.map_values(|s: MirProjection| s.key)))
}

/// The key of a place: its local and the keys of its projection steps.
pub fn rvs_projected_place_key(p: &MirPlace) -> (r: ResultPlaceKey)
    ensures
        r.spec_key() == spec_mir_key(*p),
{
    let mut projections: Vec<ResultProjectionKey> = Vec::new();
    let mut i: usize = 0;
    while i < p.projection.len()
        invariant
            i <= p.projection@.len(),
            projections@.len() == i,
            forall|j: int| 0 <= j < i ==> spec_projection_view(#[trigger] projections@[j]) == spec_projection_view(p.projection@[j].key),
        decreases p.projection@.len() - i,
    {
        let k = &p.projection[i].key;
        projections.push(ResultProjectionKey {
            display: k.display.clone(),
            sibling_fields_overlap: k.sibling_fields_overlap,
            imprecise_index: k.imprecise_index,
        });
        i = i + 1;
    }
    let r = ResultPlaceKey { local: p.local, projections };
    assert(spec_path_view(r.projections@) =~= spec_path_view(p.projection@.map_values(|s: MirProjection| s.key)));
    r
}

/// The variants a value of a type may hold when nothing is known of it:
/// any `Result` variant, or only `Ok` when the error type has no values,
/// and pending too for a `Poll`.
pub open spec fn spec_unknown_value(t: TypeFacts) -> u8 {
    if !t.is_result {
        RVS_RESULT_UNKNOWN
    } else if t.error_uninhabited {
        if t.is_poll {
            10u8
        } else {
            RVS_RESULT_OK
        }
    } else if t.is_poll {
        14u8
    } else {
        RVS_RESULT_UNKNOWN
    }
}

/// The variants a value of a type may hold when nothing is known of it.
pub fn rvs_unknown_result_value(t: TypeFacts) -> (r: u8)
    ensures
        r == spec_unknown_value(t),
        r != 0,
{
    if !t.is_result {
        return RVS_RESULT_UNKNOWN;
    }
    let pending = if t.is_poll {
        RVS_RESULT_PENDING
    } else {
        0
    };
    let r = if t.error_uninhabited {
        RVS_RESULT_OK | pending
    } else {
        RVS_RESULT_UNKNOWN | pending
    };
    assert(RVS_RESULT_OK | RVS_RESULT_PENDING == 10u8) by (bit_vector);
    assert(RVS_RESULT_OK | 0u8 == RVS_RESULT_OK) by (bit_vector);
    assert(RVS_RESULT_UNKNOWN | RVS_RESULT_PENDING == 14u8) by (bit_vector);
    assert(RVS_RESULT_UNKNOWN | 0u8 == RVS_RESULT_UNKNOWN) by (bit_vector);
    r
}

/// The place an operand reads, if it reads one.
pub open spec fn spec_operand_place(o: MirOperand) -> Option<MirPlace> {
    match o {
        MirOperand::Copy(p) => Some(p),
        MirOperand::Move(p) => Some(p),
        MirOperand::Constant => None,
    }
}

/// The place an operand reads, if it reads one.
pub fn rvs_operand_place(o: &MirOperand) -> (r: Option<&MirPlace>)
    ensures
        match r {
            Some(p) => spec_operand_place(*o) == Some(*p),
            None => spec_operand_place(*o) is None,
        },
{
    match o {
        MirOperand::Copy(p) => Some(p),
        MirOperand::Move(p) => Some(p),
        MirOperand::Constant => None,
    }
}

/// The local an operand reads as a whole, if it reads one.
pub open spec fn spec_operand_local(o: MirOperand) -> Option<u32> {
    match spec_operand_place(o) {
        Some(p) => if p.projection@.len() == 0 {
            Some(p.local)
        } else {
            None
        },
        None => None,
    }
}

/// The local an operand reads as a whole, if it reads one.
pub fn rvs_operand_local(o: &MirOperand) -> (r: Option<u32>)
    ensures
        r == spec_operand_local(*o),
{
    match rvs_operand_place(o) {
        Some(p) => if p.projection.len() == 0 {
            Some(p.local)
        } else {
            None
        },
        None => None,
    }
}

/// A place reads the payload of a `Poll::Ready` directly: a downcast
/// followed by a field.
pub open spec fn spec_is_exact_poll_ready_payload(p: MirPlace) -> bool {
    p.projection@.len() == 2 && p.projection@[0].kind == ProjectionKind::Downcast
        && p.projection@[1].kind == ProjectionKind::Field
}

/// A place reads the payload of a `Poll::Ready` directly.
pub fn rvs_is_exact_poll_ready_payload(p: &MirPlace) -> (r: bool)
    ensures
        r == spec_is_exact_poll_ready_payload(*p),
{
    p.projection.len() == 2 && p.projection[0].kind == ProjectionKind::Downcast
        && p.projection[1].kind == ProjectionKind::Field
}

// ---------------------------------------------------------------- values

/// The variants an operand may hold: a tracked local's value, a tracked
/// projected place's value, the completed variants of a `Poll` read through
/// its `Ready` payload, or what the type allows.
pub open spec fn spec_operand_value(s: ResultFlowState, o: MirOperand, locals: Seq<TypeFacts>) -> u8 {
    match spec_operand_place(o) {
        None => RVS_RESULT_UNKNOWN,
        Some(p) => if p.projection@.len() == 0 {
            match s.values.get((p.local, Seq::empty())) {
                Some(v) => v,
                None => spec_unknown_value(locals[p.local as int]),
            }
        } else {
            match s.projected_values.get(spec_mir_key(p)) {
                Some(v) => v,
                None => if locals[p.local as int].is_poll && spec_is_exact_poll_ready_payload(p)
                    && s.values.get((p.local, Seq::empty())) is Some
                    && s.values.get((p.local, Seq::empty()))->0 & 6u8 != 0 {
                    s.values.get((p.local, Seq::empty()))->0 & 6u8
                } else {
                    spec_unknown_value(p.ty)
                },
            }
        },
    }
}

/// Every local an operand can name has type facts.
pub open spec fn spec_operand_in(o: MirOperand, locals: Seq<TypeFacts>) -> bool {
    match spec_operand_place(o) {
        Some(p) => p.local < locals.len(),
        None => true,
    }
}

/// The variants an operand may hold.
pub fn rvs_operand_result_value(state: &ResultFlowState, o: &MirOperand, locals: &Vec<TypeFacts>) -> (r: u8)
    requires
        state.wf(),
        spec_operand_in(*o, locals@),
    ensures
        r == spec_operand_value(*state, *o, locals@),
{
    let p = match rvs_operand_place(o) {
        Some(p) => p,
        None => {
            return RVS_RESULT_UNKNOWN;
        },
    };
    if p.projection.len() == 0 {
        match state.values.rvs_get(&p.local) {
            Some(v) => *v,
            None => rvs_unknown_result_value(locals[p.local as usize]),
        }
    } else {
        let key = rvs_projected_place_key(p);
        match state.projected_values.rvs_get(&key) {
            Some(v) => *v,
            None => {
                if locals[p.local as usize].is_poll && rvs_is_exact_poll_ready_payload(p) {
                    match state.values.rvs_get(&p.local) {
                        Some(v) => {
                            let completed = *v & (RVS_RESULT_OK | RVS_RESULT_ERR);
                            assert(RVS_RESULT_OK | RVS_RESULT_ERR == 6u8) by (bit_vector);
                            if completed != 0 {
                                return completed;
                            }
                        },
                        None => {},
                    }
                }
                rvs_unknown_result_value(p.ty)
            },
        }
    }
}

/// The variants an aggregate of a `Result` or `Poll` variant holds: `Ok`,
/// `Err`, pending, or what its `Ready` payload holds; other variants give
/// nothing.
pub open spec fn spec_variant_value(s: ResultFlowState, v: AdtVariant, first: Option<MirOperand>, locals: Seq<TypeFacts>) -> Option<u8> {
    match v {
        AdtVariant::ResultOk => Some(RVS_RESULT_OK),
        AdtVariant::ResultErr => Some(RVS_RESULT_ERR),
        AdtVariant::PollReady => match first {
            Some(o) => Some(spec_operand_value(s, o, locals)),
            None => None,
        },
        AdtVariant::PollPending => Some(RVS_RESULT_PENDING),
        AdtVariant::Other => None,
    }
}

/// The variants an aggregate of a `Result` or `Poll` variant holds.
pub fn rvs_result_variant_value(state: &ResultFlowState, v: AdtVariant, first: Option<&MirOperand>, locals: &Vec<TypeFacts>) -> (r: Option<u8>)
    requires
        state.wf(),
        first matches Some(o) ==> spec_operand_in(*o, locals@),
    ensures
        r == spec_variant_value(*state, v, match first {
            Some(o) => Some(*o),
            None => None,
        }, locals@),
{
    match v {
        AdtVariant::ResultOk => Some(RVS_RESULT_OK),
        AdtVariant::ResultErr => Some(RVS_RESULT_ERR),
        AdtVariant::PollReady => match first {
            Some(o) => Some(rvs_operand_result_value(state, o, locals)),
            None => None,
        },
        AdtVariant::PollPending => Some(RVS_RESULT_PENDING),
        AdtVariant::Other => None,
    }
}

/// Every local a right-hand side can name has type facts.
pub open spec fn spec_rvalue_in(v: MirRvalue, locals: Seq<TypeFacts>) -> bool {
    match v {
        MirRvalue::Use(o) => spec_operand_in(o, locals),
        MirRvalue::Ref(_, p) => p.local < locals.len(),
        MirRvalue::RawPtr(p) => p.local < locals.len(),
        MirRvalue::Cast(o) => spec_operand_in(o, locals),
        MirRvalue::Repeat(o) => spec_operand_in(o, locals),
        MirRvalue::UnaryOp(o) => spec_operand_in(o, locals),
        MirRvalue::BinaryOp(a, b) => spec_operand_in(a, locals) && spec_operand_in(b, locals),
        MirRvalue::Aggregate(_, ops) => forall|i: int| 0 <= i < ops@.len() ==> spec_operand_in(#[trigger] ops@[i], locals),
        MirRvalue::Discriminant(p) => p.local < locals.len(),
        MirRvalue::Other => true,
    }
}

/// The variants an assignment gives its destination: nothing is tracked
/// for a destination that is no `Result`; a use passes the operand's
/// variants on, a `Result` or `Poll` variant built in place gives its own,
/// and anything else what the type allows.
pub open spec fn spec_rvalue_value(s: ResultFlowState, dest: MirPlace, v: MirRvalue, locals: Seq<TypeFacts>) -> u8 {
    if !dest.ty.is_result {
        RVS_RESULT_UNKNOWN
    } else {
        match v {
            MirRvalue::Use(o) => spec_operand_value(s, o, locals),
            MirRvalue::Aggregate(Some(variant), ops) => match spec_variant_value(s, variant,
                if ops@.len() > 0 { Some(ops@[0]) } else { None }, locals) {
                Some(x) => x,
                None => spec_unknown_value(dest.ty),
            },
            _ => spec_unknown_value(dest.ty),
        }
    }
}

/// The variants an assignment gives its destination.
pub fn rvs_rvalue_result_value(state: &ResultFlowState, dest: &MirPlace, v: &MirRvalue, locals: &Vec<TypeFacts>) -> (r: u8)
    requires
        state.wf(),
        spec_rvalue_in(*v, locals@),
    ensures
        r == spec_rvalue_value(*state, *dest, *v, locals@),
{
    if !dest.ty.is_result {
        return RVS_RESULT_UNKNOWN;
    }
    match v {
        MirRvalue::Use(o) => rvs_operand_result_value(state, o, locals),
        MirRvalue::Aggregate(Some(variant), ops) => {
            let first = if ops.len() > 0 {
                Some(&ops[0])
            } else {
                None
            };
            match rvs_result_variant_value(state, *variant, first, locals) {
                Some(x) => x,
                None => rvs_unknown_result_value(dest.ty),
            }
        },
        _ => rvs_unknown_result_value(dest.ty),
    }
}

// ------------------------------------------------------------ references

/// A reference joined into what a map holds for a place (or stored there).
pub open spec fn spec_joined_into(existing: Option<ResultReference>, x: ResultReference) -> ResultReference {
    match existing {
        Some(e) => e.spec_join(x),
        None => x,
    }
}

/// Joins a reference into a map under `key`.
#[allow(non_snake_case)]
pub fn rvs_join_into_M(m: &mut ResultReferenceMap, key: ResultPlaceKey, x: ResultReference)
    requires
        old(m).wf(),
    ensures
        final(m).wf(),
        final(m).get(key.spec_key()) == Some(spec_joined_into(old(m).get(key.spec_key()), x)),
        forall|t: PlaceView| t != key.spec_key() ==> #[trigger] final(m).get(t) == old(m).get(t),
{
    match m.rvs_find(&key) {
        Some(i) => {
            let mut joined = *m.rvs_value_at(i);
            joined.rvs_join_M(x);
            proof {
                m.lemma_index_unique(i as int);
            }
            m.rvs_set_value_at_M(i, joined);
        },
        None => {
            m.rvs_insert_M(key, x);
        },
    }
}

/// A copy of a reference map.
pub fn rvs_copy_reference_map(m: &ResultReferenceMap) -> (r: ResultReferenceMap)
    requires
        m.wf(),
    ensures
        r.wf(),
        forall|t: PlaceView| #[trigger] r.get(t) == m.get(t),
{
    let mut r: ResultReferenceMap = FlowMap::rvs_new();
    let mut i: usize = 0;
    while i < m.rvs_len()
        invariant
            m.wf(),
            r.wf(),
            i <= m.len_spec(),
            forall|t: PlaceView| #[trigger] r.get(t) == if exists|j: int| 0 <= j < i && #[trigger] m.key(j) == t {
                m.get(t)
            } else {
                None
            },
        decreases m.len_spec() - i,
    {
        let k = m.rvs_key_at(i).rvs_dup();
        let v = *m.rvs_value_at(i);
        proof {
            m.lemma_index_unique(i as int);
        }
        r.rvs_insert_M(k, v);
        proof {
            assert forall|t: PlaceView| #[trigger] r.get(t) == if exists|j: int| 0 <= j < i + 1 && #[trigger] m.key(j) == t {
                m.get(t)
            } else {
                None
            } by {
                if exists|j: int| 0 <= j < i + 1 && #[trigger] m.key(j) == t {
                    let j = choose|j: int| 0 <= j < i + 1 && #[trigger] m.key(j) == t;
                    if j < i {
                        assert(exists|j: int| 0 <= j < i && #[trigger] m.key(j) == t);
                    }
                } else {
                    assert(m.key(i as int) != t);
                }
            }
        }
        i = i + 1;
    }
    proof {
        assert forall|t: PlaceView| #[trigger] r.get(t) == m.get(t) by {
            if m.has(t) {
                let j = choose|j: int| 0 <= j < m.len_spec() && #[trigger] m.key(j) == t;
                assert(m.key(j) == t);
            }
        }
    }
    r
}

/// The direct, mutable reference.
pub open spec fn spec_direct_mutable() -> ResultReference {
    ResultReference { direct: true, direct_mutable: true, nested: false, nested_mutable: false }
}

/// The nested, mutable reference.
pub open spec fn spec_nested_mutable() -> ResultReference {
    ResultReference { direct: false, direct_mutable: false, nested: true, nested_mutable: true }
}

/// The reference a place gives to `t`: what the place's local holds for
/// it; a `Result` place reaches itself directly and mutably; every other
/// tracked projection of the same local that may overlap it is reached as
/// a nested, mutable reference.
pub open spec fn spec_place_reference(s: ResultFlowState, p: MirPlace, t: PlaceView) -> Option<ResultReference> {
    let base = spec_inner_get(s.references, (p.local, Seq::empty()), t);
    let key = spec_mir_key(p);
    let with_direct = if p.ty.is_result && t == key {
        Some(spec_joined_into(base, spec_direct_mutable()))
    } else {
        base
    };
    if s.projected_values.has(t) && t.0 == p.local && spec_paths_overlap(t.1, key.1) && t != key {
        Some(spec_joined_into(with_direct, spec_nested_mutable()))
    } else {
        with_direct
    }
}

/// The references a place gives.
pub fn rvs_place_references(state: &ResultFlowState, p: &MirPlace) -> (r: ResultReferenceMap)
    requires
        state.wf(),
    ensures
        r.wf(),
        forall|t: PlaceView| #[trigger] r.get(t) == spec_place_reference(*state, *p, t),
{
    let mut r = match state.references.rvs_get(&p.local) {
        Some(m) => {
            proof {
                let j = state.references.index_of((p.local, Seq::empty()));
                state.references.lemma_index_unique(j);
            }
            rvs_copy_reference_map(m)
        },
        None => FlowMap::rvs_new(),
    };
    let ghost base = r;
    let key = rvs_projected_place_key(p);
    let ghost k = key.spec_key();
    if p.ty.is_result {
        rvs_join_into_M(&mut r, key.rvs_dup(), ResultReference::rvs_direct_mutable());
    }
    let ghost direct = r;
    let projected = &state.projected_values;
    let mut i: usize = 0;
    while i < projected.rvs_len()
        invariant
            state.wf(),
            projected == &state.projected_values,
            r.wf(),
            k == key.spec_key(),
            k == spec_mir_key(*p),
            i <= projected.len_spec(),
            forall|t: PlaceView| #[trigger] direct.get(t) == if p.ty.is_result && t == k {
                Some(spec_joined_into(spec_inner_get(state.references, (p.local, Seq::empty()), t), spec_direct_mutable()))
            } else {
                spec_inner_get(state.references, (p.local, Seq::empty()), t)
            },
            forall|t: PlaceView| #[trigger] r.get(t) == if (exists|j: int| 0 <= j < i && #[trigger] projected.key(j) == t)
                && t.0 == p.local && spec_paths_overlap(t.1, k.1) && t != k {
                Some(spec_joined_into(direct.get(t), spec_nested_mutable()))
            } else {
                direct.get(t)
            },
        decreases projected.len_spec() - i,
    {
        let entry = projected.rvs_key_at(i);
        let hit = entry.local == p.local
            && rvs_projection_paths_overlap(entry.projections.as_slice(), key.projections.as_slice())
            && !entry.rvs_same_key(&key);
        let ghost tk = entry.spec_key();
        assert(tk == projected.key(i as int));
        if hit {
            rvs_join_into_M(&mut r, entry.rvs_dup(), ResultReference::rvs_nested_mutable());
        }
        proof {
            assert forall|t: PlaceView| #[trigger] r.get(t) == if (exists|j: int| 0 <= j < i + 1 && #[trigger] projected.key(j) == t)
                && t.0 == p.local && spec_paths_overlap(t.1, k.1) && t != k {
                Some(spec_joined_into(direct.get(t), spec_nested_mutable()))
            } else {
                direct.get(t)
            } by {
                if t == tk {
                    projected.lemma_index_unique(i as int);
                    if exists|j: int| 0 <= j < i && #[trigger] projected.key(j) == t {
                        let j = choose|j: int| 0 <= j < i && #[trigger] projected.key(j) == t;
                        assert(projected.key(j) != projected.key(i as int));
                    }
                } else if exists|j: int| 0 <= j < i + 1 && #[trigger] projected.key(j) == t {
                    let j = choose|j: int| 0 <= j < i + 1 && #[trigger] projected.key(j) == t;
                    assert(j < i);
                }
            }
        }
        i = i + 1;
    }
    proof {
        assert forall|t: PlaceView| #[trigger] r.get(t) == spec_place_reference(*state, *p, t) by {
            if projected.has(t) {
                let j = choose|j: int| 0 <= j < projected.len_spec() && #[trigger] projected.key(j) == t;
                assert(projected.key(j) == t);
            }
        }
    }
    r
}

/// The references an operand gives: those of the place it reads.
pub open spec fn spec_operand_reference(s: ResultFlowState, o: MirOperand, t: PlaceView) -> Option<ResultReference> {
    match spec_operand_place(o) {
        Some(p) => spec_place_reference(s, p, t),
        None => None,
    }
}

/// The references an operand gives.
pub fn rvs_operand_references(state: &ResultFlowState, o: &MirOperand) -> (r: ResultReferenceMap)
    requires
        state.wf(),
    ensures
        r.wf(),
        forall|t: PlaceView| #[trigger] r.get(t) == spec_operand_reference(*state, *o, t),
{
    match rvs_operand_place(o) {
        Some(p) => rvs_place_references(state, p),
        None => {
            let r: ResultReferenceMap = FlowMap::rvs_new();
            r
        },
    }
}

// ---------------------------------------------------------------- writes

/// What a flow state says of the variants and tests it tracks, as
/// functions from places: the locals' values, the projected places'
/// values, the discriminants and the predicates.
pub type FlowView = (
    spec_fn(PlaceView) -> Option<u8>,
    spec_fn(PlaceView) -> Option<u8>,
    spec_fn(PlaceView) -> Option<ResultDiscriminant>,
    spec_fn(PlaceView) -> Option<(ResultPlaceKey, bool)>,
);

/// The view of a flow state.
pub open spec fn spec_flow_view(s: ResultFlowState) -> FlowView {
    (
        |k: PlaceView| s.values.get(k),
        |p: PlaceView| s.projected_values.get(p),
        |l: PlaceView| s.discriminants.get(l),
        |l: PlaceView| s.predicates.get(l),
    )
}

/// Some tracked place of the same local may overlap `t`.
pub open spec fn spec_view_overlapped(f: spec_fn(PlaceView) -> Option<u8>, t: PlaceView) -> bool {
    exists|q: PlaceView| #[trigger] f(q) is Some && q.0 == t.0 && spec_paths_overlap(q.1, t.1)
}

/// A write of `value` through a reference to `t`: the tests of places that
/// may overlap `t` are forgotten; a tracked local `t` takes the value; for
/// a projected `t`, every tracked place of its local that may overlap it
/// takes the value, and `t` itself is tracked when none does.
pub open spec fn spec_write_step(v: FlowView, t: PlaceView, value: u8) -> FlowView {
    (
        |k: PlaceView| if t.1.len() == 0 && k == t && (v.0)(k) is Some {
            Some(value)
        } else {
            (v.0)(k)
        },
        |p: PlaceView| if t.1.len() == 0 {
            (v.1)(p)
        } else if (v.1)(p) is Some && p.0 == t.0 && spec_paths_overlap(p.1, t.1) {
            Some(value)
        } else if p == t && !spec_view_overlapped(v.1, t) {
            Some(value)
        } else {
            (v.1)(p)
        },
        |l: PlaceView| match (v.2)(l) {
            Some(d) => if spec_tests_source(d.source, t) { None } else { Some(d) },
            None => None,
        },
        |l: PlaceView| match (v.3)(l) {
            Some(q) => if spec_tests_source(q.0, t) { None } else { Some(q) },
            None => None,
        },
    )
}

/// The keys of a map keyed by locals have empty paths.
pub proof fn lemma_local_keys_plain<V>(m: FlowMap<u32, V>, k: PlaceView)
    ensures
        m.has(k) ==> k.1 =~= Seq::<(Seq<char>, bool, bool)>::empty(),
{
    if m.has(k) {
        let i = choose|i: int| 0 <= i < m.len_spec() && #[trigger] m.key(i) == k;
        assert(m.key(i) == k);
    }
}

/// Writes `value` through a reference to `target`.
#[allow(non_snake_case)]
pub fn rvs_write_through_reference_M(state: &mut ResultFlowState, target: &ResultPlaceKey, value: u8)
    requires
        old(state).wf(),
        value != 0,
    ensures
        final(state).wf(),
        spec_flow_view(*final(state)) == spec_write_step(spec_flow_view(*old(state)), target.spec_key(), value),
        final(state).references == old(state).references,
        final(state).escaped_results == old(state).escaped_results,
        final(state).coroutine_saved_values == old(state).coroutine_saved_values,
{
    rvs_invalidate_relations_for_source_M(state, target);
    let ghost mid = *state;
    rvs_set_result_target_value_M(state, target, value);
    proof {
        let t = target.spec_key();
        let before = spec_flow_view(*old(state));
        let after = spec_flow_view(*state);
        let step = spec_write_step(before, t, value);
        assert(t.1.len() == target.projections@.len());
        assert forall|k: PlaceView| #[trigger] (after.0)(k) == (step.0)(k) by {
            lemma_local_keys_plain(state.values, k);
            lemma_local_keys_plain(old(state).values, k);
            if t.1.len() == 0 && k.1.len() == 0 {
                assert(k.1 =~= Seq::<(Seq<char>, bool, bool)>::empty());
                assert(t.1 =~= Seq::<(Seq<char>, bool, bool)>::empty());
                assert(state.values.get((k.0, Seq::empty())) == if k.0 == target.local && mid.values.has((k.0, Seq::empty())) {
                    Some(value)
                } else {
                    mid.values.get((k.0, Seq::empty()))
                });
                assert(k == (k.0, Seq::<(Seq<char>, bool, bool)>::empty()));
            }
        }
        assert(spec_view_overlapped(before.1, t) == spec_overlapped(mid.projected_values, t)) by {
            if spec_overlapped(mid.projected_values, t) {
                let i = choose|i: int| 0 <= i < mid.projected_values.len_spec() && #[trigger] mid.projected_values.key(i).0 == t.0
                    && spec_paths_overlap(mid.projected_values.key(i).1, t.1);
                mid.projected_values.lemma_index_unique(i);
                assert((before.1)(mid.projected_values.key(i)) is Some);
            }
            if spec_view_overlapped(before.1, t) {
                let q = choose|q: PlaceView| #[trigger] (before.1)(q) is Some && q.0 == t.0 && spec_paths_overlap(q.1, t.1);
                assert(mid.projected_values.has(q));
                let i = choose|i: int| 0 <= i < mid.projected_values.len_spec() && #[trigger] mid.projected_values.key(i) == q;
                assert(mid.projected_values.key(i).0 == t.0);
            }
        }
        assert forall|p: PlaceView| #[trigger] (after.1)(p) == (step.1)(p) by {}
        assert forall|l: PlaceView| #[trigger] (after.2)(l) == (step.2)(l) by {}
        assert forall|l: PlaceView| #[trigger] (after.3)(l) == (step.3)(l) by {}
        assert(after.0 =~= step.0);
        assert(after.1 =~= step.1);
        assert(after.2 =~= step.2);
        assert(after.3 =~= step.3);
    }
}

/// The writes of `value` through the first `n` references of a map, in
/// the map's order, each through a reference that can change a variant.
pub open spec fn spec_deref_writes(v: FlowView, refs: ResultReferenceMap, value: u8, n: nat) -> FlowView
    decreases n,
{
    if n == 0 {
        v
    } else {
        let prev = spec_deref_writes(v, refs, value, (n - 1) as nat);
        let r = refs.val(n - 1);
        if r.direct_mutable || r.nested_mutable {
            spec_write_step(prev, refs.key(n - 1), value)
        } else {
            prev
        }
    }
}

/// The writes of `value` through every reference a local holds.
pub open spec fn spec_writes_through(v: FlowView, refs: Option<ResultReferenceMap>, value: u8) -> FlowView {
    match refs {
        Some(m) => spec_deref_writes(v, m, value, m.len_spec()),
        None => v,
    }
}

/// The place is reached through a dereference.
pub open spec fn spec_has_deref(p: MirPlace) -> bool {
    exists|j: int| 0 <= j < p.projection@.len() && #[trigger] p.projection@[j].kind == ProjectionKind::Deref
}

fn rvs_has_deref(p: &MirPlace) -> (r: bool)
    ensures
        r == spec_has_deref(*p),
{
    let mut i: usize = 0;
    while i < p.projection.len()
        invariant
            i <= p.projection@.len(),
            forall|j: int| 0 <= j < i ==> #[trigger] p.projection@[j].kind != ProjectionKind::Deref,
        decreases p.projection@.len() - i,
    {
        if p.projection[i].kind == ProjectionKind::Deref {
            return true;
        }
        i = i + 1;
    }
    false
}

/// An escaped `Result` place may overlap `key`.
pub open spec fn spec_escaped(s: ResultFlowState, key: PlaceView) -> bool {
    exists|i: int| 0 <= i < s.escaped_results.len_spec() && #[trigger] s.escaped_results.key(i).0 == key.0
        && spec_paths_overlap(s.escaped_results.key(i).1, key.1)
}

fn rvs_is_escaped(state: &ResultFlowState, key: &ResultPlaceKey) -> (r: bool)
    ensures
        r == spec_escaped(*state, key.spec_key()),
{
    let escaped = &state.escaped_results;
    let mut i: usize = 0;
    while i < escaped.rvs_len()
        invariant
            escaped == &state.escaped_results,
            i <= escaped.len_spec(),
            forall|j: int| 0 <= j < i ==> !(#[trigger] escaped.key(j).0 == key.spec_key().0
                && spec_paths_overlap(escaped.key(j).1, key.spec_key().1)),
        decreases escaped.len_spec() - i,
    {
        let e = escaped.rvs_key_at(i);
        if e.local == key.local && rvs_projection_paths_overlap(e.projections.as_slice(), key.projections.as_slice()) {
            assert(escaped.key(i as int).0 == key.spec_key().0 && spec_paths_overlap(escaped.key(i as int).1, key.spec_key().1));
            return true;
        }
        i = i + 1;
    }
    false
}

/// A copy of a reference map, entry for entry.
fn rvs_snapshot_reference_map(m: &ResultReferenceMap) -> (r: ResultReferenceMap)
    requires
        m.wf(),
    ensures
        r.wf(),
        r.len_spec() == m.len_spec(),
        forall|j: int| 0 <= j < m.len_spec() ==> #[trigger] r.key(j) == m.key(j) && r.val(j) == m.val(j),
{
    let mut entries: Vec<(ResultPlaceKey, ResultReference)> = Vec::new();
    let mut i: usize = 0;
    while i < m.rvs_len()
        invariant
            i <= m.len_spec(),
            entries@.len() == i,
            forall|j: int| 0 <= j < i ==> #[trigger] entries@[j].0.spec_key() == m.key(j) && entries@[j].1 == m.val(j),
        decreases m.len_spec() - i,
    {
        entries.push((m.rvs_key_at(i).rvs_dup(), *m.rvs_value_at(i)));
        i = i + 1;
    }
    let r = FlowMap { entries };
    assert forall|a: int, b: int| 0 <= a < b < r.len_spec() implies #[trigger] r.key(a) != #[trigger] r.key(b) by {
        assert(r.key(a) == m.key(a));
        assert(r.key(b) == m.key(b));
    }
    r
}

/// What an assignment of `value` to a place records: a tracked local
/// takes it (unknown when an escaped `Result` may overlap the place);
/// otherwise a projected `Result` place takes it the same way, and when
/// the place is reached through a dereference, `value` is written through
/// every reference of its local that can change a variant.
pub open spec fn spec_assigned_view(s: ResultFlowState, p: MirPlace, value: u8, tracks_result: bool) -> FlowView {
    let v = spec_flow_view(s);
    let key = spec_mir_key(p);
    let stored = if spec_escaped(s, key) { RVS_RESULT_UNKNOWN } else { value };
    if p.projection@.len() == 0 && s.values.has((p.local, Seq::empty())) {
        (|k: PlaceView| if k == key { Some(stored) } else { s.values.get(k) }, v.1, v.2, v.3)
    } else {
        let mid: FlowView = (
            v.0,
            |q: PlaceView| if tracks_result && p.projection@.len() > 0 && q == key {
                Some(stored)
            } else {
                s.projected_values.get(q)
            },
            v.2,
            v.3,
        );
        if spec_has_deref(p) {
            spec_writes_through(mid, s.references.get((p.local, Seq::empty())), value)
        } else {
            mid
        }
    }
}

/// Records an assignment of `value` to a place; `tracks_result` says the
/// place's type is a `Result`.
#[allow(non_snake_case)]
pub fn rvs_assign_result_value_M(state: &mut ResultFlowState, place: &MirPlace, value: u8, tracks_result: bool)
    requires
        old(state).wf(),
        value != 0,
    ensures
        final(state).wf(),
        spec_flow_view(*final(state)) == spec_assigned_view(*old(state), *place, value, tracks_result),
        final(state).references == old(state).references,
        final(state).escaped_results == old(state).escaped_results,
        final(state).coroutine_saved_values == old(state).coroutine_saved_values,
{
    let ghost s0 = *state;
    let ghost v0 = spec_flow_view(s0);
    let key = rvs_projected_place_key(place);
    let ghost kv = key.spec_key();
    let escaped = rvs_is_escaped(state, &key);
    let stored = if escaped { RVS_RESULT_UNKNOWN } else { value };
    if place.projection.len() == 0 && state.values.rvs_contains(&place.local) {
        proof {
            assert(kv.1 =~= Seq::<(Seq<char>, bool, bool)>::empty());
        }
        state.values.rvs_insert_M(place.local, stored);
        proof {
            let after = spec_flow_view(*state);
            let want = spec_assigned_view(s0, *place, value, tracks_result);
            assert(after.0 =~= want.0);
            assert(after.1 =~= want.1);
            assert(after.2 =~= want.2);
            assert(after.3 =~= want.3);
        }
        return;
    }
    if tracks_result && place.projection.len() > 0 {
        state.projected_values.rvs_insert_M(key, stored);
    }
    let ghost mid = spec_flow_view(*state);
    proof {
        let want: FlowView = (
            v0.0,
            |q: PlaceView| if tracks_result && place.projection@.len() > 0 && q == kv {
                Some(stored)
            } else {
                s0.projected_values.get(q)
            },
            v0.2,
            v0.3,
        );
        assert(mid.0 =~= want.0);
        assert(mid.1 =~= want.1);
        assert(mid.2 =~= want.2);
        assert(mid.3 =~= want.3);
        assert(mid == want);
    }
    if !rvs_has_deref(place) {
        return;
    }
    let refs = match state.references.rvs_get(&place.local) {
        Some(m) => {
            proof {
                let j = state.references.index_of((place.local, Seq::empty()));
                state.references.lemma_index_unique(j);
            }
            rvs_snapshot_reference_map(m)
        },
        None => {
            return;
        },
    };
    let ghost m = s0.references.get((place.local, Seq::empty()))->0;
    let mut i: usize = 0;
    while i < refs.rvs_len()
        invariant
            state.wf(),
            refs.wf(),
            value != 0,
            i <= refs.len_spec(),
            refs.len_spec() == m.len_spec(),
            forall|j: int| 0 <= j < m.len_spec() ==> #[trigger] refs.key(j) == m.key(j) && refs.val(j) == m.val(j),
            spec_flow_view(*state) == spec_deref_writes(mid, m, value, i as nat),
            state.references == s0.references,
            state.escaped_results == s0.escaped_results,
            state.coroutine_saved_values == s0.coroutine_saved_values,
        decreases refs.len_spec() - i,
    {
        let r = *refs.rvs_value_at(i);
        assert(refs.key(i as int) == m.key(i as int));
        if r.rvs_can_change_variant() {
            rvs_write_through_reference_M(state, refs.rvs_key_at(i), value);
        }
        i = i + 1;
    }
}

// ------------------------------------------------------ assigned references

/// Two optional references joined: each way of reaching is kept.
pub open spec fn spec_join_opt(a: Option<ResultReference>, b: Option<ResultReference>) -> Option<ResultReference> {
    match (a, b) {
        (None, x) => x,
        (Some(p), None) => Some(p),
        (Some(p), Some(c)) => Some(p.spec_join(c)),
    }
}

/// A reference seen one level further in.
pub open spec fn spec_nested(x: ResultReference) -> ResultReference {
    ResultReference {
        direct: false,
        direct_mutable: false,
        nested: x.direct || x.nested,
        nested_mutable: x.direct_mutable || x.nested_mutable,
    }
}

/// An optional reference seen one level further in.
pub open spec fn spec_nested_opt(x: Option<ResultReference>) -> Option<ResultReference> {
    match x {
        Some(r) => Some(spec_nested(r)),
        None => None,
    }
}

/// The join of the references the operands give to `t`.
pub open spec fn spec_operands_reference(s: ResultFlowState, ops: Seq<MirOperand>, t: PlaceView) -> Option<ResultReference>
    decreases ops.len(),
{
    if ops.len() == 0 {
        None
    } else {
        spec_join_opt(spec_operands_reference(s, ops.drop_last(), t), spec_operand_reference(s, ops.last(), t))
    }
}

/// The reference a right-hand side gives to `t`: a mutable borrow or a
/// raw pointer gives the borrowed place's; a shared borrow gives them no
/// longer able to change the `Result` itself when the place is a
/// `Result`, and one level further in otherwise; a use, cast, repeat or
/// unary operation gives its operand's; a binary operation joins both
/// operands'; an aggregate joins its operands' one level further in.
pub open spec fn spec_rvalue_reference(s: ResultFlowState, v: MirRvalue, t: PlaceView) -> Option<ResultReference> {
    match v {
        MirRvalue::Ref(mutable, p) => if mutable {
            spec_place_reference(s, p, t)
        } else {
            match spec_place_reference(s, p, t) {
                Some(x) => Some(if p.ty.is_result { ResultReference { direct_mutable: false, ..x } } else { spec_nested(x) }),
                None => None,
            }
        },
        MirRvalue::RawPtr(p) => spec_place_reference(s, p, t),
        MirRvalue::Use(o) => spec_operand_reference(s, o, t),
        MirRvalue::Cast(o) => spec_operand_reference(s, o, t),
        MirRvalue::Repeat(o) => spec_operand_reference(s, o, t),
        MirRvalue::UnaryOp(o) => spec_operand_reference(s, o, t),
        MirRvalue::BinaryOp(a, b) => spec_join_opt(spec_operand_reference(s, a, t), spec_operand_reference(s, b, t)),
        MirRvalue::Aggregate(_, ops) => spec_nested_opt(spec_operands_reference(s, ops@, t)),
        _ => None,
    }
}

pub(crate) proof fn lemma_merged_operands(s: ResultFlowState, maps: Seq<ResultReferenceMap>, ops: Seq<MirOperand>, t: PlaceView)
    requires
        maps.len() == ops.len(),
        forall|i: int| 0 <= i < ops.len() ==> #[trigger] maps[i].get(t) == spec_operand_reference(s, ops[i], t),
    ensures
        spec_merged_reference(maps, t) == spec_operands_reference(s, ops, t),
    decreases ops.len(),
{
    if ops.len() > 0 {
        lemma_merged_operands(s, maps.drop_last(), ops.drop_last(), t);
        assert(maps.last().get(t) == spec_operand_reference(s, ops.last(), t)) by {
            assert(maps[maps.len() - 1].get(t) == spec_operand_reference(s, ops[ops.len() - 1], t));
        }
    }
}

/// The references a right-hand side gives.
pub fn rvs_rvalue_references(state: &ResultFlowState, v: &MirRvalue) -> (r: ResultReferenceMap)
    requires
        state.wf(),
    ensures
        r.wf(),
        forall|t: PlaceView| #[trigger] r.get(t) == spec_rvalue_reference(*state, *v, t),
{
    match v {
        MirRvalue::Ref(mutable, p) => {
            let references = rvs_place_references(state, p);
            if *mutable {
                references
            } else if p.ty.is_result {
                rvs_preserve_direct_variants(references)
            } else {
                rvs_nest_reference_map(references)
            }
        },
        MirRvalue::RawPtr(p) => rvs_place_references(state, p),
        MirRvalue::Use(o) => rvs_operand_references(state, o),
        MirRvalue::Cast(o) => rvs_operand_references(state, o),
        MirRvalue::Repeat(o) => rvs_operand_references(state, o),
        MirRvalue::UnaryOp(o) => rvs_operand_references(state, o),
        MirRvalue::BinaryOp(a, b) => {
            let left = rvs_operand_references(state, a);
            let right = rvs_operand_references(state, b);
            let maps = vec![left, right];
            let merged = rvs_merge_reference_maps(&maps);
            proof {
                assert forall|t: PlaceView| #[trigger] merged.get(t) == spec_rvalue_reference(*state, *v, t) by {
                    reveal_with_fuel(spec_merged_reference, 3);
                    assert(maps@[0] == left);
                    assert(maps@[1] == right);
                    assert(maps@.drop_last().drop_last() =~= Seq::<ResultReferenceMap>::empty());
                    assert(maps@.drop_last().last() == maps@[0]);
                    assert(maps@.last() == maps@[1]);
                }
            }
            merged
        },
        MirRvalue::Aggregate(_, ops) => {
            let mut maps: Vec<ResultReferenceMap> = Vec::new();
            let mut i: usize = 0;
            while i < ops.len()
                invariant
                    state.wf(),
                    i <= ops@.len(),
                    maps@.len() == i,
                    forall|j: int| 0 <= j < i ==> (#[trigger] maps@[j]).wf(),
                    forall|j: int, t: PlaceView| 0 <= j < i ==> #[trigger] maps@[j].get(t) == spec_operand_reference(*state, ops@[j], t),
                decreases ops@.len() - i,
            {
                maps.push(rvs_operand_references(state, &ops[i]));
                i = i + 1;
            }
            let merged = rvs_merge_reference_maps(&maps);
            proof {
                assert forall|t: PlaceView| #[trigger] merged.get(t) == spec_operands_reference(*state, ops@, t) by {
                    assert forall|j: int| 0 <= j < ops@.len() implies #[trigger] maps@[j].get(t) == spec_operand_reference(*state, ops@[j], t) by {}
                    lemma_merged_operands(*state, maps@, ops@, t);
                }
            }
            rvs_nest_reference_map(merged)
        },
        _ => FlowMap::rvs_new(),
    }
}

/// The right-hand side gives a reference to some place.
pub open spec fn spec_gives_references(s: ResultFlowState, v: MirRvalue) -> bool {
    exists|t: PlaceView| #[trigger] spec_rvalue_reference(s, v, t) is Some
}

/// What a local holds for `t` after an assignment: the destination local,
/// when assigned whole, holds exactly what the right-hand side gives; when
/// a projection of it is assigned, what it held joined with what the
/// right-hand side gives one level further in.
pub open spec fn spec_assigned_reference(s: ResultFlowState, dest: MirPlace, v: MirRvalue, l: PlaceView, t: PlaceView) -> Option<ResultReference> {
    let held = spec_inner_get(s.references, l, t);
    if l != (dest.local, Seq::<(Seq<char>, bool, bool)>::empty()) {
        held
    } else if dest.projection@.len() > 0 {
        spec_join_opt(held, spec_nested_opt(spec_rvalue_reference(s, v, t)))
    } else {
        spec_rvalue_reference(s, v, t)
    }
}

/// Which locals hold a reference map after an assignment: the destination
/// local does when the right-hand side gives references (or, for a
/// projection, when it held one already).
pub open spec fn spec_assigned_has(s: ResultFlowState, dest: MirPlace, v: MirRvalue, l: PlaceView) -> bool {
    if l != (dest.local, Seq::<(Seq<char>, bool, bool)>::empty()) {
        s.references.has(l)
    } else if dest.projection@.len() > 0 {
        s.references.has(l) || spec_gives_references(s, v)
    } else {
        spec_gives_references(s, v)
    }
}

/// Records the references an assignment gives its destination.
#[allow(non_snake_case)]
pub fn rvs_assign_references_M(state: &mut ResultFlowState, dest: &MirPlace, v: &MirRvalue)
    requires
        old(state).wf(),
    ensures
        final(state).wf(),
        forall|l: PlaceView, t: PlaceView| #[trigger] spec_inner_get(final(state).references, l, t)
            == spec_assigned_reference(*old(state), *dest, *v, l, t),
        forall|l: PlaceView| #[trigger] final(state).references.has(l) == spec_assigned_has(*old(state), *dest, *v, l),
        final(state).values == old(state).values,
        final(state).projected_values == old(state).projected_values,
        final(state).discriminants == old(state).discriminants,
        final(state).predicates == old(state).predicates,
        final(state).escaped_results == old(state).escaped_results,
        final(state).coroutine_saved_values == old(state).coroutine_saved_values,
{
    let ghost s0 = *state;
    let ghost dl: PlaceView = (dest.local, Seq::empty());
    let references = rvs_rvalue_references(state, v);
    let nonempty = references.rvs_len() > 0;
    proof {
        if nonempty {
            references.lemma_index_unique(0);
            assert(spec_rvalue_reference(s0, *v, references.key(0)) is Some);
        }
        if spec_gives_references(s0, *v) {
            let t = choose|t: PlaceView| #[trigger] spec_rvalue_reference(s0, *v, t) is Some;
            assert(references.get(t) == spec_rvalue_reference(s0, *v, t));
            assert(references.has(t));
        }
        assert(nonempty == spec_gives_references(s0, *v));
    }
    if dest.projection.len() > 0 {
        if nonempty {
            let nested = rvs_nest_reference_map(references);
            let mut inner = match state.references.rvs_get(&dest.local) {
                Some(m) => {
                    proof {
                        let j = state.references.index_of(dl);
                        state.references.lemma_index_unique(j);
                    }
                    rvs_copy_reference_map(m)
                },
                None => FlowMap::rvs_new(),
            };
            let ghost existing = inner;
            let mut i: usize = 0;
            while i < nested.rvs_len()
                invariant
                    inner.wf(),
                    nested.wf(),
                    i <= nested.len_spec(),
                    forall|t: PlaceView| #[trigger] inner.get(t) == if exists|j: int| 0 <= j < i && #[trigger] nested.key(j) == t {
                        Some(spec_joined_into(existing.get(t), nested.get(t)->0))
                    } else {
                        existing.get(t)
                    },
                decreases nested.len_spec() - i,
            {
                let ghost before = inner;
                let ghost k = nested.key(i as int);
                proof {
                    nested.lemma_index_unique(i as int);
                }
                rvs_join_into_M(&mut inner, nested.rvs_key_at(i).rvs_dup(), *nested.rvs_value_at(i));
                proof {
                    assert forall|t: PlaceView| #[trigger] inner.get(t) == if exists|j: int| 0 <= j < i + 1 && #[trigger] nested.key(j) == t {
                        Some(spec_joined_into(existing.get(t), nested.get(t)->0))
                    } else {
                        existing.get(t)
                    } by {
                        if t == k {
                            assert(nested.key(i as int) == t);
                            if exists|j: int| 0 <= j < i && #[trigger] nested.key(j) == t {
                                let j = choose|j: int| 0 <= j < i && #[trigger] nested.key(j) == t;
                                assert(nested.key(j) != nested.key(i as int));
                            }
                        } else if exists|j: int| 0 <= j < i + 1 && #[trigger] nested.key(j) == t {
                            let j = choose|j: int| 0 <= j < i + 1 && #[trigger] nested.key(j) == t;
                            assert(j < i);
                        }
                    }
                }
                i = i + 1;
            }
            let ghost refs_before = state.references;
            state.references.rvs_insert_M(dest.local, inner);
            proof {
                assert forall|t: PlaceView| #[trigger] inner.get(t) == spec_join_opt(spec_inner_get(s0.references, dl, t),
                    spec_nested_opt(spec_rvalue_reference(s0, *v, t))) by {
                    if nested.has(t) {
                        let j = choose|j: int| 0 <= j < nested.len_spec() && #[trigger] nested.key(j) == t;
                        assert(nested.key(j) == t);
                    }
                }
                assert forall|i: int| 0 <= i < state.references.len_spec() implies (#[trigger] state.references.val(i)).wf() by {
                    let k = state.references.key(i);
                    state.references.lemma_index_unique(i);
                    if k != dl {
                        let j = refs_before.index_of(k);
                        refs_before.lemma_index_unique(j);
                    }
                }
            }
        }
        return;
    }
    let ghost refs_before = state.references;
    state.references.rvs_remove_M(&dest.local);
    let ghost refs_removed = state.references;
    proof {
        assert forall|i: int| 0 <= i < refs_removed.len_spec() implies (#[trigger] refs_removed.val(i)).wf() by {
            let k = refs_removed.key(i);
            refs_removed.lemma_index_unique(i);
            let j = refs_before.index_of(k);
            refs_before.lemma_index_unique(j);
        }
    }
    if nonempty {
        state.references.rvs_insert_M(dest.local, references);
        proof {
            assert forall|i: int| 0 <= i < state.references.len_spec() implies (#[trigger] state.references.val(i)).wf() by {
                let k = state.references.key(i);
                state.references.lemma_index_unique(i);
                if k != dl {
                    let j = refs_removed.index_of(k);
                    refs_removed.lemma_index_unique(j);
                }
            }
        }
    }
}

// ------------------------------------------------------------ statements

/// Drops every entry whose place may overlap `key`: a place of the same
/// local whose path may overlap `key`'s (every place of the local, for an
/// empty path).
#[allow(non_snake_case)]
pub fn rvs_drop_overlapping_M<V: Copy>(m: &mut FlowMap<ResultPlaceKey, V>, key: &ResultPlaceKey)
    requires
        old(m).wf(),
    ensures
        final(m).wf(),
        forall|p: PlaceView| #[trigger] final(m).get(p) == if p.0 == key.local && spec_paths_overlap(p.1, key.spec_key().1) {
            None
        } else {
            old(m).get(p)
        },
{
    let ghost k = key.spec_key();
    let mut kept: FlowMap<ResultPlaceKey, V> = FlowMap::rvs_new();
    let mut i: usize = 0;
    while i < m.rvs_len()
        invariant
            m.wf(),
            kept.wf(),
            i <= m.len_spec(),
            k == key.spec_key(),
            forall|p: PlaceView| #[trigger] kept.get(p) == if (exists|j: int| 0 <= j < i && #[trigger] m.key(j) == p)
                && !(p.0 == k.0 && spec_paths_overlap(p.1, k.1)) {
                m.get(p)
            } else {
                None
            },
        decreases m.len_spec() - i,
    {
        let place = m.rvs_key_at(i);
        let ghost pk = m.key(i as int);
        proof {
            m.lemma_index_unique(i as int);
        }
        let hit = place.local == key.local && rvs_projection_paths_overlap(place.projections.as_slice(), key.projections.as_slice());
        if !hit {
            kept.rvs_insert_M(place.rvs_dup(), *m.rvs_value_at(i));
        }
        proof {
            assert forall|p: PlaceView| #[trigger] kept.get(p) == if (exists|j: int| 0 <= j < i + 1 && #[trigger] m.key(j) == p)
                && !(p.0 == k.0 && spec_paths_overlap(p.1, k.1)) {
                m.get(p)
            } else {
                None
            } by {
                if p == pk {
                    assert(m.key(i as int) == p);
                } else if exists|j: int| 0 <= j < i + 1 && #[trigger] m.key(j) == p {
                    let j = choose|j: int| 0 <= j < i + 1 && #[trigger] m.key(j) == p;
                    assert(j < i);
                }
            }
        }
        i = i + 1;
    }
    proof {
        assert forall|p: PlaceView| #[trigger] kept.get(p) == if p.0 == k.0 && spec_paths_overlap(p.1, k.1) {
            None
        } else {
            m.get(p)
        } by {
            if m.has(p) {
                let j = choose|j: int| 0 <= j < m.len_spec() && #[trigger] m.key(j) == p;
                assert(m.key(j) == p);
            }
        }
    }
    *m = kept;
}

/// The discriminants and predicates whose tested place may overlap `key`
/// are forgotten; the rest stay.
pub open spec fn spec_relations_invalidated(a: ResultFlowState, b: ResultFlowState, key: PlaceView) -> bool {
    &&& forall|l: PlaceView| #[trigger] b.discriminants.get(l) == match a.discriminants.get(l) {
        Some(d) => if spec_tests_source(d.source, key) { None } else { Some(d) },
        None => None,
    }
    &&& forall|l: PlaceView| #[trigger] b.predicates.get(l) == match a.predicates.get(l) {
        Some(q) => if spec_tests_source(q.0, key) { None } else { Some(q) },
        None => None,
    }
}

/// Before an assignment to the place `key`: what is tracked of places that
/// may overlap it, and the tests of such places, are forgotten.
pub open spec fn spec_cleared(a: ResultFlowState, b: ResultFlowState, key: PlaceView) -> bool {
    &&& b.wf()
    &&& b.values == a.values
    &&& b.references == a.references
    &&& b.escaped_results == a.escaped_results
    &&& forall|p: PlaceView| #[trigger] b.projected_values.get(p) == if p.0 == key.0 && spec_paths_overlap(p.1, key.1) {
        None
    } else {
        a.projected_values.get(p)
    }
    &&& forall|p: PlaceView| #[trigger] b.coroutine_saved_values.get(p) == if p.0 == key.0 && spec_paths_overlap(p.1, key.1) {
        None
    } else {
        a.coroutine_saved_values.get(p)
    }
    &&& spec_relations_invalidated(a, b, key)
}

/// Forgets what is tracked of places that may overlap the assigned place.
#[allow(non_snake_case)]
pub fn rvs_clear_assigned_M(state: &mut ResultFlowState, key: &ResultPlaceKey)
    requires
        old(state).wf(),
    ensures
        spec_cleared(*old(state), *final(state), key.spec_key()),
{
    rvs_drop_overlapping_M(&mut state.projected_values, key);
    rvs_drop_overlapping_M(&mut state.coroutine_saved_values, key);
    rvs_invalidate_relations_for_source_M(state, key);
}

/// Every variant set the state tracks holds at least one variant.
pub open spec fn spec_values_nonzero(s: ResultFlowState) -> bool {
    &&& forall|k: PlaceView| #[trigger] s.values.get(k) is Some ==> s.values.get(k)->0 != 0
    &&& forall|k: PlaceView| #[trigger] s.projected_values.get(k) is Some ==> s.projected_values.get(k)->0 != 0
}

proof fn lemma_unknown_nonzero(t: TypeFacts)
    ensures
        spec_unknown_value(t) != 0,
{
}

proof fn lemma_operand_value_nonzero(s: ResultFlowState, o: MirOperand, locals: Seq<TypeFacts>)
    requires
        spec_values_nonzero(s),
    ensures
        spec_operand_value(s, o, locals) != 0,
{
    match spec_operand_place(o) {
        None => {},
        Some(p) => {
            lemma_unknown_nonzero(locals[p.local as int]);
            lemma_unknown_nonzero(p.ty);
            assert(s.values.get((p.local, Seq::empty())) is Some ==> s.values.get((p.local, Seq::empty()))->0 != 0);
            assert(s.projected_values.get(spec_mir_key(p)) is Some ==> s.projected_values.get(spec_mir_key(p))->0 != 0);
        },
    }
}

proof fn lemma_rvalue_value_nonzero(s: ResultFlowState, dest: MirPlace, v: MirRvalue, locals: Seq<TypeFacts>)
    requires
        spec_values_nonzero(s),
    ensures
        spec_rvalue_value(s, dest, v, locals) != 0,
{
    lemma_unknown_nonzero(dest.ty);
    match v {
        MirRvalue::Use(o) => lemma_operand_value_nonzero(s, o, locals),
        MirRvalue::Aggregate(Some(variant), ops) => {
            if ops@.len() > 0 {
                lemma_operand_value_nonzero(s, ops@[0], locals);
            }
        },
        _ => {},
    }
}

/// After an assignment of `value` to a place: the view is as
/// `spec_assigned_view` says, and nothing else changed.
pub open spec fn spec_assigned(a: ResultFlowState, b: ResultFlowState, dest: MirPlace, value: u8) -> bool {
    &&& b.wf()
    &&& spec_flow_view(b) == spec_assigned_view(a, dest, value, dest.ty.is_result)
    &&& b.references == a.references
    &&& b.escaped_results == a.escaped_results
    &&& b.coroutine_saved_values == a.coroutine_saved_values
}

/// A local going out of storage: its value becomes uninitialized when it
/// is tracked, and its references, projected places, saved fields,
/// discriminant and predicate are forgotten.
pub open spec fn spec_storage_dead(a: ResultFlowState, b: ResultFlowState, l: u32) -> bool {
    let dl: PlaceView = (l, Seq::empty());
    &&& b.wf()
    &&& forall|k: PlaceView| #[trigger] b.values.get(k) == if k == dl && a.values.has(dl) {
        Some(RVS_RESULT_UNINITIALIZED)
    } else {
        a.values.get(k)
    }
    &&& forall|k: PlaceView| #[trigger] b.references.has(k) == (a.references.has(k) && k != dl)
    &&& forall|k: PlaceView, t: PlaceView| #[trigger] spec_inner_get(b.references, k, t) == if k == dl {
        None
    } else {
        spec_inner_get(a.references, k, t)
    }
    &&& forall|p: PlaceView| #[trigger] b.projected_values.get(p) == if p.0 == l { None } else { a.projected_values.get(p) }
    &&& forall|p: PlaceView| #[trigger] b.coroutine_saved_values.get(p) == if p.0 == l {
        None
    } else {
        a.coroutine_saved_values.get(p)
    }
    &&& forall|k: PlaceView| #[trigger] b.discriminants.get(k) == if k == dl { None } else { a.discriminants.get(k) }
    &&& forall|k: PlaceView| #[trigger] b.predicates.get(k) == if k == dl { None } else { a.predicates.get(k) }
    &&& b.escaped_results == a.escaped_results
}

/// Ends the storage of a local.
#[allow(non_snake_case)]
pub fn rvs_storage_dead_M(state: &mut ResultFlowState, l: u32)
    requires
        old(state).wf(),
    ensures
        spec_storage_dead(*old(state), *final(state), l),
{
    let ghost s0 = *state;
    let ghost dl: PlaceView = (l, Seq::empty());
    if state.values.rvs_contains(&l) {
        state.values.rvs_insert_M(l, RVS_RESULT_UNINITIALIZED);
    }
    state.references.rvs_remove_M(&l);
    proof {
        assert forall|i: int| 0 <= i < state.references.len_spec() implies (#[trigger] state.references.val(i)).wf() by {
            let k = state.references.key(i);
            state.references.lemma_index_unique(i);
            let j = s0.references.index_of(k);
            s0.references.lemma_index_unique(j);
        }
    }
    let whole = ResultPlaceKey { local: l, projections: Vec::new() };
    proof {
        assert(whole.spec_key().1 =~= Seq::<(Seq<char>, bool, bool)>::empty());
    }
    rvs_drop_overlapping_M(&mut state.projected_values, &whole);
    rvs_drop_overlapping_M(&mut state.coroutine_saved_values, &whole);
    state.discriminants.rvs_remove_M(&l);
    state.predicates.rvs_remove_M(&l);
}

/// A write through the destination of a `copy_nonoverlapping` may reach
/// `t` and change its variant.
pub open spec fn spec_copy_hit(a: ResultFlowState, o: MirOperand, t: PlaceView) -> bool {
    match spec_operand_reference(a, o, t) {
        Some(r) => r.direct_mutable || r.nested_mutable,
        None => false,
    }
}

/// A `copy_nonoverlapping` into `o`: every place it may write, through a
/// reference that can change a variant, is forgotten: a tracked local
/// becomes what its type allows, tracked projected places that may overlap
/// it become unknown, and the tests of places that may overlap it are
/// dropped.
pub open spec fn spec_copy_step(a: ResultFlowState, b: ResultFlowState, o: MirOperand, locals: Seq<TypeFacts>) -> bool {
    &&& b.wf()
    &&& forall|k: PlaceView| #[trigger] b.values.get(k) == if k.1.len() == 0 && spec_copy_hit(a, o, k) && a.values.has(k) {
        Some(spec_unknown_value(locals[k.0 as int]))
    } else {
        a.values.get(k)
    }
    &&& forall|p: PlaceView| #[trigger] b.projected_values.get(p) == if a.projected_values.has(p)
        && exists|t: PlaceView| #[trigger] spec_copy_hit(a, o, t) && p.0 == t.0 && spec_paths_overlap(p.1, t.1) {
        Some(RVS_RESULT_UNKNOWN)
    } else {
        a.projected_values.get(p)
    }
    &&& forall|l: PlaceView| #[trigger] b.discriminants.get(l) == match a.discriminants.get(l) {
        Some(d) => if exists|t: PlaceView| #[trigger] spec_copy_hit(a, o, t) && spec_tests_source(d.source, t) {
            None
        } else {
            Some(d)
        },
        None => None,
    }
    &&& forall|l: PlaceView| #[trigger] b.predicates.get(l) == match a.predicates.get(l) {
        Some(q) => if exists|t: PlaceView| #[trigger] spec_copy_hit(a, o, t) && spec_tests_source(q.0, t) {
            None
        } else {
            Some(q)
        },
        None => None,
    }
    &&& b.references == a.references
    &&& b.escaped_results == a.escaped_results
    &&& b.coroutine_saved_values == a.coroutine_saved_values
}

/// Every place a `copy_nonoverlapping` into `o` may write belongs to a
/// local of the body.
pub open spec fn spec_copy_in(a: ResultFlowState, o: MirOperand, locals: Seq<TypeFacts>) -> bool {
    forall|t: PlaceView| #[trigger] spec_operand_reference(a, o, t) is Some ==> t.0 < locals.len()
}

/// The `j`-th reference can change a variant and reaches `k` itself.
pub open spec fn spec_hits_local(refs: ResultReferenceMap, j: int, k: PlaceView) -> bool {
    refs.key(j) == k && (refs.val(j).direct_mutable || refs.val(j).nested_mutable)
}

/// The `j`-th reference can change a variant and may reach `p`.
pub open spec fn spec_hits_place(refs: ResultReferenceMap, j: int, p: PlaceView) -> bool {
    (refs.val(j).direct_mutable || refs.val(j).nested_mutable) && p.0 == refs.key(j).0 && spec_paths_overlap(p.1, refs.key(j).1)
}

/// The `j`-th reference can change a variant and may reach a place
/// `tested` overlaps.
pub open spec fn spec_hits_test(refs: ResultReferenceMap, j: int, tested: ResultPlaceKey) -> bool {
    (refs.val(j).direct_mutable || refs.val(j).nested_mutable) && spec_tests_source(tested, refs.key(j))
}

/// The state after the writes through the first `i` references of
/// `refs`, each forgetting what it may reach.
pub open spec fn spec_copy_prefix(s0: ResultFlowState, s: ResultFlowState, refs: ResultReferenceMap, i: int, locals: Seq<TypeFacts>) -> bool {
    &&& forall|k: PlaceView| #[trigger] s.values.get(k) == if k.1.len() == 0
        && (exists|j: int| 0 <= j < i && #[trigger] spec_hits_local(refs, j, k)) && s0.values.has(k) {
        Some(spec_unknown_value(locals[k.0 as int]))
    } else {
        s0.values.get(k)
    }
    &&& forall|p: PlaceView| #[trigger] s.projected_values.get(p) == if s0.projected_values.has(p)
        && exists|j: int| 0 <= j < i && #[trigger] spec_hits_place(refs, j, p) {
        Some(RVS_RESULT_UNKNOWN)
    } else {
        s0.projected_values.get(p)
    }
    &&& forall|l: PlaceView| #[trigger] s.discriminants.get(l) == match s0.discriminants.get(l) {
        Some(d) => if exists|j: int| 0 <= j < i && #[trigger] spec_hits_test(refs, j, d.source) { None } else { Some(d) },
        None => None,
    }
    &&& forall|l: PlaceView| #[trigger] s.predicates.get(l) == match s0.predicates.get(l) {
        Some(q) => if exists|j: int| 0 <= j < i && #[trigger] spec_hits_test(refs, j, q.0) { None } else { Some(q) },
        None => None,
    }
    &&& s.references == s0.references
    &&& s.escaped_results == s0.escaped_results
    &&& s.coroutine_saved_values == s0.coroutine_saved_values
}

proof fn lemma_copy_prefix_step(
    s0: ResultFlowState,
    before: ResultFlowState,
    after: ResultFlowState,
    refs: ResultReferenceMap,
    i: int,
    locals: Seq<TypeFacts>,
)
    requires
        0 <= i < refs.len_spec(),
        refs.wf(),
        spec_copy_prefix(s0, before, refs, i, locals),
        refs.val(i).direct_mutable || refs.val(i).nested_mutable ==> {
            let t = refs.key(i);
            &&& forall|l: PlaceView| #[trigger] after.discriminants.get(l) == match before.discriminants.get(l) {
                Some(d) => if spec_tests_source(d.source, t) { None } else { Some(d) },
                None => None,
            }
            &&& forall|l: PlaceView| #[trigger] after.predicates.get(l) == match before.predicates.get(l) {
                Some(q) => if spec_tests_source(q.0, t) { None } else { Some(q) },
                None => None,
            }
            &&& forall|k: PlaceView| #[trigger] after.values.get(k) == if t.1.len() == 0 && k == t && before.values.has(k) {
                Some(spec_unknown_value(locals[t.0 as int]))
            } else {
                before.values.get(k)
            }
            &&& forall|p: PlaceView| #[trigger] after.projected_values.get(p) == if before.projected_values.has(p)
                && p.0 == t.0 && spec_paths_overlap(p.1, t.1) {
                Some(RVS_RESULT_UNKNOWN)
            } else {
                before.projected_values.get(p)
            }
            &&& after.references == before.references
            &&& after.escaped_results == before.escaped_results
            &&& after.coroutine_saved_values == before.coroutine_saved_values
        },
        !(refs.val(i).direct_mutable || refs.val(i).nested_mutable) ==> after == before,
    ensures
        spec_copy_prefix(s0, after, refs, i + 1, locals),
{
    assert forall|k: PlaceView| #[trigger] after.values.get(k) == if k.1.len() == 0
        && (exists|j: int| 0 <= j < i + 1 && #[trigger] spec_hits_local(refs, j, k)) && s0.values.has(k) {
        Some(spec_unknown_value(locals[k.0 as int]))
    } else {
        s0.values.get(k)
    } by {
        if exists|j: int| 0 <= j < i + 1 && #[trigger] spec_hits_local(refs, j, k) {
            let j = choose|j: int| 0 <= j < i + 1 && #[trigger] spec_hits_local(refs, j, k);
            if j < i {
                assert(exists|j: int| 0 <= j < i && #[trigger] spec_hits_local(refs, j, k));
            }
        }
        if exists|j: int| 0 <= j < i && #[trigger] spec_hits_local(refs, j, k) {
            let j = choose|j: int| 0 <= j < i && #[trigger] spec_hits_local(refs, j, k);
            assert(spec_hits_local(refs, j, k));
        }
        if spec_hits_local(refs, i, k) {
            assert(spec_hits_local(refs, i, k));
        }
        assert(before.values.get(k) is Some == s0.values.get(k) is Some);
    }
    assert forall|p: PlaceView| #[trigger] after.projected_values.get(p) == if s0.projected_values.has(p)
        && exists|j: int| 0 <= j < i + 1 && #[trigger] spec_hits_place(refs, j, p) {
        Some(RVS_RESULT_UNKNOWN)
    } else {
        s0.projected_values.get(p)
    } by {
        if exists|j: int| 0 <= j < i + 1 && #[trigger] spec_hits_place(refs, j, p) {
            let j = choose|j: int| 0 <= j < i + 1 && #[trigger] spec_hits_place(refs, j, p);
            if j < i {
                assert(exists|j: int| 0 <= j < i && #[trigger] spec_hits_place(refs, j, p));
            }
        }
        if exists|j: int| 0 <= j < i && #[trigger] spec_hits_place(refs, j, p) {
            let j = choose|j: int| 0 <= j < i && #[trigger] spec_hits_place(refs, j, p);
            assert(spec_hits_place(refs, j, p));
        }
        if spec_hits_place(refs, i, p) {
            assert(spec_hits_place(refs, i, p));
        }
        assert(before.projected_values.get(p) is Some == s0.projected_values.get(p) is Some);
    }
    assert forall|l: PlaceView| #[trigger] after.discriminants.get(l) == match s0.discriminants.get(l) {
        Some(d) => if exists|j: int| 0 <= j < i + 1 && #[trigger] spec_hits_test(refs, j, d.source) { None } else { Some(d) },
        None => None,
    } by {
        if let Some(d) = s0.discriminants.get(l) {
            if exists|j: int| 0 <= j < i + 1 && #[trigger] spec_hits_test(refs, j, d.source) {
                let j = choose|j: int| 0 <= j < i + 1 && #[trigger] spec_hits_test(refs, j, d.source);
                if j < i {
                    assert(exists|j: int| 0 <= j < i && #[trigger] spec_hits_test(refs, j, d.source));
                }
            }
            if exists|j: int| 0 <= j < i && #[trigger] spec_hits_test(refs, j, d.source) {
                let j = choose|j: int| 0 <= j < i && #[trigger] spec_hits_test(refs, j, d.source);
                assert(spec_hits_test(refs, j, d.source));
            }
            if spec_hits_test(refs, i, d.source) {
                assert(spec_hits_test(refs, i, d.source));
            }
        }
    }
    assert forall|l: PlaceView| #[trigger] after.predicates.get(l) == match s0.predicates.get(l) {
        Some(q) => if exists|j: int| 0 <= j < i + 1 && #[trigger] spec_hits_test(refs, j, q.0) { None } else { Some(q) },
        None => None,
    } by {
        if let Some(q) = s0.predicates.get(l) {
            if exists|j: int| 0 <= j < i + 1 && #[trigger] spec_hits_test(refs, j, q.0) {
                let j = choose|j: int| 0 <= j < i + 1 && #[trigger] spec_hits_test(refs, j, q.0);
                if j < i {
                    assert(exists|j: int| 0 <= j < i && #[trigger] spec_hits_test(refs, j, q.0));
                }
            }
            if exists|j: int| 0 <= j < i && #[trigger] spec_hits_test(refs, j, q.0) {
                let j = choose|j: int| 0 <= j < i && #[trigger] spec_hits_test(refs, j, q.0);
                assert(spec_hits_test(refs, j, q.0));
            }
            if spec_hits_test(refs, i, q.0) {
                assert(spec_hits_test(refs, i, q.0));
            }
        }
    }
}

/// Applies a `copy_nonoverlapping` into `o`.
#[allow(non_snake_case)]
pub fn rvs_copy_nonoverlapping_M(state: &mut ResultFlowState, o: &MirOperand, locals: &Vec<TypeFacts>)
    requires
        old(state).wf(),
        spec_copy_in(*old(state), *o, locals@),
    ensures
        spec_copy_step(*old(state), *final(state), *o, locals@),
{
    let ghost s0 = *state;
    let refs = rvs_operand_references(state, o);
    let mut i: usize = 0;
    while i < refs.rvs_len()
        invariant
            state.wf(),
            refs.wf(),
            i <= refs.len_spec(),
            forall|t: PlaceView| #[trigger] refs.get(t) == spec_operand_reference(s0, *o, t),
            spec_copy_in(s0, *o, locals@),
            spec_copy_prefix(s0, *state, refs, i as int, locals@),
        decreases refs.len_spec() - i,
    {
        let r = *refs.rvs_value_at(i);
        let target = refs.rvs_key_at(i);
        let ghost before = *state;
        proof {
            refs.lemma_index_unique(i as int);
        }
        if r.rvs_can_change_variant() {
            assert(refs.key(i as int).0 < locals@.len());
            let unknown = rvs_unknown_result_value(locals[target.local as usize]);
            rvs_set_result_target_unknown_M(state, target, unknown);
            proof {
                let t = refs.key(i as int);
                assert(t.1.len() == target.projections@.len());
                assert forall|k: PlaceView| #[trigger] state.values.get(k) == if t.1.len() == 0 && k == t && before.values.has(k) {
                    Some(spec_unknown_value(locals@[t.0 as int]))
                } else {
                    before.values.get(k)
                } by {}
            }
        }
        proof {
            lemma_copy_prefix_step(s0, before, *state, refs, i as int, locals@);
        }
        i = i + 1;
    }
    proof {
        let n = refs.len_spec() as int;
        assert forall|t: PlaceView| #[trigger] spec_copy_hit(s0, *o, t) ==> exists|j: int| 0 <= j < n && #[trigger] spec_hits_local(refs, j, t) by {
            if spec_copy_hit(s0, *o, t) {
                assert(refs.get(t) == spec_operand_reference(s0, *o, t));
                assert(refs.has(t));
                let j = refs.index_of(t);
                refs.lemma_index_unique(j);
                assert(spec_hits_local(refs, j, t));
            }
        }
        assert forall|j: int, t: PlaceView| 0 <= j < n && #[trigger] spec_hits_local(refs, j, t) implies spec_copy_hit(s0, *o, t) by {
            refs.lemma_index_unique(j);
        }
        assert forall|k: PlaceView| #[trigger] state.values.get(k) == if k.1.len() == 0 && spec_copy_hit(s0, *o, k) && s0.values.has(k) {
            Some(spec_unknown_value(locals@[k.0 as int]))
        } else {
            s0.values.get(k)
        } by {
            if exists|j: int| 0 <= j < n && #[trigger] spec_hits_local(refs, j, k) {
                let j = choose|j: int| 0 <= j < n && #[trigger] spec_hits_local(refs, j, k);
                assert(spec_copy_hit(s0, *o, k));
            }
        }
        assert forall|p: PlaceView| #[trigger] state.projected_values.get(p) == if s0.projected_values.has(p)
            && exists|t: PlaceView| #[trigger] spec_copy_hit(s0, *o, t) && p.0 == t.0 && spec_paths_overlap(p.1, t.1) {
            Some(RVS_RESULT_UNKNOWN)
        } else {
            s0.projected_values.get(p)
        } by {
            if exists|t: PlaceView| #[trigger] spec_copy_hit(s0, *o, t) && p.0 == t.0 && spec_paths_overlap(p.1, t.1) {
                let t = choose|t: PlaceView| #[trigger] spec_copy_hit(s0, *o, t) && p.0 == t.0 && spec_paths_overlap(p.1, t.1);
                let j = choose|j: int| 0 <= j < n && #[trigger] spec_hits_local(refs, j, t);
                assert(spec_hits_place(refs, j, p));
            }
            if exists|j: int| 0 <= j < n && #[trigger] spec_hits_place(refs, j, p) {
                let j = choose|j: int| 0 <= j < n && #[trigger] spec_hits_place(refs, j, p);
                assert(spec_hits_local(refs, j, refs.key(j)));
                assert(spec_copy_hit(s0, *o, refs.key(j)));
            }
        }
        assert forall|l: PlaceView| #[trigger] state.discriminants.get(l) == match s0.discriminants.get(l) {
            Some(d) => if exists|t: PlaceView| #[trigger] spec_copy_hit(s0, *o, t) && spec_tests_source(d.source, t) {
                None
            } else {
                Some(d)
            },
            None => None,
        } by {
            if let Some(d) = s0.discriminants.get(l) {
                if exists|t: PlaceView| #[trigger] spec_copy_hit(s0, *o, t) && spec_tests_source(d.source, t) {
                    let t = choose|t: PlaceView| #[trigger] spec_copy_hit(s0, *o, t) && spec_tests_source(d.source, t);
                    let j = choose|j: int| 0 <= j < n && #[trigger] spec_hits_local(refs, j, t);
                    assert(spec_hits_test(refs, j, d.source));
                }
                if exists|j: int| 0 <= j < n && #[trigger] spec_hits_test(refs, j, d.source) {
                    let j = choose|j: int| 0 <= j < n && #[trigger] spec_hits_test(refs, j, d.source);
                    assert(spec_hits_local(refs, j, refs.key(j)));
                    assert(spec_copy_hit(s0, *o, refs.key(j)));
                }
            }
        }
        assert forall|l: PlaceView| #[trigger] state.predicates.get(l) == match s0.predicates.get(l) {
            Some(q) => if exists|t: PlaceView| #[trigger] spec_copy_hit(s0, *o, t) && spec_tests_source(q.0, t) {
                None
            } else {
                Some(q)
            },
            None => None,
        } by {
            if let Some(q) = s0.predicates.get(l) {
                if exists|t: PlaceView| #[trigger] spec_copy_hit(s0, *o, t) && spec_tests_source(q.0, t) {
                    let t = choose|t: PlaceView| #[trigger] spec_copy_hit(s0, *o, t) && spec_tests_source(q.0, t);
                    let j = choose|j: int| 0 <= j < n && #[trigger] spec_hits_local(refs, j, t);
                    assert(spec_hits_test(refs, j, q.0));
                }
                if exists|j: int| 0 <= j < n && #[trigger] spec_hits_test(refs, j, q.0) {
                    let j = choose|j: int| 0 <= j < n && #[trigger] spec_hits_test(refs, j, q.0);
                    assert(spec_hits_local(refs, j, refs.key(j)));
                    assert(spec_copy_hit(s0, *o, refs.key(j)));
                }
            }
        }
    }
}

/// After an assignment into a coroutine's `Result` field: the field is
/// saved across suspension points; nothing else changes.
pub open spec fn spec_saved_recorded(a: ResultFlowState, b: ResultFlowState, dest: MirPlace, locals: Seq<TypeFacts>) -> bool {
    &&& b.wf()
    &&& b.values == a.values
    &&& b.projected_values == a.projected_values
    &&& b.references == a.references
    &&& b.discriminants == a.discriminants
    &&& b.predicates == a.predicates
    &&& b.escaped_results == a.escaped_results
    &&& forall|p: PlaceView| #[trigger] b.coroutine_saved_values.get(p) == if dest.ty.is_result && dest.projection@.len() > 0
        && locals[dest.local as int].holds_coroutine && p == spec_mir_key(dest) {
        Some(())
    } else {
        a.coroutine_saved_values.get(p)
    }
}

/// After the references of an assignment are recorded.
pub open spec fn spec_references_assigned(a: ResultFlowState, b: ResultFlowState, dest: MirPlace, v: MirRvalue) -> bool {
    &&& b.wf()
    &&& forall|l: PlaceView, t: PlaceView| #[trigger] spec_inner_get(b.references, l, t) == spec_assigned_reference(a, dest, v, l, t)
    &&& forall|l: PlaceView| #[trigger] b.references.has(l) == spec_assigned_has(a, dest, v, l)
    &&& b.values == a.values
    &&& b.projected_values == a.projected_values
    &&& b.discriminants == a.discriminants
    &&& b.predicates == a.predicates
    &&& b.escaped_results == a.escaped_results
    &&& b.coroutine_saved_values == a.coroutine_saved_values
}

/// The predicate a plain copy of a local carries over, as a plain value.
pub open spec fn spec_copied_predicate(s: ResultFlowState, v: MirRvalue) -> Option<(PlaceView, bool)> {
    match v {
        MirRvalue::Use(o) => match spec_operand_local(o) {
            Some(l) => match s.predicates.get((l, Seq::empty())) {
                Some(q) => Some(spec_predicate_view(q)),
                None => None,
            },
            None => None,
        },
        _ => None,
    }
}

/// The analysis follows the variants of a place: its type is a `Result`,
/// or it is a tracked local or projected place.
pub open spec fn spec_tracks_result(s: ResultFlowState, src: MirPlace) -> bool {
    ||| src.ty.is_result
    ||| (src.projection@.len() == 0 && s.values.has((src.local, Seq::empty())))
    ||| s.projected_values.has(spec_mir_key(src))
}

/// After an assignment to a whole local: it holds the discriminant of the
/// place it reads when the analysis follows that place, and the predicate
/// of the local it copies, if any; otherwise neither.  An assignment to a
/// projection changes neither.
pub open spec fn spec_relations_recorded(
    a: ResultFlowState,
    b: ResultFlowState,
    dest: MirPlace,
    v: MirRvalue,
    copied: Option<(PlaceView, bool)>,
) -> bool {
    let dl: PlaceView = (dest.local, Seq::empty());
    &&& b.wf()
    &&& b.values == a.values
    &&& b.projected_values == a.projected_values
    &&& b.references == a.references
    &&& b.escaped_results == a.escaped_results
    &&& b.coroutine_saved_values == a.coroutine_saved_values
    &&& if dest.projection@.len() > 0 {
        b.discriminants == a.discriminants && b.predicates == a.predicates
    } else {
        &&& forall|l: PlaceView| l != dl ==> #[trigger] b.discriminants.get(l) == a.discriminants.get(l)
        &&& forall|l: PlaceView| l != dl ==> #[trigger] b.predicates.get(l) == a.predicates.get(l)
        &&& match v {
            MirRvalue::Discriminant(src) => if spec_tracks_result(a, src) {
                b.discriminants.get(dl) is Some && spec_discriminant_view(b.discriminants.get(dl)->0) == (spec_mir_key(src), src.ty.is_poll)
            } else {
                b.discriminants.get(dl) is None
            },
            _ => b.discriminants.get(dl) is None,
        }
        &&& match copied {
            Some(c) => b.predicates.get(dl) is Some && spec_predicate_view(b.predicates.get(dl)->0) == c,
            None => b.predicates.get(dl) is None,
        }
    }
}

/// An assignment `dest = v`, in its steps: what is tracked of places that
/// may overlap `dest` is forgotten; the variants `v` gives (read before
/// that step for a projection, after it for a whole local) are assigned;
/// a coroutine's `Result` field is saved; the references `v` gives are
/// recorded; a whole local takes the discriminant and predicate `v`
/// carries.
pub open spec fn spec_assign_step(s0: ResultFlowState, s5: ResultFlowState, dest: MirPlace, v: MirRvalue, locals: Seq<TypeFacts>) -> bool {
    exists|s1: ResultFlowState, s2: ResultFlowState, s3: ResultFlowState, s4: ResultFlowState|
        #![trigger spec_cleared(s0, s1, spec_mir_key(dest)), spec_saved_recorded(s2, s3, dest, locals), spec_references_assigned(s3, s4, dest, v)]
        spec_cleared(s0, s1, spec_mir_key(dest))
            && spec_assigned(s1, s2, dest, spec_rvalue_value(if dest.projection@.len() == 0 { s1 } else { s0 }, dest, v, locals))
            && spec_saved_recorded(s2, s3, dest, locals)
            && spec_references_assigned(s3, s4, dest, v)
            && spec_relations_recorded(s4, s5, dest, v, spec_copied_predicate(s3, v))
}

/// Applies an assignment `dest = v`.
#[allow(non_snake_case)]
pub fn rvs_apply_assign_M(state: &mut ResultFlowState, dest: &MirPlace, v: &MirRvalue, locals: &Vec<TypeFacts>)
    requires
        old(state).wf(),
        spec_values_nonzero(*old(state)),
        dest.local < locals@.len(),
        spec_rvalue_in(*v, locals@),
    ensures
        final(state).wf(),
        spec_assign_step(*old(state), *final(state), *dest, *v, locals@),
{
    let ghost s0 = *state;
    let key = rvs_projected_place_key(dest);
    let whole = dest.projection.len() == 0;
    let mut value: u8 = 0;
    if !whole {
        value = rvs_rvalue_result_value(state, dest, v, locals);
    }
    rvs_clear_assigned_M(state, &key);
    let ghost s1 = *state;
    proof {
        assert(spec_values_nonzero(s1)) by {
            assert forall|k: PlaceView| #[trigger] s1.projected_values.get(k) is Some implies s1.projected_values.get(k)->0 != 0 by {
                assert(s0.projected_values.get(k) is Some);
            }
        }
    }
    if whole {
        value = rvs_rvalue_result_value(state, dest, v, locals);
    }
    proof {
        if whole {
            lemma_rvalue_value_nonzero(s1, *dest, *v, locals@);
        } else {
            lemma_rvalue_value_nonzero(s0, *dest, *v, locals@);
        }
    }
    rvs_assign_result_value_M(state, dest, value, dest.ty.is_result);
    let ghost s2 = *state;
    if dest.ty.is_result && !whole && locals[dest.local as usize].holds_coroutine {
        state.coroutine_saved_values.rvs_insert_M(key.rvs_dup(), ());
    }
    let ghost s3 = *state;
    let copied: Option<(ResultPlaceKey, bool)> = match v {
        MirRvalue::Use(o) => match rvs_operand_local(o) {
            Some(l) => match state.predicates.rvs_get(&l) {
                Some(q) => Some((q.0.rvs_dup(), q.1)),
                None => None,
            },
            None => None,
        },
        _ => None,
    };
    proof {
        assert(match copied {
            Some(c) => spec_copied_predicate(s3, *v) == Some(spec_predicate_view(c)),
            None => spec_copied_predicate(s3, *v) is None,
        });
    }
    rvs_assign_references_M(state, dest, v);
    let ghost s4 = *state;
    if whole {
        match v {
            MirRvalue::Discriminant(src) => {
                let src_key = rvs_projected_place_key(src);
                let tracks = src.ty.is_result || (src.projection.len() == 0 && state.values.rvs_contains(&src.local))
                    || state.projected_values.rvs_contains(&src_key);
                proof {
                    if src.projection@.len() == 0 {
                        assert(src_key.spec_key().1 =~= Seq::<(Seq<char>, bool, bool)>::empty());
                    }
                }
                if tracks {
                    state.discriminants.rvs_insert_M(dest.local, ResultDiscriminant { source: src_key, is_poll: src.ty.is_poll });
                } else {
                    state.discriminants.rvs_remove_M(&dest.local);
                }
            },
            _ => {
                state.discriminants.rvs_remove_M(&dest.local);
            },
        }
        match copied {
            Some(q) => {
                state.predicates.rvs_insert_M(dest.local, q);
            },
            None => {
                state.predicates.rvs_remove_M(&dest.local);
            },
        }
    }
    proof {
        assert(spec_cleared(s0, s1, spec_mir_key(*dest)));
        assert(spec_saved_recorded(s2, s3, *dest, locals@));
        assert(spec_references_assigned(s3, s4, *dest, *v));
        assert(spec_relations_recorded(s4, *state, *dest, *v, spec_copied_predicate(s3, *v)));
    }
}

/// Every local a statement can name belongs to the body.
pub open spec fn spec_statement_in(s: ResultFlowState, stmt: MirStatement, locals: Seq<TypeFacts>) -> bool {
    match stmt {
        MirStatement::Assign(dest, v) => dest.local < locals.len() && spec_rvalue_in(v, locals),
        MirStatement::CopyNonOverlapping(o) => spec_copy_in(s, o, locals),
        _ => true,
    }
}

/// What a statement does to the flow state: an assignment as
/// `spec_assign_step` says; setting a discriminant assigns the variant's
/// value (unknown for a variant of anything but a `Result` or `Poll`); a
/// `copy_nonoverlapping` as `spec_copy_step` says; the end of a local's
/// storage as `spec_storage_dead` says; any other statement changes
/// nothing.
pub open spec fn spec_statement_step(a: ResultFlowState, b: ResultFlowState, stmt: MirStatement, locals: Seq<TypeFacts>) -> bool {
    match stmt {
        MirStatement::Assign(dest, v) => spec_assign_step(a, b, dest, v, locals),
        MirStatement::SetDiscriminant(p, variant) => spec_assigned(a, b, p, match spec_variant_value(a, variant, None, locals) {
            Some(x) => x,
            None => RVS_RESULT_UNKNOWN,
        }),
        MirStatement::CopyNonOverlapping(o) => spec_copy_step(a, b, o, locals),
        MirStatement::StorageDead(l) => spec_storage_dead(a, b, l),
        MirStatement::Other => b == a,
    }
}

/// Applies a statement to the flow state.
#[allow(non_snake_case)]
pub fn rvs_apply_statement_M(state: &mut ResultFlowState, statement: &MirStatement, locals: &Vec<TypeFacts>)
    requires
        old(state).wf(),
        spec_values_nonzero(*old(state)),
        spec_statement_in(*old(state), *statement, locals@),
    ensures
        final(state).wf(),
        spec_statement_step(*old(state), *final(state), *statement, locals@),
{
    match statement {
        MirStatement::Assign(dest, v) => rvs_apply_assign_M(state, dest, v, locals),
        MirStatement::SetDiscriminant(p, variant) => {
            let value = match rvs_result_variant_value(state, *variant, None, locals) {
                Some(x) => x,
                None => RVS_RESULT_UNKNOWN,
            };
            rvs_assign_result_value_M(state, p, value, p.ty.is_result);
        },
        MirStatement::CopyNonOverlapping(o) => rvs_copy_nonoverlapping_M(state, o, locals),
        MirStatement::StorageDead(l) => rvs_storage_dead_M(state, *l),
        MirStatement::Other => {},
    }
}

// ------------------------------------------------------------ terminators

/// Places forgotten at once: each becomes unknown as a write through an
/// unknown reference would leave it; those in `esc` escape too.
pub open spec fn spec_forgotten(a: ResultFlowState, b: ResultFlowState, hit: Set<PlaceView>, esc: Set<PlaceView>, locals: Seq<TypeFacts>) -> bool {
    &&& b.wf()
    &&& forall|k: PlaceView| #[trigger] b.values.get(k) == if k.1.len() == 0 && hit.contains(k) && a.values.has(k) {
        Some(spec_unknown_value(locals[k.0 as int]))
    } else {
        a.values.get(k)
    }
    &&& forall|p: PlaceView| #[trigger] b.projected_values.get(p) == if a.projected_values.has(p)
        && exists|t: PlaceView| #[trigger] hit.contains(t) && p.0 == t.0 && spec_paths_overlap(p.1, t.1) {
        Some(RVS_RESULT_UNKNOWN)
    } else {
        a.projected_values.get(p)
    }
    &&& forall|l: PlaceView| #[trigger] b.discriminants.get(l) == match a.discriminants.get(l) {
        Some(d) => if exists|t: PlaceView| #[trigger] hit.contains(t) && spec_tests_source(d.source, t) { None } else { Some(d) },
        None => None,
    }
    &&& forall|l: PlaceView| #[trigger] b.predicates.get(l) == match a.predicates.get(l) {
        Some(q) => if exists|t: PlaceView| #[trigger] hit.contains(t) && spec_tests_source(q.0, t) { None } else { Some(q) },
        None => None,
    }
    &&& forall|p: PlaceView| #[trigger] b.escaped_results.get(p) == if esc.contains(p) { Some(()) } else { a.escaped_results.get(p) }
    &&& b.references == a.references
    &&& b.coroutine_saved_values == a.coroutine_saved_values
}

/// The places a list of targets names.
pub open spec fn spec_target_set(ts: Seq<(ResultPlaceKey, bool)>) -> Set<PlaceView> {
    Set::new(|t: PlaceView| exists|j: int| 0 <= j < ts.len() && #[trigger] ts[j].0.spec_key() == t)
}

/// The places of a list of targets that escape.
pub open spec fn spec_escape_set(ts: Seq<(ResultPlaceKey, bool)>) -> Set<PlaceView> {
    Set::new(|t: PlaceView| exists|j: int| 0 <= j < ts.len() && #[trigger] ts[j].0.spec_key() == t && ts[j].1)
}

proof fn lemma_forgotten_step(
    s0: ResultFlowState,
    before: ResultFlowState,
    after: ResultFlowState,
    ts: Seq<(ResultPlaceKey, bool)>,
    i: int,
    locals: Seq<TypeFacts>,
)
    requires
        0 <= i < ts.len(),
        spec_forgotten(s0, before, spec_target_set(ts.take(i)), spec_escape_set(ts.take(i)), locals),
        after.wf(),
        ({
            let t = ts[i].0.spec_key();
            &&& forall|l: PlaceView| #[trigger] after.discriminants.get(l) == match before.discriminants.get(l) {
                Some(d) => if spec_tests_source(d.source, t) { None } else { Some(d) },
                None => None,
            }
            &&& forall|l: PlaceView| #[trigger] after.predicates.get(l) == match before.predicates.get(l) {
                Some(q) => if spec_tests_source(q.0, t) { None } else { Some(q) },
                None => None,
            }
            &&& forall|k: PlaceView| #[trigger] after.values.get(k) == if t.1.len() == 0 && k == t && before.values.has(k) {
                Some(spec_unknown_value(locals[t.0 as int]))
            } else {
                before.values.get(k)
            }
            &&& forall|p: PlaceView| #[trigger] after.projected_values.get(p) == if before.projected_values.has(p)
                && p.0 == t.0 && spec_paths_overlap(p.1, t.1) {
                Some(RVS_RESULT_UNKNOWN)
            } else {
                before.projected_values.get(p)
            }
            &&& forall|p: PlaceView| #[trigger] after.escaped_results.get(p) == if ts[i].1 && p == t {
                Some(())
            } else {
                before.escaped_results.get(p)
            }
            &&& after.references == before.references
            &&& after.coroutine_saved_values == before.coroutine_saved_values
        }),
    ensures
        spec_forgotten(s0, after, spec_target_set(ts.take(i + 1)), spec_escape_set(ts.take(i + 1)), locals),
{
    let t = ts[i].0.spec_key();
    let h0 = spec_target_set(ts.take(i));
    let h1 = spec_target_set(ts.take(i + 1));
    let e0 = spec_escape_set(ts.take(i));
    let e1 = spec_escape_set(ts.take(i + 1));
    assert forall|x: PlaceView| #[trigger] h1.contains(x) == (h0.contains(x) || x == t) by {
        if h1.contains(x) {
            let j = choose|j: int| 0 <= j < ts.take(i + 1).len() && #[trigger] ts.take(i + 1)[j].0.spec_key() == x;
            if j < i {
                assert(ts.take(i)[j] == ts.take(i + 1)[j]);
            }
        }
        if h0.contains(x) {
            let j = choose|j: int| 0 <= j < ts.take(i).len() && #[trigger] ts.take(i)[j].0.spec_key() == x;
            assert(ts.take(i)[j] == ts.take(i + 1)[j]);
        }
        if x == t {
            assert(ts.take(i + 1)[i] == ts[i]);
        }
    }
    assert forall|x: PlaceView| #[trigger] e1.contains(x) == (e0.contains(x) || (x == t && ts[i].1)) by {
        if e1.contains(x) {
            let j = choose|j: int| 0 <= j < ts.take(i + 1).len() && #[trigger] ts.take(i + 1)[j].0.spec_key() == x && ts.take(i + 1)[j].1;
            if j < i {
                assert(ts.take(i)[j] == ts.take(i + 1)[j]);
            }
        }
        if e0.contains(x) {
            let j = choose|j: int| 0 <= j < ts.take(i).len() && #[trigger] ts.take(i)[j].0.spec_key() == x && ts.take(i)[j].1;
            assert(ts.take(i)[j] == ts.take(i + 1)[j]);
        }
        if x == t && ts[i].1 {
            assert(ts.take(i + 1)[i] == ts[i]);
        }
    }
    assert forall|k: PlaceView| #[trigger] after.values.get(k) == if k.1.len() == 0 && h1.contains(k) && s0.values.has(k) {
        Some(spec_unknown_value(locals[k.0 as int]))
    } else {
        s0.values.get(k)
    } by {
        assert(h1.contains(k) == (h0.contains(k) || k == t));
        assert(before.values.get(k) is Some == s0.values.get(k) is Some);
    }
    assert forall|p: PlaceView| #[trigger] after.projected_values.get(p) == if s0.projected_values.has(p)
        && exists|x: PlaceView| #[trigger] h1.contains(x) && p.0 == x.0 && spec_paths_overlap(p.1, x.1) {
        Some(RVS_RESULT_UNKNOWN)
    } else {
        s0.projected_values.get(p)
    } by {
        let prev = exists|x: PlaceView| #[trigger] h0.contains(x) && p.0 == x.0 && spec_paths_overlap(p.1, x.1);
        if exists|x: PlaceView| #[trigger] h1.contains(x) && p.0 == x.0 && spec_paths_overlap(p.1, x.1) {
            let x = choose|x: PlaceView| #[trigger] h1.contains(x) && p.0 == x.0 && spec_paths_overlap(p.1, x.1);
            assert(h1.contains(x) == (h0.contains(x) || x == t));
        }
        if prev {
            let x = choose|x: PlaceView| #[trigger] h0.contains(x) && p.0 == x.0 && spec_paths_overlap(p.1, x.1);
            assert(h1.contains(x) == (h0.contains(x) || x == t));
        }
        assert(h1.contains(t) == (h0.contains(t) || t == t));
        assert(before.projected_values.get(p) is Some == s0.projected_values.get(p) is Some);
    }
    assert forall|l: PlaceView| #[trigger] after.discriminants.get(l) == match s0.discriminants.get(l) {
        Some(d) => if exists|x: PlaceView| #[trigger] h1.contains(x) && spec_tests_source(d.source, x) { None } else { Some(d) },
        None => None,
    } by {
        if let Some(d) = s0.discriminants.get(l) {
            if exists|x: PlaceView| #[trigger] h1.contains(x) && spec_tests_source(d.source, x) {
                let x = choose|x: PlaceView| #[trigger] h1.contains(x) && spec_tests_source(d.source, x);
                assert(h1.contains(x) == (h0.contains(x) || x == t));
            }
            if exists|x: PlaceView| #[trigger] h0.contains(x) && spec_tests_source(d.source, x) {
                let x = choose|x: PlaceView| #[trigger] h0.contains(x) && spec_tests_source(d.source, x);
                assert(h1.contains(x) == (h0.contains(x) || x == t));
            }
            assert(h1.contains(t) == (h0.contains(t) || t == t));
        }
    }
    assert forall|l: PlaceView| #[trigger] after.predicates.get(l) == match s0.predicates.get(l) {
        Some(q) => if exists|x: PlaceView| #[trigger] h1.contains(x) && spec_tests_source(q.0, x) { None } else { Some(q) },
        None => None,
    } by {
        if let Some(q) = s0.predicates.get(l) {
            if exists|x: PlaceView| #[trigger] h1.contains(x) && spec_tests_source(q.0, x) {
                let x = choose|x: PlaceView| #[trigger] h1.contains(x) && spec_tests_source(q.0, x);
                assert(h1.contains(x) == (h0.contains(x) || x == t));
            }
            if exists|x: PlaceView| #[trigger] h0.contains(x) && spec_tests_source(q.0, x) {
                let x = choose|x: PlaceView| #[trigger] h0.contains(x) && spec_tests_source(q.0, x);
                assert(h1.contains(x) == (h0.contains(x) || x == t));
            }
            assert(h1.contains(t) == (h0.contains(t) || t == t));
        }
    }
    assert forall|p: PlaceView| #[trigger] after.escaped_results.get(p) == if e1.contains(p) { Some(()) } else { s0.escaped_results.get(p) } by {
        assert(e1.contains(p) == (e0.contains(p) || (p == t && ts[i].1)));
    }
}

/// Forgets every target of a list, each escaping when its flag says so.
#[allow(non_snake_case)]
pub fn rvs_forget_targets_M(state: &mut ResultFlowState, targets: &Vec<(ResultPlaceKey, bool)>, locals: &Vec<TypeFacts>)
    requires
        old(state).wf(),
        forall|j: int| 0 <= j < targets@.len() ==> (#[trigger] targets@[j]).0.local < locals@.len(),
    ensures
        spec_forgotten(*old(state), *final(state), spec_target_set(targets@), spec_escape_set(targets@), locals@),
{
    let ghost s0 = *state;
    proof {
        assert(spec_target_set(targets@.take(0)) =~= Set::<PlaceView>::empty());
        assert(spec_escape_set(targets@.take(0)) =~= Set::<PlaceView>::empty());
    }
    let mut i: usize = 0;
    while i < targets.len()
        invariant
            state.wf(),
            i <= targets@.len(),
            forall|j: int| 0 <= j < targets@.len() ==> (#[trigger] targets@[j]).0.local < locals@.len(),
            spec_forgotten(s0, *state, spec_target_set(targets@.take(i as int)), spec_escape_set(targets@.take(i as int)), locals@),
        decreases targets@.len() - i,
    {
        let ghost before = *state;
        let target = &targets[i].0;
        assert(targets@[i as int].0.local < locals@.len());
        if targets[i].1 {
            state.escaped_results.rvs_insert_M(target.rvs_dup(), ());
        }
        let ghost escaped_now = *state;
        let unknown = rvs_unknown_result_value(locals[target.local as usize]);
        rvs_set_result_target_unknown_M(state, target, unknown);
        proof {
            let t = target.spec_key();
            assert(t.1.len() == target.projections@.len());
            assert(escaped_now.values == before.values);
            assert(escaped_now.projected_values == before.projected_values);
            assert(escaped_now.discriminants == before.discriminants);
            assert(escaped_now.predicates == before.predicates);
            lemma_forgotten_step(s0, before, *state, targets@, i as int, locals@);
        }
        i = i + 1;
    }
    proof {
        assert(targets@.take(targets@.len() as int) =~= targets@);
    }
}

/// A reference that is there and can change a variant.
pub open spec fn spec_can_change(r: Option<ResultReference>) -> bool {
    match r {
        Some(x) => x.direct_mutable || x.nested_mutable,
        None => false,
    }
}

/// Some target from position `from` on names `t`.
pub open spec fn spec_names_from(ts: Seq<(ResultPlaceKey, bool)>, from: int, t: PlaceView) -> bool {
    exists|j: int| from <= j < ts.len() && #[trigger] ts[j].0.spec_key() == t
}

/// One of the first `i` entries of the map reaches `t` through a
/// reference that can change a variant.
pub open spec fn spec_changes_before(m: ResultReferenceMap, i: int, t: PlaceView) -> bool {
    exists|k: int| 0 <= k < i && #[trigger] m.key(k) == t && (m.val(k).direct_mutable || m.val(k).nested_mutable)
}

/// Appends every place a map reaches through a reference that can change
/// a variant, flagged with `escape`.
pub(crate) fn rvs_push_changing_targets(targets: &mut Vec<(ResultPlaceKey, bool)>, m: &ResultReferenceMap, escape: bool)
    requires
        m.wf(),
    ensures
        final(targets)@.len() >= old(targets)@.len(),
        forall|j: int| 0 <= j < old(targets)@.len() ==> #[trigger] final(targets)@[j] == old(targets)@[j],
        forall|j: int| old(targets)@.len() <= j < final(targets)@.len() ==> #[trigger] final(targets)@[j].1 == escape,
        forall|t: PlaceView| #[trigger] spec_names_from(final(targets)@, old(targets)@.len() as int, t) == spec_can_change(m.get(t)),
{
    let ghost start = targets@;
    let ghost n = start.len() as int;
    let mut i: usize = 0;
    while i < m.rvs_len()
        invariant
            m.wf(),
            i <= m.len_spec(),
            n == start.len(),
            targets@.len() >= start.len(),
            forall|j: int| 0 <= j < start.len() ==> #[trigger] targets@[j] == start[j],
            forall|j: int| start.len() <= j < targets@.len() ==> #[trigger] targets@[j].1 == escape,
            forall|t: PlaceView| #[trigger] spec_names_from(targets@, n, t) == spec_changes_before(*m, i as int, t),
        decreases m.len_spec() - i,
    {
        let r = *m.rvs_value_at(i);
        let ghost before = targets@;
        if r.rvs_can_change_variant() {
            targets.push((m.rvs_key_at(i).rvs_dup(), escape));
        }
        proof {
            assert forall|t: PlaceView| #[trigger] spec_names_from(targets@, n, t) == spec_changes_before(*m, i + 1, t) by {
                if spec_names_from(targets@, n, t) {
                    let j = choose|j: int| n <= j < targets@.len() && #[trigger] targets@[j].0.spec_key() == t;
                    if j < before.len() {
                        assert(before[j] == targets@[j]);
                        assert(spec_names_from(before, n, t));
                        let k = choose|k: int| 0 <= k < i && #[trigger] m.key(k) == t && (m.val(k).direct_mutable || m.val(k).nested_mutable);
                        assert(0 <= k < i + 1);
                    } else {
                        assert(m.key(i as int) == t);
                    }
                }
                if spec_changes_before(*m, i + 1, t) {
                    let k = choose|k: int| 0 <= k < i + 1 && #[trigger] m.key(k) == t && (m.val(k).direct_mutable || m.val(k).nested_mutable);
                    if k < i {
                        assert(spec_changes_before(*m, i as int, t));
                        assert(spec_names_from(before, n, t));
                        let j = choose|j: int| n <= j < before.len() && #[trigger] before[j].0.spec_key() == t;
                        assert(targets@[j] == before[j]);
                    } else {
                        assert(targets@[before.len() as int].0.spec_key() == t);
                    }
                }
            }
        }
        i = i + 1;
    }
    proof {
        assert forall|t: PlaceView| #[trigger] spec_changes_before(*m, m.len_spec() as int, t) == spec_can_change(m.get(t)) by {
            if m.has(t) {
                let k = m.index_of(t);
                m.lemma_index_unique(k);
            }
            if spec_changes_before(*m, m.len_spec() as int, t) {
                let k = choose|k: int| 0 <= k < m.len_spec() && #[trigger] m.key(k) == t && (m.val(k).direct_mutable || m.val(k).nested_mutable);
                m.lemma_index_unique(k);
            }
        }
    }
}

/// A drop of a place: every place it reaches through a reference that can
/// change a variant is forgotten.
pub open spec fn spec_drop_targets(s: ResultFlowState, p: MirPlace) -> Set<PlaceView> {
    Set::new(|t: PlaceView| spec_can_change(spec_place_reference(s, p, t)))
}

/// Every place a drop of `p` reaches belongs to a local of the body.
pub open spec fn spec_drop_in(s: ResultFlowState, p: MirPlace, locals: Seq<TypeFacts>) -> bool {
    forall|t: PlaceView| #[trigger] spec_drop_targets(s, p).contains(t) ==> t.0 < locals.len()
}

/// Applies the drop of a place.
#[allow(non_snake_case)]
pub fn rvs_apply_drop_M(state: &mut ResultFlowState, p: &MirPlace, locals: &Vec<TypeFacts>)
    requires
        old(state).wf(),
        spec_drop_in(*old(state), *p, locals@),
    ensures
        spec_forgotten(*old(state), *final(state), spec_drop_targets(*old(state), *p), Set::empty(), locals@),
{
    let ghost s0 = *state;
    let references = rvs_place_references(state, p);
    let mut targets: Vec<(ResultPlaceKey, bool)> = Vec::new();
    rvs_push_changing_targets(&mut targets, &references, false);
    proof {
        assert forall|t: PlaceView| #[trigger] spec_target_set(targets@).contains(t) == spec_drop_targets(s0, *p).contains(t) by {
            assert(references.get(t) == spec_place_reference(s0, *p, t));
            assert(spec_names_from(targets@, 0, t) == spec_can_change(references.get(t)));
            if spec_names_from(targets@, 0, t) {
                let j = choose|j: int| 0 <= j < targets@.len() && #[trigger] targets@[j].0.spec_key() == t;
                assert(spec_target_set(targets@).contains(t));
            }
            if spec_target_set(targets@).contains(t) {
                let j = choose|j: int| 0 <= j < targets@.len() && #[trigger] targets@[j].0.spec_key() == t;
                assert(spec_names_from(targets@, 0, t));
            }
        }
        assert(spec_target_set(targets@) =~= spec_drop_targets(s0, *p));
        assert forall|t: PlaceView| !#[trigger] spec_escape_set(targets@).contains(t) by {
            if spec_escape_set(targets@).contains(t) {
                let j = choose|j: int| 0 <= j < targets@.len() && #[trigger] targets@[j].0.spec_key() == t && targets@[j].1;
            }
        }
        assert(spec_escape_set(targets@) =~= Set::<PlaceView>::empty());
        assert forall|j: int| 0 <= j < targets@.len() implies (#[trigger] targets@[j]).0.local < locals@.len() by {
            let t = targets@[j].0.spec_key();
            assert(spec_drop_targets(s0, *p).contains(t)) by {
                assert(spec_target_set(targets@).contains(t));
            }
        }
    }
    rvs_forget_targets_M(state, &targets, locals);
}

/// Inline assembly: every place some local reaches through a reference
/// that can change a variant, and every escaped place, escapes and is
/// forgotten.
pub open spec fn spec_asm_targets(s: ResultFlowState) -> Set<PlaceView> {
    Set::new(|t: PlaceView| (exists|l: PlaceView| #[trigger] spec_can_change(spec_inner_get(s.references, l, t)))
        || s.escaped_results.has(t))
}

/// Every place inline assembly may reach belongs to a local of the body.
pub open spec fn spec_asm_in(s: ResultFlowState, locals: Seq<TypeFacts>) -> bool {
    forall|t: PlaceView| #[trigger] spec_asm_targets(s).contains(t) ==> t.0 < locals.len()
}

/// One of the first `i` reference maps reaches `t` through a reference
/// that can change a variant.
pub open spec fn spec_maps_change_before(refs: FlowMap<u32, ResultReferenceMap>, i: int, t: PlaceView) -> bool {
    exists|k: int| 0 <= k < i && #[trigger] spec_can_change(refs.val(k).get(t))
}

/// Applies inline assembly.
#[allow(non_snake_case)]
pub fn rvs_apply_inline_asm_M(state: &mut ResultFlowState, locals: &Vec<TypeFacts>)
    requires
        old(state).wf(),
        spec_asm_in(*old(state), locals@),
    ensures
        spec_forgotten(*old(state), *final(state), spec_asm_targets(*old(state)), spec_asm_targets(*old(state)), locals@),
{
    let ghost s0 = *state;
    let mut targets: Vec<(ResultPlaceKey, bool)> = Vec::new();
    let refs = &state.references;
    let mut i: usize = 0;
    while i < refs.rvs_len()
        invariant
            state.wf(),
            refs == &state.references,
            i <= refs.len_spec(),
            forall|j: int| 0 <= j < targets@.len() ==> #[trigger] targets@[j].1,
            forall|t: PlaceView| #[trigger] spec_names_from(targets@, 0, t) == spec_maps_change_before(*refs, i as int, t),
        decreases refs.len_spec() - i,
    {
        let ghost before = targets@;
        proof {
            assert(refs.val(i as int).wf());
        }
        rvs_push_changing_targets(&mut targets, refs.rvs_value_at(i), true);
        proof {
            assert forall|t: PlaceView| #[trigger] spec_names_from(targets@, 0, t) == spec_maps_change_before(*refs, i + 1, t) by {
                if spec_names_from(targets@, 0, t) {
                    let j = choose|j: int| 0 <= j < targets@.len() && #[trigger] targets@[j].0.spec_key() == t;
                    if j < before.len() {
                        assert(before[j] == targets@[j]);
                        assert(spec_names_from(before, 0, t));
                        let k = choose|k: int| 0 <= k < i && #[trigger] spec_can_change(refs.val(k).get(t));
                        assert(0 <= k < i + 1);
                    } else {
                        assert(spec_names_from(targets@, before.len() as int, t));
                        assert(spec_can_change(refs.val(i as int).get(t)));
                    }
                }
                if spec_maps_change_before(*refs, i + 1, t) {
                    let k = choose|k: int| 0 <= k < i + 1 && #[trigger] spec_can_change(refs.val(k).get(t));
                    if k < i {
                        assert(spec_maps_change_before(*refs, i as int, t));
                        assert(spec_names_from(before, 0, t));
                        let j = choose|j: int| 0 <= j < before.len() && #[trigger] before[j].0.spec_key() == t;
                        assert(targets@[j] == before[j]);
                    } else {
                        assert(spec_names_from(targets@, before.len() as int, t));
                        let j = choose|j: int| before.len() <= j < targets@.len() && #[trigger] targets@[j].0.spec_key() == t;
                    }
                }
            }
        }
        i = i + 1;
    }
    let ghost from_refs = targets@;
    let escaped = &state.escaped_results;
    let mut k: usize = 0;
    while k < escaped.rvs_len()
        invariant
            escaped == &state.escaped_results,
            k <= escaped.len_spec(),
            targets@.len() == from_refs.len() + k,
            forall|j: int| 0 <= j < from_refs.len() ==> #[trigger] targets@[j] == from_refs[j],
            forall|j: int| 0 <= j < k ==> #[trigger] targets@[from_refs.len() + j].0.spec_key() == escaped.key(j),
            forall|j: int| 0 <= j < targets@.len() ==> #[trigger] targets@[j].1,
        decreases escaped.len_spec() - k,
    {
        targets.push((escaped.rvs_key_at(k).rvs_dup(), true));
        k = k + 1;
    }
    proof {
        let n = from_refs.len();
        assert forall|t: PlaceView| #[trigger] spec_target_set(targets@).contains(t) == spec_asm_targets(s0).contains(t) by {
            let via_refs = exists|l: PlaceView| #[trigger] spec_can_change(spec_inner_get(s0.references, l, t));
            assert(via_refs == (exists|k: int| 0 <= k < s0.references.len_spec() && #[trigger] spec_can_change(s0.references.val(k).get(t)))) by {
                if via_refs {
                    let l = choose|l: PlaceView| #[trigger] spec_can_change(spec_inner_get(s0.references, l, t));
                    let k = s0.references.index_of(l);
                    s0.references.lemma_index_unique(k);
                    assert(spec_can_change(s0.references.val(k).get(t)));
                }
                if exists|k: int| 0 <= k < s0.references.len_spec() && #[trigger] spec_can_change(s0.references.val(k).get(t)) {
                    let k = choose|k: int| 0 <= k < s0.references.len_spec() && #[trigger] spec_can_change(s0.references.val(k).get(t));
                    s0.references.lemma_index_unique(k);
                    assert(spec_can_change(spec_inner_get(s0.references, s0.references.key(k), t)));
                }
            }
            if spec_target_set(targets@).contains(t) {
                let j = choose|j: int| 0 <= j < targets@.len() && #[trigger] targets@[j].0.spec_key() == t;
                if j < n {
                    assert(from_refs[j] == targets@[j]);
                    assert(spec_names_from(from_refs, 0, t));
                    assert(spec_maps_change_before(s0.references, s0.references.len_spec() as int, t));
                } else {
                    assert(targets@[n + (j - n)].0.spec_key() == s0.escaped_results.key(j - n));
                }
            }
            if s0.escaped_results.has(t) {
                let j = choose|j: int| 0 <= j < s0.escaped_results.len_spec() && #[trigger] s0.escaped_results.key(j) == t;
                assert(targets@[n + j].0.spec_key() == t);
            }
            if via_refs {
                assert(spec_maps_change_before(s0.references, s0.references.len_spec() as int, t));
                assert(spec_names_from(from_refs, 0, t));
                let j = choose|j: int| 0 <= j < n && #[trigger] from_refs[j].0.spec_key() == t;
                assert(targets@[j] == from_refs[j]);
            }
        }
        assert(spec_target_set(targets@) =~= spec_asm_targets(s0));
        assert forall|t: PlaceView| #[trigger] spec_escape_set(targets@).contains(t) == spec_target_set(targets@).contains(t) by {
            if spec_target_set(targets@).contains(t) {
                let j = choose|j: int| 0 <= j < targets@.len() && #[trigger] targets@[j].0.spec_key() == t;
                assert(targets@[j].1);
            }
        }
        assert(spec_escape_set(targets@) =~= spec_asm_targets(s0));
        assert forall|j: int| 0 <= j < targets@.len() implies (#[trigger] targets@[j]).0.local < locals@.len() by {
            let t = targets@[j].0.spec_key();
            assert(spec_target_set(targets@).contains(t));
        }
    }
    rvs_forget_targets_M(state, &targets, locals);
}

} // verus!
