//! The value domain of the `Result` flow analysis: which variants a place
//! may hold, how references reach a `Result`, what a local callee may do to
//! its parameters, and how two flow states are joined at a merge point.
use vstd::prelude::*;

use crate::flow_map::{FlowKey, FlowMap, PlaceView};
use crate::text::{rvs_chars_eq, rvs_chars_of};

verus! {

/// The place has not been assigned yet.
pub const RVS_RESULT_UNINITIALIZED: u8 = 1u8;
/// The place may hold `Ok`.
pub const RVS_RESULT_OK: u8 = 2u8;
/// The place may hold `Err`.
pub const RVS_RESULT_ERR: u8 = 4u8;
/// The place may hold `Poll::Pending`.
pub const RVS_RESULT_PENDING: u8 = 8u8;
/// Nothing is known of the variant.
pub const RVS_RESULT_UNKNOWN: u8 = 6u8;
/// Any variant, pending included.
pub const RVS_RESULT_ANY: u8 = 14u8;

/// How a reference reaches a `Result`: directly (the observed `Result`
/// itself) or nested (a `Result` carried in its payload), each possibly
/// mutably.
#[derive(Debug, Clone, Copy, PartialEq, Eq, Structural)]
pub struct ResultReference {
    pub direct: bool,
    pub direct_mutable: bool,
    pub nested: bool,
    pub nested_mutable: bool,
}

impl ResultReference {
    /// No reference.
    pub open spec fn spec_none() -> ResultReference {
        ResultReference { direct: false, direct_mutable: false, nested: false, nested_mutable: false }
    }

    /// A reference joined with another: each way of reaching is kept.
    pub open spec fn spec_join(self, other: ResultReference) -> ResultReference {
        ResultReference {
            direct: self.direct || other.direct,
            direct_mutable: self.direct_mutable || other.direct_mutable,
            nested: self.nested || other.nested,
            nested_mutable: self.nested_mutable || other.nested_mutable,
        }
    }

    /// A mutable reference to the `Result` itself.
    pub fn rvs_direct_mutable() -> (r: ResultReference)
        ensures
            r == (ResultReference { direct: true, direct_mutable: true, nested: false, nested_mutable: false }),
    {
        ResultReference { direct: true, direct_mutable: true, nested: false, nested_mutable: false }
    }

    /// A mutable reference to a `Result` in the payload.
    pub fn rvs_nested_mutable() -> (r: ResultReference)
        ensures
            r == (ResultReference { direct: false, direct_mutable: false, nested: true, nested_mutable: true }),
    {
        ResultReference { direct: false, direct_mutable: false, nested: true, nested_mutable: true }
    }

    /// The reference reaches a `Result` at all.
    pub fn rvs_has_reference(self) -> (r: bool)
        ensures
            r == (self.direct || self.nested),
    {
        self.direct || self.nested
    }

    /// Writing through the reference can change a variant.
    pub fn rvs_can_change_variant(self) -> (r: bool)
        ensures
            r == (self.direct_mutable || self.nested_mutable),
    {
        self.direct_mutable || self.nested_mutable
    }

    /// The same reference, no longer able to change the `Result` itself.
    pub fn rvs_preserve_direct_variant(self) -> (r: ResultReference)
        ensures
            r == (ResultReference { direct_mutable: false, ..self }),
    {
        ResultReference { direct_mutable: false, ..self }
    }

    /// The reference as seen one level further in: whatever it reached is
    /// now nested.
    pub fn rvs_nest(self) -> (r: ResultReference)
        ensures
            r == (ResultReference {
                direct: false,
                direct_mutable: false,
                nested: self.direct || self.nested,
                nested_mutable: self.direct_mutable || self.nested_mutable,
            }),
    {
        ResultReference {
            direct: false,
            direct_mutable: false,
            nested: self.direct || self.nested,
            nested_mutable: self.direct_mutable || self.nested_mutable,
        }
    }

    /// Joins another reference into this one.
    #[allow(non_snake_case)]
    pub fn rvs_join_M(&mut self, other: ResultReference)
        ensures
            *final(self) == old(self).spec_join(other),
    {
        self.direct = self.direct || other.direct;
        self.direct_mutable = self.direct_mutable || other.direct_mutable;
        self.nested = self.nested || other.nested;
        self.nested_mutable = self.nested_mutable || other.nested_mutable;
    }
}

/// Joining keeps every way of reaching, in either order, and joining twice
/// changes nothing.
pub proof fn lemma_reference_join_laws(a: ResultReference, b: ResultReference, c: ResultReference)
    ensures
        a.spec_join(b) == b.spec_join(a),
        a.spec_join(b).spec_join(c) == a.spec_join(b.spec_join(c)),
        a.spec_join(a) == a,
        a.spec_join(ResultReference::spec_none()) == a,
{
}

/// What a local callee may do with one channel (the `Result` itself or
/// those in its payload) of a parameter.
#[derive(Debug, Clone, Copy, PartialEq, Eq, Structural)]
pub struct LocalParamChannelEffect {
    pub may_mutate: bool,
    pub may_escape: bool,
    pub may_drop: bool,
    pub may_return_alias: bool,
}

/// What a local callee may do with a parameter, per channel.
#[derive(Debug, Clone, Copy, PartialEq, Eq, Structural)]
pub struct LocalParamEffect {
    pub direct: LocalParamChannelEffect,
    pub nested: LocalParamChannelEffect,
}

impl LocalParamEffect {
    /// Neither channel may be mutated, escape, or (when the argument needs
    /// dropping) be dropped.
    pub fn rvs_preserves_argument(self, argument_needs_drop: bool) -> (r: bool)
        ensures
            r == (!self.direct.may_mutate && !self.direct.may_escape && !(self.direct.may_drop && argument_needs_drop)
                && !self.nested.may_mutate && !self.nested.may_escape && !(self.nested.may_drop && argument_needs_drop)),
    {
        !self.direct.may_mutate && !self.direct.may_escape && !(self.direct.may_drop && argument_needs_drop)
            && !self.nested.may_mutate && !self.nested.may_escape && !(self.nested.may_drop && argument_needs_drop)
    }

    /// The callee may mutate a `Result` the reference reaches mutably.
    pub fn rvs_may_mutate(self, reference: ResultReference) -> (r: bool)
        ensures
            r == ((reference.direct_mutable && self.direct.may_mutate) || (reference.nested_mutable && self.nested.may_mutate)),
    {
        (reference.direct_mutable && self.direct.may_mutate) || (reference.nested_mutable && self.nested.may_mutate)
    }

    /// A `Result` the reference reaches mutably may escape the callee.
    pub fn rvs_may_escape(self, reference: ResultReference) -> (r: bool)
        ensures
            r == ((reference.direct_mutable && self.direct.may_escape) || (reference.nested_mutable && self.nested.may_escape)),
    {
        (reference.direct_mutable && self.direct.may_escape) || (reference.nested_mutable && self.nested.may_escape)
    }

    /// The callee may drop a `Result` the reference reaches mutably.
    pub fn rvs_may_drop(self, reference: ResultReference) -> (r: bool)
        ensures
            r == ((reference.direct_mutable && self.direct.may_drop) || (reference.nested_mutable && self.nested.may_drop)),
    {
        (reference.direct_mutable && self.direct.may_drop) || (reference.nested_mutable && self.nested.may_drop)
    }

    /// The callee may return an alias of a `Result` the reference reaches.
    pub fn rvs_may_return_alias(self, reference: ResultReference) -> (r: bool)
        ensures
            r == ((reference.direct && self.direct.may_return_alias) || (reference.nested && self.nested.may_return_alias)),
    {
        (reference.direct && self.direct.may_return_alias) || (reference.nested && self.nested.may_return_alias)
    }
}

/// The effect assumed of a callee nothing is known of: anything, on both
/// channels.
pub fn rvs_unknown_local_param_effect() -> (r: LocalParamEffect)
    ensures
        r.direct == r.nested,
        r.direct == (LocalParamChannelEffect { may_mutate: true, may_escape: true, may_drop: true, may_return_alias: true }),
{
    let channel = LocalParamChannelEffect { may_mutate: true, may_escape: true, may_drop: true, may_return_alias: true };
    LocalParamEffect { direct: channel, nested: channel }
}

/// One step of a projection path: how it is shown, whether sibling fields
/// of its kind may overlap (unions), and whether its index is imprecise.
#[derive(Debug, Clone)]
pub struct ResultProjectionKey {
    pub display: String,
    pub sibling_fields_overlap: bool,
    pub imprecise_index: bool,
}

/// A projection step as a plain value.
pub open spec fn spec_projection_view(k: ResultProjectionKey) -> (Seq<char>, bool, bool) {
    (k.display@, k.sibling_fields_overlap, k.imprecise_index)
}

/// Two projection paths may name overlapping memory: along their common
/// length, the first differing step overlaps only when one index is
/// imprecise or both are fields that may overlap.
pub open spec fn spec_paths_overlap(left: Seq<(Seq<char>, bool, bool)>, right: Seq<(Seq<char>, bool, bool)>) -> bool
    decreases left.len(),
{
    if left.len() == 0 || right.len() == 0 {
        true
    } else if left[0].0 == right[0].0 {
        spec_paths_overlap(left.drop_first(), right.drop_first())
    } else {
        left[0].2 || right[0].2 || (left[0].1 && right[0].1)
    }
}

/// The projection steps of a path as plain values.
pub open spec fn spec_path_view(p: Seq<ResultProjectionKey>) -> Seq<(Seq<char>, bool, bool)> {
    p.map_values(|k: ResultProjectionKey| spec_projection_view(k))
}

/// Whether two projection paths of one local may overlap.
pub fn rvs_projection_paths_overlap(left: &[ResultProjectionKey], right: &[ResultProjectionKey]) -> (r: bool)
    ensures
        r == spec_paths_overlap(spec_path_view(left@), spec_path_view(right@)),
{
    let mut i: usize = 0;
    proof {
        assert(spec_path_view(left@).subrange(0, spec_path_view(left@).len() as int) =~= spec_path_view(left@));
        assert(spec_path_view(right@).subrange(0, spec_path_view(right@).len() as int) =~= spec_path_view(right@));
    }
    while i < left.len() && i < right.len()
        invariant
            i <= left@.len(),
            i <= right@.len(),
            spec_paths_overlap(spec_path_view(left@), spec_path_view(right@)) == spec_paths_overlap(
                spec_path_view(left@).subrange(i as int, left@.len() as int),
                spec_path_view(right@).subrange(i as int, right@.len() as int),
            ),
        decreases left@.len() - i,
    {
        let l = &left[i];
        let r = &right[i];
        let ghost ls = spec_path_view(left@).subrange(i as int, left@.len() as int);
        let ghost rs = spec_path_view(right@).subrange(i as int, right@.len() as int);
        proof {
            assert(ls[0] == spec_projection_view(left@[i as int]));
            assert(rs[0] == spec_projection_view(right@[i as int]));
        }
        let same = rvs_chars_eq(rvs_chars_of(l.display.as_str()).as_slice(), rvs_chars_of(r.display.as_str()).as_slice());
        if !same {
            return l.imprecise_index || r.imprecise_index || (l.sibling_fields_overlap && r.sibling_fields_overlap);
        }
        proof {
            assert(ls.drop_first() =~= spec_path_view(left@).subrange(i + 1, left@.len() as int));
            assert(rs.drop_first() =~= spec_path_view(right@).subrange(i + 1, right@.len() as int));
        }
        i = i + 1;
    }
    true
}

/// Overlap is symmetric.
pub proof fn lemma_paths_overlap_symmetric(left: Seq<(Seq<char>, bool, bool)>, right: Seq<(Seq<char>, bool, bool)>)
    ensures
        spec_paths_overlap(left, right) == spec_paths_overlap(right, left),
    decreases left.len(),
{
    if left.len() > 0 && right.len() > 0 && left[0].0 == right[0].0 {
        lemma_paths_overlap_symmetric(left.drop_first(), right.drop_first());
    }
}

/// A path overlaps itself and every path it is a prefix of.
pub proof fn lemma_paths_overlap_prefix(prefix: Seq<(Seq<char>, bool, bool)>, rest: Seq<(Seq<char>, bool, bool)>)
    ensures
        spec_paths_overlap(prefix, prefix + rest),
    decreases prefix.len(),
{
    if prefix.len() > 0 {
        assert((prefix + rest).drop_first() =~= prefix.drop_first() + rest);
        lemma_paths_overlap_prefix(prefix.drop_first(), rest);
    }
}

/// The definition paths of `Try::from_output` for `Result`.
pub open spec fn spec_is_result_from_output(path: Seq<char>) -> bool {
    path == "core::ops::try_trait::Try::from_output"@ || path == "core::result::from_output@core::ops::try_trait::Try"@
}

/// The definition paths of `Try::branch` for `Result`.
pub open spec fn spec_is_result_branch(path: Seq<char>) -> bool {
    path == "core::ops::try_trait::Try::branch"@ || path == "core::result::branch@core::ops::try_trait::Try"@
}

/// Whether a call is `Try::from_output` on a `Result` (the `Ok` of `?`).
pub fn rvs_call_is_result_from_output(path: &str) -> (r: bool)
    ensures
        r == spec_is_result_from_output(path@),
{
    let p = rvs_chars_of(path);
    rvs_chars_eq(p.as_slice(), rvs_chars_of("core::ops::try_trait::Try::from_output").as_slice())
        || rvs_chars_eq(p.as_slice(), rvs_chars_of("core::result::from_output@core::ops::try_trait::Try").as_slice())
}

/// Whether a call is `Try::branch` on a `Result` (the test of `?`).
pub fn rvs_call_is_result_branch(path: &str) -> (r: bool)
    ensures
        r == spec_is_result_branch(path@),
{
    let p = rvs_chars_of(path);
    rvs_chars_eq(p.as_slice(), rvs_chars_of("core::ops::try_trait::Try::branch").as_slice())
        || rvs_chars_eq(p.as_slice(), rvs_chars_of("core::result::branch@core::ops::try_trait::Try").as_slice())
}

/// The `Result` methods whose result keeps the variant of their receiver,
/// by user path.
pub open spec fn spec_preserves_result_variant(user_path: Seq<char>) -> bool {
    ||| user_path == "core::result::Result::as_ref"@
    ||| user_path == "core::result::Result::as_deref"@
    ||| user_path == "core::result::Result::iter"@
    ||| user_path == "core::result::Result::as_mut"@
    ||| user_path == "core::result::Result::as_deref_mut"@
    ||| user_path == "core::result::Result::iter_mut"@
}

/// Whether a call, by its definition path, keeps the variant of the
/// `Result` it is called on.
pub fn rvs_call_preserves_result_variant(def_path: &str) -> (r: bool)
    ensures
        r == spec_preserves_result_variant(crate::symbols::spec_user_path(def_path@)),
{
    let user = crate::symbols::rvs_user_path_chars(rvs_chars_of(def_path).as_slice());
    let u = user.as_slice();
    rvs_chars_eq(u, rvs_chars_of("core::result::Result::as_ref").as_slice())
        || rvs_chars_eq(u, rvs_chars_of("core::result::Result::as_deref").as_slice())
        || rvs_chars_eq(u, rvs_chars_of("core::result::Result::iter").as_slice())
        || rvs_chars_eq(u, rvs_chars_of("core::result::Result::as_mut").as_slice())
        || rvs_chars_eq(u, rvs_chars_of("core::result::Result::as_deref_mut").as_slice())
        || rvs_chars_eq(u, rvs_chars_of("core::result::Result::iter_mut").as_slice())
}

/// A place a `Result` may live in: a local and a projection path into it.
#[derive(Debug, Clone)]
pub struct ResultPlaceKey {
    pub local: u32,
    pub projections: Vec<ResultProjectionKey>,
}

fn rvs_projection_copy(k: &ResultProjectionKey) -> (r: ResultProjectionKey)
    ensures
        spec_projection_view(r) == spec_projection_view(*k),
{
    ResultProjectionKey { display: k.display.clone(), sibling_fields_overlap: k.sibling_fields_overlap, imprecise_index: k.imprecise_index }
}

impl FlowKey for ResultPlaceKey {
    open spec fn spec_key(&self) -> PlaceView {
        (self.local, spec_path_view(self.projections@))
    }

    fn rvs_same_key(&self, other: &ResultPlaceKey) -> (r: bool) {
        if self.local != other.local || self.projections.len() != other.projections.len() {
            proof {
                if self.projections@.len() != other.projections@.len() {
                    assert(spec_path_view(self.projections@).len() != spec_path_view(other.projections@).len());
                }
            }
            return false;
        }
        let mut i: usize = 0;
        while i < self.projections.len()
            invariant
                self.projections@.len() == other.projections@.len(),
                i <= self.projections@.len(),
                forall|j: int| 0 <= j < i ==> spec_projection_view(#[trigger] self.projections@[j]) == spec_projection_view(other.projections@[j]),
            decreases self.projections@.len() - i,
        {
            let a = &self.projections[i];
            let b = &other.projections[i];
            if !(a.display == b.display && a.sibling_fields_overlap == b.sibling_fields_overlap && a.imprecise_index == b.imprecise_index) {
                proof {
                    assert(spec_path_view(self.projections@)[i as int] != spec_path_view(other.projections@)[i as int]);
                }
                return false;
            }
            i = i + 1;
        }
        proof {
            assert(spec_path_view(self.projections@) =~= spec_path_view(other.projections@));
        }
        true
    }

    fn rvs_dup(&self) -> (r: ResultPlaceKey) {
        let mut projections: Vec<ResultProjectionKey> = Vec::new();
        let mut i: usize = 0;
        while i < self.projections.len()
            invariant
                i <= self.projections@.len(),
                projections@.len() == i,
                forall|j: int| 0 <= j < i ==> spec_projection_view(#[trigger] projections@[j]) == spec_projection_view(self.projections@[j]),
            decreases self.projections@.len() - i,
        {
            projections.push(rvs_projection_copy(&self.projections[i]));
            i = i + 1;
        }
        let r = ResultPlaceKey { local: self.local, projections };
        proof {
            assert(spec_path_view(r.projections@) =~= spec_path_view(self.projections@));
        }
        r
    }
}

/// References to `Result` places, one per place.
pub type ResultReferenceMap = FlowMap<ResultPlaceKey, ResultReference>;

/// The join over a sequence of reference maps of what each holds for `k`.
pub open spec fn spec_merged_reference(maps: Seq<ResultReferenceMap>, k: PlaceView) -> Option<ResultReference>
    decreases maps.len(),
{
    if maps.len() == 0 {
        None
    } else {
        let before = spec_merged_reference(maps.drop_last(), k);
        match (before, maps.last().get(k)) {
            (None, x) => x,
            (Some(p), None) => Some(p),
            (Some(p), Some(c)) => Some(p.spec_join(c)),
        }
    }
}

/// Merges reference maps: each place keeps the join of its references.
pub fn rvs_merge_reference_maps(maps: &Vec<ResultReferenceMap>) -> (r: ResultReferenceMap)
    requires
        forall|i: int| 0 <= i < maps@.len() ==> (#[trigger] maps@[i]).wf(),
    ensures
        r.wf(),
        forall|k: PlaceView| #[trigger] r.get(k) == spec_merged_reference(maps@, k),
{
    let mut merged: ResultReferenceMap = FlowMap::rvs_new();
    let mut m: usize = 0;
    proof {
        assert(maps@.take(0) =~= Seq::<ResultReferenceMap>::empty());
    }
    while m < maps.len()
        invariant
            forall|i: int| 0 <= i < maps@.len() ==> (#[trigger] maps@[i]).wf(),
            merged.wf(),
            m <= maps@.len(),
            forall|k: PlaceView| #[trigger] merged.get(k) == spec_merged_reference(maps@.take(m as int), k),
        decreases maps@.len() - m,
    {
        let references = &maps[m];
        let ghost start = merged;
        let mut e: usize = 0;
        while e < references.rvs_len()
            invariant
                references.wf(),
                merged.wf(),
                e <= references.len_spec(),
                forall|k: PlaceView| #[trigger] merged.get(k) == {
                    let before = start.get(k);
                    let here = if exists|j: int| 0 <= j < e && #[trigger] references.key(j) == k { references.get(k) } else { None };
                    match (before, here) {
                        (None, x) => x,
                        (Some(p), None) => Some(p),
                        (Some(p), Some(c)) => Some(p.spec_join(c)),
                    }
                },
            decreases references.len_spec() - e,
        {
            let target = references.rvs_key_at(e);
            let reference = *references.rvs_value_at(e);
            proof {
                references.lemma_index_unique(e as int);
            }
            let ghost prev = merged;
            match merged.rvs_find(target) {
                Some(i) => {
                    let mut joined = *merged.rvs_value_at(i);
                    joined.rvs_join_M(reference);
                    proof {
                        prev.lemma_index_unique(i as int);
                    }
                    merged.rvs_set_value_at_M(i, joined);
                },
                None => {
                    merged.rvs_insert_M(target.rvs_dup(), reference);
                },
            }
            proof {
                assert forall|k: PlaceView| #[trigger] merged.get(k) == {
                    let before = start.get(k);
                    let here = if exists|j: int| 0 <= j < e + 1 && #[trigger] references.key(j) == k { references.get(k) } else { None };
                    match (before, here) {
                        (None, x) => x,
                        (Some(p), None) => Some(p),
                        (Some(p), Some(c)) => Some(p.spec_join(c)),
                    }
                } by {
                    if k == references.key(e as int) {
                        if exists|j: int| 0 <= j < e && #[trigger] references.key(j) == k {
                            let j = choose|j: int| 0 <= j < e && #[trigger] references.key(j) == k;
                            assert(references.key(j) != references.key(e as int));
                        }
                    } else if exists|j: int| 0 <= j < e + 1 && #[trigger] references.key(j) == k {
                        let j = choose|j: int| 0 <= j < e + 1 && #[trigger] references.key(j) == k;
                        assert(j < e);
                    }
                }
            }
            e = e + 1;
        }
        proof {
            let t = maps@.take(m + 1);
            assert(t.drop_last() =~= maps@.take(m as int));
            assert(t.last() == maps@[m as int]);
            assert forall|k: PlaceView| #[trigger] merged.get(k) == spec_merged_reference(t, k) by {
                if references.has(k) {
                    let j = choose|j: int| 0 <= j < references.len_spec() && #[trigger] references.key(j) == k;
                    assert(references.key(j) == k);
                }
            }
        }
        m = m + 1;
    }
    proof {
        assert(maps@.take(maps@.len() as int) =~= maps@);
    }
    merged
}

/// Every reference of the map, unable to change the `Result` itself.
pub fn rvs_preserve_direct_variants(references: ResultReferenceMap) -> (r: ResultReferenceMap)
    requires
        references.wf(),
    ensures
        r.wf(),
        forall|k: PlaceView| #[trigger] r.get(k) == match references.get(k) {
            Some(x) => Some(ResultReference { direct_mutable: false, ..x }),
            None => None,
        },
{
    let mut r = references;
    let ghost start = r;
    let mut i: usize = 0;
    while i < r.rvs_len()
        invariant
            r.wf(),
            r.len_spec() == start.len_spec(),
            i <= r.len_spec(),
            forall|j: int| 0 <= j < r.len_spec() ==> #[trigger] r.key(j) == start.key(j),
            forall|j: int| 0 <= j < i ==> #[trigger] r.val(j) == (ResultReference { direct_mutable: false, ..start.val(j) }),
            forall|j: int| i <= j < r.len_spec() ==> #[trigger] r.val(j) == start.val(j),
        decreases r.len_spec() - i,
    {
        let updated = r.rvs_value_at(i).rvs_preserve_direct_variant();
        r.rvs_set_value_at_M(i, updated);
        i = i + 1;
    }
    proof {
        assert forall|k: PlaceView| #[trigger] r.get(k) == match start.get(k) {
            Some(x) => Some(ResultReference { direct_mutable: false, ..x }),
            None => None,
        } by {
            if start.has(k) {
                let j = start.index_of(k);
                start.lemma_index_unique(j);
                r.lemma_index_unique(j);
            } else if r.has(k) {
                let j = choose|j: int| 0 <= j < r.len_spec() && #[trigger] r.key(j) == k;
                assert(start.key(j) == k);
            }
        }
    }
    r
}

/// Every reference of the map, seen one level further in.
pub fn rvs_nest_reference_map(references: ResultReferenceMap) -> (r: ResultReferenceMap)
    requires
        references.wf(),
    ensures
        r.wf(),
        forall|k: PlaceView| #[trigger] r.get(k) == match references.get(k) {
            Some(x) => Some(ResultReference {
                direct: false,
                direct_mutable: false,
                nested: x.direct || x.nested,
                nested_mutable: x.direct_mutable || x.nested_mutable,
            }),
            None => None,
        },
{
    let mut r = references;
    let ghost start = r;
    let mut i: usize = 0;
    while i < r.rvs_len()
        invariant
            r.wf(),
            r.len_spec() == start.len_spec(),
            i <= r.len_spec(),
            forall|j: int| 0 <= j < r.len_spec() ==> #[trigger] r.key(j) == start.key(j),
            forall|j: int| 0 <= j < i ==> #[trigger] r.val(j) == (ResultReference {
                direct: false,
                direct_mutable: false,
                nested: start.val(j).direct || start.val(j).nested,
                nested_mutable: start.val(j).direct_mutable || start.val(j).nested_mutable,
            }),
            forall|j: int| i <= j < r.len_spec() ==> #[trigger] r.val(j) == start.val(j),
        decreases r.len_spec() - i,
    {
        let updated = r.rvs_value_at(i).rvs_nest();
        r.rvs_set_value_at_M(i, updated);
        i = i + 1;
    }
    proof {
        assert forall|k: PlaceView| #[trigger] r.get(k) == match start.get(k) {
            Some(x) => Some(ResultReference {
                direct: false,
                direct_mutable: false,
                nested: x.direct || x.nested,
                nested_mutable: x.direct_mutable || x.nested_mutable,
            }),
            None => None,
        } by {
            if start.has(k) {
                let j = start.index_of(k);
                start.lemma_index_unique(j);
                r.lemma_index_unique(j);
            } else if r.has(k) {
                let j = choose|j: int| 0 <= j < r.len_spec() && #[trigger] r.key(j) == k;
                assert(start.key(j) == k);
            }
        }
    }
    r
}

/// The call is `Result::is_err` (`Some(true)`) or `Result::is_ok`
/// (`Some(false)`).
pub open spec fn spec_error_test(path: Option<Seq<char>>) -> Option<bool> {
    match path {
        Some(p) => if p == "core::result::Result::is_err"@ {
            Some(true)
        } else if p == "core::result::Result::is_ok"@ {
            Some(false)
        } else {
            None
        },
        None => None,
    }
}

/// Position `i` holds the only direct reference of the map.
pub open spec fn spec_sole_direct(references: ResultReferenceMap, i: int) -> bool {
    &&& 0 <= i < references.len_spec()
    &&& references.val(i).direct
    &&& forall|j: int| 0 <= j < references.len_spec() && j != i ==> !(#[trigger] references.val(j)).direct
}

/// The `Result` an `is_err` or `is_ok` test reads: the call's kind and the
/// only place its argument reaches directly; nothing when the call is
/// neither or the argument reaches no place or several directly.
pub fn rvs_result_predicate_source(path: Option<&str>, references: &ResultReferenceMap) -> (r: Option<(bool, ResultPlaceKey)>)
    requires
        references.wf(),
    ensures
        match r {
            Some((is_error_test, source)) => spec_error_test(match path { Some(p) => Some(p@), None => None }) == Some(is_error_test)
                && exists|i: int| spec_sole_direct(*references, i) && #[trigger] references.key(i) == source.spec_key(),
            None => spec_error_test(match path { Some(p) => Some(p@), None => None }) is None
                || !exists|i: int| #[trigger] spec_sole_direct(*references, i),
        },
{
    let is_error_test = match path {
        Some(p) => {
            let chars = rvs_chars_of(p);
            if rvs_chars_eq(chars.as_slice(), rvs_chars_of("core::result::Result::is_err").as_slice()) {
                true
            } else if rvs_chars_eq(chars.as_slice(), rvs_chars_of("core::result::Result::is_ok").as_slice()) {
                false
            } else {
                return None;
            }
        },
        None => {
            return None;
        },
    };
    let mut found: Option<usize> = None;
    let mut i: usize = 0;
    while i < references.rvs_len()
        invariant
            references.wf(),
            i <= references.len_spec(),
            match found {
                Some(f) => f < i && references.val(f as int).direct
                    && forall|j: int| 0 <= j < i && j != f ==> !(#[trigger] references.val(j)).direct,
                None => forall|j: int| 0 <= j < i ==> !(#[trigger] references.val(j)).direct,
            },
        decreases references.len_spec() - i,
    {
        if references.rvs_value_at(i).direct {
            match found {
                Some(f) => {
                    proof {
                        assert forall|x: int| !spec_sole_direct(*references, x) by {
                            if spec_sole_direct(*references, x) {
                                if x != f as int {
                                    assert(!references.val(f as int).direct);
                                } else {
                                    assert(!references.val(i as int).direct);
                                }
                            }
                        }
                    }
                    return None;
                },
                None => {
                    found = Some(i);
                },
            }
        }
        i = i + 1;
    }
    match found {
        Some(f) => {
            proof {
                assert(spec_sole_direct(*references, f as int));
            }
            Some((is_error_test, references.rvs_key_at(f).rvs_dup()))
        },
        None => {
            proof {
                assert forall|x: int| !spec_sole_direct(*references, x) by {
                    if spec_sole_direct(*references, x) {
                        assert(!references.val(x).direct);
                    }
                }
            }
            None
        },
    }
}

/// The `Result` a switch on a discriminant tests, and whether it is a
/// `Poll` around the `Result`.
#[derive(Debug, Clone)]
pub struct ResultDiscriminant {
    pub source: ResultPlaceKey,
    pub is_poll: bool,
}

/// A discriminant as a plain value.
pub open spec fn spec_discriminant_view(d: ResultDiscriminant) -> (PlaceView, bool) {
    (d.source.spec_key(), d.is_poll)
}

/// A predicate (`is_err` or `is_ok` result) as a plain value: the tested
/// place and whether the test is `is_err`.
pub open spec fn spec_predicate_view(p: (ResultPlaceKey, bool)) -> (PlaceView, bool) {
    (p.0.spec_key(), p.1)
}

/// What the analysis knows at one program point: the variants each local and
/// projected place may hold, the references locals hold to `Result` places,
/// the discriminants and predicates locals hold, the `Result`s that escaped,
/// and the coroutine fields saved across suspension points.
#[derive(Debug, Clone)]
pub struct ResultFlowState {
    pub values: FlowMap<u32, u8>,
    pub projected_values: FlowMap<ResultPlaceKey, u8>,
    pub references: FlowMap<u32, ResultReferenceMap>,
    pub discriminants: FlowMap<u32, ResultDiscriminant>,
    pub predicates: FlowMap<u32, (ResultPlaceKey, bool)>,
    pub escaped_results: FlowMap<ResultPlaceKey, ()>,
    pub coroutine_saved_values: FlowMap<ResultPlaceKey, ()>,
}

impl ResultFlowState {
    pub open spec fn wf(self) -> bool {
        &&& self.values.wf()
        &&& self.projected_values.wf()
        &&& self.references.wf()
        &&& forall|i: int| 0 <= i < self.references.len_spec() ==> (#[trigger] self.references.val(i)).wf()
        &&& self.discriminants.wf()
        &&& self.predicates.wf()
        &&& self.escaped_results.wf()
        &&& self.coroutine_saved_values.wf()
    }

    /// The variants a place may hold; unknown when it is not tracked.
    pub open spec fn spec_place_value(self, p: PlaceView) -> u8 {
        if p.1.len() == 0 {
            match self.values.get((p.0, Seq::empty())) {
                Some(v) => v,
                None => RVS_RESULT_UNKNOWN,
            }
        } else {
            match self.projected_values.get(p) {
                Some(v) => v,
                None => RVS_RESULT_UNKNOWN,
            }
        }
    }
}

/// The variants a place may hold.
pub fn rvs_result_place_value(state: &ResultFlowState, place: &ResultPlaceKey) -> (r: u8)
    requires
        state.wf(),
    ensures
        r == state.spec_place_value(place.spec_key()),
{
    if place.projections.len() == 0 {
        proof {
            assert(spec_path_view(place.projections@) =~= Seq::<(Seq<char>, bool, bool)>::empty());
        }
        match state.values.rvs_get(&place.local) {
            Some(v) => *v,
            None => RVS_RESULT_UNKNOWN,
        }
    } else {
        match state.projected_values.rvs_get(place) {
            Some(v) => *v,
            None => RVS_RESULT_UNKNOWN,
        }
    }
}

/// Records the variants a place holds: a local's own value, or a projected
/// place's.
#[allow(non_snake_case)]
pub fn rvs_set_result_place_value_M(state: &mut ResultFlowState, place: &ResultPlaceKey, value: u8)
    requires
        old(state).wf(),
        value != 0,
    ensures
        final(state).wf(),
        final(state).spec_place_value(place.spec_key()) == value,
        forall|p: PlaceView| p != place.spec_key() ==> #[trigger] final(state).spec_place_value(p) == old(state).spec_place_value(p),
        final(state).references == old(state).references,
        final(state).discriminants == old(state).discriminants,
        final(state).predicates == old(state).predicates,
        final(state).escaped_results == old(state).escaped_results,
        final(state).coroutine_saved_values == old(state).coroutine_saved_values,
{
    if place.projections.len() == 0 {
        proof {
            assert(spec_path_view(place.projections@) =~= Seq::<(Seq<char>, bool, bool)>::empty());
        }
        state.values.rvs_insert_M(place.local, value);
        proof {
            assert forall|p: PlaceView| p != place.spec_key() implies #[trigger] state.spec_place_value(p) == old(state).spec_place_value(p) by {
                if p.1.len() == 0 {
                    assert(p.1 =~= Seq::<(Seq<char>, bool, bool)>::empty());
                }
            }
        }
    } else {
        state.projected_values.rvs_insert_M(place.rvs_dup(), value);
    }
}

/// Some projected place of the map overlaps the target.
pub open spec fn spec_overlapped(projected: FlowMap<ResultPlaceKey, u8>, target: PlaceView) -> bool {
    exists|i: int| 0 <= i < projected.len_spec() && #[trigger] projected.key(i).0 == target.0
        && spec_paths_overlap(projected.key(i).1, target.1)
}

/// Records the variants a write through a reference gives its target: a
/// tracked local takes the value; for a projected target every tracked place
/// of the same local that may overlap it takes the value, and the target is
/// tracked when none does.
#[allow(non_snake_case)]
pub fn rvs_set_result_target_value_M(state: &mut ResultFlowState, target: &ResultPlaceKey, value: u8)
    requires
        old(state).wf(),
        value != 0,
    ensures
        final(state).wf(),
        target.projections@.len() == 0 ==> {
            &&& final(state).projected_values == old(state).projected_values
            &&& forall|l: u32| #[trigger] final(state).values.get((l, Seq::empty())) == if l == target.local
                && old(state).values.has((l, Seq::empty())) {
                Some(value)
            } else {
                old(state).values.get((l, Seq::empty()))
            }
        },
        target.projections@.len() > 0 ==> {
            &&& final(state).values == old(state).values
            &&& forall|p: PlaceView| #[trigger] final(state).projected_values.get(p) == if old(state).projected_values.has(p)
                && p.0 == target.local && spec_paths_overlap(p.1, target.spec_key().1) {
                Some(value)
            } else if p == target.spec_key() && !spec_overlapped(old(state).projected_values, target.spec_key()) {
                Some(value)
            } else {
                old(state).projected_values.get(p)
            }
        },
        final(state).references == old(state).references,
        final(state).discriminants == old(state).discriminants,
        final(state).predicates == old(state).predicates,
        final(state).escaped_results == old(state).escaped_results,
        final(state).coroutine_saved_values == old(state).coroutine_saved_values,
{
    if target.projections.len() == 0 {
        if state.values.rvs_contains(&target.local) {
            state.values.rvs_insert_M(target.local, value);
        }
        return;
    }
    let ghost start = state.projected_values;
    let ghost t = target.spec_key();
    let mut updated = false;
    let mut i: usize = 0;
    while i < state.projected_values.rvs_len()
        invariant
            state.wf(),
            start.wf(),
            state.values == old(state).values,
            state.references == old(state).references,
            state.discriminants == old(state).discriminants,
            state.predicates == old(state).predicates,
            state.escaped_results == old(state).escaped_results,
            state.coroutine_saved_values == old(state).coroutine_saved_values,
            start == old(state).projected_values,
            t == target.spec_key(),
            state.projected_values.len_spec() == start.len_spec(),
            i <= start.len_spec(),
            forall|j: int| 0 <= j < start.len_spec() ==> #[trigger] state.projected_values.key(j) == start.key(j),
            forall|j: int| 0 <= j < i ==> #[trigger] state.projected_values.val(j) == if start.key(j).0 == t.0 && spec_paths_overlap(start.key(j).1, t.1) {
                value
            } else {
                start.val(j)
            },
            forall|j: int| i <= j < start.len_spec() ==> #[trigger] state.projected_values.val(j) == start.val(j),
            updated == exists|j: int| 0 <= j < i && #[trigger] start.key(j).0 == t.0 && spec_paths_overlap(start.key(j).1, t.1),
        decreases start.len_spec() - i,
    {
        let place = state.projected_values.rvs_key_at(i);
        let hit = place.local == target.local
            && rvs_projection_paths_overlap(place.projections.as_slice(), target.projections.as_slice());
        assert(place.spec_key() == start.key(i as int));
        assert(hit == (start.key(i as int).0 == t.0 && spec_paths_overlap(start.key(i as int).1, t.1)));
        if hit {
            state.projected_values.rvs_set_value_at_M(i, value);
            updated = true;
        }
        proof {
            assert(updated == exists|j: int| 0 <= j < i + 1 && #[trigger] start.key(j).0 == t.0 && spec_paths_overlap(start.key(j).1, t.1)) by {
                if exists|j: int| 0 <= j < i + 1 && #[trigger] start.key(j).0 == t.0 && spec_paths_overlap(start.key(j).1, t.1) {
                    let j = choose|j: int| 0 <= j < i + 1 && #[trigger] start.key(j).0 == t.0 && spec_paths_overlap(start.key(j).1, t.1);
                    if j < i {
                        assert(exists|j: int| 0 <= j < i && #[trigger] start.key(j).0 == t.0 && spec_paths_overlap(start.key(j).1, t.1));
                    }
                }
            }
        }
        i = i + 1;
    }
    let ghost swept = state.projected_values;
    proof {
        assert forall|p: PlaceView| #[trigger] swept.get(p) == if start.has(p) && p.0 == t.0 && spec_paths_overlap(p.1, t.1) {
            Some(value)
        } else {
            start.get(p)
        } by {
            if start.has(p) {
                let j = start.index_of(p);
                start.lemma_index_unique(j);
                swept.lemma_index_unique(j);
            } else if swept.has(p) {
                let j = choose|j: int| 0 <= j < swept.len_spec() && #[trigger] swept.key(j) == p;
                assert(start.key(j) == p);
            }
        }
    }
    if !updated {
        state.projected_values.rvs_insert_M(target.rvs_dup(), value);
        proof {
            assert forall|p: PlaceView| #[trigger] state.projected_values.get(p) == if start.has(p)
                && p.0 == t.0 && spec_paths_overlap(p.1, t.1) {
                Some(value)
            } else if p == t && !spec_overlapped(start, t) {
                Some(value)
            } else {
                start.get(p)
            } by {
                if start.has(p) && p.0 == t.0 && spec_paths_overlap(p.1, t.1) {
                    let j = choose|j: int| 0 <= j < start.len_spec() && #[trigger] start.key(j) == p;
                    assert(start.key(j).0 == t.0);
                }
            }
        }
    } else {
        proof {
            let j = choose|j: int| 0 <= j < i && #[trigger] start.key(j).0 == t.0 && spec_paths_overlap(start.key(j).1, t.1);
            assert(spec_overlapped(start, t));
        }
    }
}

/// A discriminant's tested place may overlap `source`.
pub open spec fn spec_tests_source(tested: ResultPlaceKey, source: PlaceView) -> bool {
    tested.local == source.0 && spec_paths_overlap(tested.spec_key().1, source.1)
}

/// The discriminants whose tested place may not overlap `source`.
#[allow(non_snake_case)]
fn rvs_retain_discriminants_M(map: &mut FlowMap<u32, ResultDiscriminant>, source: &ResultPlaceKey)
    requires
        old(map).wf(),
    ensures
        final(map).wf(),
        forall|l: PlaceView| #[trigger] final(map).get(l) == match old(map).get(l) {
            Some(d) => if spec_tests_source(d.source, source.spec_key()) { None } else { Some(d) },
            None => None,
        },
{
    let mut rest: FlowMap<u32, ResultDiscriminant> = FlowMap::rvs_new();
    std::mem::swap(&mut rest, map);
    let ghost all = rest;
    let ghost src = source.spec_key();
    while rest.entries.len() > 0
        invariant
            all.wf(),
            map.wf(),
            src == source.spec_key(),
            rest.entries@ == all.entries@.take(rest.entries@.len() as int),
            rest.entries@.len() <= all.len_spec(),
            forall|l: PlaceView| #[trigger] map.get(l) == if exists|j: int| rest.entries@.len() <= j < all.len_spec() && #[trigger] all.key(j) == l {
                match all.get(l) {
                    Some(d) => if spec_tests_source(d.source, src) { None } else { Some(d) },
                    None => None,
                }
            } else {
                None
            },
        decreases rest.entries@.len(),
    {
        let ghost n = rest.entries@.len() as int;
        let entry = rest.entries.pop();
        let (local, d) = match entry {
            Some(e) => e,
            None => {
                return;
            },
        };
        proof {
            assert(all.entries@[n - 1] == (local, d));
            assert(all.key(n - 1) == local.spec_key());
            all.lemma_index_unique(n - 1);
            assert(rest.entries@ =~= all.entries@.take(n - 1));
        }
        let drop = d.source.local == source.local
            && rvs_projection_paths_overlap(d.source.projections.as_slice(), source.projections.as_slice());
        let ghost before = *map;
        if !drop {
            map.rvs_insert_M(local, d);
        }
        proof {
            assert forall|l: PlaceView| #[trigger] map.get(l) == if exists|j: int| n - 1 <= j < all.len_spec() && #[trigger] all.key(j) == l {
                match all.get(l) {
                    Some(d) => if spec_tests_source(d.source, src) { None } else { Some(d) },
                    None => None,
                }
            } else {
                None
            } by {
                if exists|j: int| n - 1 <= j < all.len_spec() && #[trigger] all.key(j) == l {
                    let j = choose|j: int| n - 1 <= j < all.len_spec() && #[trigger] all.key(j) == l;
                    if j != n - 1 {
                        assert(exists|j: int| n <= j < all.len_spec() && #[trigger] all.key(j) == l);
                        assert(all.key(j) != all.key(n - 1));
                    }
                } else {
                    assert(all.key(n - 1) != l);
                }
            }
        }
    }
    proof {
        assert forall|l: PlaceView| #[trigger] map.get(l) == match all.get(l) {
            Some(d) => if spec_tests_source(d.source, src) { None } else { Some(d) },
            None => None,
        } by {
            if all.has(l) {
                let j = choose|j: int| 0 <= j < all.len_spec() && #[trigger] all.key(j) == l;
                assert(all.key(j) == l);
            }
        }
    }
}

/// The predicates whose tested place may not overlap `source`.
#[allow(non_snake_case)]
fn rvs_retain_predicates_M(map: &mut FlowMap<u32, (ResultPlaceKey, bool)>, source: &ResultPlaceKey)
    requires
        old(map).wf(),
    ensures
        final(map).wf(),
        forall|l: PlaceView| #[trigger] final(map).get(l) == match old(map).get(l) {
            Some(p) => if spec_tests_source(p.0, source.spec_key()) { None } else { Some(p) },
            None => None,
        },
{
    let mut rest: FlowMap<u32, (ResultPlaceKey, bool)> = FlowMap::rvs_new();
    std::mem::swap(&mut rest, map);
    let ghost all = rest;
    let ghost src = source.spec_key();
    while rest.entries.len() > 0
        invariant
            all.wf(),
            map.wf(),
            src == source.spec_key(),
            rest.entries@ == all.entries@.take(rest.entries@.len() as int),
            rest.entries@.len() <= all.len_spec(),
            forall|l: PlaceView| #[trigger] map.get(l) == if exists|j: int| rest.entries@.len() <= j < all.len_spec() && #[trigger] all.key(j) == l {
                match all.get(l) {
                    Some(p) => if spec_tests_source(p.0, src) { None } else { Some(p) },
                    None => None,
                }
            } else {
                None
            },
        decreases rest.entries@.len(),
    {
        let ghost n = rest.entries@.len() as int;
        let entry = rest.entries.pop();
        let (local, p) = match entry {
            Some(e) => e,
            None => {
                return;
            },
        };
        proof {
            assert(all.entries@[n - 1] == (local, p));
            assert(all.key(n - 1) == local.spec_key());
            all.lemma_index_unique(n - 1);
            assert(rest.entries@ =~= all.entries@.take(n - 1));
        }
        let drop = p.0.local == source.local
            && rvs_projection_paths_overlap(p.0.projections.as_slice(), source.projections.as_slice());
        if !drop {
            map.rvs_insert_M(local, p);
        }
        proof {
            assert forall|l: PlaceView| #[trigger] map.get(l) == if exists|j: int| n - 1 <= j < all.len_spec() && #[trigger] all.key(j) == l {
                match all.get(l) {
                    Some(p) => if spec_tests_source(p.0, src) { None } else { Some(p) },
                    None => None,
                }
            } else {
                None
            } by {
                if exists|j: int| n - 1 <= j < all.len_spec() && #[trigger] all.key(j) == l {
                    let j = choose|j: int| n - 1 <= j < all.len_spec() && #[trigger] all.key(j) == l;
                    if j != n - 1 {
                        assert(exists|j: int| n <= j < all.len_spec() && #[trigger] all.key(j) == l);
                        assert(all.key(j) != all.key(n - 1));
                    }
                } else {
                    assert(all.key(n - 1) != l);
                }
            }
        }
    }
    proof {
        assert forall|l: PlaceView| #[trigger] map.get(l) == match all.get(l) {
            Some(p) => if spec_tests_source(p.0, src) { None } else { Some(p) },
            None => None,
        } by {
            if all.has(l) {
                let j = choose|j: int| 0 <= j < all.len_spec() && #[trigger] all.key(j) == l;
                assert(all.key(j) == l);
            }
        }
    }
}

/// Forgets the discriminants and predicates whose tested place may overlap
/// `source`.
#[allow(non_snake_case)]
pub fn rvs_invalidate_relations_for_source_M(state: &mut ResultFlowState, source: &ResultPlaceKey)
    requires
        old(state).wf(),
    ensures
        final(state).wf(),
        forall|l: PlaceView| #[trigger] final(state).discriminants.get(l) == match old(state).discriminants.get(l) {
            Some(d) => if spec_tests_source(d.source, source.spec_key()) { None } else { Some(d) },
            None => None,
        },
        forall|l: PlaceView| #[trigger] final(state).predicates.get(l) == match old(state).predicates.get(l) {
            Some(p) => if spec_tests_source(p.0, source.spec_key()) { None } else { Some(p) },
            None => None,
        },
        final(state).values == old(state).values,
        final(state).projected_values == old(state).projected_values,
        final(state).references == old(state).references,
        final(state).escaped_results == old(state).escaped_results,
        final(state).coroutine_saved_values == old(state).coroutine_saved_values,
{
    rvs_retain_discriminants_M(&mut state.discriminants, source);
    rvs_retain_predicates_M(&mut state.predicates, source);
}

/// The value a local has before a join: its tracked value, or
/// uninitialized.
pub open spec fn spec_value_or_uninit(values: FlowMap<u32, u8>, k: PlaceView) -> u8 {
    match values.get(k) {
        Some(v) => v,
        None => RVS_RESULT_UNINITIALIZED,
    }
}

/// Joins the local values of `other` into `values`; reports whether a value
/// grew.
#[allow(non_snake_case)]
fn rvs_join_values_M(values: &mut FlowMap<u32, u8>, other: &FlowMap<u32, u8>) -> (changed: bool)
    requires
        old(values).wf(),
        other.wf(),
    ensures
        final(values).wf(),
        forall|k: PlaceView| #[trigger] final(values).get(k) == if other.has(k) {
            Some(spec_value_or_uninit(*old(values), k) | other.get(k)->0)
        } else {
            old(values).get(k)
        },
        changed == exists|k: PlaceView| #[trigger] other.has(k)
            && (spec_value_or_uninit(*old(values), k) | other.get(k)->0) != spec_value_or_uninit(*old(values), k),
{
    let ghost start = *values;
    let mut changed = false;
    let mut e: usize = 0;
    while e < other.rvs_len()
        invariant
            other.wf(),
            values.wf(),
            e <= other.len_spec(),
            forall|k: PlaceView| #[trigger] values.get(k) == if exists|j: int| 0 <= j < e && #[trigger] other.key(j) == k {
                Some(spec_value_or_uninit(start, k) | other.get(k)->0)
            } else {
                start.get(k)
            },
            changed == exists|j: int| 0 <= j < e
                && (spec_value_or_uninit(start, #[trigger] other.key(j)) | other.val(j)) != spec_value_or_uninit(start, other.key(j)),
        decreases other.len_spec() - e,
    {
        let local = *other.rvs_key_at(e);
        let value = *other.rvs_value_at(e);
        proof {
            other.lemma_index_unique(e as int);
            if exists|j: int| 0 <= j < e && #[trigger] other.key(j) == other.key(e as int) {
                let j = choose|j: int| 0 <= j < e && #[trigger] other.key(j) == other.key(e as int);
                assert(other.key(j) != other.key(e as int));
            }
        }
        let ghost k0 = other.key(e as int);
        let entry = match values.rvs_get(&local) {
            Some(v) => *v,
            None => RVS_RESULT_UNINITIALIZED,
        };
        assert(entry == spec_value_or_uninit(start, k0));
        let joined = entry | value;
        if joined != entry {
            changed = true;
        }
        values.rvs_insert_M(local, joined);
        proof {
            assert forall|k: PlaceView| #[trigger] values.get(k) == if exists|j: int| 0 <= j < e + 1 && #[trigger] other.key(j) == k {
                Some(spec_value_or_uninit(start, k) | other.get(k)->0)
            } else {
                start.get(k)
            } by {
                if k != k0 && exists|j: int| 0 <= j < e + 1 && #[trigger] other.key(j) == k {
                    let j = choose|j: int| 0 <= j < e + 1 && #[trigger] other.key(j) == k;
                    assert(j < e);
                }
            }
        }
        e = e + 1;
    }
    proof {
        assert forall|k: PlaceView| #[trigger] values.get(k) == if other.has(k) {
            Some(spec_value_or_uninit(start, k) | other.get(k)->0)
        } else {
            start.get(k)
        } by {
            if other.has(k) {
                let j = choose|j: int| 0 <= j < other.len_spec() && #[trigger] other.key(j) == k;
                assert(other.key(j) == k);
            }
        }
        if changed {
            let j = choose|j: int| 0 <= j < other.len_spec()
                && (spec_value_or_uninit(start, #[trigger] other.key(j)) | other.val(j)) != spec_value_or_uninit(start, other.key(j));
            other.lemma_index_unique(j);
            assert(other.has(other.key(j)));
        }
        if exists|k: PlaceView| #[trigger] other.has(k)
            && (spec_value_or_uninit(start, k) | other.get(k)->0) != spec_value_or_uninit(start, k) {
            let k = choose|k: PlaceView| #[trigger] other.has(k)
                && (spec_value_or_uninit(start, k) | other.get(k)->0) != spec_value_or_uninit(start, k);
            let j = other.index_of(k);
            other.lemma_index_unique(j);
        }
    }
    changed
}

/// Adds the members of `other` to `set`; reports whether it grew.
#[allow(non_snake_case)]
fn rvs_union_places_M(set: &mut FlowMap<ResultPlaceKey, ()>, other: &FlowMap<ResultPlaceKey, ()>) -> (changed: bool)
    requires
        old(set).wf(),
        other.wf(),
    ensures
        final(set).wf(),
        forall|k: PlaceView| #[trigger] final(set).has(k) == (old(set).has(k) || other.has(k)),
        changed == exists|k: PlaceView| #[trigger] other.has(k) && !old(set).has(k),
{
    let ghost start = *set;
    let mut changed = false;
    let mut e: usize = 0;
    while e < other.rvs_len()
        invariant
            other.wf(),
            set.wf(),
            e <= other.len_spec(),
            forall|k: PlaceView| #[trigger] set.has(k) == (start.has(k) || exists|j: int| 0 <= j < e && #[trigger] other.key(j) == k),
            changed == exists|j: int| 0 <= j < e && !start.has(#[trigger] other.key(j)),
        decreases other.len_spec() - e,
    {
        let key = other.rvs_key_at(e);
        if !set.rvs_contains(key) {
            proof {
                assert(!start.has(other.key(e as int)));
            }
            set.rvs_insert_M(key.rvs_dup(), ());
            changed = true;
        } else {
            proof {
                if !start.has(other.key(e as int)) {
                    let j = choose|j: int| 0 <= j < e && #[trigger] other.key(j) == other.key(e as int);
                    assert(!start.has(other.key(j)));
                }
            }
        }
        proof {
            assert forall|k: PlaceView| #[trigger] set.has(k) == (start.has(k) || exists|j: int| 0 <= j < e + 1 && #[trigger] other.key(j) == k) by {
                if exists|j: int| 0 <= j < e + 1 && #[trigger] other.key(j) == k {
                    let j = choose|j: int| 0 <= j < e + 1 && #[trigger] other.key(j) == k;
                    if j < e {
                        assert(exists|j: int| 0 <= j < e && #[trigger] other.key(j) == k);
                    }
                }
            }
        }
        e = e + 1;
    }
    proof {
        assert forall|k: PlaceView| #[trigger] set.has(k) == (start.has(k) || other.has(k)) by {
            if other.has(k) {
                let j = choose|j: int| 0 <= j < other.len_spec() && #[trigger] other.key(j) == k;
                assert(other.key(j) == k);
            }
        }
        if exists|k: PlaceView| #[trigger] other.has(k) && !start.has(k) {
            let k = choose|k: PlaceView| #[trigger] other.has(k) && !start.has(k);
            let j = choose|j: int| 0 <= j < other.len_spec() && #[trigger] other.key(j) == k;
            assert(!start.has(other.key(j)));
        }
        if changed {
            let j = choose|j: int| 0 <= j < other.len_spec() && !start.has(#[trigger] other.key(j));
            assert(other.has(other.key(j)));
        }
    }
    changed
}

/// The variants a projected place holds after a join: the union where both
/// sides track it; where one side alone does, its value, widened to any
/// variant unless that side saved the place across a suspension point.
pub open spec fn spec_joined_projection(
    mine: FlowMap<ResultPlaceKey, u8>,
    my_saved: FlowMap<ResultPlaceKey, ()>,
    theirs: FlowMap<ResultPlaceKey, u8>,
    their_saved: FlowMap<ResultPlaceKey, ()>,
    p: PlaceView,
) -> Option<u8> {
    match (mine.get(p), theirs.get(p)) {
        (Some(a), Some(b)) => Some(a | b),
        (Some(a), None) => Some(if my_saved.has(p) { a } else { a | RVS_RESULT_ANY }),
        (None, Some(b)) => Some(if their_saved.has(p) { b } else { b | RVS_RESULT_ANY }),
        (None, None) => None,
    }
}

/// Joining projected places changes something.
pub open spec fn spec_projection_join_changes(
    mine: FlowMap<ResultPlaceKey, u8>,
    my_saved: FlowMap<ResultPlaceKey, ()>,
    theirs: FlowMap<ResultPlaceKey, u8>,
) -> bool {
    ||| exists|p: PlaceView| #[trigger] mine.has(p) && !theirs.has(p) && !my_saved.has(p)
        && (mine.get(p)->0 | RVS_RESULT_ANY) != mine.get(p)->0
    ||| exists|p: PlaceView| #[trigger] theirs.has(p) && (!mine.has(p) || (mine.get(p)->0 | theirs.get(p)->0) != mine.get(p)->0)
}

/// Joins the projected places of another state into `projected`.
#[allow(non_snake_case)]
fn rvs_join_projected_M(
    projected: &mut FlowMap<ResultPlaceKey, u8>,
    my_saved: &FlowMap<ResultPlaceKey, ()>,
    theirs: &FlowMap<ResultPlaceKey, u8>,
    their_saved: &FlowMap<ResultPlaceKey, ()>,
) -> (changed: bool)
    requires
        old(projected).wf(),
        my_saved.wf(),
        theirs.wf(),
        their_saved.wf(),
    ensures
        final(projected).wf(),
        forall|p: PlaceView| #[trigger] final(projected).get(p) == spec_joined_projection(*old(projected), *my_saved, *theirs, *their_saved, p),
        changed == spec_projection_join_changes(*old(projected), *my_saved, *theirs),
{
    let ghost start = *projected;
    let mut widened = false;
    let mut i: usize = 0;
    while i < projected.rvs_len()
        invariant
            projected.wf(),
            start.wf(),
            my_saved.wf(),
            theirs.wf(),
            projected.len_spec() == start.len_spec(),
            i <= start.len_spec(),
            forall|j: int| 0 <= j < start.len_spec() ==> #[trigger] projected.key(j) == start.key(j),
            forall|j: int| 0 <= j < i ==> #[trigger] projected.val(j) == if !theirs.has(start.key(j)) && !my_saved.has(start.key(j)) {
                start.val(j) | RVS_RESULT_ANY
            } else {
                start.val(j)
            },
            forall|j: int| i <= j < start.len_spec() ==> #[trigger] projected.val(j) == start.val(j),
            widened == exists|j: int| 0 <= j < i && !theirs.has(#[trigger] start.key(j)) && !my_saved.has(start.key(j))
                && (start.val(j) | RVS_RESULT_ANY) != start.val(j),
        decreases start.len_spec() - i,
    {
        let place = projected.rvs_key_at(i);
        let value = *projected.rvs_value_at(i);
        if !theirs.rvs_contains(place) && !my_saved.rvs_contains(place) {
            let joined = value | RVS_RESULT_ANY;
            if joined != value {
                widened = true;
            }
            projected.rvs_set_value_at_M(i, joined);
        }
        i = i + 1;
    }
    let ghost mid = *projected;
    proof {
        assert forall|p: PlaceView| #[trigger] mid.get(p) == match start.get(p) {
            Some(a) => Some(if !theirs.has(p) && !my_saved.has(p) { a | RVS_RESULT_ANY } else { a }),
            None => None,
        } by {
            if start.has(p) {
                let j = start.index_of(p);
                start.lemma_index_unique(j);
                mid.lemma_index_unique(j);
            } else if mid.has(p) {
                let j = choose|j: int| 0 <= j < mid.len_spec() && #[trigger] mid.key(j) == p;
                assert(start.key(j) == p);
            }
        }
        assert(widened == exists|p: PlaceView| #[trigger] start.has(p) && !theirs.has(p) && !my_saved.has(p)
            && (start.get(p)->0 | RVS_RESULT_ANY) != start.get(p)->0) by {
            if widened {
                let j = choose|j: int| 0 <= j < start.len_spec() && !theirs.has(#[trigger] start.key(j)) && !my_saved.has(start.key(j))
                    && (start.val(j) | RVS_RESULT_ANY) != start.val(j);
                start.lemma_index_unique(j);
            }
            if exists|p: PlaceView| #[trigger] start.has(p) && !theirs.has(p) && !my_saved.has(p)
                && (start.get(p)->0 | RVS_RESULT_ANY) != start.get(p)->0 {
                let p = choose|p: PlaceView| #[trigger] start.has(p) && !theirs.has(p) && !my_saved.has(p)
                    && (start.get(p)->0 | RVS_RESULT_ANY) != start.get(p)->0;
                let j = start.index_of(p);
                start.lemma_index_unique(j);
            }
        }
    }
    let mut grown = false;
    let mut e: usize = 0;
    while e < theirs.rvs_len()
        invariant
            projected.wf(),
            mid.wf(),
            start.wf(),
            theirs.wf(),
            their_saved.wf(),
            e <= theirs.len_spec(),
            forall|p: PlaceView| #[trigger] mid.get(p) == match start.get(p) {
                Some(a) => Some(if !theirs.has(p) && !my_saved.has(p) { a | RVS_RESULT_ANY } else { a }),
                None => None,
            },
            forall|p: PlaceView| #[trigger] projected.get(p) == if exists|j: int| 0 <= j < e && #[trigger] theirs.key(j) == p {
                match start.get(p) {
                    Some(a) => Some(a | theirs.get(p)->0),
                    None => Some(if their_saved.has(p) { theirs.get(p)->0 } else { theirs.get(p)->0 | RVS_RESULT_ANY }),
                }
            } else {
                mid.get(p)
            },
            grown == exists|j: int| 0 <= j < e && (!start.has(#[trigger] theirs.key(j))
                || (start.get(theirs.key(j))->0 | theirs.val(j)) != start.get(theirs.key(j))->0),
        decreases theirs.len_spec() - e,
    {
        let place = theirs.rvs_key_at(e);
        let value = *theirs.rvs_value_at(e);
        let ghost k0 = theirs.key(e as int);
        proof {
            theirs.lemma_index_unique(e as int);
            if exists|j: int| 0 <= j < e && #[trigger] theirs.key(j) == k0 {
                let j = choose|j: int| 0 <= j < e && #[trigger] theirs.key(j) == k0;
                assert(theirs.key(j) != theirs.key(e as int));
            }
            assert(projected.get(k0) == mid.get(k0));
        }
        match projected.rvs_find(place) {
            Some(i) => {
                let entry = *projected.rvs_value_at(i);
                proof {
                    projected.lemma_index_unique(i as int);
                }
                let joined = entry | value;
                if joined != entry {
                    grown = true;
                }
                projected.rvs_set_value_at_M(i, joined);
            },
            None => {
                let stored = if their_saved.rvs_contains(place) { value } else { value | RVS_RESULT_ANY };
                projected.rvs_insert_M(place.rvs_dup(), stored);
                grown = true;
            },
        }
        proof {
            assert forall|p: PlaceView| #[trigger] projected.get(p) == if exists|j: int| 0 <= j < e + 1 && #[trigger] theirs.key(j) == p {
                match start.get(p) {
                    Some(a) => Some(a | theirs.get(p)->0),
                    None => Some(if their_saved.has(p) { theirs.get(p)->0 } else { theirs.get(p)->0 | RVS_RESULT_ANY }),
                }
            } else {
                mid.get(p)
            } by {
                if p != k0 && exists|j: int| 0 <= j < e + 1 && #[trigger] theirs.key(j) == p {
                    let j = choose|j: int| 0 <= j < e + 1 && #[trigger] theirs.key(j) == p;
                    assert(j < e);
                }
            }
            assert(grown == exists|j: int| 0 <= j < e + 1 && (!start.has(#[trigger] theirs.key(j))
                || (start.get(theirs.key(j))->0 | theirs.val(j)) != start.get(theirs.key(j))->0)) by {
                if exists|j: int| 0 <= j < e + 1 && (!start.has(#[trigger] theirs.key(j))
                    || (start.get(theirs.key(j))->0 | theirs.val(j)) != start.get(theirs.key(j))->0) {
                    let j = choose|j: int| 0 <= j < e + 1 && (!start.has(#[trigger] theirs.key(j))
                        || (start.get(theirs.key(j))->0 | theirs.val(j)) != start.get(theirs.key(j))->0);
                    if j < e {
                        assert(exists|j: int| 0 <= j < e && (!start.has(#[trigger] theirs.key(j))
                            || (start.get(theirs.key(j))->0 | theirs.val(j)) != start.get(theirs.key(j))->0));
                    }
                }
            }
        }
        e = e + 1;
    }
    proof {
        assert forall|p: PlaceView| #[trigger] projected.get(p) == spec_joined_projection(start, *my_saved, *theirs, *their_saved, p) by {
            if theirs.has(p) {
                let j = choose|j: int| 0 <= j < theirs.len_spec() && #[trigger] theirs.key(j) == p;
                assert(theirs.key(j) == p);
            }
        }
        assert(grown == exists|p: PlaceView| #[trigger] theirs.has(p) && (!start.has(p) || (start.get(p)->0 | theirs.get(p)->0) != start.get(p)->0)) by {
            if grown {
                let j = choose|j: int| 0 <= j < theirs.len_spec() && (!start.has(#[trigger] theirs.key(j))
                    || (start.get(theirs.key(j))->0 | theirs.val(j)) != start.get(theirs.key(j))->0);
                theirs.lemma_index_unique(j);
                assert(theirs.has(theirs.key(j)));
            }
            if exists|p: PlaceView| #[trigger] theirs.has(p) && (!start.has(p) || (start.get(p)->0 | theirs.get(p)->0) != start.get(p)->0) {
                let p = choose|p: PlaceView| #[trigger] theirs.has(p) && (!start.has(p) || (start.get(p)->0 | theirs.get(p)->0) != start.get(p)->0);
                let j = theirs.index_of(p);
                theirs.lemma_index_unique(j);
            }
        }
    }
    widened || grown
}

/// The reference a map holds for a place, or none.
pub open spec fn spec_reference_or_none(m: ResultReferenceMap, t: PlaceView) -> ResultReference {
    match m.get(t) {
        Some(r) => r,
        None => ResultReference::spec_none(),
    }
}

/// Joins the references of `theirs` into `mine`; reports whether a
/// reference is new or grew.
#[allow(non_snake_case)]
fn rvs_join_reference_map_M(mine: &mut ResultReferenceMap, theirs: &ResultReferenceMap) -> (changed: bool)
    requires
        old(mine).wf(),
        theirs.wf(),
    ensures
        final(mine).wf(),
        forall|t: PlaceView| #[trigger] final(mine).get(t) == if theirs.has(t) {
            Some(spec_reference_or_none(*old(mine), t).spec_join(theirs.get(t)->0))
        } else {
            old(mine).get(t)
        },
        changed == exists|t: PlaceView| #[trigger] theirs.has(t)
            && (!old(mine).has(t) || old(mine).get(t)->0.spec_join(theirs.get(t)->0) != old(mine).get(t)->0),
{
    let ghost start = *mine;
    let mut changed = false;
    let mut e: usize = 0;
    while e < theirs.rvs_len()
        invariant
            theirs.wf(),
            mine.wf(),
            e <= theirs.len_spec(),
            forall|t: PlaceView| #[trigger] mine.get(t) == if exists|j: int| 0 <= j < e && #[trigger] theirs.key(j) == t {
                Some(spec_reference_or_none(start, t).spec_join(theirs.get(t)->0))
            } else {
                start.get(t)
            },
            changed == exists|j: int| 0 <= j < e && (!start.has(#[trigger] theirs.key(j))
                || start.get(theirs.key(j))->0.spec_join(theirs.val(j)) != start.get(theirs.key(j))->0),
        decreases theirs.len_spec() - e,
    {
        let target = theirs.rvs_key_at(e);
        let reference = *theirs.rvs_value_at(e);
        let ghost k0 = theirs.key(e as int);
        proof {
            theirs.lemma_index_unique(e as int);
            if exists|j: int| 0 <= j < e && #[trigger] theirs.key(j) == k0 {
                let j = choose|j: int| 0 <= j < e && #[trigger] theirs.key(j) == k0;
                assert(theirs.key(j) != theirs.key(e as int));
            }
        }
        let present = mine.rvs_contains(target);
        let previous = match mine.rvs_get(target) {
            Some(r) => *r,
            None => ResultReference { direct: false, direct_mutable: false, nested: false, nested_mutable: false },
        };
        let mut joined = previous;
        joined.rvs_join_M(reference);
        if !(previous == joined) || !present {
            changed = true;
        }
        mine.rvs_insert_M(target.rvs_dup(), joined);
        proof {
            assert forall|t: PlaceView| #[trigger] mine.get(t) == if exists|j: int| 0 <= j < e + 1 && #[trigger] theirs.key(j) == t {
                Some(spec_reference_or_none(start, t).spec_join(theirs.get(t)->0))
            } else {
                start.get(t)
            } by {
                if t != k0 && exists|j: int| 0 <= j < e + 1 && #[trigger] theirs.key(j) == t {
                    let j = choose|j: int| 0 <= j < e + 1 && #[trigger] theirs.key(j) == t;
                    assert(j < e);
                }
            }
            assert(changed == exists|j: int| 0 <= j < e + 1 && (!start.has(#[trigger] theirs.key(j))
                || start.get(theirs.key(j))->0.spec_join(theirs.val(j)) != start.get(theirs.key(j))->0)) by {
                if exists|j: int| 0 <= j < e + 1 && (!start.has(#[trigger] theirs.key(j))
                    || start.get(theirs.key(j))->0.spec_join(theirs.val(j)) != start.get(theirs.key(j))->0) {
                    let j = choose|j: int| 0 <= j < e + 1 && (!start.has(#[trigger] theirs.key(j))
                        || start.get(theirs.key(j))->0.spec_join(theirs.val(j)) != start.get(theirs.key(j))->0);
                    if j < e {
                        assert(exists|j: int| 0 <= j < e && (!start.has(#[trigger] theirs.key(j))
                            || start.get(theirs.key(j))->0.spec_join(theirs.val(j)) != start.get(theirs.key(j))->0));
                    }
                }
            }
        }
        e = e + 1;
    }
    proof {
        assert forall|t: PlaceView| #[trigger] mine.get(t) == if theirs.has(t) {
            Some(spec_reference_or_none(start, t).spec_join(theirs.get(t)->0))
        } else {
            start.get(t)
        } by {
            if theirs.has(t) {
                let j = choose|j: int| 0 <= j < theirs.len_spec() && #[trigger] theirs.key(j) == t;
                assert(theirs.key(j) == t);
            }
        }
        if changed {
            let j = choose|j: int| 0 <= j < theirs.len_spec() && (!start.has(#[trigger] theirs.key(j))
                || start.get(theirs.key(j))->0.spec_join(theirs.val(j)) != start.get(theirs.key(j))->0);
            theirs.lemma_index_unique(j);
            assert(theirs.has(theirs.key(j)));
        }
        if exists|t: PlaceView| #[trigger] theirs.has(t)
            && (!start.has(t) || start.get(t)->0.spec_join(theirs.get(t)->0) != start.get(t)->0) {
            let t = choose|t: PlaceView| #[trigger] theirs.has(t)
                && (!start.has(t) || start.get(t)->0.spec_join(theirs.get(t)->0) != start.get(t)->0);
            let j = theirs.index_of(t);
            theirs.lemma_index_unique(j);
        }
    }
    changed
}

/// The reference map a local holds, or the empty one.
pub open spec fn spec_inner_get(refs: FlowMap<u32, ResultReferenceMap>, l: PlaceView, t: PlaceView) -> Option<ResultReference> {
    match refs.get(l) {
        Some(m) => m.get(t),
        None => None,
    }
}

/// Joining the references of locals changes something.
pub open spec fn spec_references_join_changes(mine: FlowMap<u32, ResultReferenceMap>, theirs: FlowMap<u32, ResultReferenceMap>) -> bool {
    exists|l: PlaceView, t: PlaceView| #[trigger] spec_inner_get(theirs, l, t) is Some
        && (spec_inner_get(mine, l, t) is None
            || spec_inner_get(mine, l, t)->0.spec_join(spec_inner_get(theirs, l, t)->0) != spec_inner_get(mine, l, t)->0)
}

/// Joins the references locals of another state hold into `references`.
#[allow(non_snake_case)]
#[verifier::spinoff_prover]
fn rvs_join_references_M(references: &mut FlowMap<u32, ResultReferenceMap>, theirs: &FlowMap<u32, ResultReferenceMap>) -> (changed: bool)
    requires
        old(references).wf(),
        forall|i: int| 0 <= i < old(references).len_spec() ==> (#[trigger] old(references).val(i)).wf(),
        theirs.wf(),
        forall|i: int| 0 <= i < theirs.len_spec() ==> (#[trigger] theirs.val(i)).wf(),
    ensures
        final(references).wf(),
        forall|i: int| 0 <= i < final(references).len_spec() ==> (#[trigger] final(references).val(i)).wf(),
        forall|l: PlaceView| #[trigger] final(references).has(l) == (old(references).has(l) || theirs.has(l)),
        forall|l: PlaceView| !theirs.has(l) ==> #[trigger] final(references).get(l) == old(references).get(l),
        forall|l: PlaceView, t: PlaceView| theirs.has(l) ==> #[trigger] spec_inner_get(*final(references), l, t) == if theirs.get(l)->0.has(t) {
            Some(match spec_inner_get(*old(references), l, t) {
                Some(r) => r,
                None => ResultReference::spec_none(),
            }.spec_join(theirs.get(l)->0.get(t)->0))
        } else {
            spec_inner_get(*old(references), l, t)
        },
        changed == spec_references_join_changes(*old(references), *theirs),
{
    let ghost start = *references;
    let mut changed = false;
    let mut e: usize = 0;
    while e < theirs.rvs_len()
        invariant
            theirs.wf(),
            forall|i: int| 0 <= i < theirs.len_spec() ==> (#[trigger] theirs.val(i)).wf(),
            start.wf(),
            references.wf(),
            forall|i: int| 0 <= i < references.len_spec() ==> (#[trigger] references.val(i)).wf(),
            e <= theirs.len_spec(),
            forall|l: PlaceView| #[trigger] references.has(l) == (start.has(l) || exists|j: int| 0 <= j < e && #[trigger] theirs.key(j) == l),
            forall|l: PlaceView| !(exists|j: int| 0 <= j < e && #[trigger] theirs.key(j) == l) ==> #[trigger] references.get(l) == start.get(l),
            forall|l: PlaceView, t: PlaceView| (exists|j: int| 0 <= j < e && #[trigger] theirs.key(j) == l) ==> #[trigger] spec_inner_get(*references, l, t) == if theirs.get(l)->0.has(t) {
                Some(match spec_inner_get(start, l, t) {
                    Some(r) => r,
                    None => ResultReference::spec_none(),
                }.spec_join(theirs.get(l)->0.get(t)->0))
            } else {
                spec_inner_get(start, l, t)
            },
            changed == exists|j: int, t: PlaceView| 0 <= j < e && #[trigger] theirs.val(j).has(t)
                && (spec_inner_get(start, theirs.key(j), t) is None
                    || spec_inner_get(start, theirs.key(j), t)->0.spec_join(theirs.val(j).get(t)->0) != spec_inner_get(start, theirs.key(j), t)->0),
        decreases theirs.len_spec() - e,
    {
        let local = *theirs.rvs_key_at(e);
        let their_inner = theirs.rvs_value_at(e);
        let ghost l0 = theirs.key(e as int);
        proof {
            theirs.lemma_index_unique(e as int);
            if exists|j: int| 0 <= j < e && #[trigger] theirs.key(j) == l0 {
                let j = choose|j: int| 0 <= j < e && #[trigger] theirs.key(j) == l0;
                assert(theirs.key(j) != theirs.key(e as int));
            }
            assert(references.get(l0) == start.get(l0));
        }
        let ghost before = *references;
        let grew = match references.rvs_find(&local) {
            Some(i) => {
                proof {
                    references.lemma_index_unique(i as int);
                }
                let mut inner = references.rvs_replace_value_at_M(i, FlowMap::rvs_new());
                let ghost old_inner = inner;
                assert(before.get(l0) == Some(old_inner));
                assert(old_inner.wf());
                let grew = rvs_join_reference_map_M(&mut inner, their_inner);
                references.rvs_set_value_at_M(i, inner);
                proof {
                    assert(references.get(l0) == Some(inner));
                    assert(theirs.get(l0) == Some(*their_inner));
                    assert forall|t: PlaceView| #[trigger] spec_inner_get(*references, l0, t) == if theirs.get(l0)->0.has(t) {
                        Some(match spec_inner_get(start, l0, t) {
                            Some(r) => r,
                            None => ResultReference::spec_none(),
                        }.spec_join(theirs.get(l0)->0.get(t)->0))
                    } else {
                        spec_inner_get(start, l0, t)
                    } by {
                        assert(spec_inner_get(start, l0, t) == old_inner.get(t));
                    }
                }
                grew
            },
            None => {
                let mut inner: ResultReferenceMap = FlowMap::rvs_new();
                let ghost empty = inner;
                let grew = rvs_join_reference_map_M(&mut inner, their_inner);
                references.rvs_insert_M(local, inner);
                proof {
                    assert(theirs.get(l0) == Some(*their_inner));
                    assert forall|t: PlaceView| #[trigger] spec_inner_get(start, l0, t) == empty.get(t) by {}
                    assert forall|t: PlaceView| #[trigger] spec_inner_get(*references, l0, t) == if theirs.get(l0)->0.has(t) {
                        Some(match spec_inner_get(start, l0, t) {
                            Some(r) => r,
                            None => ResultReference::spec_none(),
                        }.spec_join(theirs.get(l0)->0.get(t)->0))
                    } else {
                        spec_inner_get(start, l0, t)
                    } by {
                        assert(references.get(l0) == Some(inner));
                    }
                    assert forall|i: int| 0 <= i < references.len_spec() implies (#[trigger] references.val(i)).wf() by {
                        if references.key(i) == l0 {
                            references.lemma_index_unique(i);
                        } else {
                            references.lemma_index_unique(i);
                            let k = references.key(i);
                            assert(before.has(k));
                            let j = before.index_of(k);
                            before.lemma_index_unique(j);
                        }
                    }
                }
                grew
            },
        };
        if grew {
            changed = true;
        }
        proof {
            assert forall|l: PlaceView| #[trigger] references.has(l) == (start.has(l) || exists|j: int| 0 <= j < e + 1 && #[trigger] theirs.key(j) == l) by {
                if l != l0 && exists|j: int| 0 <= j < e + 1 && #[trigger] theirs.key(j) == l {
                    let j = choose|j: int| 0 <= j < e + 1 && #[trigger] theirs.key(j) == l;
                    assert(j < e);
                }
            }
            assert forall|l: PlaceView| !(exists|j: int| 0 <= j < e + 1 && #[trigger] theirs.key(j) == l) implies #[trigger] references.get(l) == start.get(l) by {
                assert(theirs.key(e as int) != l);
            }
            assert forall|l: PlaceView, t: PlaceView| (exists|j: int| 0 <= j < e + 1 && #[trigger] theirs.key(j) == l) implies #[trigger] spec_inner_get(*references, l, t) == if theirs.get(l)->0.has(t) {
                Some(match spec_inner_get(start, l, t) {
                    Some(r) => r,
                    None => ResultReference::spec_none(),
                }.spec_join(theirs.get(l)->0.get(t)->0))
            } else {
                spec_inner_get(start, l, t)
            } by {
                if l != l0 {
                    let j = choose|j: int| 0 <= j < e + 1 && #[trigger] theirs.key(j) == l;
                    assert(j < e);
                    assert(references.get(l) == before.get(l));
                    assert(spec_inner_get(*references, l, t) == spec_inner_get(before, l, t));
                }
            }
            assert(changed == exists|j: int, t: PlaceView| 0 <= j < e + 1 && #[trigger] theirs.val(j).has(t)
                && (spec_inner_get(start, theirs.key(j), t) is None
                    || spec_inner_get(start, theirs.key(j), t)->0.spec_join(theirs.val(j).get(t)->0) != spec_inner_get(start, theirs.key(j), t)->0)) by {
                if exists|j: int, t: PlaceView| 0 <= j < e + 1 && #[trigger] theirs.val(j).has(t)
                    && (spec_inner_get(start, theirs.key(j), t) is None
                        || spec_inner_get(start, theirs.key(j), t)->0.spec_join(theirs.val(j).get(t)->0) != spec_inner_get(start, theirs.key(j), t)->0) {
                    let (j, t) = choose|j: int, t: PlaceView| 0 <= j < e + 1 && #[trigger] theirs.val(j).has(t)
                        && (spec_inner_get(start, theirs.key(j), t) is None
                            || spec_inner_get(start, theirs.key(j), t)->0.spec_join(theirs.val(j).get(t)->0) != spec_inner_get(start, theirs.key(j), t)->0);
                    if j < e {
                        assert(exists|j: int, t: PlaceView| 0 <= j < e && #[trigger] theirs.val(j).has(t)
                            && (spec_inner_get(start, theirs.key(j), t) is None
                                || spec_inner_get(start, theirs.key(j), t)->0.spec_join(theirs.val(j).get(t)->0) != spec_inner_get(start, theirs.key(j), t)->0));
                    }
                }
            }
        }
        e = e + 1;
    }
    proof {
        assert forall|l: PlaceView| #[trigger] references.has(l) == (start.has(l) || theirs.has(l)) by {
            if theirs.has(l) {
                let j = choose|j: int| 0 <= j < theirs.len_spec() && #[trigger] theirs.key(j) == l;
                assert(theirs.key(j) == l);
            }
        }
        assert forall|l: PlaceView| !theirs.has(l) implies #[trigger] references.get(l) == start.get(l) by {
            if exists|j: int| 0 <= j < theirs.len_spec() && #[trigger] theirs.key(j) == l {
                let j = choose|j: int| 0 <= j < theirs.len_spec() && #[trigger] theirs.key(j) == l;
                assert(theirs.has(l));
            }
        }
        assert forall|l: PlaceView, t: PlaceView| theirs.has(l) implies #[trigger] spec_inner_get(*references, l, t) == if theirs.get(l)->0.has(t) {
            Some(match spec_inner_get(start, l, t) {
                Some(r) => r,
                None => ResultReference::spec_none(),
            }.spec_join(theirs.get(l)->0.get(t)->0))
        } else {
            spec_inner_get(start, l, t)
        } by {
            let j = choose|j: int| 0 <= j < theirs.len_spec() && #[trigger] theirs.key(j) == l;
            assert(theirs.key(j) == l);
        }
        if changed {
            let (j, t) = choose|j: int, t: PlaceView| 0 <= j < theirs.len_spec() && #[trigger] theirs.val(j).has(t)
                && (spec_inner_get(start, theirs.key(j), t) is None
                    || spec_inner_get(start, theirs.key(j), t)->0.spec_join(theirs.val(j).get(t)->0) != spec_inner_get(start, theirs.key(j), t)->0);
            theirs.lemma_index_unique(j);
            assert(spec_inner_get(*theirs, theirs.key(j), t) is Some);
        }
        if spec_references_join_changes(start, *theirs) {
            let (l, t) = choose|l: PlaceView, t: PlaceView| #[trigger] spec_inner_get(*theirs, l, t) is Some
                && (spec_inner_get(start, l, t) is None
                    || spec_inner_get(start, l, t)->0.spec_join(spec_inner_get(*theirs, l, t)->0) != spec_inner_get(start, l, t)->0);
            let j = theirs.index_of(l);
            theirs.lemma_index_unique(j);
            assert(theirs.val(j).has(t));
        }
    }
    changed
}

/// The discriminants both states agree on.
#[allow(non_snake_case)]
fn rvs_retain_agreeing_discriminants_M(map: &mut FlowMap<u32, ResultDiscriminant>, theirs: &FlowMap<u32, ResultDiscriminant>) -> (changed: bool)
    requires
        old(map).wf(),
        theirs.wf(),
    ensures
        final(map).wf(),
        forall|l: PlaceView| #[trigger] final(map).get(l) == match old(map).get(l) {
            Some(d) => if theirs.get(l) matches Some(o) && spec_discriminant_view(o) == spec_discriminant_view(d) { Some(d) } else { None },
            None => None,
        },
        changed == exists|l: PlaceView| #[trigger] old(map).has(l)
            && !(theirs.get(l) matches Some(o) && spec_discriminant_view(o) == spec_discriminant_view(old(map).get(l)->0)),
{
    let mut rest: FlowMap<u32, ResultDiscriminant> = FlowMap::rvs_new();
    std::mem::swap(&mut rest, map);
    let ghost all = rest;
    let mut changed = false;
    while rest.entries.len() > 0
        invariant
            all.wf(),
            theirs.wf(),
            map.wf(),
            rest.entries@ == all.entries@.take(rest.entries@.len() as int),
            rest.entries@.len() <= all.len_spec(),
            forall|l: PlaceView| #[trigger] map.get(l) == if exists|j: int| rest.entries@.len() <= j < all.len_spec() && #[trigger] all.key(j) == l {
                match all.get(l) {
                    Some(d) => if theirs.get(l) matches Some(o) && spec_discriminant_view(o) == spec_discriminant_view(d) { Some(d) } else { None },
                    None => None,
                }
            } else {
                None
            },
            changed == exists|j: int| rest.entries@.len() <= j < all.len_spec()
                && !(theirs.get(#[trigger] all.key(j)) matches Some(o) && spec_discriminant_view(o) == spec_discriminant_view(all.val(j))),
        decreases rest.entries@.len(),
    {
        let ghost n = rest.entries@.len() as int;
        let entry = rest.entries.pop();
        let (local, d) = match entry {
            Some(e) => e,
            None => {
                return changed;
            },
        };
        proof {
            assert(all.entries@[n - 1] == (local, d));
            assert(all.key(n - 1) == local.spec_key());
            all.lemma_index_unique(n - 1);
            assert(rest.entries@ =~= all.entries@.take(n - 1));
        }
        let agrees = match theirs.rvs_get(&local) {
            Some(o) => o.source.rvs_same_key(&d.source) && o.is_poll == d.is_poll,
            None => false,
        };
        if agrees {
            map.rvs_insert_M(local, d);
        } else {
            changed = true;
        }
        proof {
            assert forall|l: PlaceView| #[trigger] map.get(l) == if exists|j: int| n - 1 <= j < all.len_spec() && #[trigger] all.key(j) == l {
                match all.get(l) {
                    Some(d) => if theirs.get(l) matches Some(o) && spec_discriminant_view(o) == spec_discriminant_view(d) { Some(d) } else { None },
                    None => None,
                }
            } else {
                None
            } by {
                if exists|j: int| n - 1 <= j < all.len_spec() && #[trigger] all.key(j) == l {
                    let j = choose|j: int| n - 1 <= j < all.len_spec() && #[trigger] all.key(j) == l;
                    if j != n - 1 {
                        assert(exists|j: int| n <= j < all.len_spec() && #[trigger] all.key(j) == l);
                        assert(all.key(j) != all.key(n - 1));
                    }
                } else {
                    assert(all.key(n - 1) != l);
                }
            }
            assert(changed == exists|j: int| n - 1 <= j < all.len_spec()
                && !(theirs.get(#[trigger] all.key(j)) matches Some(o) && spec_discriminant_view(o) == spec_discriminant_view(all.val(j)))) by {
                if exists|j: int| n - 1 <= j < all.len_spec()
                    && !(theirs.get(#[trigger] all.key(j)) matches Some(o) && spec_discriminant_view(o) == spec_discriminant_view(all.val(j))) {
                    let j = choose|j: int| n - 1 <= j < all.len_spec()
                        && !(theirs.get(#[trigger] all.key(j)) matches Some(o) && spec_discriminant_view(o) == spec_discriminant_view(all.val(j)));
                    if j != n - 1 {
                        assert(exists|j: int| n <= j < all.len_spec()
                            && !(theirs.get(#[trigger] all.key(j)) matches Some(o) && spec_discriminant_view(o) == spec_discriminant_view(all.val(j))));
                    }
                }
            }
        }
    }
    proof {
        assert forall|l: PlaceView| #[trigger] map.get(l) == match all.get(l) {
            Some(d) => if theirs.get(l) matches Some(o) && spec_discriminant_view(o) == spec_discriminant_view(d) { Some(d) } else { None },
            None => None,
        } by {
            if all.has(l) {
                let j = choose|j: int| 0 <= j < all.len_spec() && #[trigger] all.key(j) == l;
                assert(all.key(j) == l);
            }
        }
        if changed {
            let j = choose|j: int| 0 <= j < all.len_spec()
                && !(theirs.get(#[trigger] all.key(j)) matches Some(o) && spec_discriminant_view(o) == spec_discriminant_view(all.val(j)));
            all.lemma_index_unique(j);
            assert(all.has(all.key(j)));
        }
        if exists|l: PlaceView| #[trigger] all.has(l)
            && !(theirs.get(l) matches Some(o) && spec_discriminant_view(o) == spec_discriminant_view(all.get(l)->0)) {
            let l = choose|l: PlaceView| #[trigger] all.has(l)
                && !(theirs.get(l) matches Some(o) && spec_discriminant_view(o) == spec_discriminant_view(all.get(l)->0));
            let j = all.index_of(l);
            all.lemma_index_unique(j);
        }
    }
    changed
}

/// The predicates both states agree on.
#[allow(non_snake_case)]
fn rvs_retain_agreeing_predicates_M(map: &mut FlowMap<u32, (ResultPlaceKey, bool)>, theirs: &FlowMap<u32, (ResultPlaceKey, bool)>) -> (changed: bool)
    requires
        old(map).wf(),
        theirs.wf(),
    ensures
        final(map).wf(),
        forall|l: PlaceView| #[trigger] final(map).get(l) == match old(map).get(l) {
            Some(p) => if theirs.get(l) matches Some(o) && spec_predicate_view(o) == spec_predicate_view(p) { Some(p) } else { None },
            None => None,
        },
        changed == exists|l: PlaceView| #[trigger] old(map).has(l)
            && !(theirs.get(l) matches Some(o) && spec_predicate_view(o) == spec_predicate_view(old(map).get(l)->0)),
{
    let mut rest: FlowMap<u32, (ResultPlaceKey, bool)> = FlowMap::rvs_new();
    std::mem::swap(&mut rest, map);
    let ghost all = rest;
    let mut changed = false;
    while rest.entries.len() > 0
        invariant
            all.wf(),
            theirs.wf(),
            map.wf(),
            rest.entries@ == all.entries@.take(rest.entries@.len() as int),
            rest.entries@.len() <= all.len_spec(),
            forall|l: PlaceView| #[trigger] map.get(l) == if exists|j: int| rest.entries@.len() <= j < all.len_spec() && #[trigger] all.key(j) == l {
                match all.get(l) {
                    Some(p) => if theirs.get(l) matches Some(o) && spec_predicate_view(o) == spec_predicate_view(p) { Some(p) } else { None },
                    None => None,
                }
            } else {
                None
            },
            changed == exists|j: int| rest.entries@.len() <= j < all.len_spec()
                && !(theirs.get(#[trigger] all.key(j)) matches Some(o) && spec_predicate_view(o) == spec_predicate_view(all.val(j))),
        decreases rest.entries@.len(),
    {
        let ghost n = rest.entries@.len() as int;
        let entry = rest.entries.pop();
        let (local, p) = match entry {
            Some(e) => e,
            None => {
                return changed;
            },
        };
        proof {
            assert(all.entries@[n - 1] == (local, p));
            assert(all.key(n - 1) == local.spec_key());
            all.lemma_index_unique(n - 1);
            assert(rest.entries@ =~= all.entries@.take(n - 1));
        }
        let agrees = match theirs.rvs_get(&local) {
            Some(o) => o.0.rvs_same_key(&p.0) && o.1 == p.1,
            None => false,
        };
        if agrees {
            map.rvs_insert_M(local, p);
        } else {
            changed = true;
        }
        proof {
            assert forall|l: PlaceView| #[trigger] map.get(l) == if exists|j: int| n - 1 <= j < all.len_spec() && #[trigger] all.key(j) == l {
                match all.get(l) {
                    Some(p) => if theirs.get(l) matches Some(o) && spec_predicate_view(o) == spec_predicate_view(p) { Some(p) } else { None },
                    None => None,
                }
            } else {
                None
            } by {
                if exists|j: int| n - 1 <= j < all.len_spec() && #[trigger] all.key(j) == l {
                    let j = choose|j: int| n - 1 <= j < all.len_spec() && #[trigger] all.key(j) == l;
                    if j != n - 1 {
                        assert(exists|j: int| n <= j < all.len_spec() && #[trigger] all.key(j) == l);
                        assert(all.key(j) != all.key(n - 1));
                    }
                } else {
                    assert(all.key(n - 1) != l);
                }
            }
            assert(changed == exists|j: int| n - 1 <= j < all.len_spec()
                && !(theirs.get(#[trigger] all.key(j)) matches Some(o) && spec_predicate_view(o) == spec_predicate_view(all.val(j)))) by {
                if exists|j: int| n - 1 <= j < all.len_spec()
                    && !(theirs.get(#[trigger] all.key(j)) matches Some(o) && spec_predicate_view(o) == spec_predicate_view(all.val(j))) {
                    let j = choose|j: int| n - 1 <= j < all.len_spec()
                        && !(theirs.get(#[trigger] all.key(j)) matches Some(o) && spec_predicate_view(o) == spec_predicate_view(all.val(j)));
                    if j != n - 1 {
                        assert(exists|j: int| n <= j < all.len_spec()
                            && !(theirs.get(#[trigger] all.key(j)) matches Some(o) && spec_predicate_view(o) == spec_predicate_view(all.val(j))));
                    }
                }
            }
        }
    }
    proof {
        assert forall|l: PlaceView| #[trigger] map.get(l) == match all.get(l) {
            Some(p) => if theirs.get(l) matches Some(o) && spec_predicate_view(o) == spec_predicate_view(p) { Some(p) } else { None },
            None => None,
        } by {
            if all.has(l) {
                let j = choose|j: int| 0 <= j < all.len_spec() && #[trigger] all.key(j) == l;
                assert(all.key(j) == l);
            }
        }
        if changed {
            let j = choose|j: int| 0 <= j < all.len_spec()
                && !(theirs.get(#[trigger] all.key(j)) matches Some(o) && spec_predicate_view(o) == spec_predicate_view(all.val(j)));
            all.lemma_index_unique(j);
            assert(all.has(all.key(j)));
        }
        if exists|l: PlaceView| #[trigger] all.has(l)
            && !(theirs.get(l) matches Some(o) && spec_predicate_view(o) == spec_predicate_view(all.get(l)->0)) {
            let l = choose|l: PlaceView| #[trigger] all.has(l)
                && !(theirs.get(l) matches Some(o) && spec_predicate_view(o) == spec_predicate_view(all.get(l)->0));
            let j = all.index_of(l);
            all.lemma_index_unique(j);
        }
    }
    changed
}

/// Joining state `b` into state `a` changes something.
pub open spec fn spec_join_changes(a: ResultFlowState, b: ResultFlowState) -> bool {
    ||| exists|k: PlaceView| #[trigger] b.values.has(k)
        && (spec_value_or_uninit(a.values, k) | b.values.get(k)->0) != spec_value_or_uninit(a.values, k)
    ||| spec_references_join_changes(a.references, b.references)
    ||| spec_projection_join_changes(a.projected_values, a.coroutine_saved_values, b.projected_values)
    ||| exists|p: PlaceView| #[trigger] b.coroutine_saved_values.has(p) && !a.coroutine_saved_values.has(p)
    ||| exists|l: PlaceView| #[trigger] a.discriminants.has(l)
        && !(b.discriminants.get(l) matches Some(o) && spec_discriminant_view(o) == spec_discriminant_view(a.discriminants.get(l)->0))
    ||| exists|l: PlaceView| #[trigger] a.predicates.has(l)
        && !(b.predicates.get(l) matches Some(o) && spec_predicate_view(o) == spec_predicate_view(a.predicates.get(l)->0))
    ||| exists|p: PlaceView| #[trigger] b.escaped_results.has(p) && !a.escaped_results.has(p)
}

impl ResultFlowState {
    /// Joins the state reaching a merge point along another edge into this
    /// one: local values are united (an untracked local counting as
    /// uninitialized); references are joined per local and place; projected
    /// places are united, and a place only one side tracks is widened to
    /// any variant unless that side saved it; saved places and escaped
    /// `Result`s are united; only the discriminants and predicates both
    /// sides agree on are kept. Reports whether anything changed.
    #[allow(non_snake_case)]
    pub fn rvs_join_M(&mut self, other: &ResultFlowState) -> (changed: bool)
        requires
            old(self).wf(),
            other.wf(),
        ensures
            final(self).wf(),
            forall|k: PlaceView| #[trigger] final(self).values.get(k) == if other.values.has(k) {
                Some(spec_value_or_uninit(old(self).values, k) | other.values.get(k)->0)
            } else {
                old(self).values.get(k)
            },
            forall|l: PlaceView| #[trigger] final(self).references.has(l) == (old(self).references.has(l) || other.references.has(l)),
            forall|l: PlaceView| !other.references.has(l) ==> #[trigger] final(self).references.get(l) == old(self).references.get(l),
            forall|l: PlaceView, t: PlaceView| other.references.has(l) ==> #[trigger] spec_inner_get(final(self).references, l, t)
                == if other.references.get(l)->0.has(t) {
                Some(match spec_inner_get(old(self).references, l, t) {
                    Some(r) => r,
                    None => ResultReference::spec_none(),
                }.spec_join(other.references.get(l)->0.get(t)->0))
            } else {
                spec_inner_get(old(self).references, l, t)
            },
            forall|p: PlaceView| #[trigger] final(self).projected_values.get(p) == spec_joined_projection(
                old(self).projected_values, old(self).coroutine_saved_values, other.projected_values, other.coroutine_saved_values, p),
            forall|p: PlaceView| #[trigger] final(self).coroutine_saved_values.has(p)
                == (old(self).coroutine_saved_values.has(p) || other.coroutine_saved_values.has(p)),
            forall|l: PlaceView| #[trigger] final(self).discriminants.get(l) == match old(self).discriminants.get(l) {
                Some(d) => if other.discriminants.get(l) matches Some(o) && spec_discriminant_view(o) == spec_discriminant_view(d) { Some(d) } else { None },
                None => None,
            },
            forall|l: PlaceView| #[trigger] final(self).predicates.get(l) == match old(self).predicates.get(l) {
                Some(p) => if other.predicates.get(l) matches Some(o) && spec_predicate_view(o) == spec_predicate_view(p) { Some(p) } else { None },
                None => None,
            },
            forall|p: PlaceView| #[trigger] final(self).escaped_results.has(p) == (old(self).escaped_results.has(p) || other.escaped_results.has(p)),
            changed == spec_join_changes(*old(self), *other),
    {
        let values_changed = rvs_join_values_M(&mut self.values, &other.values);
        let references_changed = rvs_join_references_M(&mut self.references, &other.references);
        let projected_changed = rvs_join_projected_M(
            &mut self.projected_values,
            &self.coroutine_saved_values,
            &other.projected_values,
            &other.coroutine_saved_values,
        );
        let saved_changed = rvs_union_places_M(&mut self.coroutine_saved_values, &other.coroutine_saved_values);
        let discriminants_changed = rvs_retain_agreeing_discriminants_M(&mut self.discriminants, &other.discriminants);
        let predicates_changed = rvs_retain_agreeing_predicates_M(&mut self.predicates, &other.predicates);
        let escaped_changed = rvs_union_places_M(&mut self.escaped_results, &other.escaped_results);
        values_changed || references_changed || projected_changed || saved_changed || discriminants_changed
            || predicates_changed || escaped_changed
    }
}

/// Joining a state with itself changes nothing: the join reports no
/// change, and what `rvs_join_M` gives for every value, reference,
/// projected place, discriminant and predicate is what the state held; a
/// merge point whose incoming states agree is at its fixed point.
pub proof fn lemma_join_with_itself_changes_nothing(s: ResultFlowState)
    requires
        s.wf(),
    ensures
        !spec_join_changes(s, s),
        forall|k: PlaceView| #[trigger] s.values.get(k) == if s.values.has(k) {
            Some(spec_value_or_uninit(s.values, k) | s.values.get(k)->0)
        } else {
            s.values.get(k)
        },
        forall|l: PlaceView, t: PlaceView| s.references.has(l) ==> #[trigger] spec_inner_get(s.references, l, t)
            == if s.references.get(l)->0.has(t) {
            Some(match spec_inner_get(s.references, l, t) {
                Some(r) => r,
                None => ResultReference::spec_none(),
            }.spec_join(s.references.get(l)->0.get(t)->0))
        } else {
            spec_inner_get(s.references, l, t)
        },
        forall|p: PlaceView| #[trigger] s.projected_values.get(p) == spec_joined_projection(
            s.projected_values, s.coroutine_saved_values, s.projected_values, s.coroutine_saved_values, p),
        forall|l: PlaceView| #[trigger] s.discriminants.get(l) == match s.discriminants.get(l) {
            Some(d) => if s.discriminants.get(l) matches Some(o) && spec_discriminant_view(o) == spec_discriminant_view(d) { Some(d) } else { None },
            None => None,
        },
        forall|l: PlaceView| #[trigger] s.predicates.get(l) == match s.predicates.get(l) {
            Some(p) => if s.predicates.get(l) matches Some(o) && spec_predicate_view(o) == spec_predicate_view(p) { Some(p) } else { None },
            None => None,
        },
{
    assert forall|l: PlaceView, t: PlaceView| s.references.has(l) implies #[trigger] spec_inner_get(s.references, l, t)
        == if s.references.get(l)->0.has(t) {
        Some(match spec_inner_get(s.references, l, t) {
            Some(r) => r,
            None => ResultReference::spec_none(),
        }.spec_join(s.references.get(l)->0.get(t)->0))
    } else {
        spec_inner_get(s.references, l, t)
    } by {
        if s.references.get(l)->0.has(t) {
            let r = s.references.get(l)->0.get(t)->0;
            lemma_reference_join_laws(r, r, r);
        }
    }
    assert forall|k: PlaceView| #[trigger] s.values.get(k) == if s.values.has(k) {
        Some(spec_value_or_uninit(s.values, k) | s.values.get(k)->0)
    } else {
        s.values.get(k)
    } by {
        if s.values.has(k) {
            let v = s.values.get(k)->0;
            assert(v | v == v) by (bit_vector);
        }
    }
    assert forall|p: PlaceView| #[trigger] s.projected_values.get(p) == spec_joined_projection(
        s.projected_values, s.coroutine_saved_values, s.projected_values, s.coroutine_saved_values, p) by {
        if s.projected_values.has(p) {
            let v = s.projected_values.get(p)->0;
            assert(v | v == v) by (bit_vector);
        }
    }
    assert forall|k: PlaceView| #[trigger] s.values.has(k)
        implies (spec_value_or_uninit(s.values, k) | s.values.get(k)->0) == spec_value_or_uninit(s.values, k) by {
        let v = s.values.get(k)->0;
        assert(v | v == v) by (bit_vector);
    }
    assert forall|p: PlaceView| #[trigger] s.projected_values.has(p)
        implies (s.projected_values.get(p)->0 | s.projected_values.get(p)->0) == s.projected_values.get(p)->0 by {
        let v = s.projected_values.get(p)->0;
        assert(v | v == v) by (bit_vector);
    }
}

/// Forgets what is known of a place a write may have changed: the
/// discriminants and predicates testing it are dropped, a tracked local
/// takes `unknown_value` (what its type allows: any `Result` variant, or
/// pending too for a `Poll`), and every tracked projection of the same local
/// that may overlap it becomes unknown.
#[allow(non_snake_case)]
pub fn rvs_set_result_target_unknown_M(state: &mut ResultFlowState, target: &ResultPlaceKey, unknown_value: u8)
    requires
        old(state).wf(),
    ensures
        final(state).wf(),
        forall|l: PlaceView| #[trigger] final(state).discriminants.get(l) == match old(state).discriminants.get(l) {
            Some(d) => if spec_tests_source(d.source, target.spec_key()) { None } else { Some(d) },
            None => None,
        },
        forall|l: PlaceView| #[trigger] final(state).predicates.get(l) == match old(state).predicates.get(l) {
            Some(p) => if spec_tests_source(p.0, target.spec_key()) { None } else { Some(p) },
            None => None,
        },
        forall|k: PlaceView| #[trigger] final(state).values.get(k) == if target.projections@.len() == 0
            && k == target.spec_key() && old(state).values.has(k) {
            Some(unknown_value)
        } else {
            old(state).values.get(k)
        },
        forall|p: PlaceView| #[trigger] final(state).projected_values.get(p) == if old(state).projected_values.has(p)
            && p.0 == target.local && spec_paths_overlap(p.1, target.spec_key().1) {
            Some(RVS_RESULT_UNKNOWN)
        } else {
            old(state).projected_values.get(p)
        },
        final(state).references == old(state).references,
        final(state).escaped_results == old(state).escaped_results,
        final(state).coroutine_saved_values == old(state).coroutine_saved_values,
{
    rvs_invalidate_relations_for_source_M(state, target);
    let ghost mid = *state;
    if target.projections.len() == 0 && state.values.rvs_contains(&target.local) {
        proof {
            assert(spec_path_view(target.projections@) =~= Seq::<(Seq<char>, bool, bool)>::empty());
        }
        state.values.rvs_insert_M(target.local, unknown_value);
    } else {
        proof {
            if target.projections@.len() == 0 {
                assert(spec_path_view(target.projections@) =~= Seq::<(Seq<char>, bool, bool)>::empty());
            }
        }
    }
    let ghost start = state.projected_values;
    let ghost before_loop = *state;
    let ghost t = target.spec_key();
    let mut i: usize = 0;
    while i < state.projected_values.rvs_len()
        invariant
            state.wf(),
            start.wf(),
            start == old(state).projected_values,
            state.values == before_loop.values,
            state.references == before_loop.references,
            state.discriminants == before_loop.discriminants,
            state.predicates == before_loop.predicates,
            state.escaped_results == before_loop.escaped_results,
            state.coroutine_saved_values == before_loop.coroutine_saved_values,
            t == target.spec_key(),
            state.projected_values.len_spec() == start.len_spec(),
            i <= start.len_spec(),
            forall|j: int| 0 <= j < start.len_spec() ==> #[trigger] state.projected_values.key(j) == start.key(j),
            forall|j: int| 0 <= j < i ==> #[trigger] state.projected_values.val(j) == if start.key(j).0 == t.0 && spec_paths_overlap(start.key(j).1, t.1) {
                RVS_RESULT_UNKNOWN
            } else {
                start.val(j)
            },
            forall|j: int| i <= j < start.len_spec() ==> #[trigger] state.projected_values.val(j) == start.val(j),
        decreases start.len_spec() - i,
    {
        let place = state.projected_values.rvs_key_at(i);
        let hit = place.local == target.local
            && rvs_projection_paths_overlap(place.projections.as_slice(), target.projections.as_slice());
        assert(place.spec_key() == start.key(i as int));
        if hit {
            state.projected_values.rvs_set_value_at_M(i, RVS_RESULT_UNKNOWN);
        }
        i = i + 1;
    }
    proof {
        let swept = state.projected_values;
        assert forall|p: PlaceView| #[trigger] swept.get(p) == if start.has(p) && p.0 == t.0 && spec_paths_overlap(p.1, t.1) {
            Some(RVS_RESULT_UNKNOWN)
        } else {
            start.get(p)
        } by {
            if start.has(p) {
                let j = start.index_of(p);
                start.lemma_index_unique(j);
                swept.lemma_index_unique(j);
            } else if swept.has(p) {
                let j = choose|j: int| 0 <= j < swept.len_spec() && #[trigger] swept.key(j) == p;
                assert(start.key(j) == p);
            }
        }
    }
}

/// The variants a switch edge keeps of a tested `Result` (or `Poll` of
/// one): value 0 keeps `Ok` (for a `Poll`, `Ready` of either kind), value 1
/// keeps `Err` (for a `Poll`, `Pending`); any other value keeps nothing.
pub open spec fn spec_discriminant_variant(is_poll: bool, discriminant: u128) -> Option<u8> {
    if is_poll {
        if discriminant == 0 {
            Some(RVS_RESULT_UNKNOWN)
        } else if discriminant == 1 {
            Some(RVS_RESULT_PENDING)
        } else {
            None
        }
    } else if discriminant == 0 {
        Some(RVS_RESULT_OK)
    } else if discriminant == 1 {
        Some(RVS_RESULT_ERR)
    } else {
        None
    }
}

/// The variant a switch edge keeps of a place tested by `is_err` (or
/// `is_ok`): the test's outcome 0 or 1 says which.
pub open spec fn spec_predicate_variant(is_error_test: bool, value: u128) -> Option<u8> {
    if (is_error_test && value == 0) || (!is_error_test && value == 1) {
        Some(RVS_RESULT_OK)
    } else if (is_error_test && value == 1) || (!is_error_test && value == 0) {
        Some(RVS_RESULT_ERR)
    } else {
        None
    }
}

/// Narrows a tested place to `variant` on an edge: the edge is feasible
/// when the place may hold the variant, and the place then holds what it
/// may hold of it.
pub open spec fn spec_narrow_ok(old_state: ResultFlowState, new_state: ResultFlowState, source: PlaceView, variant: Option<u8>, feasible: bool) -> bool {
    match variant {
        None => !feasible && new_state == old_state,
        Some(v) => {
            let current = old_state.spec_place_value(source);
            &&& feasible == (current & v != 0)
            &&& feasible ==> new_state.spec_place_value(source) == current & v
            &&& forall|p: PlaceView| p != source ==> #[trigger] new_state.spec_place_value(p) == old_state.spec_place_value(p)
            &&& !feasible ==> new_state == old_state
            &&& new_state.references == old_state.references
            &&& new_state.discriminants == old_state.discriminants
            &&& new_state.predicates == old_state.predicates
            &&& new_state.escaped_results == old_state.escaped_results
            &&& new_state.coroutine_saved_values == old_state.coroutine_saved_values
        },
    }
}

#[allow(non_snake_case)]
fn rvs_narrow_M(state: &mut ResultFlowState, source: &ResultPlaceKey, variant: u8) -> (feasible: bool)
    requires
        old(state).wf(),
    ensures
        final(state).wf(),
        spec_narrow_ok(*old(state), *final(state), source.spec_key(), Some(variant), feasible),
{
    let current = rvs_result_place_value(state, source);
    if current & variant == 0 {
        return false;
    }
    rvs_set_result_place_value_M(state, source, current & variant);
    true
}

/// Narrows the `Result` a switched-on discriminant was read from to the
/// variant of the edge; without a tracked source every edge is feasible.
/// Reports whether the edge is feasible.
#[allow(non_snake_case)]
pub fn rvs_refine_result_discriminant_M(state: &mut ResultFlowState, source: Option<ResultDiscriminant>, discriminant: u128) -> (feasible: bool)
    requires
        old(state).wf(),
        discriminant <= 1 || source is None,
    ensures
        final(state).wf(),
        match source {
            None => feasible && *final(state) == *old(state),
            Some(d) => spec_narrow_ok(*old(state), *final(state), d.source.spec_key(),
                spec_discriminant_variant(d.is_poll, discriminant), feasible),
        },
{
    match source {
        None => true,
        Some(d) => {
            let variant = if d.is_poll {
                if discriminant == 0 {
                    RVS_RESULT_OK | RVS_RESULT_ERR
                } else {
                    RVS_RESULT_PENDING
                }
            } else if discriminant == 0 {
                RVS_RESULT_OK
            } else {
                RVS_RESULT_ERR
            };
            assert(RVS_RESULT_OK | RVS_RESULT_ERR == RVS_RESULT_UNKNOWN) by (bit_vector);
            rvs_narrow_M(state, &d.source, variant)
        },
    }
}

/// Narrows the state on one edge of a switch: through the tested
/// discriminant's source when there is one, else through the `is_err` /
/// `is_ok` predicate switched on; other switches keep every edge as is.
/// Reports whether the edge is feasible.
#[allow(non_snake_case)]
pub fn rvs_refine_switch_edge_M(
    state: &mut ResultFlowState,
    discriminant_source: Option<ResultDiscriminant>,
    predicate: Option<(ResultPlaceKey, bool)>,
    value: u128,
) -> (feasible: bool)
    requires
        old(state).wf(),
        value <= 1 || (discriminant_source is None && predicate is None),
    ensures
        final(state).wf(),
        match discriminant_source {
            Some(d) => spec_narrow_ok(*old(state), *final(state), d.source.spec_key(),
                spec_discriminant_variant(d.is_poll, value), feasible),
            None => match predicate {
                None => feasible && *final(state) == *old(state),
                Some(p) => spec_narrow_ok(*old(state), *final(state), p.0.spec_key(),
                    spec_predicate_variant(p.1, value), feasible),
            },
        },
{
    if discriminant_source.is_some() {
        return rvs_refine_result_discriminant_M(state, discriminant_source, value);
    }
    match predicate {
        None => true,
        Some((source, is_error_test)) => {
            let variant = if (is_error_test && value == 0) || (!is_error_test && value == 1) {
                RVS_RESULT_OK
            } else {
                RVS_RESULT_ERR
            };
            rvs_narrow_M(state, &source, variant)
        },
    }
}

} // verus!
