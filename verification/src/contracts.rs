//! Contracts written in function names against the capabilities inferred
//! for them: the name a function should carry, what its name lacks, and what
//! a call lacks.
use vstd::prelude::*;

use crate::capability::{
    Capability, CapabilitySet, rvs_can_call, rvs_missing_for, spec_call_edge_caps, spec_includes,
    spec_missing_for, spec_propagated, spec_union,
};
use crate::names::{
    rvs_expected_contract_name, rvs_parse_function, spec_expected_contract_name, spec_parsed_caps,
    spec_rvs_prefix,
};
use crate::order::{lemma_lt_props, rvs_compare_chars, spec_lt};
use crate::symbols::{DefPath, spec_fn_name};
use crate::text::{rvs_chars_eq, rvs_chars_of, rvs_starts_with, rvs_string_of, spec_starts_with};

verus! {

/// A function's contract against its inferred capabilities.
#[derive(Debug, Clone)]
pub struct FnContractDiff {
    pub def_path: DefPath,
    pub actual_name: String,
    pub expected_name: String,
    pub declared_public_caps: Option<CapabilitySet>,
    pub expected_public_caps: CapabilitySet,
}

/// What a name's contract can lack.
#[derive(Debug, Clone, Copy, PartialEq, Eq, Structural, PartialOrd, Ord)]
pub enum FnContractMismatchKind {
    MissingRvsPrefix,
    NameMismatch,
    MissingAsync,
    MissingBlocking,
    MissingIo,
    MissingMutable,
    MissingPort,
    MissingSideEffect,
    MissingThreadLocal,
    MissingUnsafe,
}

/// The position of a kind in the order the kinds are declared in.
pub open spec fn spec_kind_index(k: FnContractMismatchKind) -> int {
    match k {
        FnContractMismatchKind::MissingRvsPrefix => 0,
        FnContractMismatchKind::NameMismatch => 1,
        FnContractMismatchKind::MissingAsync => 2,
        FnContractMismatchKind::MissingBlocking => 3,
        FnContractMismatchKind::MissingIo => 4,
        FnContractMismatchKind::MissingMutable => 5,
        FnContractMismatchKind::MissingPort => 6,
        FnContractMismatchKind::MissingSideEffect => 7,
        FnContractMismatchKind::MissingThreadLocal => 8,
        FnContractMismatchKind::MissingUnsafe => 9,
    }
}

/// The kind that reports a missing capability.
pub open spec fn spec_kind_of_cap(c: Capability) -> FnContractMismatchKind {
    match c {
        Capability::A => FnContractMismatchKind::MissingAsync,
        Capability::B => FnContractMismatchKind::MissingBlocking,
        Capability::I => FnContractMismatchKind::MissingIo,
        Capability::M => FnContractMismatchKind::MissingMutable,
        Capability::P => FnContractMismatchKind::MissingPort,
        Capability::S => FnContractMismatchKind::MissingSideEffect,
        Capability::T => FnContractMismatchKind::MissingThreadLocal,
        Capability::U => FnContractMismatchKind::MissingUnsafe,
    }
}

impl FnContractMismatchKind {
    /// The kind's name in reports.
    pub fn rvs_as_str(self) -> (r: &'static str)
        ensures
            self == FnContractMismatchKind::MissingRvsPrefix ==> r@ == "missing_rvs_prefix"@,
            self == FnContractMismatchKind::NameMismatch ==> r@ == "name_mismatch"@,
            self == FnContractMismatchKind::MissingAsync ==> r@ == "missing_async"@,
            self == FnContractMismatchKind::MissingBlocking ==> r@ == "missing_blocking"@,
            self == FnContractMismatchKind::MissingIo ==> r@ == "missing_io"@,
            self == FnContractMismatchKind::MissingMutable ==> r@ == "missing_mutable"@,
            self == FnContractMismatchKind::MissingPort ==> r@ == "missing_port"@,
            self == FnContractMismatchKind::MissingSideEffect ==> r@ == "missing_side_effect"@,
            self == FnContractMismatchKind::MissingThreadLocal ==> r@ == "missing_thread_local"@,
            self == FnContractMismatchKind::MissingUnsafe ==> r@ == "missing_unsafe"@,
    {
        match self {
            FnContractMismatchKind::MissingRvsPrefix => "missing_rvs_prefix",
            FnContractMismatchKind::NameMismatch => "name_mismatch",
            FnContractMismatchKind::MissingAsync => "missing_async",
            FnContractMismatchKind::MissingBlocking => "missing_blocking",
            FnContractMismatchKind::MissingIo => "missing_io",
            FnContractMismatchKind::MissingMutable => "missing_mutable",
            FnContractMismatchKind::MissingPort => "missing_port",
            FnContractMismatchKind::MissingSideEffect => "missing_side_effect",
            FnContractMismatchKind::MissingThreadLocal => "missing_thread_local",
            FnContractMismatchKind::MissingUnsafe => "missing_unsafe",
        }
    }
}

/// The capabilities a name is judged by: the inferred ones, and when the
/// inference was incomplete also the propagated ones the name declares.
pub open spec fn spec_naming_caps(expected: CapabilitySet, declared: Option<CapabilitySet>, incomplete: bool) -> CapabilitySet {
    match declared {
        Some(d) => if incomplete {
            spec_union(expected, spec_propagated(d))
        } else {
            expected
        },
        None => expected,
    }
}

/// The contract diff of `def_path` against `expected_public_caps`.
pub fn rvs_contract_diff_for_expected_caps(def_path: &DefPath, expected_public_caps: CapabilitySet, incomplete: bool) -> (r: FnContractDiff)
    ensures
        r.def_path@ == def_path@,
        r.actual_name@ == spec_fn_name(def_path@),
        r.declared_public_caps == spec_parsed_caps(spec_fn_name(def_path@)),
        r.expected_public_caps == expected_public_caps,
        r.expected_name@ == spec_expected_contract_name(spec_fn_name(def_path@),
            spec_naming_caps(expected_public_caps, spec_parsed_caps(spec_fn_name(def_path@)), incomplete)),
{
    let actual_name = def_path.rvs_fn_name();
    let declared_public_caps = match rvs_parse_function(actual_name.as_slice()) {
        Some((_, caps)) => Some(caps),
        None => None,
    };
    let mut naming_caps = expected_public_caps;
    if incomplete {
        match declared_public_caps {
            Some(declared) => {
                let _ = naming_caps.rvs_union_M(&declared.rvs_propagated());
            },
            None => {},
        }
    }
    let expected_name = rvs_expected_contract_name(actual_name.as_slice(), &naming_caps);
    FnContractDiff {
        def_path: def_path.rvs_copy(),
        actual_name: rvs_string_of(actual_name.as_slice()),
        expected_name: rvs_string_of(expected_name.as_slice()),
        declared_public_caps,
        expected_public_caps,
    }
}

/// The kinds a capability adds when the contract lacks it.
pub open spec fn spec_cap_kind(d: FnContractDiff, c: Capability) -> Seq<FnContractMismatchKind> {
    if d.expected_public_caps.has(c) && !(d.declared_public_caps matches Some(x) && x.has(c)) {
        seq![spec_kind_of_cap(c)]
    } else {
        Seq::empty()
    }
}

/// What a contract lacks: the prefix, else a different name; then every
/// inferred capability the name does not declare, in the order `ABIMPSTU`.
pub open spec fn spec_mismatch_kinds(d: FnContractDiff) -> Seq<FnContractMismatchKind> {
    let name_part = if !spec_starts_with(d.actual_name@, spec_rvs_prefix()) {
        seq![FnContractMismatchKind::MissingRvsPrefix]
    } else if d.expected_name@ != d.actual_name@ {
        seq![FnContractMismatchKind::NameMismatch]
    } else {
        Seq::empty()
    };
    name_part + spec_cap_kind(d, Capability::A) + spec_cap_kind(d, Capability::B) + spec_cap_kind(d, Capability::I)
        + spec_cap_kind(d, Capability::M) + spec_cap_kind(d, Capability::P) + spec_cap_kind(d, Capability::S)
        + spec_cap_kind(d, Capability::T) + spec_cap_kind(d, Capability::U)
}

impl FnContractDiff {
    /// Whether the name differs from the expected one.
    pub fn rvs_has_name_mismatch(&self) -> (r: bool)
        ensures
            r == (self.expected_name@ != self.actual_name@),
    {
        !(self.expected_name == self.actual_name)
    }

    /// Whether the name lacks the `rvs_` prefix.
    pub fn rvs_missing_rvs_prefix(&self) -> (r: bool)
        ensures
            r == !spec_starts_with(self.actual_name@, spec_rvs_prefix()),
    {
        let name = rvs_chars_of(self.actual_name.as_str());
        let prefix = rvs_chars_of("rvs_");
        proof {
            reveal_strlit("rvs_");
            assert(prefix@ =~= spec_rvs_prefix());
        }
        !rvs_starts_with(name.as_slice(), prefix.as_slice())
    }

    fn rvs_push_cap_kind(&self, kinds: &mut Vec<FnContractMismatchKind>, c: Capability, kind: FnContractMismatchKind)
        requires
            kind == spec_kind_of_cap(c),
        ensures
            final(kinds)@ == old(kinds)@ + spec_cap_kind(*self, c),
    {
        let declared_has = match self.declared_public_caps {
            Some(x) => x.rvs_contains(c),
            None => false,
        };
        if self.expected_public_caps.rvs_contains(c) && !declared_has {
            kinds.push(kind);
        }
        assert(kinds@ =~= old(kinds)@ + spec_cap_kind(*self, c));
    }

    /// What the contract lacks.
    pub fn rvs_mismatch_kinds(&self) -> (r: Vec<FnContractMismatchKind>)
        ensures
            r@ == spec_mismatch_kinds(*self),
    {
        let mut mismatches: Vec<FnContractMismatchKind> = Vec::new();
        if self.rvs_missing_rvs_prefix() {
            mismatches.push(FnContractMismatchKind::MissingRvsPrefix);
        } else if self.rvs_has_name_mismatch() {
            mismatches.push(FnContractMismatchKind::NameMismatch);
        }
        let ghost name_part = mismatches@;
        self.rvs_push_cap_kind(&mut mismatches, Capability::A, FnContractMismatchKind::MissingAsync);
        self.rvs_push_cap_kind(&mut mismatches, Capability::B, FnContractMismatchKind::MissingBlocking);
        self.rvs_push_cap_kind(&mut mismatches, Capability::I, FnContractMismatchKind::MissingIo);
        self.rvs_push_cap_kind(&mut mismatches, Capability::M, FnContractMismatchKind::MissingMutable);
        self.rvs_push_cap_kind(&mut mismatches, Capability::P, FnContractMismatchKind::MissingPort);
        self.rvs_push_cap_kind(&mut mismatches, Capability::S, FnContractMismatchKind::MissingSideEffect);
        self.rvs_push_cap_kind(&mut mismatches, Capability::T, FnContractMismatchKind::MissingThreadLocal);
        self.rvs_push_cap_kind(&mut mismatches, Capability::U, FnContractMismatchKind::MissingUnsafe);
        mismatches
    }
}

/// One thing a function's contract lacks.
#[derive(Debug, Clone)]
pub struct FnContractMismatch {
    pub def_path: DefPath,
    pub actual_name: String,
    pub kind: FnContractMismatchKind,
}

/// The report order of mismatches: by path, then name, then kind.
pub open spec fn spec_mismatch_lt(a: FnContractMismatch, b: FnContractMismatch) -> bool {
    ||| spec_lt(a.def_path@, b.def_path@)
    ||| (a.def_path@ == b.def_path@ && spec_lt(a.actual_name@, b.actual_name@))
    ||| (a.def_path@ == b.def_path@ && a.actual_name@ == b.actual_name@ && spec_kind_index(a.kind) < spec_kind_index(b.kind))
}

proof fn lemma_mismatch_lt_order()
    ensures
        forall|a: FnContractMismatch| !#[trigger] spec_mismatch_lt(a, a),
        forall|a: FnContractMismatch, b: FnContractMismatch, c: FnContractMismatch|
            #[trigger] spec_mismatch_lt(a, b) && #[trigger] spec_mismatch_lt(b, c) ==> spec_mismatch_lt(a, c),
{
    lemma_lt_props();
}

fn rvs_mismatch_lt(a: &FnContractMismatch, b: &FnContractMismatch) -> (r: bool)
    ensures
        r == spec_mismatch_lt(*a, *b),
{
    let by_path = a.def_path.rvs_compare(&b.def_path);
    if by_path != 0 {
        return by_path < 0;
    }
    let an = rvs_chars_of(a.actual_name.as_str());
    let bn = rvs_chars_of(b.actual_name.as_str());
    let by_name = rvs_compare_chars(an.as_slice(), bn.as_slice());
    if by_name != 0 {
        return by_name < 0;
    }
    let ai: u8 = rvs_kind_index(a.kind);
    let bi: u8 = rvs_kind_index(b.kind);
    ai < bi
}

fn rvs_kind_index(k: FnContractMismatchKind) -> (r: u8)
    ensures
        r as int == spec_kind_index(k),
{
    match k {
        FnContractMismatchKind::MissingRvsPrefix => 0,
        FnContractMismatchKind::NameMismatch => 1,
        FnContractMismatchKind::MissingAsync => 2,
        FnContractMismatchKind::MissingBlocking => 3,
        FnContractMismatchKind::MissingIo => 4,
        FnContractMismatchKind::MissingMutable => 5,
        FnContractMismatchKind::MissingPort => 6,
        FnContractMismatchKind::MissingSideEffect => 7,
        FnContractMismatchKind::MissingThreadLocal => 8,
        FnContractMismatchKind::MissingUnsafe => 9,
    }
}

/// The mismatches of the diffs, diff by diff and kind by kind.
pub open spec fn spec_mismatch_items(diffs: Seq<FnContractDiff>) -> Seq<FnContractMismatch>
    decreases diffs.len(),
{
    if diffs.len() == 0 {
        Seq::empty()
    } else {
        let d = diffs.last();
        spec_mismatch_items(diffs.drop_last()) + spec_mismatch_kinds(d).map_values(
            |k: FnContractMismatchKind| FnContractMismatch { def_path: d.def_path, actual_name: d.actual_name, kind: k })
    }
}

/// A mismatch as plain values.
pub open spec fn spec_mismatch_view(m: FnContractMismatch) -> (Seq<char>, Seq<char>, FnContractMismatchKind) {
    (m.def_path@, m.actual_name@, m.kind)
}

/// No item sorts before an earlier one.
pub open spec fn spec_sorted(s: Seq<FnContractMismatch>) -> bool {
    forall|i: int, j: int| 0 <= i < j < s.len() ==> !spec_mismatch_lt(#[trigger] s[j], #[trigger] s[i])
}

fn rvs_copy_mismatch(m: &FnContractMismatch) -> (r: FnContractMismatch)
    ensures
        spec_mismatch_view(r) == spec_mismatch_view(*m),
{
    FnContractMismatch { def_path: m.def_path.rvs_copy(), actual_name: m.actual_name.clone(), kind: m.kind }
}

/// Inserts `x` after every item that does not sort after it.
#[allow(non_snake_case)]
fn rvs_insert_sorted_M(items: &mut Vec<FnContractMismatch>, x: FnContractMismatch)
    requires
        spec_sorted(old(items)@),
    ensures
        spec_sorted(final(items)@),
        final(items)@.map_values(|m: FnContractMismatch| spec_mismatch_view(m)).to_multiset()
            == old(items)@.map_values(|m: FnContractMismatch| spec_mismatch_view(m)).to_multiset().insert(spec_mismatch_view(x)),
{
    proof {
        lemma_mismatch_lt_order();
    }
    let mut p: usize = 0;
    while p < items.len() && !rvs_mismatch_lt(&x, &items[p])
        invariant
            p <= items@.len(),
            forall|i: int| 0 <= i < p ==> !spec_mismatch_lt(x, #[trigger] items@[i]),
        decreases items@.len() - p,
    {
        p = p + 1;
    }
    let ghost before = items@;
    items.insert(p, x);
    proof {
        assert(items@ == before.insert(p as int, x));
        assert forall|i: int, j: int| 0 <= i < j < items@.len() implies !spec_mismatch_lt(#[trigger] items@[j], #[trigger] items@[i]) by {
            if j < p {
                assert(items@[i] == before[i] && items@[j] == before[j]);
            } else if j == p {
                assert(items@[i] == before[i]);
            } else if i == p {
                assert(items@[j] == before[j - 1]);
                if p < before.len() {
                    assert(spec_mismatch_lt(x, before[p as int]));
                    if j - 1 > p {
                        assert(!spec_mismatch_lt(before[j - 1], before[p as int]));
                    }
                }
            } else if i < p {
                assert(items@[i] == before[i] && items@[j] == before[j - 1]);
            } else {
                assert(items@[i] == before[i - 1] && items@[j] == before[j - 1]);
            }
        }
        let f = |m: FnContractMismatch| spec_mismatch_view(m);
        assert(items@.map_values(f) =~= before.map_values(f).insert(p as int, f(x)));
        vstd::seq_lib::to_multiset_insert(before.map_values(f), p as int, f(x));
    }
}

/// Every mismatch of the diffs, sorted by path, name and kind.
pub fn rvs_collect_contract_mismatch_items(diffs: &[FnContractDiff]) -> (r: Vec<FnContractMismatch>)
    ensures
        spec_sorted(r@),
        r@.map_values(|m: FnContractMismatch| spec_mismatch_view(m)).to_multiset()
            == spec_mismatch_items(diffs@).map_values(|m: FnContractMismatch| spec_mismatch_view(m)).to_multiset(),
{
    let mut items: Vec<FnContractMismatch> = Vec::new();
    let ghost f = |m: FnContractMismatch| spec_mismatch_view(m);
    let mut d: usize = 0;
    proof {
        assert(items@.map_values(f) =~= Seq::<(Seq<char>, Seq<char>, FnContractMismatchKind)>::empty());
        assert(spec_mismatch_items(diffs@.subrange(0, 0)) =~= Seq::<FnContractMismatch>::empty());
        assert(spec_mismatch_items(diffs@.subrange(0, 0)).map_values(f) =~= Seq::<(Seq<char>, Seq<char>, FnContractMismatchKind)>::empty());
    }
    while d < diffs.len()
        invariant
            d <= diffs@.len(),
            f == (|m: FnContractMismatch| spec_mismatch_view(m)),
            spec_sorted(items@),
            items@.map_values(f).to_multiset() == spec_mismatch_items(diffs@.subrange(0, d as int)).map_values(f).to_multiset(),
        decreases diffs@.len() - d,
    {
        let diff = &diffs[d];
        let kinds = diff.rvs_mismatch_kinds();
        let ghost done = spec_mismatch_items(diffs@.subrange(0, d as int));
        let ghost row = |k: FnContractMismatchKind| FnContractMismatch { def_path: diff.def_path, actual_name: diff.actual_name, kind: k };
        let mut q: usize = 0;
        proof {
            assert(kinds@.subrange(0, 0).map_values(row) =~= Seq::<FnContractMismatch>::empty());
            assert(done + kinds@.subrange(0, 0).map_values(row) =~= done);
        }
        while q < kinds.len()
            invariant
                q <= kinds@.len(),
                f == (|m: FnContractMismatch| spec_mismatch_view(m)),
                row == (|k: FnContractMismatchKind| FnContractMismatch { def_path: diff.def_path, actual_name: diff.actual_name, kind: k }),
                spec_sorted(items@),
                items@.map_values(f).to_multiset() == (done + kinds@.subrange(0, q as int).map_values(row)).map_values(f).to_multiset(),
            decreases kinds@.len() - q,
        {
            let item = FnContractMismatch { def_path: diff.def_path.rvs_copy(), actual_name: diff.actual_name.clone(), kind: kinds[q] };
            let ghost prev = done + kinds@.subrange(0, q as int).map_values(row);
            rvs_insert_sorted_M(&mut items, item);
            proof {
                assert(spec_mismatch_view(item) == f(row(kinds@[q as int])));
                assert(done + kinds@.subrange(0, q + 1).map_values(row) =~= prev.push(row(kinds@[q as int])));
                assert(prev.push(row(kinds@[q as int])).map_values(f) =~= prev.map_values(f).push(f(row(kinds@[q as int]))));
                vstd::seq_lib::to_multiset_build(prev.map_values(f), f(row(kinds@[q as int])));
            }
            q = q + 1;
        }
        proof {
            assert(kinds@.subrange(0, kinds@.len() as int) =~= kinds@);
            assert(diffs@.subrange(0, d + 1).drop_last() =~= diffs@.subrange(0, d as int));
            assert(diffs@.subrange(0, d + 1).last() == *diff);
            assert(spec_mismatch_kinds(*diff).map_values(row) == kinds@.map_values(row));
        }
        d = d + 1;
    }
    proof {
        assert(diffs@.subrange(0, diffs@.len() as int) =~= diffs@);
    }
    items
}

/// How many mismatches there are of each kind, by kind index.
pub open spec fn spec_kind_count(items: Seq<FnContractMismatch>, k: FnContractMismatchKind) -> nat
    decreases items.len(),
{
    if items.len() == 0 {
        0
    } else {
        spec_kind_count(items.drop_last(), k) + if items.last().kind == k { 1nat } else { 0nat }
    }
}

/// The number of mismatches of each kind, for the kinds that occur, in kind
/// order.
pub fn rvs_summarize_contract_mismatch_items(items: &[FnContractMismatch]) -> (r: Vec<(FnContractMismatchKind, usize)>)
    ensures
        forall|i: int, j: int| 0 <= i < j < r@.len() ==> spec_kind_index(#[trigger] r@[i].0) < spec_kind_index(#[trigger] r@[j].0),
        forall|i: int| 0 <= i < r@.len() ==> #[trigger] r@[i].1 as nat == spec_kind_count(items@, r@[i].0) && r@[i].1 > 0,
        forall|k: FnContractMismatchKind| spec_kind_count(items@, k) > 0 ==> exists|i: int| 0 <= i < r@.len() && #[trigger] r@[i].0 == k,
{
    let all = rvs_all_kinds();
    let mut r: Vec<(FnContractMismatchKind, usize)> = Vec::new();
    let mut a: usize = 0;
    while a < all.len()
        invariant
            a <= all@.len(),
            all@.len() == 10,
            forall|i: int| 0 <= i < 10 ==> spec_kind_index(#[trigger] all@[i]) == i,
            forall|i: int, j: int| 0 <= i < j < r@.len() ==> spec_kind_index(#[trigger] r@[i].0) < spec_kind_index(#[trigger] r@[j].0),
            forall|i: int| 0 <= i < r@.len() ==> spec_kind_index(#[trigger] r@[i].0) < a,
            forall|i: int| 0 <= i < r@.len() ==> #[trigger] r@[i].1 as nat == spec_kind_count(items@, r@[i].0) && r@[i].1 > 0,
            forall|j: int| 0 <= j < a && spec_kind_count(items@, all@[j]) > 0 ==> exists|i: int| 0 <= i < r@.len() && #[trigger] r@[i].0 == all@[j],
        decreases all@.len() - a,
    {
        let kind = all[a];
        let mut n: usize = 0;
        let mut i: usize = 0;
        while i < items.len()
            invariant
                i <= items@.len(),
                n as nat == spec_kind_count(items@.subrange(0, i as int), kind),
                n <= i,
            decreases items@.len() - i,
        {
            proof {
                assert(items@.subrange(0, i + 1).drop_last() =~= items@.subrange(0, i as int));
            }
            if items[i].kind == kind {
                n = n + 1;
            }
            i = i + 1;
        }
        proof {
            assert(items@.subrange(0, items@.len() as int) =~= items@);
        }
        if n > 0 {
            let ghost before = r@;
            r.push((kind, n));
            proof {
                assert forall|j: int| 0 <= j < a + 1 && spec_kind_count(items@, all@[j]) > 0
                    implies exists|i: int| 0 <= i < r@.len() && #[trigger] r@[i].0 == all@[j] by {
                    if j < a {
                        let i = choose|i: int| 0 <= i < before.len() && #[trigger] before[i].0 == all@[j];
                        assert(r@[i] == before[i]);
                    } else {
                        assert(r@[before.len() as int].0 == all@[j]);
                    }
                }
            }
        }
        a = a + 1;
    }
    proof {
        assert forall|k: FnContractMismatchKind| spec_kind_count(items@, k) > 0 implies exists|i: int| 0 <= i < r@.len() && #[trigger] r@[i].0 == k by {
            let j = spec_kind_index(k);
            assert(all@[j] == k);
        }
    }
    r
}

fn rvs_all_kinds() -> (r: Vec<FnContractMismatchKind>)
    ensures
        r@.len() == 10,
        forall|i: int| 0 <= i < 10 ==> spec_kind_index(#[trigger] r@[i]) == i,
{
    let mut r: Vec<FnContractMismatchKind> = Vec::new();
    r.push(FnContractMismatchKind::MissingRvsPrefix);
    r.push(FnContractMismatchKind::NameMismatch);
    r.push(FnContractMismatchKind::MissingAsync);
    r.push(FnContractMismatchKind::MissingBlocking);
    r.push(FnContractMismatchKind::MissingIo);
    r.push(FnContractMismatchKind::MissingMutable);
    r.push(FnContractMismatchKind::MissingPort);
    r.push(FnContractMismatchKind::MissingSideEffect);
    r.push(FnContractMismatchKind::MissingThreadLocal);
    r.push(FnContractMismatchKind::MissingUnsafe);
    r
}


/// Why a call breaks the caller's contract.
#[derive(Debug, Clone, Copy, PartialEq, Eq, Structural)]
pub enum CallContractMismatchKind {
    UnknownCallee,
    MissingCapabilities,
}

/// A call that breaks the caller's contract: how the callee is shown, why,
/// the callee's capabilities and what the caller lacks.
#[derive(Debug, Clone)]
pub struct CallContractMismatch {
    pub callee_display: String,
    pub kind: CallContractMismatchKind,
    pub callee_caps: Option<CapabilitySet>,
    pub missing_caps: CapabilitySet,
}

/// How a callee is shown: its path as written followed by its definition
/// path in parentheses, or the definition path alone when both are the same
/// or the written path is not known.
pub open spec fn spec_callee_display(def_path: Seq<char>, src_path: Option<Seq<char>>) -> Seq<char> {
    match src_path {
        Some(src) => if src != def_path {
            src + seq![' ', '('] + def_path + seq![')']
        } else {
            def_path
        },
        None => def_path,
    }
}

/// How a callee is shown.
pub fn rvs_make_callee_display(def_path: &str, src_path: Option<&str>) -> (r: String)
    ensures
        r@ == spec_callee_display(def_path@, match src_path { Some(s) => Some(s@), None => None }),
{
    let d = rvs_chars_of(def_path);
    match src_path {
        Some(src) => {
            let s = rvs_chars_of(src);
            if rvs_chars_eq(s.as_slice(), d.as_slice()) {
                rvs_string_of(d.as_slice())
            } else {
                let mut out = s;
                out.push(' ');
                out.push('(');
                crate::text::rvs_push_all(&mut out, d.as_slice());
                out.push(')');
                proof {
                    assert(out@ =~= src@ + seq![' ', '('] + def_path@ + seq![')']);
                }
                rvs_string_of(out.as_slice())
            }
        },
        None => rvs_string_of(d.as_slice()),
    }
}

/// The mismatch of a call: an unknown callee when its capabilities are not
/// known; none when they are empty or the caller may call it; else the
/// capabilities the caller lacks.
pub fn rvs_collect_call_contract_mismatch(
    def_path: &str,
    src_path: Option<&str>,
    caps: &CapabilitySet,
    callee_caps: Option<&CapabilitySet>,
) -> (r: Option<CallContractMismatch>)
    ensures
        match callee_caps {
            None => r matches Some(m) && m.kind == CallContractMismatchKind::UnknownCallee && m.callee_caps is None
                && m.missing_caps == crate::capability::spec_empty(),
            Some(c) => if *c == crate::capability::spec_empty() || spec_includes(*caps, spec_call_edge_caps(*c)) {
                r is None
            } else {
                r matches Some(m) && m.kind == CallContractMismatchKind::MissingCapabilities && m.callee_caps == Some(*c)
                    && m.missing_caps == spec_missing_for(*caps, *c)
            },
        },
        r matches Some(m) ==> m.callee_display@ == spec_callee_display(def_path@, match src_path { Some(s) => Some(s@), None => None }),
{
    let callee_display = rvs_make_callee_display(def_path, src_path);
    match callee_caps {
        None => Some(CallContractMismatch {
            callee_display,
            kind: CallContractMismatchKind::UnknownCallee,
            callee_caps: None,
            missing_caps: CapabilitySet::rvs_new(),
        }),
        Some(c) => {
            if c.rvs_is_empty() || rvs_can_call(caps, c) {
                return None;
            }
            Some(CallContractMismatch {
                callee_display,
                kind: CallContractMismatchKind::MissingCapabilities,
                callee_caps: Some(*c),
                missing_caps: rvs_missing_for(caps, c),
            })
        },
    }
}

/// The mismatch of a call of a callee whose name declares `callee_caps`.
pub fn rvs_collect_named_call_contract_mismatch(
    def_path: &str,
    src_path: Option<&str>,
    caps: &CapabilitySet,
    callee_caps: &CapabilitySet,
) -> (r: Option<CallContractMismatch>)
    ensures
        if *callee_caps == crate::capability::spec_empty() || spec_includes(*caps, spec_call_edge_caps(*callee_caps)) {
            r is None
        } else {
            r matches Some(m) && m.kind == CallContractMismatchKind::MissingCapabilities && m.callee_caps == Some(*callee_caps)
                && m.missing_caps == spec_missing_for(*caps, *callee_caps)
        },
        r matches Some(m) ==> m.callee_display@ == spec_callee_display(def_path@, match src_path { Some(s) => Some(s@), None => None }),
{
    rvs_collect_call_contract_mismatch(def_path, src_path, caps, Some(callee_caps))
}
} // verus!
