//! Which functions belong to the checked package, and which checks apply to
//! each of them.
use vstd::prelude::*;

use crate::artifacts::{CrateProvenance, FnGraph, FnNode, FunctionIdentity};
use crate::symbols::{
    CrateName, DefPath, rvs_trait_method_path, rvs_user_path_chars, spec_crate_prefix,
    spec_trait_method_path, spec_user_path,
};
use crate::text::{rvs_starts_with, spec_starts_with};

verus! {

/// The path, without identity markers, starts with one of the prefixes.
pub open spec fn spec_prefixed(prefixes: Seq<Seq<char>>, p: Seq<char>) -> bool {
    exists|i: int| 0 <= i < prefixes.len() && spec_starts_with(spec_user_path(p), #[trigger] prefixes[i])
}

/// A path is local when it starts with a local crate prefix, or when it is a
/// trait impl method of a local trait.
pub open spec fn spec_scope_contains(prefixes: Seq<Seq<char>>, p: Seq<char>) -> bool {
    spec_prefixed(prefixes, p) || match spec_trait_method_path(spec_user_path(p)) {
        Some(t) => spec_prefixed(prefixes, t),
        None => false,
    }
}

/// The path prefixes of the named crates.
pub open spec fn spec_prefixes_of(names: Seq<CrateName>) -> Seq<Seq<char>> {
    names.map_values(|n: CrateName| spec_crate_prefix(n.chars@))
}

/// The crates of the checked package, by path prefix and by crate id.
#[derive(Debug)]
pub struct LocalScope {
    pub prefixes: Vec<Vec<char>>,
    pub primary_crate_ids: Vec<u64>,
    pub dependency_crate_ids: Vec<u64>,
}

impl LocalScope {
    pub open spec fn prefix_views(self) -> Seq<Seq<char>> {
        self.prefixes@.map_values(|v: Vec<char>| v@)
    }

    /// The scope of the named local crates, with no crate ids.
    pub fn rvs_new(local_crate_names: &Vec<CrateName>) -> (r: LocalScope)
        ensures
            r.prefix_views() == local_crate_names@.map_values(|n: CrateName| spec_crate_prefix(n.chars@)),
            r.primary_crate_ids@.len() == 0,
            r.dependency_crate_ids@.len() == 0,
    {
        let mut prefixes: Vec<Vec<char>> = Vec::new();
        let mut i: usize = 0;
        while i < local_crate_names.len()
            invariant
                i <= local_crate_names@.len(),
                prefixes@.len() == i,
                prefixes@.map_values(|v: Vec<char>| v@) == local_crate_names@.subrange(0, i as int).map_values(|n: CrateName| spec_crate_prefix(n.chars@)),
            decreases local_crate_names.len() - i,
        {
            let p = local_crate_names[i].rvs_prefix();
            let ghost old_p = prefixes@;
            prefixes.push(p);
            proof {
                let lhs = prefixes@.map_values(|v: Vec<char>| v@);
                let rhs = local_crate_names@.subrange(0, i + 1).map_values(|n: CrateName| spec_crate_prefix(n.chars@));
                let old_lhs = old_p.map_values(|v: Vec<char>| v@);
                let old_rhs = local_crate_names@.subrange(0, i as int).map_values(|n: CrateName| spec_crate_prefix(n.chars@));
                assert(old_lhs == old_rhs);
                assert(prefixes@ == old_p.push(p));
                assert(old_p.len() == i);
                assert(prefixes@.len() == i + 1);
                assert(lhs.len() == i + 1);
                assert(local_crate_names@.subrange(0, i + 1).len() == i + 1);
                assert(rhs.len() == i + 1);
                assert forall|j: int| 0 <= j < lhs.len() implies lhs[j] == rhs[j] by {
                    if j < i {
                        assert(prefixes@[j] == old_p[j]);
                        assert(lhs[j] == prefixes@[j]@);
                        assert(old_lhs[j] == old_p[j]@);
                        assert(lhs[j] == old_lhs[j]);
                        assert(rhs[j] == old_rhs[j]);
                    } else {
                        assert(prefixes@[j] == p);
                        assert(lhs[j] == p@);
                    }
                }
                assert(lhs =~= rhs);
            }
            i = i + 1;
        }
        assert(local_crate_names@.subrange(0, local_crate_names@.len() as int) =~= local_crate_names@);
        LocalScope { prefixes, primary_crate_ids: Vec::new(), dependency_crate_ids: Vec::new() }
    }

    /// The scope of the named local crates, with the crate ids of the graph's
    /// primary-package and dependency targets.
    pub fn rvs_for_graph(local_crate_names: &Vec<CrateName>, graph: &FnGraph) -> (r: LocalScope)
        ensures
            r.prefix_views() == local_crate_names@.map_values(|n: CrateName| spec_crate_prefix(n.chars@)),
            forall|id: u64| r.primary_crate_ids@.contains(id) <==> exists|i: int| 0 <= i < graph.nodes.len_spec()
                && #[trigger] graph.nodes.val(i).crate_id == id && graph.nodes.val(i).crate_provenance == CrateProvenance::PrimaryPackage,
            forall|id: u64| r.dependency_crate_ids@.contains(id) <==> exists|i: int| 0 <= i < graph.nodes.len_spec()
                && #[trigger] graph.nodes.val(i).crate_id == id && graph.nodes.val(i).crate_provenance == CrateProvenance::Dependency,
    {
        let mut scope = LocalScope::rvs_new(local_crate_names);
        let mut primary: Vec<u64> = Vec::new();
        let mut dependency: Vec<u64> = Vec::new();
        let mut i: usize = 0;
        while i < graph.rvs_len()
            invariant
                i <= graph.nodes.len_spec(),
                forall|id: u64| primary@.contains(id) <==> exists|j: int| 0 <= j < i
                    && #[trigger] graph.nodes.val(j).crate_id == id && graph.nodes.val(j).crate_provenance == CrateProvenance::PrimaryPackage,
                forall|id: u64| dependency@.contains(id) <==> exists|j: int| 0 <= j < i
                    && #[trigger] graph.nodes.val(j).crate_id == id && graph.nodes.val(j).crate_provenance == CrateProvenance::Dependency,
            decreases graph.nodes.len_spec() - i,
        {
            let node = graph.rvs_node_at(i);
            let id = node.crate_id;
            let ghost old_primary = primary@;
            let ghost old_dependency = dependency@;
            match node.crate_provenance {
                CrateProvenance::PrimaryPackage => {
                    if !rvs_contains_id(&primary, id) {
                        primary.push(id);
                    }
                },
                CrateProvenance::Dependency => {
                    if !rvs_contains_id(&dependency, id) {
                        dependency.push(id);
                    }
                },
                CrateProvenance::LegacyUnknown => {},
            }
            proof {
                let n = graph.nodes.val(i as int);
                assert(n.crate_id == id);
                assert forall|x: u64| primary@.contains(x) <==> exists|j: int| 0 <= j < i + 1
                    && #[trigger] graph.nodes.val(j).crate_id == x && graph.nodes.val(j).crate_provenance == CrateProvenance::PrimaryPackage by {
                    if primary@.contains(x) {
                        if old_primary.contains(x) {
                            let j = choose|j: int| 0 <= j < i && #[trigger] graph.nodes.val(j).crate_id == x && graph.nodes.val(j).crate_provenance == CrateProvenance::PrimaryPackage;
                            assert(0 <= j < i + 1);
                        } else {
                            let k = choose|k: int| 0 <= k < primary@.len() && primary@[k] == x;
                            assert(primary@ != old_primary);
                            assert(primary@ == old_primary.push(id));
                            if k < old_primary.len() {
                                assert(old_primary[k] == x);
                            }
                            assert(x == id);
                            assert(graph.nodes.val(i as int).crate_id == x);
                        }
                    }
                    if exists|j: int| 0 <= j < i + 1 && #[trigger] graph.nodes.val(j).crate_id == x && graph.nodes.val(j).crate_provenance == CrateProvenance::PrimaryPackage {
                        let j = choose|j: int| 0 <= j < i + 1 && #[trigger] graph.nodes.val(j).crate_id == x && graph.nodes.val(j).crate_provenance == CrateProvenance::PrimaryPackage;
                        if j == i {
                            if !old_primary.contains(x) {
                                assert(primary@ == old_primary.push(id));
                                assert(primary@[old_primary.len() as int] == x);
                            } else {
                                let k = choose|k: int| 0 <= k < old_primary.len() && old_primary[k] == x;
                                assert(primary@[k] == x);
                            }
                        } else {
                            assert(old_primary.contains(x));
                            let k = choose|k: int| 0 <= k < old_primary.len() && old_primary[k] == x;
                            assert(primary@[k] == x);
                        }
                    }
                }
                assert forall|x: u64| dependency@.contains(x) <==> exists|j: int| 0 <= j < i + 1
                    && #[trigger] graph.nodes.val(j).crate_id == x && graph.nodes.val(j).crate_provenance == CrateProvenance::Dependency by {
                    if dependency@.contains(x) {
                        if old_dependency.contains(x) {
                            let j = choose|j: int| 0 <= j < i && #[trigger] graph.nodes.val(j).crate_id == x && graph.nodes.val(j).crate_provenance == CrateProvenance::Dependency;
                            assert(0 <= j < i + 1);
                        } else {
                            let k = choose|k: int| 0 <= k < dependency@.len() && dependency@[k] == x;
                            assert(dependency@ != old_dependency);
                            assert(dependency@ == old_dependency.push(id));
                            if k < old_dependency.len() {
                                assert(old_dependency[k] == x);
                            }
                            assert(x == id);
                            assert(graph.nodes.val(i as int).crate_id == x);
                        }
                    }
                    if exists|j: int| 0 <= j < i + 1 && #[trigger] graph.nodes.val(j).crate_id == x && graph.nodes.val(j).crate_provenance == CrateProvenance::Dependency {
                        let j = choose|j: int| 0 <= j < i + 1 && #[trigger] graph.nodes.val(j).crate_id == x && graph.nodes.val(j).crate_provenance == CrateProvenance::Dependency;
                        if j == i {
                            if !old_dependency.contains(x) {
                                assert(dependency@ == old_dependency.push(id));
                                assert(dependency@[old_dependency.len() as int] == x);
                            } else {
                                let k = choose|k: int| 0 <= k < old_dependency.len() && old_dependency[k] == x;
                                assert(dependency@[k] == x);
                            }
                        } else {
                            assert(old_dependency.contains(x));
                            let k = choose|k: int| 0 <= k < old_dependency.len() && old_dependency[k] == x;
                            assert(dependency@[k] == x);
                        }
                    }
                }
            }
            i = i + 1;
        }
        scope.primary_crate_ids = primary;
        scope.dependency_crate_ids = dependency;
        scope
    }

    fn rvs_prefixed(&self, p: &[char]) -> (r: bool)
        ensures
            r == spec_prefixed(self.prefix_views(), p@),
    {
        let user = rvs_user_path_chars(p);
        let mut i: usize = 0;
        while i < self.prefixes.len()
            invariant
                i <= self.prefixes@.len(),
                user@ == spec_user_path(p@),
                forall|j: int| 0 <= j < i ==> !spec_starts_with(user@, #[trigger] self.prefix_views()[j]),
            decreases self.prefixes.len() - i,
        {
            if rvs_starts_with(user.as_slice(), self.prefixes[i].as_slice()) {
                assert(spec_starts_with(spec_user_path(p@), self.prefix_views()[i as int]));
                return true;
            }
            i = i + 1;
        }
        false
    }

    /// Whether a path (given as characters) is local.
    pub fn rvs_contains_str(&self, p: &[char]) -> (r: bool)
        ensures
            r == spec_scope_contains(self.prefix_views(), p@),
    {
        if self.rvs_prefixed(p) {
            return true;
        }
        let user = rvs_user_path_chars(p);
        match rvs_trait_method_path(user.as_slice()) {
            Some(t) => self.rvs_prefixed(t.as_slice()),
            None => false,
        }
    }

    /// Whether a path is local.
    pub fn rvs_contains(&self, def_path: &DefPath) -> (r: bool)
        ensures
            r == spec_scope_contains(self.prefix_views(), def_path@),
    {
        self.rvs_contains_str(def_path.rvs_chars())
    }

    /// Whether a function of a target with the given provenance is local:
    /// targets of the primary package are, dependency targets are not, and
    /// targets of unknown provenance are judged by path.
    pub fn rvs_contains_target(&self, def_path: &DefPath, provenance: CrateProvenance) -> (r: bool)
        ensures
            r == spec_contains_target(self.prefix_views(), def_path@, provenance),
    {
        match provenance {
            CrateProvenance::PrimaryPackage => true,
            CrateProvenance::Dependency => false,
            CrateProvenance::LegacyUnknown => self.rvs_contains(def_path),
        }
    }

    /// Whether a resolved callee is local: by its crate id when the graph
    /// knows the crate, by path otherwise.
    pub fn rvs_contains_identity(&self, identity: &FunctionIdentity) -> (r: bool)
        ensures
            r == (if identity.crate_id == 0 {
                spec_scope_contains(self.prefix_views(), identity.def_path@)
            } else if self.primary_crate_ids@.contains(identity.crate_id) {
                true
            } else if self.dependency_crate_ids@.contains(identity.crate_id) {
                false
            } else {
                spec_scope_contains(self.prefix_views(), identity.def_path@)
            }),
    {
        if identity.crate_id == 0 {
            return self.rvs_contains(&identity.def_path);
        }
        if rvs_contains_id(&self.primary_crate_ids, identity.crate_id) {
            return true;
        }
        if rvs_contains_id(&self.dependency_crate_ids, identity.crate_id) {
            return false;
        }
        self.rvs_contains(&identity.def_path)
    }
}

/// Locality of a function of a target with the given provenance.
pub open spec fn spec_contains_target(prefixes: Seq<Seq<char>>, p: Seq<char>, provenance: CrateProvenance) -> bool {
    match provenance {
        CrateProvenance::PrimaryPackage => true,
        CrateProvenance::Dependency => false,
        CrateProvenance::LegacyUnknown => spec_scope_contains(prefixes, p),
    }
}

fn rvs_contains_id(ids: &Vec<u64>, id: u64) -> (r: bool)
    ensures
        r == ids@.contains(id),
{
    let mut i: usize = 0;
    while i < ids.len()
        invariant
            i <= ids@.len(),
            forall|j: int| 0 <= j < i ==> ids@[j] != id,
        decreases ids.len() - i,
    {
        if ids[i] == id {
            assert(ids@[i as int] == id);
            return true;
        }
        i = i + 1;
    }
    false
}

/// The roles of one function, from which the applicable checks follow.
#[derive(Debug, Clone, Copy, PartialEq, Eq, Structural)]
pub struct FunctionClassification {
    pub is_local: bool,
    pub is_entrypoint: bool,
    pub is_test: bool,
    pub is_trait_impl: bool,
    pub is_port_method: bool,
    pub has_source: bool,
}

impl FunctionClassification {
    /// Classifies a node: it is local when the compiler saw it whole and its
    /// target is local.
    pub fn rvs_new(scope: &LocalScope, def_path: &DefPath, node: &FnNode) -> (r: FunctionClassification)
        ensures
            r.is_local == (node.complete && spec_contains_target(scope.prefix_views(), def_path@, node.crate_provenance)),
            r.is_entrypoint == node.is_entrypoint,
            r.is_test == node.is_test,
            r.is_trait_impl == node.is_trait_impl,
            r.is_port_method == node.facts.is_port_method,
            r.has_source == (node.sources@.len() > 0),
    {
        FunctionClassification {
            is_local: node.complete && scope.rvs_contains_target(def_path, node.crate_provenance),
            is_entrypoint: node.is_entrypoint,
            is_test: node.is_test,
            is_trait_impl: node.is_trait_impl,
            is_port_method: node.facts.is_port_method,
            has_source: node.sources.len() > 0,
        }
    }

    /// The same classification with another port role.
    pub fn rvs_with_port(self, is_port_method: bool) -> (r: FunctionClassification)
        ensures
            r == (FunctionClassification { is_port_method, ..self }),
    {
        FunctionClassification { is_port_method, ..self }
    }

    /// The function's name must match its inferred capabilities.
    pub fn rvs_is_contract_enforced(self) -> (r: bool)
        ensures
            r == (self.is_local && !self.is_entrypoint && !self.is_test && !self.is_trait_impl && self.has_source),
    {
        self.is_local && !self.is_entrypoint && !self.is_test && !self.is_trait_impl && self.has_source
    }

    /// The function is checked offline (port impls included).
    pub fn rvs_is_offline_checked(self) -> (r: bool)
        ensures
            r == (self.is_local && !self.is_entrypoint && !self.is_test && (!self.is_trait_impl || self.is_port_method) && self.has_source),
    {
        self.is_local && !self.is_entrypoint && !self.is_test && (!self.is_trait_impl || self.is_port_method)
            && self.has_source
    }

    /// The function appears in reports.
    pub fn rvs_is_report_candidate(self) -> (r: bool)
        ensures
            r == (self.is_local && (!self.is_trait_impl || self.is_port_method)),
    {
        self.is_local && (!self.is_trait_impl || self.is_port_method)
    }

    /// The function may be reported as an outlier of its trait's vote.
    pub fn rvs_is_trait_vote_outlier_candidate(self) -> (r: bool)
        ensures
            r == (self.is_local && self.is_trait_impl && !self.is_port_method && self.has_source),
    {
        self.is_local && self.is_trait_impl && !self.is_port_method && self.has_source
    }

    /// The function's name may be rewritten.
    pub fn rvs_is_strip_candidate(self) -> (r: bool)
        ensures
            r == (self.is_local && !self.is_trait_impl),
    {
        self.is_local && !self.is_trait_impl
    }
}


/// Whether the graph has a target of the given provenance with crate `id`.
pub open spec fn spec_graph_has_crate(graph: FnGraph, id: u64, provenance: CrateProvenance) -> bool {
    exists|i: int| 0 <= i < graph.nodes.len_spec() && #[trigger] graph.nodes.val(i).crate_id == id
        && graph.nodes.val(i).crate_provenance == provenance
}

/// Whether a resolved callee is local to the scope of the named crates over
/// `graph`: by its crate when the graph knows the crate, by path otherwise.
pub open spec fn spec_identity_local(prefixes: Seq<Seq<char>>, graph: FnGraph, identity: FunctionIdentity) -> bool {
    if identity.crate_id == 0 {
        spec_scope_contains(prefixes, identity.def_path@)
    } else if spec_graph_has_crate(graph, identity.crate_id, CrateProvenance::PrimaryPackage) {
        true
    } else if spec_graph_has_crate(graph, identity.crate_id, CrateProvenance::Dependency) {
        false
    } else {
        spec_scope_contains(prefixes, identity.def_path@)
    }
}

/// The scope of a graph decides locality of callees by `spec_identity_local`.
pub proof fn lemma_scope_identity(scope: LocalScope, names: Seq<CrateName>, graph: FnGraph, identity: FunctionIdentity)
    requires
        scope.prefix_views() == names.map_values(|n: CrateName| spec_crate_prefix(n.chars@)),
        forall|id: u64| scope.primary_crate_ids@.contains(id) <==> exists|i: int| 0 <= i < graph.nodes.len_spec()
            && #[trigger] graph.nodes.val(i).crate_id == id && graph.nodes.val(i).crate_provenance == CrateProvenance::PrimaryPackage,
        forall|id: u64| scope.dependency_crate_ids@.contains(id) <==> exists|i: int| 0 <= i < graph.nodes.len_spec()
            && #[trigger] graph.nodes.val(i).crate_id == id && graph.nodes.val(i).crate_provenance == CrateProvenance::Dependency,
    ensures
        (if identity.crate_id == 0 {
            spec_scope_contains(scope.prefix_views(), identity.def_path@)
        } else if scope.primary_crate_ids@.contains(identity.crate_id) {
            true
        } else if scope.dependency_crate_ids@.contains(identity.crate_id) {
            false
        } else {
            spec_scope_contains(scope.prefix_views(), identity.def_path@)
        }) == spec_identity_local(spec_prefixes_of(names), graph, identity),
{
}
} // verus!
