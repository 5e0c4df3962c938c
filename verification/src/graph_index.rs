//! Indexes derived from the call graph: trait implementations, port methods
//! and reverse call edges.
use vstd::prelude::*;

use crate::artifacts::FnGraph;
use crate::collections::{
    PathSet, rvs_list_add_M, rvs_set_copy, rvs_set_contains, rvs_set_insert_M, rvs_set_new,
    spec_list_has, spec_lists_have,
};
use crate::function_classification::{LocalScope, spec_contains_target, spec_prefixes_of};
use crate::pathmap::PathMap;
use crate::symbols::{
    CrateName, DefPath, rvs_impl_lookup_key, spec_impl_lookup_key, spec_trait_method_path,
};

verus! {

/// Trait impl methods grouped by `method@Trait` key.
pub type ImplIndex = PathMap<Vec<DefPath>>;

/// Groups the graph's trait impl methods by `method@Trait`.
pub fn rvs_build_impl_index(graph: &FnGraph) -> (r: ImplIndex)
    requires
        graph.wf(),
    ensures
        r.wf(),
        forall|k: Seq<char>, x: Seq<char>| #[trigger] spec_lists_have(r, k, x)
            <==> (graph.nodes.has_key(x) && spec_impl_lookup_key(x) == Some(k)),
{
    let mut idx: ImplIndex = PathMap::rvs_new();
    let mut i: usize = 0;
    while i < graph.rvs_len()
        invariant
            idx.wf(),
            graph.wf(),
            i <= graph.nodes.len_spec(),
            forall|k: Seq<char>, x: Seq<char>| #[trigger] spec_lists_have(idx, k, x)
                <==> (exists|j: int| 0 <= j < i && #[trigger] graph.nodes.key(j) == x) && spec_impl_lookup_key(x) == Some(k),
        decreases graph.nodes.len_spec() - i,
    {
        let key = graph.rvs_path_at(i);
        let ghost before = idx;
        match rvs_impl_lookup_key(key.rvs_chars()) {
            Some(k) => {
                let kp = DefPath::rvs_from_chars(k);
                rvs_list_add_M(&mut idx, &kp, key);
            },
            None => {},
        }
        proof {
            assert forall|k: Seq<char>, x: Seq<char>| #[trigger] spec_lists_have(idx, k, x)
                <==> (exists|j: int| 0 <= j < i + 1 && #[trigger] graph.nodes.key(j) == x) && spec_impl_lookup_key(x) == Some(k) by {
                if x == graph.nodes.key(i as int) {
                    assert(graph.nodes.key(i as int) == x);
                } else if exists|j: int| 0 <= j < i + 1 && #[trigger] graph.nodes.key(j) == x {
                    let j = choose|j: int| 0 <= j < i + 1 && #[trigger] graph.nodes.key(j) == x;
                    assert(j < i);
                }
            }
        }
        i = i + 1;
    }
    proof {
        assert forall|k: Seq<char>, x: Seq<char>| #[trigger] spec_lists_have(idx, k, x)
            <==> (graph.nodes.has_key(x) && spec_impl_lookup_key(x) == Some(k)) by {
            if graph.nodes.has_key(x) {
                let j = choose|j: int| 0 <= j < graph.nodes.len_spec() && #[trigger] graph.nodes.key(j) == x;
                assert(0 <= j < i);
            }
        }
    }
    idx
}

/// `methods` grown by every graph trait impl method whose trait method is in
/// `methods`.
pub open spec fn spec_with_port_impls(graph: FnGraph, methods: PathSet, k: Seq<char>) -> bool {
    methods.has_key(k) || (graph.nodes.has_key(k) && match spec_trait_method_path(k) {
        Some(t) => methods.has_key(t),
        None => false,
    })
}

/// Adds the implementations of port methods to a port method set.
#[allow(non_snake_case)]
pub fn rvs_include_port_implementations_M(graph: &FnGraph, methods: &mut PathSet)
    requires
        graph.wf(),
        old(methods).wf(),
    ensures
        final(methods).wf(),
        forall|k: Seq<char>| #[trigger] final(methods).has_key(k) == spec_with_port_impls(*graph, *old(methods), k),
{
    let operation_paths = rvs_set_copy(methods);
    let ghost start = *methods;
    let mut i: usize = 0;
    while i < graph.rvs_len()
        invariant
            graph.wf(),
            methods.wf(),
            operation_paths.wf(),
            forall|k: Seq<char>| #[trigger] operation_paths.has_key(k) == start.has_key(k),
            i <= graph.nodes.len_spec(),
            forall|k: Seq<char>| #[trigger] methods.has_key(k) == (start.has_key(k) || ((exists|j: int| 0 <= j < i && #[trigger] graph.nodes.key(j) == k) && match spec_trait_method_path(k) {
                Some(t) => start.has_key(t),
                None => false,
            })),
        decreases graph.nodes.len_spec() - i,
    {
        let path = graph.rvs_path_at(i);
        match path.rvs_trait_method_path() {
            Some(t) => {
                if rvs_set_contains(&operation_paths, &t) {
                    rvs_set_insert_M(methods, path);
                }
            },
            None => {},
        }
        proof {
            assert forall|k: Seq<char>| #[trigger] methods.has_key(k) == (start.has_key(k) || ((exists|j: int| 0 <= j < i + 1 && #[trigger] graph.nodes.key(j) == k) && match spec_trait_method_path(k) {
                Some(t) => start.has_key(t),
                None => false,
            })) by {
                if k == graph.nodes.key(i as int) {
                    assert(graph.nodes.key(i as int) == k);
                } else if exists|j: int| 0 <= j < i + 1 && #[trigger] graph.nodes.key(j) == k {
                    let j = choose|j: int| 0 <= j < i + 1 && #[trigger] graph.nodes.key(j) == k;
                    assert(j < i);
                }
            }
        }
        i = i + 1;
    }
    proof {
        assert forall|k: Seq<char>| #[trigger] methods.has_key(k) == spec_with_port_impls(*graph, start, k) by {
            if graph.nodes.has_key(k) {
                let j = choose|j: int| 0 <= j < graph.nodes.len_spec() && #[trigger] graph.nodes.key(j) == k;
                assert(0 <= j < i);
            }
        }
    }
}

/// The graph nodes marked as port methods.
pub open spec fn spec_port_node(graph: FnGraph, k: Seq<char>) -> bool {
    graph.nodes.has_key(k) && graph.nodes.spec_get(k)->0.facts.is_port_method
}

/// `p` holds exactly the graph's port methods and their implementations.
pub open spec fn spec_is_aggregate_ports(graph: FnGraph, p: PathSet) -> bool {
    forall|k: Seq<char>| #[trigger] p.has_key(k) == (spec_port_node(graph, k) || (graph.nodes.has_key(k) && match spec_trait_method_path(k) {
        Some(t) => spec_port_node(graph, t),
        None => false,
    }))
}

/// Every port method of the graph and their implementations.
pub fn rvs_aggregate_port_methods(graph: &FnGraph) -> (r: PathSet)
    requires
        graph.wf(),
    ensures
        r.wf(),
        forall|k: Seq<char>| #[trigger] r.has_key(k) == (spec_port_node(*graph, k) || (graph.nodes.has_key(k) && match spec_trait_method_path(k) {
            Some(t) => spec_port_node(*graph, t),
            None => false,
        })),
        spec_is_aggregate_ports(*graph, r),
{
    let mut methods = rvs_set_new();
    let mut i: usize = 0;
    while i < graph.rvs_len()
        invariant
            graph.wf(),
            methods.wf(),
            i <= graph.nodes.len_spec(),
            forall|k: Seq<char>| #[trigger] methods.has_key(k) == exists|j: int| 0 <= j < i && #[trigger] graph.nodes.key(j) == k && graph.nodes.val(j).facts.is_port_method,
        decreases graph.nodes.len_spec() - i,
    {
        if graph.rvs_node_at(i).facts.is_port_method {
            rvs_set_insert_M(&mut methods, graph.rvs_path_at(i));
        }
        proof {
            assert forall|k: Seq<char>| #[trigger] methods.has_key(k) == exists|j: int| 0 <= j < i + 1 && #[trigger] graph.nodes.key(j) == k && graph.nodes.val(j).facts.is_port_method by {
                if exists|j: int| 0 <= j < i + 1 && #[trigger] graph.nodes.key(j) == k && graph.nodes.val(j).facts.is_port_method {
                    let j = choose|j: int| 0 <= j < i + 1 && #[trigger] graph.nodes.key(j) == k && graph.nodes.val(j).facts.is_port_method;
                    if j < i {
                    } else {
                        assert(graph.nodes.key(i as int) == k);
                    }
                }
                if k == graph.nodes.key(i as int) && graph.nodes.val(i as int).facts.is_port_method {
                    assert(graph.nodes.key(i as int) == k);
                }
            }
        }
        i = i + 1;
    }
    proof {
        assert forall|k: Seq<char>| #[trigger] methods.has_key(k) == spec_port_node(*graph, k) by {
            if methods.has_key(k) {
                let j = choose|j: int| 0 <= j < i && #[trigger] graph.nodes.key(j) == k && graph.nodes.val(j).facts.is_port_method;
                graph.nodes.lemma_index_unique(j);
            }
            if spec_port_node(*graph, k) {
                let j = graph.nodes.index_of(k);
                graph.nodes.lemma_index_unique(j);
                assert(graph.nodes.key(j) == k);
            }
        }
    }
    rvs_include_port_implementations_M(graph, &mut methods);
    methods
}

/// A graph node that is a port method of a local target.
pub open spec fn spec_scoped_port_node(prefixes: Seq<Seq<char>>, graph: FnGraph, k: Seq<char>) -> bool {
    spec_port_node(graph, k) && spec_contains_target(prefixes, k, graph.nodes.spec_get(k)->0.crate_provenance)
}

/// The port methods of local targets and their implementations.
pub fn rvs_scoped_port_methods(graph: &FnGraph, local_crate_names: &Vec<CrateName>) -> (r: PathSet)
    requires
        graph.wf(),
    ensures
        r.wf(),
        forall|k: Seq<char>| #[trigger] r.has_key(k) == (spec_scoped_port_node(spec_prefixes_of(local_crate_names@), *graph, k)
            || (graph.nodes.has_key(k) && match spec_trait_method_path(k) {
                Some(t) => spec_scoped_port_node(spec_prefixes_of(local_crate_names@), *graph, t),
                None => false,
            })),
{
    let scope = LocalScope::rvs_for_graph(local_crate_names, graph);
    let ghost sv = spec_prefixes_of(local_crate_names@);
    assert(scope.prefix_views() == sv);
    let mut methods = rvs_set_new();
    let mut i: usize = 0;
    while i < graph.rvs_len()
        invariant
            graph.wf(),
            methods.wf(),
            scope.prefix_views() == sv,
            i <= graph.nodes.len_spec(),
            forall|k: Seq<char>| #[trigger] methods.has_key(k) == exists|j: int| 0 <= j < i && #[trigger] graph.nodes.key(j) == k && graph.nodes.val(j).facts.is_port_method
                && spec_contains_target(sv, k, graph.nodes.val(j).crate_provenance),
        decreases graph.nodes.len_spec() - i,
    {
        let path = graph.rvs_path_at(i);
        let node = graph.rvs_node_at(i);
        if scope.rvs_contains_target(path, node.crate_provenance) && node.facts.is_port_method {
            rvs_set_insert_M(&mut methods, path);
        }
        proof {
            assert forall|k: Seq<char>| #[trigger] methods.has_key(k) == exists|j: int| 0 <= j < i + 1 && #[trigger] graph.nodes.key(j) == k && graph.nodes.val(j).facts.is_port_method
                && spec_contains_target(sv, k, graph.nodes.val(j).crate_provenance) by {
                if exists|j: int| 0 <= j < i + 1 && #[trigger] graph.nodes.key(j) == k && graph.nodes.val(j).facts.is_port_method
                    && spec_contains_target(sv, k, graph.nodes.val(j).crate_provenance) {
                    let j = choose|j: int| 0 <= j < i + 1 && #[trigger] graph.nodes.key(j) == k && graph.nodes.val(j).facts.is_port_method
                        && spec_contains_target(sv, k, graph.nodes.val(j).crate_provenance);
                    if j == i {
                        assert(graph.nodes.key(i as int) == k);
                    }
                }
                if k == graph.nodes.key(i as int) && graph.nodes.val(i as int).facts.is_port_method
                    && spec_contains_target(sv, k, graph.nodes.val(i as int).crate_provenance) {
                    assert(graph.nodes.key(i as int) == k);
                }
            }
        }
        i = i + 1;
    }
    proof {
        assert forall|k: Seq<char>| #[trigger] methods.has_key(k) == spec_scoped_port_node(sv, *graph, k) by {
            if methods.has_key(k) {
                let j = choose|j: int| 0 <= j < i && #[trigger] graph.nodes.key(j) == k && graph.nodes.val(j).facts.is_port_method
                    && spec_contains_target(sv, k, graph.nodes.val(j).crate_provenance);
                graph.nodes.lemma_index_unique(j);
            }
            if spec_scoped_port_node(sv, *graph, k) {
                let j = graph.nodes.index_of(k);
                graph.nodes.lemma_index_unique(j);
                assert(graph.nodes.key(j) == k);
            }
        }
    }
    rvs_include_port_implementations_M(graph, &mut methods);
    methods
}

/// Reverse edges used by the propagation: the callers of each callee, and
/// the trait methods each implementation answers for.
#[derive(Debug)]
pub struct InferenceDependents {
    pub callers: PathMap<Vec<DefPath>>,
    pub trait_methods: PathMap<Vec<DefPath>>,
}

impl InferenceDependents {
    pub open spec fn wf(self) -> bool {
        self.callers.wf() && self.trait_methods.wf()
    }
}

/// Whether `caller` (a graph node) calls `callee`.
pub open spec fn spec_calls(graph: FnGraph, caller: Seq<char>, callee: Seq<char>) -> bool {
    graph.nodes.has_key(caller) && exists|q: int| 0 <= q < graph.nodes.spec_get(caller)->0.calls@.len()
        && #[trigger] graph.nodes.spec_get(caller)->0.calls@[q].def_path@ == callee
}

/// Builds the reverse call edges and the implementation-to-trait-method edges.
pub fn rvs_build_inference_dependents(graph: &FnGraph, impl_index: &ImplIndex) -> (r: InferenceDependents)
    requires
        graph.wf(),
        impl_index.wf(),
    ensures
        r.wf(),
        forall|callee: Seq<char>, caller: Seq<char>| #[trigger] spec_lists_have(r.callers, callee, caller)
            == spec_calls(*graph, caller, callee),
{
    let mut callers: PathMap<Vec<DefPath>> = PathMap::rvs_new();
    let mut i: usize = 0;
    while i < graph.rvs_len()
        invariant
            graph.wf(),
            callers.wf(),
            i <= graph.nodes.len_spec(),
            forall|callee: Seq<char>, caller: Seq<char>| #[trigger] spec_lists_have(callers, callee, caller)
                == exists|j: int| 0 <= j < i && #[trigger] graph.nodes.key(j) == caller && exists|q: int| 0 <= q < graph.nodes.val(j).calls@.len()
                    && #[trigger] graph.nodes.val(j).calls@[q].def_path@ == callee,
        decreases graph.nodes.len_spec() - i,
    {
        let caller = graph.rvs_path_at(i);
        let node = graph.rvs_node_at(i);
        let ghost at_start = callers;
        let mut q: usize = 0;
        while q < node.calls.len()
            invariant
                callers.wf(),
                graph.wf(),
                i < graph.nodes.len_spec(),
                *node == graph.nodes.val(i as int),
                caller@ == graph.nodes.key(i as int),
                q <= node.calls@.len(),
                forall|callee: Seq<char>, c: Seq<char>| #[trigger] spec_lists_have(callers, callee, c)
                    == (spec_lists_have(at_start, callee, c) || (c == caller@ && exists|p: int| 0 <= p < q && #[trigger] node.calls@[p].def_path@ == callee)),
            decreases node.calls@.len() - q,
        {
            let ghost before = callers;
            rvs_list_add_M(&mut callers, &node.calls[q].def_path, caller);
            proof {
                assert forall|callee: Seq<char>, c: Seq<char>| #[trigger] spec_lists_have(callers, callee, c)
                    == (spec_lists_have(at_start, callee, c) || (c == caller@ && exists|p: int| 0 <= p < q + 1 && #[trigger] node.calls@[p].def_path@ == callee)) by {
                    if c == caller@ && exists|p: int| 0 <= p < q + 1 && #[trigger] node.calls@[p].def_path@ == callee {
                        let p = choose|p: int| 0 <= p < q + 1 && #[trigger] node.calls@[p].def_path@ == callee;
                        if p < q {
                        }
                    }
                }
            }
            q = q + 1;
        }
        proof {
            assert forall|callee: Seq<char>, c: Seq<char>| #[trigger] spec_lists_have(callers, callee, c)
                == exists|j: int| 0 <= j < i + 1 && #[trigger] graph.nodes.key(j) == c && exists|p: int| 0 <= p < graph.nodes.val(j).calls@.len()
                    && #[trigger] graph.nodes.val(j).calls@[p].def_path@ == callee by {
                if c == caller@ {
                    if exists|j: int| 0 <= j < i && #[trigger] graph.nodes.key(j) == c && exists|p: int| 0 <= p < graph.nodes.val(j).calls@.len()
                        && #[trigger] graph.nodes.val(j).calls@[p].def_path@ == callee {
                        let j = choose|j: int| 0 <= j < i && #[trigger] graph.nodes.key(j) == c && exists|p: int| 0 <= p < graph.nodes.val(j).calls@.len()
                            && #[trigger] graph.nodes.val(j).calls@[p].def_path@ == callee;
                        graph.nodes.lemma_index_unique(j);
                        graph.nodes.lemma_index_unique(i as int);
                    }
                } else {
                    if exists|j: int| 0 <= j < i + 1 && #[trigger] graph.nodes.key(j) == c && exists|p: int| 0 <= p < graph.nodes.val(j).calls@.len()
                        && #[trigger] graph.nodes.val(j).calls@[p].def_path@ == callee {
                        let j = choose|j: int| 0 <= j < i + 1 && #[trigger] graph.nodes.key(j) == c && exists|p: int| 0 <= p < graph.nodes.val(j).calls@.len()
                            && #[trigger] graph.nodes.val(j).calls@[p].def_path@ == callee;
                        assert(j < i);
                    }
                }
            }
        }
        i = i + 1;
    }
    proof {
        assert forall|callee: Seq<char>, caller: Seq<char>| #[trigger] spec_lists_have(callers, callee, caller)
            == spec_calls(*graph, caller, callee) by {
            if spec_lists_have(callers, callee, caller) {
                let j = choose|j: int| 0 <= j < i && #[trigger] graph.nodes.key(j) == caller && exists|p: int| 0 <= p < graph.nodes.val(j).calls@.len()
                    && #[trigger] graph.nodes.val(j).calls@[p].def_path@ == callee;
                graph.nodes.lemma_index_unique(j);
            }
            if spec_calls(*graph, caller, callee) {
                let j = graph.nodes.index_of(caller);
                graph.nodes.lemma_index_unique(j);
                assert(graph.nodes.key(j) == caller);
            }
        }
    }
    let mut trait_methods: PathMap<Vec<DefPath>> = PathMap::rvs_new();
    let mut g: usize = 0;
    while g < impl_index.rvs_len()
        invariant
            trait_methods.wf(),
            impl_index.wf(),
            g <= impl_index.len_spec(),
        decreases impl_index.len_spec() - g,
    {
        let implementations = impl_index.rvs_value_at(g);
        let mut trait_method: Option<DefPath> = None;
        let mut q: usize = 0;
        while q < implementations.len() && trait_method.is_none()
            invariant
                q <= implementations@.len(),
            decreases implementations@.len() - q,
        {
            trait_method = implementations[q].rvs_trait_method_path();
            q = q + 1;
        }
        match trait_method {
            Some(tm) => {
                let mut q2: usize = 0;
                while q2 < implementations.len()
                    invariant
                        trait_methods.wf(),
                        q2 <= implementations@.len(),
                    decreases implementations@.len() - q2,
                {
                    rvs_list_add_M(&mut trait_methods, &implementations[q2], &tm);
                    q2 = q2 + 1;
                }
            },
            None => {},
        }
        g = g + 1;
    }
    InferenceDependents { callers, trait_methods }
}

} // verus!
