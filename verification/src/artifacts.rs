//! The call graph: one node per function, with the facts the compiler pass
//! gathered and the functions it calls.
use vstd::prelude::*;

use crate::capability::{CapabilityFacts, spec_no_facts};
use crate::pathmap::PathMap;
use crate::symbols::DefPath;
use crate::text::rvs_chars_of;

verus! {

/// Which package a compiled target belongs to.
#[derive(Debug, Clone, Copy, PartialEq, Eq, Structural)]
pub enum CrateProvenance {
    /// A target of the package being checked.
    PrimaryPackage,
    /// A target of a dependency.
    Dependency,
    /// Recorded before provenance was tracked.
    LegacyUnknown,
}

/// A source span of a function.
#[derive(Debug, Clone, PartialEq, Eq)]
pub struct FnSource {
    pub file: Vec<char>,
    pub start_line: usize,
    pub end_line: usize,
}

impl FnSource {
    pub fn rvs_new(file: &str, start_line: usize, end_line: usize) -> (r: FnSource)
        ensures
            r.file@ == file@,
            r.start_line == start_line,
            r.end_line == end_line,
    {
        FnSource { file: rvs_chars_of(file), start_line, end_line }
    }
}

/// A callee as the compiler resolved it: its crate and its path.
#[derive(Debug, Clone, PartialEq, Eq)]
pub struct FunctionIdentity {
    pub crate_id: u64,
    pub def_path: DefPath,
}

/// One function of the call graph.
#[derive(Debug, Clone)]
pub struct FnNode {
    /// The functions this one calls.
    pub calls: Vec<FunctionIdentity>,
    /// Signature and body facts.
    pub facts: CapabilityFacts,
    /// Whether the function has a body (trait method declarations may not).
    pub has_body: bool,
    /// Whether the compiler pass saw the whole body.
    pub complete: bool,
    pub is_trait_impl: bool,
    pub is_entrypoint: bool,
    pub is_test: bool,
    pub is_production: bool,
    pub crate_id: u64,
    pub crate_provenance: CrateProvenance,
    /// Where the function is written; empty for generated code.
    pub sources: Vec<FnSource>,
}

impl Default for FnNode {
    fn default() -> (r: Self)
        ensures
            r.calls@.len() == 0,
            r.facts == spec_no_facts(),
            r.has_body,
            r.complete,
            !r.is_trait_impl,
            !r.is_entrypoint,
            !r.is_test,
            !r.is_production,
            r.crate_id == 0,
            r.crate_provenance == CrateProvenance::LegacyUnknown,
            r.sources@.len() == 0,
    {
        FnNode {
            calls: Vec::new(),
            facts: CapabilityFacts::default(),
            has_body: true,
            complete: true,
            is_trait_impl: false,
            is_entrypoint: false,
            is_test: false,
            is_production: false,
            crate_id: 0,
            crate_provenance: CrateProvenance::LegacyUnknown,
            sources: Vec::new(),
        }
    }
}

/// The call graph, keyed by definition path.
#[derive(Debug, Clone)]
pub struct FnGraph {
    pub nodes: PathMap<FnNode>,
}

impl FnGraph {
    pub open spec fn wf(self) -> bool {
        self.nodes.wf()
    }

    /// An empty graph.
    pub fn rvs_new() -> (r: FnGraph)
        ensures
            r.wf(),
            r.nodes.len_spec() == 0,
    {
        FnGraph { nodes: PathMap::rvs_new() }
    }

    /// Adds or replaces a node.
    #[allow(non_snake_case)]
    pub fn rvs_insert_M(&mut self, path: DefPath, node: FnNode)
        requires
            old(self).wf(),
        ensures
            final(self).wf(),
            final(self).nodes.spec_get(path@) == Some(node),
            forall|k: Seq<char>| k != path@ ==> #[trigger] final(self).nodes.spec_get(k) == old(self).nodes.spec_get(k),
            forall|k: Seq<char>| #[trigger] final(self).nodes.has_key(k) == (old(self).nodes.has_key(k) || k == path@),
            old(self).nodes.has_key(path@) ==> final(self).nodes.len_spec() == old(self).nodes.len_spec(),
            !old(self).nodes.has_key(path@) ==> final(self).nodes.len_spec() == old(self).nodes.len_spec() + 1,
    {
        self.nodes.rvs_insert_M(path, node);
    }

    /// Sets the port marker fact of the node at a position.
    #[allow(non_snake_case)]
    pub fn rvs_set_port_fact_at_M(&mut self, i: usize, is_port_method: bool)
        requires
            old(self).wf(),
            i < old(self).nodes.len_spec(),
        ensures
            final(self).wf(),
            final(self).nodes.entries@ == old(self).nodes.entries@.update(i as int, (old(self).nodes.entries@[i as int].0,
                FnNode {
                    facts: CapabilityFacts { is_port_method, ..old(self).nodes.val(i as int).facts },
                    ..old(self).nodes.val(i as int)
                })),
    {
        let (key, mut node) = self.nodes.entries.remove(i);
        node.facts.is_port_method = is_port_method;
        self.nodes.entries.insert(i, (key, node));
        proof {
            assert forall|a: int, b: int| 0 <= a < b < self.nodes.len_spec()
                implies crate::order::spec_lt(#[trigger] self.nodes.key(a), #[trigger] self.nodes.key(b)) by {
                assert(self.nodes.key(a) == old(self).nodes.key(a));
                assert(self.nodes.key(b) == old(self).nodes.key(b));
            }
        }
    }

    /// Number of nodes.
    pub fn rvs_len(&self) -> (r: usize)
        ensures
            r == self.nodes.len_spec(),
    {
        self.nodes.rvs_len()
    }

    /// The node of a path.
    pub fn rvs_get_path(&self, path: &DefPath) -> (r: Option<&FnNode>)
        requires
            self.wf(),
        ensures
            r is Some <==> self.nodes.has_key(path@),
            r matches Some(n) ==> self.nodes.spec_get(path@) == Some(*n),
    {
        self.nodes.rvs_get(path.chars.as_slice())
    }

    /// The node of a path given as text.
    pub fn rvs_get(&self, path: &str) -> (r: Option<&FnNode>)
        requires
            self.wf(),
        ensures
            r is Some <==> self.nodes.has_key(path@),
            r matches Some(n) ==> self.nodes.spec_get(path@) == Some(*n),
    {
        let chars = rvs_chars_of(path);
        self.nodes.rvs_get(chars.as_slice())
    }

    /// The path at a position (paths are in sorted order).
    pub fn rvs_path_at(&self, i: usize) -> (r: &DefPath)
        requires
            i < self.nodes.len_spec(),
        ensures
            r@ == self.nodes.key(i as int),
    {
        self.nodes.rvs_key_at(i)
    }

    /// The node at a position.
    pub fn rvs_node_at(&self, i: usize) -> (r: &FnNode)
        requires
            i < self.nodes.len_spec(),
        ensures
            *r == self.nodes.val(i as int),
    {
        self.nodes.rvs_value_at(i)
    }
}

} // verus!
