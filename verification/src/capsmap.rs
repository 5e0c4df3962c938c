//! Capability maps: recorded capability knowledge per definition path.
use vstd::prelude::*;

use crate::capability::{CapabilityInfo, CapabilitySet};
use crate::pathmap::PathMap;
use crate::symbols::DefPath;
use crate::text::rvs_chars_of;

verus! {

/// Capability records keyed by definition path.
#[derive(Debug, Clone)]
pub struct CapsMap {
    pub entries: PathMap<CapabilityInfo>,
}

impl CapsMap {
    pub open spec fn wf(self) -> bool {
        self.entries.wf()
    }

    /// The record of a path.
    pub open spec fn spec_info(self, k: Seq<char>) -> Option<CapabilityInfo> {
        self.entries.spec_get(k)
    }

    /// An empty map.
    pub fn rvs_new() -> (r: CapsMap)
        ensures
            r.wf(),
            forall|k: Seq<char>| #[trigger] r.spec_info(k) is None,
    {
        CapsMap { entries: PathMap::rvs_new() }
    }

    /// Number of records.
    pub fn rvs_len(&self) -> (r: usize)
        ensures
            r == self.entries.len_spec(),
    {
        self.entries.rvs_len()
    }

    /// Records a full record.
    #[allow(non_snake_case)]
    pub fn rvs_insert_info_M(&mut self, key: DefPath, info: CapabilityInfo)
        requires
            old(self).wf(),
        ensures
            final(self).wf(),
            final(self).spec_info(key@) == Some(info),
            forall|k: Seq<char>| k != key@ ==> #[trigger] final(self).spec_info(k) == old(self).spec_info(k),
    {
        self.entries.rvs_insert_M(key, info);
    }

    /// Records a hand-written, complete capability set.
    #[allow(non_snake_case)]
    pub fn rvs_insert_M(&mut self, key: DefPath, caps: CapabilitySet)
        requires
            old(self).wf(),
        ensures
            final(self).wf(),
            final(self).spec_info(key@) == Some(CapabilityInfo::spec_explicit(caps)),
            forall|k: Seq<char>| k != key@ ==> #[trigger] final(self).spec_info(k) == old(self).spec_info(k),
    {
        self.entries.rvs_insert_M(key, CapabilityInfo::rvs_explicit(caps));
    }

    /// Adds every record of `infos`, replacing earlier records of the same
    /// paths.
    #[allow(non_snake_case)]
    pub fn rvs_extend_info_entries_M(&mut self, infos: &PathMap<CapabilityInfo>)
        requires
            old(self).wf(),
            infos.wf(),
        ensures
            final(self).wf(),
            forall|k: Seq<char>| #[trigger] final(self).spec_info(k) == if infos.has_key(k) {
                infos.spec_get(k)
            } else {
                old(self).spec_info(k)
            },
    {
        let mut i: usize = 0;
        while i < infos.rvs_len()
            invariant
                self.wf(),
                infos.wf(),
                i <= infos.len_spec(),
                forall|k: Seq<char>| #[trigger] self.spec_info(k) == if exists|j: int| 0 <= j < i && #[trigger] infos.key(j) == k {
                    infos.spec_get(k)
                } else {
                    old(self).spec_info(k)
                },
            decreases infos.len_spec() - i,
        {
            let key = infos.rvs_key_at(i).rvs_copy();
            let info = *infos.rvs_value_at(i);
            proof {
                infos.lemma_index_unique(i as int);
            }
            let ghost prev = *self;
            self.entries.rvs_insert_M(key, info);
            proof {
                assert(info == infos.val(i as int));
                assert forall|k: Seq<char>| #[trigger] self.spec_info(k) == if exists|j: int| 0 <= j < i + 1 && #[trigger] infos.key(j) == k {
                    infos.spec_get(k)
                } else {
                    old(self).spec_info(k)
                } by {
                    if k == infos.key(i as int) {
                        assert(infos.key(i as int) == k);
                        assert(self.spec_info(k) == Some(info));
                        assert(infos.spec_get(k) == Some(infos.val(i as int)));
                    } else {
                        assert(self.spec_info(k) == prev.spec_info(k));
                        if exists|j: int| 0 <= j < i + 1 && #[trigger] infos.key(j) == k {
                            let j = choose|j: int| 0 <= j < i + 1 && #[trigger] infos.key(j) == k;
                            assert(j < i);
                            assert(exists|j: int| 0 <= j < i && #[trigger] infos.key(j) == k);
                        } else {
                            assert(!exists|j: int| 0 <= j < i && #[trigger] infos.key(j) == k);
                        }
                    }
                }
            }
            i = i + 1;
        }
        proof {
            assert forall|k: Seq<char>| #[trigger] self.spec_info(k) == if infos.has_key(k) {
                infos.spec_get(k)
            } else {
                old(self).spec_info(k)
            } by {
                if infos.has_key(k) {
                    let j = choose|j: int| 0 <= j < infos.len_spec() && #[trigger] infos.key(j) == k;
                    assert(0 <= j < i);
                }
            }
        }
    }

    /// The record of a path.
    pub fn rvs_lookup_info_def_path(&self, path: &DefPath) -> (r: Option<CapabilityInfo>)
        requires
            self.wf(),
        ensures
            r == self.spec_info(path@),
    {
        match self.entries.rvs_get(path.chars.as_slice()) {
            Some(info) => Some(*info),
            None => None,
        }
    }

    /// The record of a path given as text.
    pub fn rvs_lookup_info(&self, path: &str) -> (r: Option<CapabilityInfo>)
        requires
            self.wf(),
        ensures
            r == self.spec_info(path@),
    {
        let chars = rvs_chars_of(path);
        match self.entries.rvs_get(chars.as_slice()) {
            Some(info) => Some(*info),
            None => None,
        }
    }

    /// The recorded capabilities of a path.
    pub fn rvs_lookup_def_path(&self, path: &DefPath) -> (r: Option<CapabilitySet>)
        requires
            self.wf(),
        ensures
            r == match self.spec_info(path@) {
                Some(info) => Some(info.caps),
                None => None,
            },
    {
        match self.rvs_lookup_info_def_path(path) {
            Some(info) => Some(info.caps),
            None => None,
        }
    }

    /// The recorded capabilities of a path given as text (exact path only).
    pub fn rvs_lookup(&self, path: &str) -> (r: Option<CapabilitySet>)
        requires
            self.wf(),
        ensures
            r == match self.spec_info(path@) {
                Some(info) => Some(info.caps),
                None => None,
            },
    {
        match self.rvs_lookup_info(path) {
            Some(info) => Some(info.caps),
            None => None,
        }
    }
}

} // verus!
