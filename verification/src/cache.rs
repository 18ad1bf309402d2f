//! The namespace cache.
//!
//! The scheduler assignment strategy resolves a pod's scheduler from the
//! labels of the pod's namespace. Namespace metadata is delivered by a
//! watch stream that the surrounding binary runs; every observed namespace
//! is upserted here, so each entry reflects the most recently observed
//! event for that name. Entries are never removed; the cache is rebuilt
//! from scratch only when the process restarts.

use vstd::prelude::*;
use crate::kvlist::{assoc_get, assoc_lookup, assoc_upsert, entries_view};

verus! {

/// The namespace metadata the webhook consumes: its labels, kept as
/// `None` when the namespace has no labels map at all.
#[derive(Debug)]
pub struct NamespaceMeta {
    pub labels: Option<Vec<(String, String)>>,
}

pub struct NamespaceMetaView {
    pub labels: Option<Seq<(Seq<char>, Seq<char>)>>,
}

impl View for NamespaceMeta {
    type V = NamespaceMetaView;

    open spec fn view(&self) -> NamespaceMetaView {
        NamespaceMetaView {
            labels: match self.labels {
                Some(ref l) => Some(entries_view(l@)),
                None => None,
            },
        }
    }
}

/// A map from namespace name to its latest observed metadata.
#[derive(Debug)]
pub struct NamespaceCache {
    entries: Vec<(String, NamespaceMeta)>,
}

impl View for NamespaceCache {
    type V = Seq<(Seq<char>, NamespaceMetaView)>;

    closed spec fn view(&self) -> Seq<(Seq<char>, NamespaceMetaView)> {
        entries_view(self.entries@)
    }
}

/// What a name resolves to in the cache.
pub open spec fn cache_lookup(
    cache: Seq<(Seq<char>, NamespaceMetaView)>,
    name: Seq<char>,
) -> Option<NamespaceMetaView> {
    assoc_lookup(cache, name)
}

impl NamespaceCache {
    /// An empty cache, as a freshly started process has it.
    pub fn new() -> (c: NamespaceCache)
        ensures
            c@ == Seq::<(Seq<char>, NamespaceMetaView)>::empty(),
    {
        let c = NamespaceCache { entries: Vec::new() };
        proof {
            assert(c@ =~= Seq::<(Seq<char>, NamespaceMetaView)>::empty());
        }
        c
    }

    /// Records the latest observed metadata for a namespace: afterwards
    /// that name resolves to exactly this metadata and every other name
    /// resolves as before.
    pub fn upsert(&mut self, name: String, meta: NamespaceMeta)
        ensures
            forall|k: Seq<char>|
                cache_lookup(final(self)@, k) == if k == name@ {
                    Some(meta@)
                } else {
                    cache_lookup(old(self)@, k)
                },
    {
        assoc_upsert(&mut self.entries, name, meta);
    }

    /// Resolves a namespace name to its cached metadata.
    pub fn get(&self, name: &String) -> (r: Option<&NamespaceMeta>)
        ensures
            match r {
                Some(m) => cache_lookup(self@, name@) == Some(m@),
                None => cache_lookup(self@, name@) is None,
            },
    {
        assoc_get(&self.entries, name)
    }
}

} // verus!
