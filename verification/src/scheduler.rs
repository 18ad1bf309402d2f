//! The scheduler assignment engine.
//!
//! A pod's scheduler is resolved from the pod's own labels first; a pod
//! without the well-known label falls back to the same label on its
//! namespace, read from the namespace cache. Every failure along that
//! fallback — no namespace on the object, a namespace the cache has not
//! observed, a namespace without labels, or labels without the key — is a
//! hard error that denies the admission request; there is no default
//! scheduler.

use vstd::prelude::*;
use vstd::string::StringExecFns;
use crate::cache::{cache_lookup, NamespaceCache, NamespaceMetaView};
use crate::kvlist::{assoc_get, assoc_lookup};
use crate::patch::{ops_view, PatchOp, PatchOpView, PatchValue, PatchValueView};
use crate::pod::{Pod, PodView};

verus! {

/// The well-known label that names a pod's scheduler.
pub open spec fn scheduler_label_key() -> Seq<char> {
    "nbam-default-scheduler"@
}

/// The pod field the resolved scheduler is written to.
pub open spec fn scheduler_name_path() -> Seq<char> {
    "/spec/schedulerName"@
}

/// Why scheduler assignment can fail.
#[derive(Debug, PartialEq, Eq)]
pub enum SchedulerError {
    /// The object names no namespace to fall back to.
    NamespaceMissing { pod_name: String },
    /// The namespace has not been observed by the watch yet.
    NamespaceNotFound { namespace: String },
    /// The namespace carries no labels map at all.
    NoNamespaceLabels { namespace: String },
    /// The namespace's labels lack the scheduler key.
    LabelMissing { namespace: String },
}

pub enum SchedulerErrorView {
    NamespaceMissing { pod_name: Seq<char> },
    NamespaceNotFound { namespace: Seq<char> },
    NoNamespaceLabels { namespace: Seq<char> },
    LabelMissing { namespace: Seq<char> },
}

impl View for SchedulerError {
    type V = SchedulerErrorView;

    open spec fn view(&self) -> SchedulerErrorView {
        match self {
            SchedulerError::NamespaceMissing { pod_name } => SchedulerErrorView::NamespaceMissing {
                pod_name: pod_name@,
            },
            SchedulerError::NamespaceNotFound { namespace } => SchedulerErrorView::NamespaceNotFound {
                namespace: namespace@,
            },
            SchedulerError::NoNamespaceLabels { namespace } => SchedulerErrorView::NoNamespaceLabels {
                namespace: namespace@,
            },
            SchedulerError::LabelMissing { namespace } => SchedulerErrorView::LabelMissing {
                namespace: namespace@,
            },
        }
    }
}

/// The human-readable reason each failure denies with.
pub open spec fn scheduler_error_message(e: SchedulerErrorView) -> Seq<char> {
    match e {
        SchedulerErrorView::NamespaceMissing { pod_name } =>
            "could not determine namespace for object "@ + pod_name,
        SchedulerErrorView::NamespaceNotFound { namespace } =>
            "namespace not found in cache: "@ + namespace,
        SchedulerErrorView::NoNamespaceLabels { namespace } =>
            "namespace has no labels set: "@ + namespace,
        SchedulerErrorView::LabelMissing { namespace } =>
            "scheduler label missing in namespace "@ + namespace,
    }
}

impl SchedulerError {
    /// Builds the denial reason for this failure.
    pub fn message(&self) -> (r: String)
        ensures
            r@ == scheduler_error_message(self@),
    {
        match self {
            SchedulerError::NamespaceMissing { pod_name } => {
                let mut s = String::from_str("could not determine namespace for object ");
                s.append(pod_name.as_str());
                s
            },
            SchedulerError::NamespaceNotFound { namespace } => {
                let mut s = String::from_str("namespace not found in cache: ");
                s.append(namespace.as_str());
                s
            },
            SchedulerError::NoNamespaceLabels { namespace } => {
                let mut s = String::from_str("namespace has no labels set: ");
                s.append(namespace.as_str());
                s
            },
            SchedulerError::LabelMissing { namespace } => {
                let mut s = String::from_str("scheduler label missing in namespace ");
                s.append(namespace.as_str());
                s
            },
        }
    }
}

/// What the engine resolves: the pod's own label wins, else the pod's
/// namespace is consulted in the cache, and each missing step is the
/// corresponding error.
pub open spec fn scheduler_lookup(
    pod: PodView,
    cache: Seq<(Seq<char>, NamespaceMetaView)>,
) -> Result<Seq<char>, SchedulerErrorView> {
    match assoc_lookup(pod.labels, scheduler_label_key()) {
        Some(v) => Ok(v),
        None => match pod.namespace {
            None => Err(SchedulerErrorView::NamespaceMissing { pod_name: pod.name }),
            Some(ns) => match cache_lookup(cache, ns) {
                None => Err(SchedulerErrorView::NamespaceNotFound { namespace: ns }),
                Some(meta) => match meta.labels {
                    None => Err(SchedulerErrorView::NoNamespaceLabels { namespace: ns }),
                    Some(labels) => match assoc_lookup(labels, scheduler_label_key()) {
                        None => Err(SchedulerErrorView::LabelMissing { namespace: ns }),
                        Some(v) => Ok(v),
                    },
                },
            },
        },
    }
}

/// The single patch the engine emits on success.
pub open spec fn scheduler_patches(name: Seq<char>) -> Seq<PatchOpView> {
    seq![
        PatchOpView::Add { path: scheduler_name_path(), value: PatchValueView::Text(name) },
    ]
}

/// Law: a pod that carries the scheduler label resolves without the
/// cache — the outcome is the same whatever the cache holds.
pub proof fn lemma_pod_label_wins(
    pod: PodView,
    c1: Seq<(Seq<char>, NamespaceMetaView)>,
    c2: Seq<(Seq<char>, NamespaceMetaView)>,
)
    requires
        assoc_lookup(pod.labels, scheduler_label_key()) is Some,
    ensures
        scheduler_lookup(pod, c1) == scheduler_lookup(pod, c2),
{
}

/// Runs the scheduler assignment engine on a pod.
///
/// On success the patch list sets the pod's scheduler name to the value
/// [`scheduler_lookup`] resolves; every resolution failure is returned as
/// the matching error.
pub fn mutate_scheduler(pod: &Pod, cache: &NamespaceCache) -> (r: Result<
    Vec<PatchOp>,
    SchedulerError,
>)
    ensures
        match r {
            Ok(patches) => scheduler_lookup(pod@, cache@) is Ok && ops_view(patches@)
                == scheduler_patches(scheduler_lookup(pod@, cache@)->Ok_0),
            Err(e) => scheduler_lookup(pod@, cache@) is Err && e@ == scheduler_lookup(
                pod@,
                cache@,
            )->Err_0,
        },
{
    let key = String::from_str("nbam-default-scheduler");
    let name: String = match assoc_get(&pod.labels, &key) {
        Some(v) => v.clone(),
        None => match &pod.namespace {
            None => {
                return Err(SchedulerError::NamespaceMissing { pod_name: pod.name.clone() });
            },
            Some(ns) => match cache.get(ns) {
                None => {
                    return Err(SchedulerError::NamespaceNotFound { namespace: ns.clone() });
                },
                Some(meta) => match &meta.labels {
                    None => {
                        return Err(SchedulerError::NoNamespaceLabels { namespace: ns.clone() });
                    },
                    Some(labels) => match assoc_get(labels, &key) {
                        None => {
                            return Err(SchedulerError::LabelMissing { namespace: ns.clone() });
                        },
                        Some(v) => v.clone(),
                    },
                },
            },
        },
    };
    let mut patches: Vec<PatchOp> = Vec::new();
    patches.push(
        PatchOp::Add {
            path: String::from_str("/spec/schedulerName"),
            value: PatchValue::Text(name),
        },
    );
    proof {
        assert(ops_view(patches@) =~= scheduler_patches(
            scheduler_lookup(pod@, cache@)->Ok_0,
        ));
    }
    Ok(patches)
}

} // verus!
