//! The admission decision pipeline.
//!
//! Each inbound admission request is decoded by the surrounding binary
//! into an optional pod; here the request is routed to exactly one
//! mutation strategy and its outcome becomes the verdict. A request
//! without a target object (a delete, say) is allowed untouched; a
//! strategy failure denies the request with the failure's message as the
//! reason; otherwise the strategy's patches are allowed through
//! unchanged. Decode failures never reach this pipeline — the binary
//! answers them with an invalid-request denial of its own.

use vstd::prelude::*;
use crate::bandwidth::{
    bandwidth_error_message, bandwidth_patches, mutate_bandwidth, totals_overflow, BandwidthError,
    BandwidthMode,
};
use crate::cache::{NamespaceCache, NamespaceMetaView};
use crate::patch::{ops_view, PatchOp, PatchOpView};
use crate::pod::{Pod, PodView};
use crate::scheduler::{
    mutate_scheduler, scheduler_error_message, scheduler_lookup, scheduler_patches,
};

verus! {

/// Configuration of the bandwidth strategy: the two resource keys and the
/// mode to apply.
#[derive(Debug, Clone)]
pub struct BandwidthProps {
    pub egress_bandwidth_resource_key: String,
    pub ingress_bandwidth_resource_key: String,
    pub mode: BandwidthMode,
}

pub struct BandwidthPropsView {
    pub egress_bandwidth_resource_key: Seq<char>,
    pub ingress_bandwidth_resource_key: Seq<char>,
    pub mode: BandwidthMode,
}

impl View for BandwidthProps {
    type V = BandwidthPropsView;

    open spec fn view(&self) -> BandwidthPropsView {
        BandwidthPropsView {
            egress_bandwidth_resource_key: self.egress_bandwidth_resource_key@,
            ingress_bandwidth_resource_key: self.ingress_bandwidth_resource_key@,
            mode: self.mode,
        }
    }
}

/// The strategy a request is routed to, fixed per endpoint at startup.
/// The scheduler strategy reads the namespace cache, which is handed to
/// [`evaluate`] separately so that one shared cache serves all requests.
#[derive(Debug, Clone)]
pub enum Mode {
    Bandwidth(BandwidthProps),
    Scheduler,
}

pub enum ModeView {
    Bandwidth(BandwidthPropsView),
    Scheduler,
}

impl View for Mode {
    type V = ModeView;

    open spec fn view(&self) -> ModeView {
        match self {
            Mode::Bandwidth(props) => ModeView::Bandwidth(props@),
            Mode::Scheduler => ModeView::Scheduler,
        }
    }
}

/// The verdict on one admission request: allow, with the patches to
/// apply, or deny with a reason.
#[derive(Debug, PartialEq, Eq)]
pub enum Verdict {
    Allow { patches: Vec<PatchOp> },
    Deny { reason: String },
}

pub enum VerdictView {
    Allow { patches: Seq<PatchOpView> },
    Deny { reason: Seq<char> },
}

impl View for Verdict {
    type V = VerdictView;

    open spec fn view(&self) -> VerdictView {
        match self {
            Verdict::Allow { patches } => VerdictView::Allow { patches: ops_view(patches@) },
            Verdict::Deny { reason } => VerdictView::Deny { reason: reason@ },
        }
    }
}

/// An optional pod, seen at the spec level.
pub open spec fn opt_pod_view(object: Option<Pod>) -> Option<PodView> {
    match object {
        Some(p) => Some(p@),
        None => None,
    }
}

/// The verdict the pipeline reaches, as a function of the strategy, the
/// cache and the decoded object.
pub open spec fn evaluate_spec(
    mode: ModeView,
    cache: Seq<(Seq<char>, NamespaceMetaView)>,
    object: Option<PodView>,
) -> VerdictView {
    match object {
        None => VerdictView::Allow { patches: Seq::empty() },
        Some(pod) => match mode {
            ModeView::Bandwidth(props) => {
                if totals_overflow(
                    pod.containers,
                    props.egress_bandwidth_resource_key,
                    props.ingress_bandwidth_resource_key,
                ) {
                    VerdictView::Deny {
                        reason: bandwidth_error_message(BandwidthError::TotalOverflow),
                    }
                } else {
                    VerdictView::Allow {
                        patches: bandwidth_patches(
                            pod,
                            props.egress_bandwidth_resource_key,
                            props.ingress_bandwidth_resource_key,
                            props.mode,
                        ),
                    }
                }
            },
            ModeView::Scheduler => match scheduler_lookup(pod, cache) {
                Ok(name) => VerdictView::Allow { patches: scheduler_patches(name) },
                Err(e) => VerdictView::Deny { reason: scheduler_error_message(e) },
            },
        },
    }
}

/// Law: in a bandwidth mode the verdict never depends on the cache.
pub proof fn lemma_bandwidth_ignores_cache(
    props: BandwidthPropsView,
    c1: Seq<(Seq<char>, NamespaceMetaView)>,
    c2: Seq<(Seq<char>, NamespaceMetaView)>,
    object: Option<PodView>,
)
    ensures
        evaluate_spec(ModeView::Bandwidth(props), c1, object) == evaluate_spec(
            ModeView::Bandwidth(props),
            c2,
            object,
        ),
{
}

/// Law: a pod that carries the scheduler label is resolved from that
/// label alone — the verdict is the same whatever the cache holds.
pub proof fn lemma_labeled_pod_ignores_cache(
    pod: PodView,
    c1: Seq<(Seq<char>, NamespaceMetaView)>,
    c2: Seq<(Seq<char>, NamespaceMetaView)>,
)
    requires
        crate::kvlist::assoc_lookup(pod.labels, crate::scheduler::scheduler_label_key())
            is Some,
    ensures
        evaluate_spec(ModeView::Scheduler, c1, Some(pod)) == evaluate_spec(
            ModeView::Scheduler,
            c2,
            Some(pod),
        ),
{
    crate::scheduler::lemma_pod_label_wins(pod, c1, c2);
}

/// Decides one admission request.
pub fn evaluate(mode: &Mode, cache: &NamespaceCache, object: &Option<Pod>) -> (r: Verdict)
    ensures
        r@ == evaluate_spec(mode@, cache@, opt_pod_view(*object)),
{
    match object {
        None => {
            let v = Verdict::Allow { patches: Vec::new() };
            proof {
                assert(ops_view(Seq::<PatchOp>::empty()) =~= Seq::<PatchOpView>::empty());
            }
            v
        },
        Some(pod) => match mode {
            Mode::Bandwidth(props) => match mutate_bandwidth(
                pod,
                &props.egress_bandwidth_resource_key,
                &props.ingress_bandwidth_resource_key,
                props.mode,
            ) {
                Ok(patches) => Verdict::Allow { patches },
                Err(e) => Verdict::Deny { reason: e.message() },
            },
            Mode::Scheduler => match mutate_scheduler(pod, cache) {
                Ok(patches) => Verdict::Allow { patches },
                Err(e) => Verdict::Deny { reason: e.message() },
            },
        },
    }
}

} // verus!
