//! The slice of a pod document that the webhook reads.
//!
//! The admission request delivers the pod as a generic document; the
//! surrounding binary decodes the handful of paths this library consumes
//! into these plain types. Label and resource maps arrive as key-value
//! lists; a map that is absent in the document is handed over as an empty
//! list, except for the pod's annotations, where the webhook must tell an
//! absent map from an empty one in order to create it first.

use vstd::prelude::*;
use crate::kvlist::entries_view;

verus! {

/// One container's resource declarations: the `requests` and `limits`
/// maps from resource-key to quantity string.
#[derive(Debug)]
pub struct Container {
    pub requests: Vec<(String, String)>,
    pub limits: Vec<(String, String)>,
}

pub struct ContainerView {
    pub requests: Seq<(Seq<char>, Seq<char>)>,
    pub limits: Seq<(Seq<char>, Seq<char>)>,
}

impl View for Container {
    type V = ContainerView;

    open spec fn view(&self) -> ContainerView {
        ContainerView {
            requests: entries_view(self.requests@),
            limits: entries_view(self.limits@),
        }
    }
}

/// The parts of a pod the mutation strategies look at.
#[derive(Debug)]
pub struct Pod {
    /// The object's name, for error messages.
    pub name: String,
    /// The namespace the object lives in, when the request names one.
    pub namespace: Option<String>,
    /// The pod's labels; absent labels arrive as the empty list.
    pub labels: Vec<(String, String)>,
    /// The pod's annotations; `None` when the document has no annotations
    /// map at all, so the webhook knows to create it.
    pub annotations: Option<Vec<(String, String)>>,
    /// The containers of the pod spec, in document order.
    pub containers: Vec<Container>,
}

pub struct PodView {
    pub name: Seq<char>,
    pub namespace: Option<Seq<char>>,
    pub labels: Seq<(Seq<char>, Seq<char>)>,
    pub annotations: Option<Seq<(Seq<char>, Seq<char>)>>,
    pub containers: Seq<ContainerView>,
}

impl View for Pod {
    type V = PodView;

    open spec fn view(&self) -> PodView {
        PodView {
            name: self.name@,
            namespace: match self.namespace {
                Some(ref n) => Some(n@),
                None => None,
            },
            labels: entries_view(self.labels@),
            annotations: match self.annotations {
                Some(ref a) => Some(entries_view(a@)),
                None => None,
            },
            containers: self.containers@.map_values(|c: Container| c@),
        }
    }
}

} // verus!
