use nbam::bandwidth::{mutate_bandwidth, BandwidthError, BandwidthMode};
use nbam::patch::{PatchOp, PatchValue};
use nbam::pod::{Container, Pod};

fn kv(pairs: &[(&str, &str)]) -> Vec<(String, String)> {
    let mut out = Vec::new();
    for (k, v) in pairs {
        out.push((k.to_string(), v.to_string()));
    }
    out
}

fn container(requests: &[(&str, &str)], limits: &[(&str, &str)]) -> Container {
    Container { requests: kv(requests), limits: kv(limits) }
}

/// A pod already carrying the processed marker, so no bookkeeping patches
/// distract from the operations under test.
fn marked_pod(containers: Vec<Container>) -> Pod {
    Pod {
        name: "test-pod".to_string(),
        namespace: Some("default".to_string()),
        labels: Vec::new(),
        annotations: Some(kv(&[("nba-admission", "true")])),
        containers,
    }
}

fn egress_key() -> String {
    "networking.k8s.io/egress-bandwidth".to_string()
}

fn ingress_key() -> String {
    "networking.k8s.io/ingress-bandwidth".to_string()
}

fn add_text(path: &str, value: &str) -> PatchOp {
    PatchOp::Add { path: path.to_string(), value: PatchValue::Text(value.to_string()) }
}

#[test]
fn test_annotate_sums_egress_requests() {
    // Two containers requesting 1Ki and 2Ki egress, no limits: annotate
    // mode emits exactly one Add with the pod-level total 3072.
    let pod = marked_pod(vec![
        container(&[("networking.k8s.io/egress-bandwidth", "1Ki")], &[]),
        container(&[("networking.k8s.io/egress-bandwidth", "2Ki")], &[]),
    ]);
    let patches =
        mutate_bandwidth(&pod, &egress_key(), &ingress_key(), BandwidthMode::Annotate).unwrap();
    assert_eq!(
        patches,
        vec![add_text(
            "/metadata/annotations/kubernetes.io~1egress-request",
            "3072"
        )]
    );
}

#[test]
fn test_strip_removes_per_container_fields_and_keeps_totals() {
    let pod = marked_pod(vec![
        container(&[("networking.k8s.io/egress-bandwidth", "1Ki")], &[]),
        container(&[("networking.k8s.io/egress-bandwidth", "2Ki")], &[]),
    ]);
    let patches =
        mutate_bandwidth(&pod, &egress_key(), &ingress_key(), BandwidthMode::Strip).unwrap();
    assert_eq!(
        patches,
        vec![
            PatchOp::Remove {
                path: "/spec/containers/0/resources/requests/networking.k8s.io~1egress-bandwidth"
                    .to_string(),
            },
            PatchOp::Remove {
                path: "/spec/containers/1/resources/requests/networking.k8s.io~1egress-bandwidth"
                    .to_string(),
            },
            add_text("/metadata/annotations/kubernetes.io~1egress-request", "3072"),
        ]
    );
}

#[test]
fn test_overwrite_copies_requests_over_limits() {
    // Egress present on both sides: one copy. Ingress absent: none.
    let pod = marked_pod(vec![container(
        &[("networking.k8s.io/egress-bandwidth", "1Mi")],
        &[("networking.k8s.io/egress-bandwidth", "2Mi")],
    )]);
    let patches =
        mutate_bandwidth(&pod, &egress_key(), &ingress_key(), BandwidthMode::Overwrite).unwrap();
    assert_eq!(
        patches,
        vec![
            PatchOp::Copy {
                from: "/spec/containers/0/resources/requests/networking.k8s.io~1egress-bandwidth"
                    .to_string(),
                path: "/spec/containers/0/resources/limits/networking.k8s.io~1egress-bandwidth"
                    .to_string(),
            },
            add_text("/metadata/annotations/kubernetes.io~1egress-request", "1048576"),
            add_text("/metadata/annotations/kubernetes.io~1egress-bandwidth", "2097152"),
        ]
    );
}

#[test]
fn test_overwrite_needs_both_sides() {
    // A request without a matching limit emits no copy.
    let pod = marked_pod(vec![container(
        &[("networking.k8s.io/egress-bandwidth", "1Mi")],
        &[],
    )]);
    let patches =
        mutate_bandwidth(&pod, &egress_key(), &ingress_key(), BandwidthMode::Overwrite).unwrap();
    assert_eq!(
        patches,
        vec![add_text(
            "/metadata/annotations/kubernetes.io~1egress-request",
            "1048576"
        )]
    );
}

#[test]
fn test_bookkeeping_creates_annotations_map() {
    // A pod with no annotations map at all: the map is created, then the
    // marker set.
    let pod = Pod {
        name: "bare".to_string(),
        namespace: None,
        labels: Vec::new(),
        annotations: None,
        containers: Vec::new(),
    };
    let patches =
        mutate_bandwidth(&pod, &egress_key(), &ingress_key(), BandwidthMode::Annotate).unwrap();
    assert_eq!(
        patches,
        vec![
            PatchOp::Add {
                path: "/metadata/annotations".to_string(),
                value: PatchValue::EmptyObject,
            },
            add_text("/metadata/annotations/nba-admission", "true"),
        ]
    );
}

#[test]
fn test_bookkeeping_marker_only_when_map_exists() {
    let pod = Pod {
        name: "bare".to_string(),
        namespace: None,
        labels: Vec::new(),
        annotations: Some(kv(&[("owner", "team-a")])),
        containers: Vec::new(),
    };
    let patches =
        mutate_bandwidth(&pod, &egress_key(), &ingress_key(), BandwidthMode::Annotate).unwrap();
    assert_eq!(
        patches,
        vec![add_text("/metadata/annotations/nba-admission", "true")]
    );
}

#[test]
fn test_unparsable_quantity_counts_as_absent() {
    // A bogus value neither fails the request nor contributes to totals.
    let pod = marked_pod(vec![
        container(&[("networking.k8s.io/egress-bandwidth", "wat")], &[]),
        container(&[("networking.k8s.io/egress-bandwidth", "1Ki")], &[]),
    ]);
    let patches =
        mutate_bandwidth(&pod, &egress_key(), &ingress_key(), BandwidthMode::Strip).unwrap();
    assert_eq!(
        patches,
        vec![
            PatchOp::Remove {
                path: "/spec/containers/1/resources/requests/networking.k8s.io~1egress-bandwidth"
                    .to_string(),
            },
            add_text("/metadata/annotations/kubernetes.io~1egress-request", "1024"),
        ]
    );
}

#[test]
fn test_fractional_totals() {
    // 500m + 250m = 0.75, published as a plain decimal.
    let pod = marked_pod(vec![
        container(&[("networking.k8s.io/egress-bandwidth", "500m")], &[]),
        container(&[("networking.k8s.io/egress-bandwidth", "250m")], &[]),
    ]);
    let patches =
        mutate_bandwidth(&pod, &egress_key(), &ingress_key(), BandwidthMode::Annotate).unwrap();
    assert_eq!(
        patches,
        vec![add_text(
            "/metadata/annotations/kubernetes.io~1egress-request",
            "0.75"
        )]
    );
}

#[test]
fn test_all_four_totals_in_order() {
    let pod = marked_pod(vec![container(
        &[
            ("networking.k8s.io/egress-bandwidth", "1Ki"),
            ("networking.k8s.io/ingress-bandwidth", "2Ki"),
        ],
        &[
            ("networking.k8s.io/egress-bandwidth", "3Ki"),
            ("networking.k8s.io/ingress-bandwidth", "4Ki"),
        ],
    )]);
    let patches =
        mutate_bandwidth(&pod, &egress_key(), &ingress_key(), BandwidthMode::Annotate).unwrap();
    assert_eq!(
        patches,
        vec![
            add_text("/metadata/annotations/kubernetes.io~1egress-request", "1024"),
            add_text("/metadata/annotations/kubernetes.io~1ingress-request", "2048"),
            add_text("/metadata/annotations/kubernetes.io~1egress-bandwidth", "3072"),
            add_text("/metadata/annotations/kubernetes.io~1ingress-bandwidth", "4096"),
        ]
    );
}

#[test]
fn test_total_overflow_is_an_error() {
    // Four containers near the mantissa bound push the running total past
    // the machine range the engine sums in.
    let huge = "99999999999999999999999999";
    let pod = marked_pod(vec![
        container(&[("networking.k8s.io/egress-bandwidth", huge)], &[]),
        container(&[("networking.k8s.io/egress-bandwidth", huge)], &[]),
        container(&[("networking.k8s.io/egress-bandwidth", huge)], &[]),
        container(&[("networking.k8s.io/egress-bandwidth", huge)], &[]),
    ]);
    let r = mutate_bandwidth(&pod, &egress_key(), &ingress_key(), BandwidthMode::Annotate);
    assert_eq!(r, Err(BandwidthError::TotalOverflow));
}

#[test]
fn test_escaped_key_in_paths() {
    // A key with reserved characters lands escaped in the patch path.
    let pod = marked_pod(vec![container(&[("net/e~b", "1Ki")], &[])]);
    let patches = mutate_bandwidth(
        &pod,
        &"net/e~b".to_string(),
        &ingress_key(),
        BandwidthMode::Strip,
    )
    .unwrap();
    assert_eq!(
        patches,
        vec![
            PatchOp::Remove {
                path: "/spec/containers/0/resources/requests/net~1e~0b".to_string(),
            },
            add_text("/metadata/annotations/kubernetes.io~1egress-request", "1024"),
        ]
    );
}
