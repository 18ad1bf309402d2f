use nbam::admission::{evaluate, BandwidthProps, Mode, Verdict};
use nbam::bandwidth::BandwidthMode;
use nbam::cache::{NamespaceCache, NamespaceMeta};
use nbam::patch::{PatchOp, PatchValue};
use nbam::pod::{Container, Pod};

fn kv(pairs: &[(&str, &str)]) -> Vec<(String, String)> {
    let mut out = Vec::new();
    for (k, v) in pairs {
        out.push((k.to_string(), v.to_string()));
    }
    out
}

fn bandwidth_mode(mode: BandwidthMode) -> Mode {
    Mode::Bandwidth(BandwidthProps {
        egress_bandwidth_resource_key: "networking.k8s.io/egress-bandwidth".to_string(),
        ingress_bandwidth_resource_key: "networking.k8s.io/ingress-bandwidth".to_string(),
        mode,
    })
}

#[test]
fn test_request_without_object_is_allowed_untouched() {
    let cache = NamespaceCache::new();
    let verdict = evaluate(&bandwidth_mode(BandwidthMode::Annotate), &cache, &None);
    assert_eq!(verdict, Verdict::Allow { patches: Vec::new() });
}

#[test]
fn test_bandwidth_mode_allows_with_patches() {
    let cache = NamespaceCache::new();
    let pod = Pod {
        name: "p".to_string(),
        namespace: Some("default".to_string()),
        labels: Vec::new(),
        annotations: Some(kv(&[("nba-admission", "true")])),
        containers: vec![Container {
            requests: kv(&[("networking.k8s.io/egress-bandwidth", "1Ki")]),
            limits: Vec::new(),
        }],
    };
    let verdict = evaluate(&bandwidth_mode(BandwidthMode::Annotate), &cache, &Some(pod));
    assert_eq!(
        verdict,
        Verdict::Allow {
            patches: vec![PatchOp::Add {
                path: "/metadata/annotations/kubernetes.io~1egress-request".to_string(),
                value: PatchValue::Text("1024".to_string()),
            }],
        }
    );
}

#[test]
fn test_scheduler_mode_denies_with_reason() {
    let cache = NamespaceCache::new();
    let pod = Pod {
        name: "p".to_string(),
        namespace: Some("ghost".to_string()),
        labels: Vec::new(),
        annotations: None,
        containers: Vec::new(),
    };
    let verdict = evaluate(&Mode::Scheduler, &cache, &Some(pod));
    assert_eq!(
        verdict,
        Verdict::Deny { reason: "namespace not found in cache: ghost".to_string() }
    );
}

#[test]
fn test_scheduler_mode_allows_from_namespace() {
    let mut cache = NamespaceCache::new();
    cache.upsert(
        "default".to_string(),
        NamespaceMeta { labels: Some(kv(&[("nbam-default-scheduler", "batch-sched")])) },
    );
    let pod = Pod {
        name: "p".to_string(),
        namespace: Some("default".to_string()),
        labels: Vec::new(),
        annotations: None,
        containers: Vec::new(),
    };
    let verdict = evaluate(&Mode::Scheduler, &cache, &Some(pod));
    assert_eq!(
        verdict,
        Verdict::Allow {
            patches: vec![PatchOp::Add {
                path: "/spec/schedulerName".to_string(),
                value: PatchValue::Text("batch-sched".to_string()),
            }],
        }
    );
}

#[test]
fn test_bandwidth_overflow_denies() {
    let cache = NamespaceCache::new();
    let huge = "99999999999999999999999999";
    let mut containers = Vec::new();
    let mut i: usize = 0;
    while i < 4 {
        containers.push(Container {
            requests: kv(&[("networking.k8s.io/egress-bandwidth", huge)]),
            limits: Vec::new(),
        });
        i += 1;
    }
    let pod = Pod {
        name: "p".to_string(),
        namespace: None,
        labels: Vec::new(),
        annotations: Some(kv(&[("nba-admission", "true")])),
        containers,
    };
    let verdict = evaluate(&bandwidth_mode(BandwidthMode::Annotate), &cache, &Some(pod));
    assert_eq!(
        verdict,
        Verdict::Deny { reason: "total bandwidth exceeds the representable range".to_string() }
    );
}
