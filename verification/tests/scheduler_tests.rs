use nbam::cache::{NamespaceCache, NamespaceMeta};
use nbam::patch::{PatchOp, PatchValue};
use nbam::pod::Pod;
use nbam::scheduler::{mutate_scheduler, SchedulerError};

fn kv(pairs: &[(&str, &str)]) -> Vec<(String, String)> {
    let mut out = Vec::new();
    for (k, v) in pairs {
        out.push((k.to_string(), v.to_string()));
    }
    out
}

fn pod(labels: &[(&str, &str)], namespace: Option<&str>) -> Pod {
    Pod {
        name: "worker".to_string(),
        namespace: namespace.map(|n| n.to_string()),
        labels: kv(labels),
        annotations: None,
        containers: Vec::new(),
    }
}

fn scheduler_patch(name: &str) -> Vec<PatchOp> {
    vec![PatchOp::Add {
        path: "/spec/schedulerName".to_string(),
        value: PatchValue::Text(name.to_string()),
    }]
}

#[test]
fn test_pod_label_resolves_without_cache() {
    // The pod's own label wins; an empty cache is never consulted.
    let p = pod(&[("nbam-default-scheduler", "fast-sched")], Some("default"));
    let cache = NamespaceCache::new();
    assert_eq!(mutate_scheduler(&p, &cache), Ok(scheduler_patch("fast-sched")));
}

#[test]
fn test_namespace_label_resolves_from_cache() {
    let p = pod(&[], Some("team-a"));
    let mut cache = NamespaceCache::new();
    cache.upsert(
        "team-a".to_string(),
        NamespaceMeta { labels: Some(kv(&[("nbam-default-scheduler", "ns-sched")])) },
    );
    assert_eq!(mutate_scheduler(&p, &cache), Ok(scheduler_patch("ns-sched")));
}

#[test]
fn test_missing_namespace_denies() {
    let p = pod(&[], None);
    let cache = NamespaceCache::new();
    assert_eq!(
        mutate_scheduler(&p, &cache),
        Err(SchedulerError::NamespaceMissing { pod_name: "worker".to_string() })
    );
}

#[test]
fn test_unknown_namespace_denies() {
    // A namespace the watch has not delivered yet is a hard error.
    let p = pod(&[], Some("team-b"));
    let cache = NamespaceCache::new();
    let r = mutate_scheduler(&p, &cache);
    assert_eq!(
        r,
        Err(SchedulerError::NamespaceNotFound { namespace: "team-b".to_string() })
    );
    assert_eq!(
        r.unwrap_err().message(),
        "namespace not found in cache: team-b".to_string()
    );
}

#[test]
fn test_namespace_without_labels_denies() {
    let p = pod(&[], Some("team-c"));
    let mut cache = NamespaceCache::new();
    cache.upsert("team-c".to_string(), NamespaceMeta { labels: None });
    assert_eq!(
        mutate_scheduler(&p, &cache),
        Err(SchedulerError::NoNamespaceLabels { namespace: "team-c".to_string() })
    );
}

#[test]
fn test_namespace_label_missing_denies() {
    let p = pod(&[], Some("team-d"));
    let mut cache = NamespaceCache::new();
    cache.upsert(
        "team-d".to_string(),
        NamespaceMeta { labels: Some(kv(&[("owner", "me")])) },
    );
    assert_eq!(
        mutate_scheduler(&p, &cache),
        Err(SchedulerError::LabelMissing { namespace: "team-d".to_string() })
    );
}

#[test]
fn test_cache_reflects_latest_event() {
    // A second event for the same namespace overwrites the first.
    let p = pod(&[], Some("team-e"));
    let mut cache = NamespaceCache::new();
    cache.upsert(
        "team-e".to_string(),
        NamespaceMeta { labels: Some(kv(&[("nbam-default-scheduler", "old-sched")])) },
    );
    cache.upsert(
        "team-e".to_string(),
        NamespaceMeta { labels: Some(kv(&[("nbam-default-scheduler", "new-sched")])) },
    );
    assert_eq!(mutate_scheduler(&p, &cache), Ok(scheduler_patch("new-sched")));
}

#[test]
fn test_cache_keeps_other_entries() {
    let mut cache = NamespaceCache::new();
    cache.upsert(
        "a".to_string(),
        NamespaceMeta { labels: Some(kv(&[("nbam-default-scheduler", "sched-a")])) },
    );
    cache.upsert(
        "b".to_string(),
        NamespaceMeta { labels: Some(kv(&[("nbam-default-scheduler", "sched-b")])) },
    );
    assert_eq!(
        mutate_scheduler(&pod(&[], Some("a")), &cache),
        Ok(scheduler_patch("sched-a"))
    );
    assert_eq!(
        mutate_scheduler(&pod(&[], Some("b")), &cache),
        Ok(scheduler_patch("sched-b"))
    );
}
