use kore_vault::discovery::DiscoveredContext;
use kore_vault::registry::{secs_to_stored, ClusterManager, FileRemoval, IsolatedCredential};

fn add(m: &mut ClusterManager, id: &str, context: &str, now: i64) {
    m.add_cluster_at(
        id.to_string(),
        format!("name-{}", id),
        context.to_string(),
        format!("/v/{}.yaml", id),
        None,
        None,
        "[]".to_string(),
        now,
    )
    .unwrap();
}

fn ids(m: &ClusterManager) -> Vec<String> {
    m.list_clusters().into_iter().map(|c| c.id).collect()
}

fn discovered(name: &str) -> DiscoveredContext {
    DiscoveredContext {
        context_name: name.to_string(),
        cluster_name: format!("{}-cluster", name),
        user_name: format!("{}-user", name),
        namespace: None,
        source_file: "/legacy/config".to_string(),
    }
}

fn isolated(id: &str) -> Option<IsolatedCredential> {
    Some(IsolatedCredential { id: id.to_string(), config_path: format!("/v/{}.yaml", id) })
}

#[test]
fn list_is_most_recently_used_first() {
    let mut m = ClusterManager::new("/v".to_string());
    add(&mut m, "A", "ctx-a", 10);
    add(&mut m, "B", "ctx-b", 20);
    assert_eq!(ids(&m), vec!["B".to_string(), "A".to_string()]);
}

#[test]
fn touch_moves_a_cluster_to_the_front() {
    let mut m = ClusterManager::new("/v".to_string());
    add(&mut m, "A", "ctx-a", 10);
    add(&mut m, "B", "ctx-b", 20);
    add(&mut m, "C", "ctx-c", 15);
    assert_eq!(ids(&m), vec!["B", "C", "A"]);
    m.update_last_accessed_at("A", 30);
    assert_eq!(ids(&m), vec!["A", "B", "C"]);
    assert_eq!(m.get_cluster("A").unwrap().last_accessed, 30);
    assert_eq!(m.get_cluster("A").unwrap().created_at, 10);
    m.update_last_accessed_at("missing", 40);
    assert_eq!(ids(&m), vec!["A", "B", "C"]);
}

#[test]
fn touch_now_moves_a_cluster_to_the_front() {
    let mut m = ClusterManager::new("/v".to_string());
    add(&mut m, "A", "ctx-a", 10);
    add(&mut m, "B", "ctx-b", 20);
    m.update_last_accessed("A").unwrap();
    assert_eq!(ids(&m), vec!["A", "B"]);
}

#[test]
fn update_tags_then_name_keeps_tags() {
    let mut m = ClusterManager::new("/v".to_string());
    add(&mut m, "A", "ctx-a", 10);
    m.update_cluster("A", None, None, None, Some(vec!["prod".to_string()])).unwrap();
    m.update_cluster("A", Some("x".to_string()), None, None, None).unwrap();
    let c = m.get_cluster("A").unwrap();
    assert_eq!(c.tags, "[\"prod\"]");
    assert_eq!(c.name, "x");
}

#[test]
fn update_distinguishes_clear_from_absent() {
    let mut m = ClusterManager::new("/v".to_string());
    m.add_cluster_at(
        "A".to_string(),
        "a".to_string(),
        "ctx-a".to_string(),
        "/v/A.yaml".to_string(),
        Some("icon".to_string()),
        Some("desc".to_string()),
        "[]".to_string(),
        1,
    )
    .unwrap();
    m.update_cluster("A", None, Some(None), None, None).unwrap();
    let c = m.get_cluster("A").unwrap();
    assert_eq!(c.icon, None);
    assert_eq!(c.description, Some("desc".to_string()));
    m.update_cluster("A", None, None, Some(Some("new".to_string())), None).unwrap();
    assert_eq!(m.get_cluster("A").unwrap().description, Some("new".to_string()));
}

#[test]
fn empty_update_changes_nothing() {
    let mut m = ClusterManager::new("/v".to_string());
    add(&mut m, "A", "ctx-a", 10);
    assert!(m.update_cluster("A", None, None, None, None).is_ok());
    assert!(m.update_cluster("missing", Some("y".to_string()), None, None, None).is_ok());
    let c = m.get_cluster("A").unwrap();
    assert_eq!(c.name, "name-A");
    assert_eq!(m.len(), 1);
}

#[test]
fn add_stamps_and_encodes() {
    let mut m = ClusterManager::new("/v".to_string());
    let c = m
        .add_cluster(
            "prod".to_string(),
            "prod-context".to_string(),
            "/v/x.yaml".to_string(),
            None,
            Some("main".to_string()),
            vec!["prod".to_string(), "eu".to_string()],
        )
        .unwrap();
    assert_eq!(c.tags, "[\"prod\",\"eu\"]");
    assert_eq!(c.created_at, c.last_accessed);
    assert!(c.created_at > 0);
    assert_eq!(c.id.len(), 36);
    let stored = m.get_cluster(&c.id).unwrap();
    assert_eq!(stored.name, "prod");
    assert_eq!(stored.context_name, "prod-context");
    assert_eq!(stored.description, Some("main".to_string()));
}

#[test]
fn duplicate_id_is_refused() {
    let mut m = ClusterManager::new("/v".to_string());
    add(&mut m, "A", "ctx-a", 10);
    let r = m.add_cluster_at(
        "A".to_string(),
        "other".to_string(),
        "ctx-other".to_string(),
        "/v/A2.yaml".to_string(),
        None,
        None,
        "[]".to_string(),
        11,
    );
    assert!(r.is_err());
    assert_eq!(m.len(), 1);
}

#[test]
fn delete_removes_row_and_tolerates_missing_file() {
    let mut m = ClusterManager::new("/v".to_string());
    add(&mut m, "A", "ctx-a", 10);
    add(&mut m, "B", "ctx-b", 20);
    assert_eq!(m.credential_path("A"), Some("/v/A.yaml".to_string()));
    assert!(m.delete_after_removal("A", FileRemoval::Removed).is_ok());
    assert!(m.get_cluster("A").is_none());
    assert!(m.delete_after_removal("B", FileRemoval::Missing).is_ok());
    assert!(m.get_cluster("B").is_none());
    assert_eq!(m.credential_path("zzz"), None);
    assert!(m.delete_after_removal("zzz", FileRemoval::Missing).is_ok());
    assert!(m.delete_cluster("zzz").is_ok());
    assert_eq!(m.len(), 0);
}

#[test]
fn failed_file_removal_keeps_the_row() {
    let mut m = ClusterManager::new("/v".to_string());
    add(&mut m, "A", "ctx-a", 10);
    let r = m.delete_after_removal("A", FileRemoval::Failed("busy".to_string()));
    assert_eq!(r, Err("Failed to delete config file: busy".to_string()));
    assert!(m.get_cluster("A").is_some());
}

#[test]
fn migrate_twice_adds_nothing_the_second_time() {
    let mut m = ClusterManager::new("/v".to_string());
    add(&mut m, "existing", "ctx-old", 5);
    let found = vec![discovered("ctx-old"), discovered("ctx-1"), discovered("ctx-2")];
    let first = m.migrate_legacy(&found, &vec![isolated("i0"), isolated("i1"), isolated("i2")], 100);
    assert_eq!(first, vec!["ctx-1".to_string(), "ctx-2".to_string()]);
    assert_eq!(m.len(), 3);
    let c = m.get_cluster("i1").unwrap();
    assert_eq!(c.name, "ctx-1");
    assert_eq!(c.tags, "[]");
    assert_eq!(c.config_path, "/v/i1.yaml");
    let second = m.migrate_legacy(&found, &vec![isolated("j0"), isolated("j1"), isolated("j2")], 200);
    assert!(second.is_empty());
    assert_eq!(m.len(), 3);
}

#[test]
fn migrate_skips_failures_without_stopping() {
    let mut m = ClusterManager::new("/v".to_string());
    let found = vec![discovered("bad"), discovered("good"), discovered("good")];
    let r = m.migrate_legacy(&found, &vec![None, isolated("g1"), isolated("g2")], 7);
    assert_eq!(r, vec!["good".to_string()]);
    assert!(m.has_context("good"));
    assert!(!m.has_context("bad"));
    assert!(m.get_cluster("g2").is_none());
}

#[test]
fn restored_rows_keep_their_times() {
    let mut m = ClusterManager::new("/v".to_string());
    let row = |id: &str, created: i64, used: i64| kore_vault::registry::Cluster {
        id: id.to_string(),
        name: id.to_string(),
        context_name: format!("ctx-{}", id),
        config_path: format!("/v/{}.yaml", id),
        icon: None,
        description: None,
        tags: "[]".to_string(),
        created_at: created,
        last_accessed: used,
    };
    m.restore_cluster(row("A", 1, 10)).unwrap();
    m.restore_cluster(row("B", 2, 30)).unwrap();
    m.restore_cluster(row("C", 3, 20)).unwrap();
    assert!(m.restore_cluster(row("A", 4, 40)).is_err());
    assert_eq!(ids(&m), vec!["B", "C", "A"]);
    assert_eq!(m.get_cluster("A").unwrap().created_at, 1);
}

#[test]
fn paths_outside_the_vault_are_refused() {
    let mut m = ClusterManager::new("/v".to_string());
    for bad in ["/elsewhere/a.yaml", "/v", "/v/../a.yaml", "relative.yaml", "/vault/a.yaml"] {
        let r = m.add_cluster_at(
            "A".to_string(),
            "a".to_string(),
            "ctx".to_string(),
            bad.to_string(),
            None,
            None,
            "[]".to_string(),
            1,
        );
        assert!(r.is_err(), "{}", bad);
    }
    assert_eq!(m.len(), 0);
    let found = vec![discovered("ctx-1")];
    let outside = vec![Some(IsolatedCredential { id: "i1".to_string(), config_path: "/tmp/i1.yaml".to_string() })];
    assert!(m.migrate_legacy(&found, &outside, 5).is_empty());
    assert_eq!(m.len(), 0);
}

#[test]
fn clock_readings_as_stored_times() {
    assert_eq!(secs_to_stored(Some(1_700_000_000)), Ok(1_700_000_000));
    assert_eq!(secs_to_stored(Some(i64::MAX as u64)), Ok(i64::MAX));
    assert!(secs_to_stored(Some(i64::MAX as u64 + 1)).is_err());
    assert!(secs_to_stored(None).is_err());
}
