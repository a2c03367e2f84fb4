use std::collections::HashMap;

use kore_vault::discovery::{DirEntryInfo, DiscoveredContext, FolderScan, MAX_DISCOVERY_DEPTH};
use kore_vault::kubeconfig::{current_context_of, discover_contexts_in_file, extract_context, ImportFailure};

fn test_kubeconfig(contexts: &[(&str, &str, &str)]) -> String {
    let mut s = String::new();
    s.push_str("apiVersion: v1\n");
    s.push_str("kind: Config\n");
    s.push_str(&format!("current-context: {}\n", contexts[0].0));
    s.push_str("clusters:\n");
    for (_, cluster_name, _) in contexts {
        s.push_str(&format!("- name: {}\n  cluster:\n    server: https://example.com\n", cluster_name));
    }
    s.push_str("users:\n");
    for (_, _, user_name) in contexts {
        s.push_str(&format!("- name: {}\n  user:\n    token: test-token\n", user_name));
    }
    s.push_str("contexts:\n");
    for (context_name, cluster_name, user_name) in contexts {
        s.push_str(&format!(
            "- name: {}\n  context:\n    cluster: {}\n    user: {}\n",
            context_name, cluster_name, user_name
        ));
    }
    s
}

/// An in-memory directory tree standing in for the filesystem.
enum Node {
    Dir(Vec<(String, Node)>),
    File(String),
    Link,
}

fn dir(children: Vec<(&str, Node)>) -> Node {
    Node::Dir(children.into_iter().map(|(n, c)| (n.to_string(), c)).collect())
}

fn index<'a>(path: &str, node: &'a Node, out: &mut HashMap<String, &'a Node>) {
    out.insert(path.to_string(), node);
    if let Node::Dir(children) = node {
        for (name, child) in children {
            index(&format!("{}/{}", path, name), child, out);
        }
    }
}

/// Runs a folder scan over the tree, as the application runs it over disk.
fn scan(root: &Node) -> Vec<DiscoveredContext> {
    let mut nodes = HashMap::new();
    index("/scan", root, &mut nodes);
    let mut found = Vec::new();
    let mut walk = FolderScan::new("/scan".to_string());
    while let Some(d) = walk.next_dir() {
        let entries: Vec<DirEntryInfo> = match nodes[&d.path] {
            Node::Dir(children) => children
                .iter()
                .map(|(name, child)| DirEntryInfo {
                    name: name.clone(),
                    path: format!("{}/{}", d.path, name),
                    is_symlink: matches!(child, Node::Link),
                    is_dir: matches!(child, Node::Dir(_)),
                    is_file: matches!(child, Node::File(_)),
                })
                .collect(),
            _ => Vec::new(),
        };
        for file in walk.visit(d.depth, &entries) {
            if let Node::File(text) = nodes[&file] {
                if let Ok(contexts) = discover_contexts_in_file(&file, text) {
                    found.extend(contexts);
                }
            }
        }
    }
    found
}

fn config_file(contexts: &[(&str, &str, &str)]) -> Node {
    Node::File(test_kubeconfig(contexts))
}

#[test]
fn test_discover_contexts_in_file() {
    let text = test_kubeconfig(&[
        ("prod-context", "prod-cluster", "prod-user"),
        ("dev-context", "dev-cluster", "dev-user"),
    ]);
    let contexts = discover_contexts_in_file("config", &text).unwrap();

    assert_eq!(contexts.len(), 2);
    assert_eq!(contexts[0].context_name, "prod-context");
    assert_eq!(contexts[0].cluster_name, "prod-cluster");
    assert_eq!(contexts[1].context_name, "dev-context");
    assert_eq!(contexts[1].cluster_name, "dev-cluster");
    assert_eq!(contexts[0].user_name, "prod-user");
    assert_eq!(contexts[0].source_file, "config");
}

#[test]
fn test_discover_contexts_in_folder() {
    let root = dir(vec![
        ("config1", config_file(&[("ctx1", "cluster1", "user1")])),
        ("config2", config_file(&[("ctx2", "cluster2", "user2")])),
        ("subdir", dir(vec![("config3", config_file(&[("ctx3", "cluster3", "user3")]))])),
    ]);
    let contexts = scan(&root);

    assert_eq!(contexts.len(), 3);
    assert!(contexts.iter().any(|c| c.context_name == "ctx1"));
    assert!(contexts.iter().any(|c| c.context_name == "ctx2"));
    assert!(contexts.iter().any(|c| c.context_name == "ctx3"));
}

#[test]
fn test_extract_context() {
    let text = test_kubeconfig(&[
        ("prod-context", "prod-cluster", "prod-user"),
        ("dev-context", "dev-cluster", "dev-user"),
    ]);
    let result = discover_contexts_in_file("config", &text);
    assert!(result.is_ok());
    let contexts = result.unwrap();
    assert!(contexts.iter().any(|c| c.context_name == "prod-context"));
}

#[test]
fn test_invalid_kubeconfig() {
    let result = discover_contexts_in_file("invalid.yaml", "invalid: yaml: content:\n");
    assert!(result.is_err());
    assert_eq!(result.unwrap_err().kind, ImportFailure::Parse);
}

#[test]
fn test_empty_folder() {
    let contexts = scan(&dir(vec![]));
    assert_eq!(contexts.len(), 0);
}

#[test]
fn test_discover_contexts_respects_max_depth() {
    let mut deepest = dir(vec![
        ("within-limit.yaml", config_file(&[("ctx-within", "c1", "u1")])),
        ("too-deep", dir(vec![("too-deep.yaml", config_file(&[("ctx-too-deep", "c2", "u2")]))])),
    ]);
    for i in (0..MAX_DISCOVERY_DEPTH).rev() {
        let name = format!("level-{}", i);
        deepest = Node::Dir(vec![(name, deepest)]);
    }
    let contexts = scan(&deepest);
    assert!(contexts.iter().any(|c| c.context_name == "ctx-within"));
    assert!(!contexts.iter().any(|c| c.context_name == "ctx-too-deep"));
}

#[test]
fn test_discover_contexts_skips_symlink_dirs() {
    let root = dir(vec![(
        "real",
        dir(vec![
            ("real.yaml", config_file(&[("ctx-real", "c1", "u1")])),
            ("link", Node::Link),
        ]),
    )]);
    let contexts = scan(&root);
    assert!(contexts.iter().any(|c| c.context_name == "ctx-real"));
    assert!(!contexts.iter().any(|c| c.context_name == "ctx-via-symlink"));
}

#[test]
fn hidden_and_dependency_dirs_are_skipped() {
    let root = dir(vec![
        (".git", dir(vec![("config", config_file(&[("ctx-hidden", "c", "u")]))])),
        ("node_modules", dir(vec![("config", config_file(&[("ctx-deps", "c", "u")]))])),
        ("notes.txt", Node::File("just some notes".to_string())),
        ("ok", config_file(&[("ctx-ok", "c", "u")])),
    ]);
    let names: Vec<String> = scan(&root).into_iter().map(|c| c.context_name).collect();
    assert_eq!(names, vec!["ctx-ok".to_string()]);
}

#[test]
fn extracted_document_holds_one_context() {
    let text = test_kubeconfig(&[
        ("prod-context", "prod-cluster", "prod-user"),
        ("dev-context", "dev-cluster", "dev-user"),
    ]);
    let x = extract_context(&text, "dev-context", "c0ffee", "/v").unwrap();
    assert_eq!(x.config_path, "/v/c0ffee.yaml");
    let again = discover_contexts_in_file(&x.config_path, &x.yaml).unwrap();
    assert_eq!(again.len(), 1);
    assert_eq!(again[0].context_name, "dev-context");
    assert_eq!(again[0].cluster_name, "dev-cluster");
    assert_eq!(again[0].user_name, "dev-user");
    assert!(x.yaml.contains("current-context: dev-context"));
    assert!(!x.yaml.contains("prod-cluster"));
    assert!(!x.yaml.contains("prod-user"));
}

#[test]
fn extract_reports_missing_links() {
    let text = test_kubeconfig(&[("a", "cluster-a", "user-a")]);
    let e = extract_context(&text, "nope", "id1", "/v").unwrap_err();
    assert_eq!(e.kind, ImportFailure::ContextNotFound);

    let dangling_cluster = "clusters: []\nusers:\n- name: u\n  user:\n    token: t\ncontexts:\n- name: x\n  context:\n    cluster: gone\n    user: u\n";
    let e = extract_context(dangling_cluster, "x", "id1", "/v").unwrap_err();
    assert_eq!(e.kind, ImportFailure::ClusterNotFound);

    let dangling_user = "clusters:\n- name: c\n  cluster:\n    server: https://e\nusers: []\ncontexts:\n- name: x\n  context:\n    cluster: c\n    user: gone\n";
    let e = extract_context(dangling_user, "x", "id1", "/v").unwrap_err();
    assert_eq!(e.kind, ImportFailure::UserNotFound);

    let no_user = "clusters:\n- name: c\n  cluster:\n    server: https://e\nusers: []\ncontexts:\n- name: x\n  context:\n    cluster: c\n";
    let e = extract_context(no_user, "x", "id1", "/v").unwrap_err();
    assert_eq!(e.kind, ImportFailure::ContextWithoutUser);

    let e = extract_context("invalid: yaml: content:\n", "x", "id1", "/v").unwrap_err();
    assert_eq!(e.kind, ImportFailure::Parse);
}

#[test]
fn extract_refuses_an_id_that_is_no_file_name() {
    let text = test_kubeconfig(&[("a", "cluster-a", "user-a")]);
    let e = extract_context(&text, "a", "../escape", "/v").unwrap_err();
    assert_eq!(e.kind, ImportFailure::InvalidClusterId);
}

#[test]
fn session_context_is_the_current_one() {
    let text = test_kubeconfig(&[("first", "c1", "u1"), ("second", "c2", "u2")]);
    assert_eq!(current_context_of("f", &text).unwrap(), "first");
    let x = extract_context(&text, "second", "id2", "/v").unwrap();
    assert_eq!(current_context_of(&x.config_path, &x.yaml).unwrap(), "second");
    let none = "clusters: []\nusers: []\ncontexts: []\n";
    assert_eq!(current_context_of("f", none).unwrap_err().kind, ImportFailure::NoCurrentContext);
    assert_eq!(current_context_of("f", "invalid: yaml: content:\n").unwrap_err().kind, ImportFailure::Parse);
}
