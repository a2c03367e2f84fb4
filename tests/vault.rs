use kore_vault::paths::{
    check_canonical, credential_file_path, hardening_result, join, kubeconfigs_dir_in,
    legacy_import_name, validate_import_source, validate_kubeconfig_path, ChmodOutcome,
    ResolvedPath, SourceProbe, VaultError,
};

const VAULT: &str = "/home/user/.rustylens/kubeconfigs";

fn created(parent: &str, file_name: &str) -> ResolvedPath {
    ResolvedPath::Created { parent: parent.to_string(), file_name: file_name.to_string() }
}

#[test]
fn validate_kubeconfig_path_rejects_parent_traversal() {
    // `<vault>/../outside-config.yaml` does not exist; its parent
    // `<vault>/..` resolves to the application directory.
    let candidate = created("/home/user/.rustylens", "outside-config.yaml");
    let err = validate_kubeconfig_path(VAULT, &candidate).unwrap_err();
    assert!(err.message().contains("Path traversal detected"));
}

#[test]
fn validate_import_source_rejects_directory() {
    let probe = SourceProbe {
        exists: true,
        is_file: false,
        canonical: Ok(VAULT.to_string()),
        unreadable: None,
    };
    let err = validate_import_source(&probe).unwrap_err();
    assert!(err.message().contains("not a file"));
}

#[test]
fn validate_kubeconfig_path_rejects_symlink_escape() {
    // A link inside the vault whose target lies in the temp directory
    // resolves to that target.
    let candidate = ResolvedPath::Existing("/tmp/kore-security-outside.yaml".to_string());
    let err = validate_kubeconfig_path(VAULT, &candidate).unwrap_err();
    assert!(err.message().contains("Path traversal detected"));
}

#[test]
fn traversal_out_of_root_is_refused() {
    // `/v/../outside.yaml`: its parent `/v/..` resolves to `/`.
    let r = validate_kubeconfig_path("/v", &created("/", "outside.yaml"));
    assert_eq!(r, Err(VaultError::PathTraversal("/v".to_string())));
}

#[test]
fn new_file_inside_root_is_admitted() {
    let r = validate_kubeconfig_path("/v", &created("/v", "abc.yaml"));
    assert_eq!(r, Ok("/v/abc.yaml".to_string()));
    let r = validate_kubeconfig_path("/v", &created("/v/sub", "abc.yaml"));
    assert_eq!(r, Ok("/v/sub/abc.yaml".to_string()));
}

#[test]
fn existing_file_inside_root_is_admitted() {
    let r = validate_kubeconfig_path("/v", &ResolvedPath::Existing("/v/a.yaml".to_string()));
    assert_eq!(r, Ok("/v/a.yaml".to_string()));
}

#[test]
fn root_itself_is_not_strictly_inside() {
    let r = validate_kubeconfig_path("/v", &ResolvedPath::Existing("/v".to_string()));
    assert!(matches!(r, Err(VaultError::PathTraversal(_))));
}

#[test]
fn sibling_with_common_prefix_is_refused() {
    let r = validate_kubeconfig_path("/v", &ResolvedPath::Existing("/vault/a.yaml".to_string()));
    assert!(matches!(r, Err(VaultError::PathTraversal(_))));
}

#[test]
fn unresolved_dot_dot_is_refused() {
    let r = validate_kubeconfig_path(
        "/v",
        &ResolvedPath::Existing("/v/../outside.yaml".to_string()),
    );
    assert!(matches!(r, Err(VaultError::NotCanonical(_))));
}

#[test]
fn file_name_must_be_plain() {
    for bad in ["", ".", "..", "a/b"] {
        let r = validate_kubeconfig_path("/v", &created("/v", bad));
        assert!(matches!(r, Err(VaultError::InvalidFileName(_))), "{:?}", bad);
    }
}

#[test]
fn canonical_forms() {
    assert!(check_canonical("/"));
    assert!(check_canonical("/a/b.yaml"));
    assert!(check_canonical("/a/.hidden"));
    assert!(!check_canonical("a/b"));
    assert!(!check_canonical("/a//b"));
    assert!(!check_canonical("/a/./b"));
    assert!(!check_canonical("/a/.."));
    assert!(!check_canonical("/a/"));
    assert!(!check_canonical(""));
}

#[test]
fn import_source_checks_in_order() {
    let missing = SourceProbe { exists: false, is_file: false, canonical: Err("x".to_string()), unreadable: None };
    assert_eq!(validate_import_source(&missing), Err(VaultError::SourceMissing));
    let unresolved = SourceProbe { exists: true, is_file: true, canonical: Err("loop".to_string()), unreadable: None };
    assert_eq!(validate_import_source(&unresolved), Err(VaultError::SourceUnresolved("loop".to_string())));
    let unreadable = SourceProbe { exists: true, is_file: true, canonical: Ok("/a".to_string()), unreadable: Some("denied".to_string()) };
    assert_eq!(validate_import_source(&unreadable), Err(VaultError::SourceUnreadable("denied".to_string())));
    let ok = SourceProbe { exists: true, is_file: true, canonical: Ok("/a/config".to_string()), unreadable: None };
    assert_eq!(validate_import_source(&ok), Ok("/a/config".to_string()));
}

#[test]
fn permission_denied_is_tolerated() {
    assert!(hardening_result(ChmodOutcome::Done).is_ok());
    assert!(hardening_result(ChmodOutcome::Denied).is_ok());
    let err = hardening_result(ChmodOutcome::Failed("read-only filesystem".to_string())).unwrap_err();
    assert_eq!(err, VaultError::PermissionHardening("read-only filesystem".to_string()));
}

#[test]
fn vault_layout() {
    assert_eq!(join("/a", "b"), "/a/b");
    assert_eq!(join("/a/", "b"), "/a/b");
    assert_eq!(kubeconfigs_dir_in("/home/u/.rustylens"), "/home/u/.rustylens/kubeconfigs");
    assert_eq!(credential_file_path("/v", "1234"), "/v/1234.yaml");
    assert_eq!(legacy_import_name("config", "1700000000"), "config_1700000000");
}
