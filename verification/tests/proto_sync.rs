use spicedb_rs_client::proto_sync::{
    absolute_path, check_api_checkout, choose_api_source, is_proto_file, plan_module_export, required_deps,
    sanitize_for_path, ApiSource, BufDependency, BufLock, RequiredDep, SyncError,
};

fn dep(name: &str, commit: &str) -> BufDependency {
    BufDependency { name: name.to_string(), commit: commit.to_string() }
}

#[test]
fn sanitize_replaces_separators() {
    assert_eq!(
        sanitize_for_path("buf.build/googleapis/googleapis"),
        "buf.build_googleapis_googleapis"
    );
    assert_eq!(sanitize_for_path("a\\b/c"), "a_b_c");
    assert_eq!(sanitize_for_path(""), "");
    assert_eq!(sanitize_for_path("plain"), "plain");
}

#[test]
fn sanitize_is_idempotent() {
    let once = sanitize_for_path("x/y\\z");
    assert_eq!(sanitize_for_path(&once), once);
}

#[test]
fn absolute_path_joins_relative_paths() {
    assert_eq!(absolute_path("/ws", "crates/proto"), "/ws/crates/proto");
    assert_eq!(absolute_path("/ws/", "a"), "/ws/a");
    assert_eq!(absolute_path("", "a"), "a");
    assert_eq!(absolute_path("/ws", ""), "/ws/");
    assert_eq!(absolute_path("rel", "x"), "rel/x");
}

#[test]
fn absolute_path_keeps_absolute_paths() {
    assert_eq!(absolute_path("/ws", "/opt/api"), "/opt/api");
    let joined = std::path::Path::new("/ws").join("/opt/api");
    assert_eq!(joined.to_str(), Some("/opt/api"));
}

#[test]
fn absolute_path_agrees_with_path_join() {
    for (root, path) in [("/ws", "a/b"), ("/ws/", "a"), ("", "a"), ("/ws", "/x"), ("/ws", "")] {
        let expected = std::path::Path::new(root).join(path);
        assert_eq!(Some(absolute_path(root, path).as_str()), expected.to_str());
    }
}

#[test]
fn lock_lookup_finds_last_entry() {
    let lock = BufLock {
        deps: vec![dep("m/a", "1"), dep("m/b", "2"), dep("m/a", "3")],
    };
    assert_eq!(lock.get("m/a").map(|d| d.commit.as_str()), Some("3"));
    assert_eq!(lock.get("m/b").map(|d| d.commit.as_str()), Some("2"));
    assert!(lock.get("m/c").is_none());
    assert!(BufLock { deps: vec![] }.get("m/a").is_none());
}

#[test]
fn required_deps_are_the_four_modules() {
    let deps = required_deps();
    let listed: Vec<(String, Vec<String>)> =
        deps.into_iter().map(|d| (d.module, d.paths)).collect();
    assert_eq!(
        listed,
        vec![
            (
                "buf.build/googleapis/googleapis".to_string(),
                vec!["google/api".to_string(), "google/rpc".to_string()]
            ),
            ("buf.build/bufbuild/protovalidate".to_string(), vec!["buf/validate".to_string()]),
            (
                "buf.build/envoyproxy/protoc-gen-validate".to_string(),
                vec!["validate".to_string()]
            ),
            (
                "buf.build/grpc-ecosystem/grpc-gateway".to_string(),
                vec!["protoc-gen-openapiv2/options".to_string()]
            ),
        ]
    );
}

#[test]
fn module_export_uses_locked_commit() {
    let lock = BufLock {
        deps: vec![dep("buf.build/googleapis/googleapis", "abc123"), dep("other/x", "9")],
    };
    let required = RequiredDep {
        module: "buf.build/googleapis/googleapis".to_string(),
        paths: vec!["google/api".to_string(), "google/rpc".to_string()],
    };
    let export = plan_module_export(&lock, &required).expect("module is locked");
    assert_eq!(export.module_ref, "buf.build/googleapis/googleapis:abc123");
    assert_eq!(export.output_dir, "buf.build_googleapis_googleapis");
    assert_eq!(export.paths, vec!["google/api".to_string(), "google/rpc".to_string()]);
}

#[test]
fn module_export_fails_for_unlocked_module() {
    let lock = BufLock { deps: vec![dep("other/x", "9")] };
    let required = RequiredDep { module: "buf.build/a/b".to_string(), paths: vec![] };
    assert_eq!(
        plan_module_export(&lock, &required).map(|e| e.module_ref),
        Err(SyncError::DependencyNotFound { module: "buf.build/a/b".to_string() })
    );
}

#[test]
fn local_checkout_overrides_clone() {
    let source = choose_api_source(Some("/api"), "repo".to_string(), "ref".to_string());
    assert_eq!(source, ApiSource::Local("/api"));
    let source = choose_api_source(None::<&str>, "repo".to_string(), "v1.53.0".to_string());
    assert_eq!(
        source,
        ApiSource::Clone { repo: "repo".to_string(), git_ref: "v1.53.0".to_string() }
    );
}

#[test]
fn only_proto_files_are_copied() {
    assert!(is_proto_file(true, Some("proto")));
    assert!(!is_proto_file(false, Some("proto")));
    assert!(!is_proto_file(true, Some("yaml")));
    assert!(!is_proto_file(true, Some("PROTO")));
    assert!(!is_proto_file(true, None));
}

#[test]
fn api_checkout_needs_lockfile_then_definitions() {
    assert_eq!(check_api_checkout(true, true), Ok(()));
    assert_eq!(check_api_checkout(false, true), Err(SyncError::MissingLockfile));
    assert_eq!(check_api_checkout(false, false), Err(SyncError::MissingLockfile));
    assert_eq!(check_api_checkout(true, false), Err(SyncError::MissingAuthzedProtoDir));
}
