use spicedb_rs_client::version::{
    find_manifest_version, normalize_version, plan_version_bump, BumpError, VersionBump,
};

const WORKSPACE: &str = "[workspace]\nmembers = [\"crates/*\", \"xtask\"]\nresolver = \"2\"\n\n[workspace.package]\nversion = \"1.53.0\"\nedition = \"2024\"\nrust-version = \"1.85\"\n\n[workspace.dependencies]\nspicedb-rs-proto = { path = \"crates/spicedb-rs-proto\", version = \"1.53.0\" }\nspicedb-rs-client = { path = \"crates/spicedb-rs-client\", version = \"1.53.0\" }\n";

#[test]
fn normalize_trims_and_strips_leading_v() {
    assert_eq!(normalize_version("  v1.2.3 \n"), Ok("1.2.3".to_string()));
    assert_eq!(normalize_version("vv1"), Ok("1".to_string()));
    assert_eq!(normalize_version("1.0v"), Ok("1.0v".to_string()));
    assert_eq!(normalize_version("v 1"), Ok(" 1".to_string()));
}

#[test]
fn normalize_refuses_empty_version() {
    assert_eq!(normalize_version(""), Err(BumpError::EmptyVersion));
    assert_eq!(normalize_version("  \t"), Err(BumpError::EmptyVersion));
    assert_eq!(normalize_version(" vvv "), Err(BumpError::EmptyVersion));
}

#[test]
fn current_version_is_first_version_line() {
    assert_eq!(find_manifest_version(WORKSPACE), Some("1.53.0".to_string()));
    assert_eq!(
        find_manifest_version("[package]\nversion=\"0.1.0\"\nversion = \"9\"\n"),
        Some("0.1.0".to_string())
    );
    assert_eq!(
        find_manifest_version("  version   =   \"\"2.0\"\"  \r\n"),
        Some("2.0".to_string())
    );
    assert_eq!(find_manifest_version("version = 3"), Some("3".to_string()));
}

#[test]
fn other_keys_are_not_versions() {
    assert_eq!(find_manifest_version("rust-version = \"1.85\"\n"), None);
    assert_eq!(find_manifest_version("version.workspace = true\n"), None);
    assert_eq!(find_manifest_version("versions = \"1\"\n"), None);
    assert_eq!(find_manifest_version(""), None);
    assert_eq!(find_manifest_version("\n\n"), None);
}

#[test]
fn bump_rewrites_every_assignment() {
    match plan_version_bump(WORKSPACE, "1.54.0") {
        Ok(VersionBump::Rewritten { previous, version, manifest, occurrences }) => {
            assert_eq!(previous, "1.53.0");
            assert_eq!(version, "1.54.0");
            assert_eq!(occurrences, 3);
            assert_eq!(manifest, WORKSPACE.replace("version = \"1.53.0\"", "version = \"1.54.0\""));
            assert!(manifest.contains("rust-version = \"1.85\""));
            assert_eq!(find_manifest_version(&manifest), Some("1.54.0".to_string()));
        }
        other => panic!("unexpected outcome: {other:?}"),
    }
}

#[test]
fn bump_to_current_version_changes_nothing() {
    match plan_version_bump(WORKSPACE, "1.53.0") {
        Ok(VersionBump::Unchanged { version }) => assert_eq!(version, "1.53.0"),
        other => panic!("unexpected outcome: {other:?}"),
    }
}

#[test]
fn bump_twice_is_unchanged_the_second_time() {
    let manifest = match plan_version_bump(WORKSPACE, "2.0.0") {
        Ok(VersionBump::Rewritten { manifest, .. }) => manifest,
        other => panic!("unexpected outcome: {other:?}"),
    };
    assert!(matches!(
        plan_version_bump(&manifest, "2.0.0"),
        Ok(VersionBump::Unchanged { .. })
    ));
}

#[test]
fn bump_without_version_line_fails() {
    assert!(matches!(
        plan_version_bump("[package]\nname = \"x\"\n", "1.0.0"),
        Err(BumpError::CurrentVersionNotFound)
    ));
}

#[test]
fn bump_without_exact_assignment_fails() {
    match plan_version_bump("version=\"1.0\"\n", "1.1") {
        Err(BumpError::AssignmentNotFound { assignment }) => {
            assert_eq!(assignment, "version = \"1.0\"")
        }
        other => panic!("unexpected outcome: {other:?}"),
    }
}

#[test]
fn bump_counts_non_overlapping_matches() {
    let manifest = "version = \"1\"\nx = 'version = \"1\"version = \"1\"'\n";
    match plan_version_bump(manifest, "22") {
        Ok(VersionBump::Rewritten { manifest: out, occurrences, .. }) => {
            assert_eq!(occurrences, 3);
            assert_eq!(out, manifest.replace("version = \"1\"", "version = \"22\""));
        }
        other => panic!("unexpected outcome: {other:?}"),
    }
}

#[test]
fn bump_back_restores_manifest() {
    let bumped = match plan_version_bump(WORKSPACE, "1.54.0") {
        Ok(VersionBump::Rewritten { manifest, .. }) => manifest,
        other => panic!("unexpected outcome: {other:?}"),
    };
    match plan_version_bump(&bumped, "1.53.0") {
        Ok(VersionBump::Rewritten { previous, manifest, occurrences, .. }) => {
            assert_eq!(previous, "1.54.0");
            assert_eq!(occurrences, 3);
            assert_eq!(manifest, WORKSPACE);
        }
        other => panic!("unexpected outcome: {other:?}"),
    }
}
