use rivus::fs_guard::{AtomicWriteFailure, AtomicWriteFailureKind, rvs_atomic_sibling_temp_name, rvs_format_atomic_write_path,
    rvs_is_atomic_sibling_temp_name, rvs_render_atomic_write_failure};

fn rvs_failure(kind: AtomicWriteFailureKind, cleanup_error: bool) -> AtomicWriteFailure {
    AtomicWriteFailure { kind, cleanup_error: if cleanup_error { Some("cleanup failed".to_string()) } else { None } }
}

fn rvs_io(path: &str, source: &str) -> (String, String) {
    (path.to_string(), source.to_string())
}

#[test]
fn test_atomic_write_failure_rendering_table() {
    let (p, s) = rvs_io("/workspace/output", "inspect failed");
    assert_eq!(
        rvs_render_atomic_write_failure(rvs_failure(AtomicWriteFailureKind::Inspect { path: p, source: s }, false), "/workspace/output", "temp file", false),
        "cannot inspect /workspace/output: inspect failed"
    );
    let (p, s) = rvs_io("/workspace/.output.tmp", "open failed");
    assert_eq!(
        rvs_render_atomic_write_failure(rvs_failure(AtomicWriteFailureKind::Open { path: p, source: s }, false), "/workspace/Cargo.toml", "temp file", true),
        "cannot create '/workspace/.output.tmp': open failed"
    );
    assert_eq!(
        rvs_render_atomic_write_failure(rvs_failure(AtomicWriteFailureKind::CreateExhausted, false), "/workspace/Cargo.toml", "temp file", true),
        "cannot create temp file for '/workspace/Cargo.toml': too many collisions"
    );
    assert_eq!(
        rvs_render_atomic_write_failure(rvs_failure(AtomicWriteFailureKind::CreateExhausted, false), "/workspace/caps/deps", "temp capsmap file", false),
        "cannot create temp capsmap file for /workspace/caps/deps: too many collisions"
    );
    let (p, s) = rvs_io("/workspace/.output.tmp", "write failed");
    assert_eq!(
        rvs_render_atomic_write_failure(rvs_failure(AtomicWriteFailureKind::Write { path: p, source: s }, false), "/workspace/output", "temp file", false),
        "cannot write /workspace/.output.tmp: write failed"
    );
    let (p, s) = rvs_io("/workspace/.output.tmp", "permission preservation failed");
    assert_eq!(
        rvs_render_atomic_write_failure(rvs_failure(AtomicWriteFailureKind::SetPermissions { path: p, source: s }, false), "/workspace/output", "temp file", false),
        "cannot preserve permissions on /workspace/.output.tmp: permission preservation failed"
    );
    let (p, s) = rvs_io("/workspace/.output.tmp", "sync failed");
    assert_eq!(
        rvs_render_atomic_write_failure(rvs_failure(AtomicWriteFailureKind::Sync { path: p, source: s }, false), "/workspace/output", "temp file", true),
        "cannot sync '/workspace/.output.tmp': sync failed"
    );
    let rename = || AtomicWriteFailureKind::Rename {
        temp_path: "/workspace/.output.tmp".to_string(),
        final_path: "/workspace/output".to_string(),
        source: "rename failed".to_string(),
    };
    assert_eq!(
        rvs_render_atomic_write_failure(rvs_failure(rename(), false), "/workspace/output", "temp file", false),
        "cannot rename /workspace/.output.tmp to /workspace/output: rename failed"
    );
    assert_eq!(
        rvs_render_atomic_write_failure(rvs_failure(rename(), true), "/workspace/output", "temp file", false),
        "cannot rename /workspace/.output.tmp to /workspace/output: rename failed; additionally cannot remove temp file: cleanup failed"
    );
}

#[test]
fn test_format_atomic_write_path_quotes_on_request() {
    assert_eq!(rvs_format_atomic_write_path("/a b", true), "'/a b'");
    assert_eq!(rvs_format_atomic_write_path("/a b", false), "/a b");
}

#[test]
fn test_atomic_sibling_temp_name_shapes() {
    assert!(rvs_is_atomic_sibling_temp_name(".deps.123.0.tmp"));
    assert!(rvs_is_atomic_sibling_temp_name(".caps-migration.123.0.tmp"));
    assert!(rvs_is_atomic_sibling_temp_name(".a.b.42.7.tmp"));
    assert!(!rvs_is_atomic_sibling_temp_name("deps"));
    assert!(!rvs_is_atomic_sibling_temp_name("deps.123.0.tmp"));
    assert!(!rvs_is_atomic_sibling_temp_name("..123.0.tmp"));
    assert!(!rvs_is_atomic_sibling_temp_name(".deps.12a.0.tmp"));
    assert!(!rvs_is_atomic_sibling_temp_name(".deps.123..tmp"));
    assert!(!rvs_is_atomic_sibling_temp_name(".deps.123.0.tmpx"));
    assert!(!rvs_is_atomic_sibling_temp_name(".deps.0.tmp"));
}

#[test]
fn test_generated_sibling_temp_names_are_recognized() {
    for (file, pid, attempt) in [("deps", 123u32, 0usize), ("std", 4_000_000_000, 99), ("a.b", 0, 5)] {
        let name = rvs_atomic_sibling_temp_name(file, pid, attempt);
        assert_eq!(name, format!(".{file}.{pid}.{attempt}.tmp"));
        assert!(rvs_is_atomic_sibling_temp_name(&name));
    }
}
