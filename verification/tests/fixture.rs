use conformance_check::append_only::{FileVersion, GitHistory, PathHistory, WorkingFile, check_append_only};
use conformance_check::causation::check_causation;
use conformance_check::envelope::check_envelope;
use conformance_check::event::parse_events;
use conformance_check::pairing::check_pairing;
use conformance_check::replay_check::SnapshotsDir;
use conformance_check::restore::check_restore;
use conformance_check::run::{RepoSnapshot, run_all};
use conformance_check::vocabulary::check_vocabulary;

const FIXTURE_LOG: [&str; 10] = [
    r#"{"id":"event_01","schema_version":1,"ts_ms":1751976000000,"actor":{"kind":"agent","id":"yoyo"},"kind":"goal.created","payload":{"id":"goal_retry","title":"Retry transient failures"},"causation_id":null,"correlation_id":"run_1"}"#,
    r#"{"id":"event_02","schema_version":1,"ts_ms":1751976000001,"actor":{"kind":"system","id":"yoagent-state"},"kind":"state.ops_applied","payload":[{"CreateNode":{"id":"goal_retry","kind":"goal","props":{"title":"Retry transient failures"}}}],"causation_id":"event_01","correlation_id":"run_1"}"#,
    r#"{"id":"event_03","schema_version":1,"ts_ms":1751976000002,"actor":{"kind":"agent","id":"yoyo"},"kind":"run.started","payload":{"id":"run_1"},"causation_id":null,"correlation_id":"run_1"}"#,
    r#"{"id":"event_04","schema_version":1,"ts_ms":1751976000003,"actor":{"kind":"agent","id":"yoyo"},"kind":"patch.proposed","payload":{"id":"patch_9","status":"Proposed"},"causation_id":"event_03","correlation_id":"run_1"}"#,
    r#"{"id":"event_05","schema_version":1,"ts_ms":1751976000004,"actor":{"kind":"system","id":"yoagent-state"},"kind":"state.ops_applied","payload":[{"CreateNode":{"id":"patch_9","kind":"patch","props":{"references_commit":"abc1234","status":"Proposed"}}},{"CreateRelation":{"from":"patch_9","rel":"advances","to":"goal_retry","props":{}}}],"causation_id":"event_04","correlation_id":"run_1"}"#,
    r#"{"id":"event_06","schema_version":1,"ts_ms":1751976000005,"actor":{"kind":"tool","id":"bash"},"kind":"eval.started","payload":{"command":"cargo test retry"},"causation_id":"event_05","correlation_id":"run_1"}"#,
    r#"{"id":"event_07","schema_version":1,"ts_ms":1751976000006,"actor":{"kind":"tool","id":"bash"},"kind":"eval.finished","payload":{"command":"cargo test retry","id":"eval_5","status":"Passed"},"causation_id":"event_06","correlation_id":"run_1"}"#,
    r#"{"id":"event_08","schema_version":1,"ts_ms":1751976000007,"actor":{"kind":"system","id":"yoagent-state"},"kind":"state.ops_applied","payload":[{"CreateNode":{"id":"eval_5","kind":"eval","props":{"status":"Passed"}}},{"CreateRelation":{"from":"patch_9","rel":"validated_by","to":"eval_5","props":{}}}],"causation_id":"event_07","correlation_id":"run_1"}"#,
    r#"{"id":"event_09","schema_version":1,"ts_ms":1751976000008,"actor":{"kind":"user","id":"maintainer"},"kind":"decision.created","payload":{"id":"decision_3","status":"Approved"},"causation_id":"event_08","correlation_id":"run_1"}"#,
    r#"{"id":"event_10","schema_version":1,"ts_ms":1751976000009,"actor":{"kind":"system","id":"yoagent-state"},"kind":"state.ops_applied","payload":[{"CreateNode":{"id":"decision_3","kind":"decision","props":{"status":"Approved"}}},{"CreateRelation":{"from":"patch_9","rel":"approved_by","to":"decision_3","props":{}}},{"UpdateNode":{"id":"patch_9","props":{"status":"Promoted"}}}],"causation_id":"event_09","correlation_id":"run_1"}"#,
];

fn fixture_lines() -> Vec<String> {
    FIXTURE_LOG.iter().map(|l| l.to_string()).collect()
}

fn fixture_text() -> String {
    let mut text = String::new();
    for line in FIXTURE_LOG {
        text.push_str(line);
        text.push('\n');
    }
    text
}

/// The canonical fixture repository: its log committed once, with the
/// manifest and the identity present and no snapshots or packs.
fn fixture_repo() -> RepoSnapshot {
    let text = fixture_text();
    RepoSnapshot {
        log: Ok(text.clone()),
        snapshots: SnapshotsDir::Missing,
        pack_files: Vec::new(),
        git: GitHistory {
            has_head: true,
            paths: vec![PathHistory {
                path: "state/events.jsonl".to_string(),
                versions: Some(vec![FileVersion { sha: "0123456789abcdef".to_string(), content: Some(text.clone().into_bytes()) }]),
                on_disk: WorkingFile::Present(text.into_bytes()),
            }],
        },
        has_manifest: true,
        has_identity: true,
    }
}

#[test]
fn fixture_passes_all_checks() {
    let reports = run_all(&fixture_repo(), true).expect("fixture parses");
    for report in &reports {
        assert!(
            report.passed(),
            "check {} ({}) failed: {:?}",
            report.number,
            report.name,
            report.failures
        );
    }
}

#[test]
fn envelope_rejects_unknown_field() {
    let mut lines = fixture_lines();
    lines[0] = lines[0].replace("\"causation_id\"", "\"extra\":1,\"causation_id\"");
    assert!(!check_envelope(&lines).passed());
}

#[test]
fn envelope_rejects_missing_field() {
    let lines = vec![r#"{"id":"event_x","kind":"goal.created","payload":{}}"#.to_string()];
    assert!(!check_envelope(&lines).passed());
}

#[test]
fn vocabulary_rejects_undeclared_kind() {
    let mut lines = fixture_lines();
    lines[1] = lines[1].replace("\"kind\":\"goal\"", "\"kind\":\"vibe\"");
    let events = parse_events(&lines).unwrap();
    let report = check_vocabulary(&[], &events);
    assert!(!report.passed(), "expected undeclared kind `vibe` to fail");
}

#[test]
fn causation_rejects_dangling_reference() {
    let mut lines = fixture_lines();
    lines[9] = lines[9].replace("\"causation_id\":\"event_09\"", "\"causation_id\":\"event_99\"");
    let events = parse_events(&lines).unwrap();
    assert!(!check_causation(&events).passed());
}

#[test]
fn causation_rejects_bad_root() {
    let mut lines = fixture_lines();
    // make eval.finished a root
    lines[6] = lines[6].replace("\"causation_id\":\"event_06\"", "\"causation_id\":null");
    let events = parse_events(&lines).unwrap();
    assert!(!check_causation(&events).passed());
}

#[test]
fn pairing_rejects_missing_ops_event() {
    let mut lines = fixture_lines();
    lines.remove(1); // drop goal.created's paired ops event
    let events = parse_events(&lines).unwrap();
    let report = check_pairing(&events);
    assert!(!report.passed(), "goal.created without paired ops must fail");
}

#[test]
fn pairing_rejects_status_contradiction() {
    let mut lines = fixture_lines();
    // decision.created says Approved; make its ops event create it Rejected
    lines[9] = lines[9].replace(
        "{\"CreateNode\":{\"id\":\"decision_3\",\"kind\":\"decision\",\"props\":{\"status\":\"Approved\"}}}",
        "{\"CreateNode\":{\"id\":\"decision_3\",\"kind\":\"decision\",\"props\":{\"status\":\"Rejected\"}}}",
    );
    let events = parse_events(&lines).unwrap();
    let report = check_pairing(&events);
    assert!(!report.passed(), "status contradiction must fail");
}

#[test]
fn restore_asserts_fixture_facts() {
    let mut lines = fixture_lines();
    // break the promotion: drop the UpdateNode from the final ops event
    lines[9] = lines[9].replace(
        ",{\"UpdateNode\":{\"id\":\"patch_9\",\"props\":{\"status\":\"Promoted\"}}}",
        "",
    );
    let events = parse_events(&lines).unwrap();
    let report = check_restore(true, true, &events, true);
    assert!(!report.passed(), "unpromoted patch_9 must fail fixture facts");
}

fn version(sha: &str, content: &str) -> FileVersion {
    FileVersion { sha: sha.to_string(), content: Some(content.as_bytes().to_vec()) }
}

fn history(versions: Vec<FileVersion>, on_disk: &str) -> GitHistory {
    GitHistory {
        has_head: true,
        paths: vec![PathHistory {
            path: "state/events.jsonl".to_string(),
            versions: Some(versions),
            on_disk: WorkingFile::Present(on_disk.as_bytes().to_vec()),
        }],
    }
}

#[test]
fn append_only_rejects_history_rewrite() {
    // append-only extension is fine
    let extended = history(
        vec![version("1111111111", "line one\nline two\n"), version("2222222222", "line one\nline two\nline three\n")],
        "line one\nline two\nline three\n",
    );
    assert!(check_append_only(&extended).passed());

    // in-place edit of an existing line must fail
    let rewritten = history(
        vec![
            version("1111111111", "line one\nline two\n"),
            version("2222222222", "line one\nline two\nline three\n"),
            version("3333333333", "line ONE\nline two\nline three\n"),
        ],
        "line ONE\nline two\nline three\n",
    );
    assert!(!check_append_only(&rewritten).passed());
}
