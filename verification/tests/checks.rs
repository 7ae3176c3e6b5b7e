use conformance_check::append_only::{
    FileVersion, GitHistory, PathHistory, WorkingFile, append_only_paths, check_append_only,
    commit_ids_cut_ok,
};
use conformance_check::causation::check_causation;
use conformance_check::digest::prefix_digest;
use conformance_check::envelope::check_envelope;
use conformance_check::event::{event_ops, parse_events, OpRecord};
use conformance_check::pairing::check_pairing;
use conformance_check::replay_check::{SnapshotFile, SnapshotsDir, check_replay};
use conformance_check::report::CheckReport;
use conformance_check::restore::check_restore;
use conformance_check::run::{RepoSnapshot, run_all};
use conformance_check::text::{decimal_string, hex, log_lines, words};
use conformance_check::vocabulary::{PackFile, check_vocabulary, load_packs};
use sha2::Digest;

fn event(id: &str, kind: &str, payload: &str, cause: Option<&str>) -> String {
    let cause = match cause {
        Some(c) => format!("\"{c}\""),
        None => "null".to_string(),
    };
    format!(
        r#"{{"id":"{id}","schema_version":1,"ts_ms":5,"actor":{{"kind":"agent","id":"a"}},"kind":"{kind}","payload":{payload},"causation_id":{cause},"correlation_id":null}}"#
    )
}

fn events_of(lines: &[String]) -> Vec<conformance_check::event::LogEvent> {
    parse_events(lines).expect("events decode")
}

fn failures(r: &CheckReport) -> Vec<String> {
    r.failures.clone()
}

// ---------------------------------------------------------------- text

#[test]
fn log_lines_drop_blank_lines_and_carriage_returns() {
    let raw = "a\r\n\n  \t\nb\n\u{3000}\nc\r";
    assert_eq!(log_lines(raw), vec!["a".to_string(), "b".to_string(), "c\r".to_string()]);
    assert!(log_lines("").is_empty());
    assert!(log_lines("\n\n").is_empty());
}

#[test]
fn words_split_on_whitespace_runs() {
    assert_eq!(words("  abc\n def\t\tg \n"), vec!["abc".to_string(), "def".to_string(), "g".to_string()]);
    assert!(words(" \n ").is_empty());
}

#[test]
fn decimal_and_hex_render_exactly() {
    assert_eq!(decimal_string(0), "0");
    assert_eq!(decimal_string(1234567890), "1234567890");
    assert_eq!(decimal_string(u64::MAX), "18446744073709551615");
    assert_eq!(hex(&[0x00, 0x0f, 0xa5, 0xff]), "000fa5ff");
}

#[test]
fn prefix_digest_hashes_terminated_lines() {
    let lines = vec!["abc".to_string(), "x".to_string(), "é".to_string()];
    assert_eq!(
        prefix_digest(&lines, 1),
        "edeaaff3f1774ad2888673770c6d64097e391bc362d7d6fb34982ddf0efd18cb"
    );
    assert_eq!(
        prefix_digest(&lines[1..], 2),
        "845fdfdb9e884b137593cfaa90caee995288229466ca4ce87f80d8097845b17a"
    );
}

// ---------------------------------------------------------------- events

#[test]
fn decoded_events_copy_every_field() {
    let line = r#"{"id":"e1","schema_version":3,"ts_ms":-7,"actor":{"kind":"user","id":"u"},"kind":"goal.created","payload":{"id":"g"},"causation_id":"e0","correlation_id":"c"}"#;
    let evs = parse_events(&[line.to_string()]).unwrap();
    let e = &evs[0];
    assert_eq!(e.id(), "e1");
    assert_eq!(e.schema_version(), 3);
    assert_eq!(e.ts_ms(), -7);
    assert_eq!(e.actor_kind(), "user");
    assert_eq!(e.actor_id(), "u");
    assert_eq!(e.kind(), "goal.created");
    assert_eq!(e.payload().to_string(), r#"{"id":"g"}"#);
    assert_eq!(e.causation_id().map(|s| s.as_str()), Some("e0"));
    assert_eq!(e.correlation_id().map(|s| s.as_str()), Some("c"));
}

#[test]
fn parse_events_names_the_first_bad_line() {
    let lines = vec![event("e1", "goal.created", "{}", None), "{\"id\":1}".to_string(), "nope".to_string()];
    let err = parse_events(&lines).unwrap_err();
    assert!(err.starts_with("line 2: "), "{err}");
}

#[test]
fn event_ops_reads_only_ops_events() {
    let ops = r#"[{"CreateNode":{"id":"n","kind":"goal","props":{"status":"Open"}}},{"CreateRelation":{"from":"n","rel":"serves","to":"m","props":{}}},{"MarkStale":{"id":"n","reason":"r"}}]"#;
    let lines = vec![event("e1", "state.ops_applied", ops, None), event("e2", "goal.created", ops, None)];
    let evs = events_of(&lines);
    let got = event_ops(&evs[0]).expect("ops decode");
    assert_eq!(got.len(), 3);
    match &got[0] {
        OpRecord::CreateNode { id, kind, props } => {
            assert_eq!(id, "n");
            assert_eq!(kind, "goal");
            assert_eq!(props.to_string(), r#"{"status":"Open"}"#);
        }
        other => panic!("unexpected {other:?}"),
    }
    match &got[1] {
        OpRecord::CreateRelation { from, rel, to } => {
            assert_eq!((from.as_str(), rel.as_str(), to.as_str()), ("n", "serves", "m"));
        }
        other => panic!("unexpected {other:?}"),
    }
    assert!(matches!(got[2], OpRecord::Other));
    assert!(event_ops(&evs[1]).is_none());
    let bad = vec![event("e3", "state.ops_applied", r#"{"not":"ops"}"#, None)];
    assert!(event_ops(&events_of(&bad)[0]).is_none());
}

// ---------------------------------------------------------------- check 1

#[test]
fn envelope_reports_each_problem() {
    let lines = vec![
        "not json".to_string(),
        "[1,2]".to_string(),
        r#"{"id":"x","kind":"k","extra":1}"#.to_string(),
        r#"{"id":"e","schema_version":1,"ts_ms":1,"actor":{"kind":"a","id":"b","more":1},"kind":"k","payload":{},"causation_id":null,"correlation_id":null}"#.to_string(),
        event("ok", "goal.created", "{}", None),
    ];
    let r = check_envelope(&lines);
    assert_eq!(r.number, 1);
    assert_eq!(r.name, "envelope round-trip");
    let f = failures(&r);
    let not_json = serde_json::from_str::<serde_json::Value>("not json").unwrap_err().to_string();
    assert_eq!(f[0], format!("line 1: not JSON: {not_json}"));
    assert_eq!(f[1], "line 2: not a JSON object");
    assert_eq!(f[2], "line 3: missing envelope field `schema_version`");
    assert_eq!(f[3], "line 3: missing envelope field `ts_ms`");
    assert_eq!(f[4], "line 3: missing envelope field `actor`");
    assert_eq!(f[5], "line 3: missing envelope field `payload`");
    assert_eq!(f[6], "line 3: missing envelope field `causation_id`");
    assert_eq!(f[7], "line 3: missing envelope field `correlation_id`");
    assert_eq!(f[8], "line 3: unknown top-level field `extra`");
    assert!(f[9].starts_with("line 3: not a valid envelope: "), "{}", f[9]);
    assert_eq!(f[10], "line 4: does not round-trip structurally");
    assert_eq!(f.len(), 11);
}

#[test]
fn envelope_accepts_negative_timestamps_and_strings() {
    let line = r#"{"id":"e","schema_version":1,"ts_ms":-3,"actor":{"kind":"a","id":"b"},"kind":"k","payload":[1,{"z":2.0}],"causation_id":"c","correlation_id":"d"}"#;
    assert!(check_envelope(&[line.to_string()]).passed());
}

// ---------------------------------------------------------------- check 5

#[test]
fn causation_messages() {
    let lines = vec![
        event("e1", "goal.created", "{}", None),
        event("e2", "run.started", "{}", Some("e1")),
        event("e3", "eval.finished", "{}", None),
        event("e4", "x", "{}", Some("e9")),
        event("e5", "x", "{}", Some("e5")),
    ];
    let r = check_causation(&events_of(&lines));
    assert_eq!(r.number, 5);
    assert_eq!(
        failures(&r),
        vec![
            "line 3: root event (null causation) has kind `eval.finished`, expected *.created / *.started".to_string(),
            "line 4: causation_id e9 does not reference an earlier event".to_string(),
            "line 5: causation_id e5 does not reference an earlier event".to_string(),
        ]
    );
}

#[test]
fn causation_passes_when_every_cause_is_earlier() {
    let lines = vec![
        event("e1", "task.started", "{}", None),
        event("e2", "a", "{}", Some("e1")),
        event("e3", "b", "{}", Some("e2")),
        event("e4", "c", "{}", Some("e1")),
    ];
    assert!(check_causation(&events_of(&lines)).passed());
}

// ---------------------------------------------------------------- check 7

fn create(id: &str, kind: &str, props: &str) -> String {
    format!(r#"[{{"CreateNode":{{"id":"{id}","kind":"{kind}","props":{props}}}}}]"#)
}

#[test]
fn pairing_messages() {
    let lines = vec![
        event("e1", "goal.created", r#"{"title":"no id"}"#, None),
        event("e2", "task.created", r#"{"id":"t1"}"#, None),
        event("e3", "patch.proposed", r#"{"id":"p1"}"#, None),
        event("e4", "state.ops_applied", r#"{"bad":1}"#, Some("e3")),
        event("e5", "eval.finished", r#"{"id":"v1"}"#, None),
        event("e6", "state.ops_applied", &create("other", "eval", "{}"), Some("e5")),
        event("e7", "frame.created", r#"{"id":"f1","status":1}"#, None),
        event("e8", "state.ops_applied", &create("f1", "task", r#"{"status":"1"}"#), Some("e7")),
        event("e9", "state.ops_applied", "[]", Some("e8")),
    ];
    let r = check_pairing(&events_of(&lines));
    assert_eq!(r.number, 7);
    assert_eq!(
        failures(&r),
        vec![
            "line 1: goal.created payload has no `id`".to_string(),
            "line 2: task.created `t1` has no paired state.ops_applied".to_string(),
            "line 3: paired ops event e4 has malformed payload".to_string(),
            "line 5: paired ops for eval.finished do not create node `v1`".to_string(),
            "line 7: `f1` created as kind `task`, domain event implies `frame`".to_string(),
            "line 7: `f1` status contradicts domain event (1 vs \"1\")".to_string(),
            "ops event e9 chained to another ops event, not a domain event".to_string(),
        ]
    );
}

#[test]
fn pairing_compares_statuses_as_json_values() {
    let lines = vec![
        event("e1", "goal.created", r#"{"id":"g1","status":{"a":1,"b":[2.5,"s"]}}"#, None),
        event("e2", "state.ops_applied", &create("g1", "goal", r#"{"status":{"b":[2.5,"s"],"a":1}}"#), Some("e1")),
        event("e3", "goal.created", r#"{"id":"g2","status":1}"#, None),
        event("e4", "state.ops_applied", &create("g2", "goal", r#"{"status":1.0}"#), Some("e3")),
        event("e5", "goal.created", r#"{"id":"g3","status":0.0}"#, None),
        event("e6", "state.ops_applied", &create("g3", "goal", r#"{"status":-0.0}"#), Some("e5")),
        event("e7", "goal.created", r#"{"id":"g4","status":{ "z" : null , "q" : "a\"b" }}"#, None),
        event("e8", "state.ops_applied", &create("g4", "goal", r#"{"status":[]}"#), Some("e7")),
        event("e9", "goal.created", r#"{"id":"g5"}"#, None),
        event("e10", "state.ops_applied", &create("g5", "goal", r#"{"status":"Open"}"#), Some("e9")),
    ];
    assert_eq!(
        failures(&check_pairing(&events_of(&lines))),
        vec![
            "line 3: `g2` status contradicts domain event (1 vs 1.0)".to_string(),
            r#"line 7: `g4` status contradicts domain event ({"q":"a\"b","z":null} vs [])"#.to_string(),
        ]
    );
}

#[test]
fn pairing_uses_the_last_ops_event_for_a_cause() {
    let lines = vec![
        event("e1", "goal.created", r#"{"id":"g","status":"Open"}"#, None),
        event("e2", "state.ops_applied", &create("g", "goal", r#"{"status":"Open"}"#), Some("e1")),
        event("e3", "state.ops_applied", &create("x", "goal", "{}"), Some("e1")),
    ];
    let r = check_pairing(&events_of(&lines));
    assert_eq!(failures(&r), vec!["line 1: paired ops for goal.created do not create node `g`".to_string()]);
}

// ---------------------------------------------------------------- check 3

#[test]
fn vocabulary_messages_and_packs() {
    let ops = r#"[{"CreateNode":{"id":"n1","kind":"vibe","props":{}}},{"CreateRelation":{"from":"n1","rel":"likes","to":"n2","props":{}}},{"CreateNode":{"id":"n2","kind":"goal","props":{}}}]"#;
    let lines = vec![event("e1", "state.ops_applied", ops, None)];
    let evs = events_of(&lines);
    let r = check_vocabulary(&[], &evs);
    assert_eq!(r.number, 3);
    assert_eq!(
        failures(&r),
        vec![
            "line 1: CreateNode n1 uses undeclared kind `vibe`".to_string(),
            "line 1: CreateRelation from n1 uses undeclared rel `likes`".to_string(),
        ]
    );
    let pack = r#"{"id":"pack_1","name":"moods","version":"1","object_types":{"vibe":{"kind":"vibe","required_props":[],"description":null}},"relation_types":{"likes":{"rel":"likes","from_kinds":[],"to_kinds":[],"description":null}},"policies":[],"prompts":[],"settings":{}}"#;
    let files = vec![
        PackFile { file_name: "moods.json".to_string(), contents: Some(pack.to_string()) },
        PackFile { file_name: "broken.json".to_string(), contents: Some("{".to_string()) },
        PackFile { file_name: "unread.json".to_string(), contents: None },
    ];
    let packs = load_packs(&files);
    assert_eq!(packs.len(), 1);
    assert_eq!(packs[0].kinds, vec!["vibe".to_string()]);
    assert_eq!(packs[0].rels, vec!["likes".to_string()]);
    assert!(check_vocabulary(&files, &evs).passed());
    // only files whose extension is `json` are packs
    for name in ["moods.txt", ".json", "json"] {
        let files = vec![PackFile { file_name: name.to_string(), contents: Some(pack.to_string()) }];
        assert!(!check_vocabulary(&files, &evs).passed(), "{name}");
    }
    let files = vec![PackFile { file_name: "..json".to_string(), contents: Some(pack.to_string()) }];
    assert!(check_vocabulary(&files, &evs).passed());
}

// ---------------------------------------------------------------- check 4

fn version(sha: &str, content: Option<&str>) -> FileVersion {
    FileVersion { sha: sha.to_string(), content: content.map(|c| c.as_bytes().to_vec()) }
}

#[test]
fn append_only_messages() {
    let history = GitHistory {
        has_head: true,
        paths: vec![
            PathHistory {
                path: "state/events.jsonl".to_string(),
                versions: Some(vec![
                    version("aaaaaaaaaa", Some("a\n")),
                    version("bbbbbbbbbb", None),
                    version("cccccccccc", Some("x\n")),
                    version("dddddddddd", Some("y\n")),
                ]),
                on_disk: WorkingFile::Present(b"z\n".to_vec()),
            },
            PathHistory { path: "JOURNAL.md".to_string(), versions: None, on_disk: WorkingFile::Present(b"q".to_vec()) },
            PathHistory { path: "memory/facts.jsonl".to_string(), versions: Some(vec![]), on_disk: WorkingFile::Absent },
            PathHistory {
                path: "journal/JOURNAL.md".to_string(),
                versions: Some(vec![version("abc", Some("one\n"))]),
                on_disk: WorkingFile::Present(b"one\ntwo\n".to_vec()),
            },
        ],
    };
    let r = check_append_only(&history);
    assert_eq!(r.number, 4);
    assert_eq!(
        failures(&r),
        vec![
            "state/events.jsonl: deleted in commit bbbbbbb".to_string(),
            "state/events.jsonl: commit ddddddd edits existing lines (not append-only)".to_string(),
            "state/events.jsonl: working tree edits committed lines".to_string(),
        ]
    );
}

#[test]
fn append_only_cuts_commit_ids_at_seven_bytes() {
    let history = GitHistory {
        has_head: true,
        paths: vec![PathHistory {
            path: "JOURNAL.md".to_string(),
            versions: Some(vec![
                version("ééééééé", Some("a\n")),
                version("aéééééé", Some("b\n")),
                version("éé", None),
            ]),
            on_disk: WorkingFile::Unreadable,
        }],
    };
    assert_eq!(
        failures(&check_append_only(&history)),
        vec![
            "JOURNAL.md: commit aééé edits existing lines (not append-only)".to_string(),
            "JOURNAL.md: deleted in commit éé".to_string(),
        ]
    );
}

#[test]
fn append_only_compares_bytes() {
    let history = |versions: Vec<FileVersion>, on_disk: &[u8]| GitHistory {
        has_head: true,
        paths: vec![PathHistory {
            path: "state/events.jsonl".to_string(),
            versions: Some(versions),
            on_disk: WorkingFile::Present(on_disk.to_vec()),
        }],
    };
    let bytes = |sha: &str, b: &[u8]| FileVersion { sha: sha.to_string(), content: Some(b.to_vec()) };
    let r = check_append_only(&history(vec![bytes("aaaaaaaa", &[0xFF]), bytes("bbbbbbbb", &[0xFE])], &[0xFE]));
    assert_eq!(
        failures(&r),
        vec!["state/events.jsonl: commit bbbbbbb edits existing lines (not append-only)".to_string()]
    );
    let r = check_append_only(&history(vec![bytes("aaaaaaaa", &[0xFF])], &[0xFE]));
    assert_eq!(failures(&r), vec!["state/events.jsonl: working tree edits committed lines".to_string()]);
    let r = check_append_only(&history(vec![bytes("aaaaaaaa", &[0xFF]), bytes("bbbbbbbb", &[0xFF, 0x00])], &[0xFF, 0x00, 0x01]));
    assert!(r.passed());
}

#[test]
fn append_only_reports_a_committed_file_missing_from_the_working_tree() {
    let history = |on_disk: WorkingFile, last: Option<&str>| GitHistory {
        has_head: true,
        paths: vec![PathHistory {
            path: "memory/facts.jsonl".to_string(),
            versions: Some(vec![version("1111111111", Some("a\n")), version("2222222222", last)]),
            on_disk,
        }],
    };
    assert_eq!(
        failures(&check_append_only(&history(WorkingFile::Absent, Some("a\nb\n")))),
        vec!["memory/facts.jsonl: working tree edits committed lines".to_string()]
    );
    // a file that cannot be read is not judged
    assert!(check_append_only(&history(WorkingFile::Unreadable, Some("a\nb\n"))).passed());
    // after a committed deletion, an absent file extends nothing and is fine
    assert_eq!(
        failures(&check_append_only(&history(WorkingFile::Absent, None))),
        vec!["memory/facts.jsonl: deleted in commit 2222222".to_string()]
    );
}

#[test]
fn append_only_checks_the_append_only_paths_in_order() {
    let edited = |path: &str| PathHistory {
        path: path.to_string(),
        versions: Some(vec![version("1111111111", Some("a")), version("2222222222", Some("b"))]),
        on_disk: WorkingFile::Unreadable,
    };
    let history = GitHistory {
        has_head: true,
        paths: vec![edited("JOURNAL.md"), edited("notes.txt"), edited("state/events.jsonl")],
    };
    assert_eq!(
        failures(&check_append_only(&history)),
        vec![
            "state/events.jsonl: commit 2222222 edits existing lines (not append-only)".to_string(),
            "JOURNAL.md: commit 2222222 edits existing lines (not append-only)".to_string(),
        ]
    );
    assert!(check_append_only(&GitHistory { has_head: true, paths: vec![] }).passed());
}

#[test]
fn commit_id_cuts_are_checked_where_reported() {
    let history = |versions: Vec<FileVersion>| GitHistory {
        has_head: true,
        paths: vec![PathHistory { path: "JOURNAL.md".to_string(), versions: Some(versions), on_disk: WorkingFile::Unreadable }],
    };
    // the first version is never reported, so its id need not cut well
    assert!(commit_ids_cut_ok(&history(vec![version("ééééééé", Some("a")), version("aéééééé", Some("b"))])));
    // an edit reported under an id whose seventh byte splits a character
    assert!(!commit_ids_cut_ok(&history(vec![version("x", Some("a")), version("ééééééé", Some("b"))])));
    // a deletion is reported too
    assert!(!commit_ids_cut_ok(&history(vec![version("x", Some("a")), version("ééééééé", None)])));
    assert!(commit_ids_cut_ok(&GitHistory { has_head: false, paths: vec![] }));
}

#[test]
fn append_only_without_history_is_a_note() {
    let r = check_append_only(&GitHistory { has_head: false, paths: vec![] });
    assert!(r.passed());
    assert_eq!(r.notes, vec!["no git history — nothing to violate yet".to_string()]);
    assert_eq!(
        append_only_paths(),
        vec!["state/events.jsonl", "memory/facts.jsonl", "journal/JOURNAL.md", "JOURNAL.md"]
    );
}

// ---------------------------------------------------------------- check 2

fn snapshot_record(lines: &[String], n: usize) -> String {
    let events: Vec<yoagent_state::Event> =
        lines[..n].iter().map(|l| serde_json::from_str(l).unwrap()).collect();
    let graph = yoagent_state::replay(&events).unwrap();
    let prefix = lines[..n].join("\n") + "\n";
    let sha: String = sha2::Sha256::digest(prefix.as_bytes()).iter().map(|b| format!("{b:02x}")).collect();
    let mut record = serde_json::Map::new();
    record.insert("graph".to_string(), serde_json::to_value(&graph).unwrap());
    let mut integrity = serde_json::Map::new();
    integrity.insert("line_count".to_string(), serde_json::Value::from(n as u64));
    integrity.insert("sha256".to_string(), serde_json::Value::from(sha));
    record.insert("integrity".to_string(), serde_json::Value::Object(integrity));
    serde_json::Value::Object(record).to_string()
}

fn small_log() -> Vec<String> {
    vec![
        event("e1", "goal.created", r#"{"id":"g"}"#, None),
        event("e2", "state.ops_applied", &create("g", "goal", r#"{"status":"Open"}"#), Some("e1")),
        event("e3", "state.ops_applied", r#"[{"UpdateNode":{"id":"g","props":{"status":"Done"}}}]"#, Some("e1")),
    ]
}

fn snap(name: &str, contents: Result<String, String>) -> SnapshotFile {
    SnapshotFile { name: name.to_string(), contents }
}

#[test]
fn replay_checks_snapshots() {
    let lines = small_log();
    let evs = events_of(&lines);
    let good = snapshot_record(&lines, 2);
    let mut wrong_graph: serde_json::Value = serde_json::from_str(&snapshot_record(&lines, 3)).unwrap();
    wrong_graph["integrity"] = serde_json::from_str::<serde_json::Value>(&good).unwrap()["integrity"].clone();
    let mut bad_graph: serde_json::Value = serde_json::from_str(&good).unwrap();
    bad_graph["graph"] = serde_json::Value::from(7);
    let snaps = SnapshotsDir::Entries(vec![
        snap("s1", Ok(good.clone())),
        snap("s2", Err("denied".to_string())),
        snap("s3", Ok("{".to_string())),
        snap("s4", Ok(r#"{"graph":{}}"#.to_string())),
        snap("s5", Ok(r#"{"graph":{},"integrity":{"line_count":9,"sha256":"x"}}"#.to_string())),
        snap("s6", Ok(r#"{"graph":{},"integrity":{}}"#.to_string())),
        snap("s7", Ok(good.replace("\"sha256\":\"", "\"sha256\":\"0"))),
        snap("s8", Ok(bad_graph.to_string())),
        snap("s9", Ok(wrong_graph.to_string())),
    ]);
    let r = check_replay(&evs, &lines, &snaps);
    assert_eq!(r.number, 2);
    let f = failures(&r);
    let not_json = serde_json::from_str::<serde_json::Value>("{").unwrap_err().to_string();
    assert_eq!(f[0], "snapshot s2: unreadable: denied");
    assert_eq!(f[1], format!("snapshot s3: not JSON: {not_json}"));
    assert_eq!(f[2], "snapshot s4: missing `graph` or `integrity` record");
    assert_eq!(f[3], "snapshot s5: line_count 9 out of range");
    assert_eq!(f[4], "snapshot s6: line_count 0 out of range");
    assert_eq!(f[5], "snapshot s7: integrity hash mismatch (log prefix changed?)");
    assert!(f[6].starts_with("snapshot s8: graph does not parse: "), "{}", f[6]);
    assert_eq!(f[7], "snapshot s9: snapshot + tail differs from folding from scratch");
    assert_eq!(f.len(), 8);
}

#[test]
fn replay_reads_more_lines_than_events_where_no_prefix_is_folded() {
    let lines = small_log();
    let evs = events_of(&lines[..1]);
    let record = r#"{"graph":{},"integrity":{"line_count":3,"sha256":"00"}}"#.to_string();
    let r = check_replay(&evs, &lines, &SnapshotsDir::Entries(vec![snap("s", Ok(record))]));
    assert_eq!(failures(&r), vec!["snapshot s: integrity hash mismatch (log prefix changed?)".to_string()]);
}

#[test]
fn replay_without_snapshots_is_a_note() {
    let lines = small_log();
    let evs = events_of(&lines);
    let r = check_replay(&evs, &lines, &SnapshotsDir::Missing);
    assert!(r.passed());
    assert_eq!(r.notes, vec!["no snapshots/ — skipped seed check".to_string()]);
    let r = check_replay(&evs, &lines, &SnapshotsDir::Unlistable);
    assert_eq!(failures(&r), vec!["cannot read snapshots/".to_string()]);
}

#[test]
fn replay_reports_a_fold_failure() {
    let lines = vec![event("e1", "state.ops_applied", r#"{"not":"ops"}"#, None)];
    let evs = events_of(&lines);
    let r = check_replay(&evs, &lines, &SnapshotsDir::Missing);
    assert_eq!(r.failures.len(), 1);
    assert!(r.failures[0].starts_with("fold failed: "), "{}", r.failures[0]);
    assert!(r.notes.is_empty());
}

// ---------------------------------------------------------------- check 6

#[test]
fn restore_reports_missing_manifest_and_identity() {
    let lines = small_log();
    let evs = events_of(&lines);
    let r = check_restore(false, false, &evs, false);
    assert_eq!(r.number, 6);
    assert_eq!(
        failures(&r),
        vec!["AGENT.md manifest missing".to_string(), "no identity/ directory or IDENTITY.md".to_string()]
    );
    assert!(check_restore(true, true, &evs, false).passed());
    let r = check_restore(true, true, &evs, true);
    assert_eq!(
        failures(&r),
        vec![
            "fixture: goal_retry missing".to_string(),
            "fixture: patch_9 --advances--> goal_retry missing".to_string(),
            "fixture: patch_9.status != Promoted".to_string(),
            "fixture: patch_9.references_commit != abc1234".to_string(),
            "fixture: patch_9 validated_by passed eval_5 missing".to_string(),
            "fixture: patch_9 approved_by approved decision_3 missing".to_string(),
        ]
    );
    let bad = vec![event("e1", "state.ops_applied", "7", None)];
    let r = check_restore(true, true, &events_of(&bad), true);
    assert_eq!(r.failures.len(), 1);
    assert!(r.failures[0].starts_with("fold failed: "));
}

// ---------------------------------------------------------------- run_all

fn repo_with_log(log: Result<String, String>) -> RepoSnapshot {
    RepoSnapshot {
        log,
        snapshots: SnapshotsDir::Missing,
        pack_files: vec![],
        git: GitHistory { has_head: false, paths: vec![] },
        has_manifest: true,
        has_identity: true,
    }
}

#[test]
fn run_all_passes_read_and_parse_errors_through() {
    let r = run_all(&repo_with_log(Err("cannot read x: gone".to_string())), false);
    assert_eq!(r.unwrap_err(), "cannot read x: gone");
    let log = format!("{}\n\n{{\"id\":3}}\n", event("e1", "goal.created", "{}", None));
    let err = run_all(&repo_with_log(Ok(log)), false).unwrap_err();
    assert!(err.starts_with("line 2: "), "{err}");
}

#[test]
fn run_all_gives_seven_reports_in_order() {
    let log = small_log()[..2].join("\n");
    let reports = run_all(&repo_with_log(Ok(log)), false).unwrap();
    let numbers: Vec<u8> = reports.iter().map(|r| r.number).collect();
    assert_eq!(numbers, vec![1, 2, 3, 4, 5, 6, 7]);
    let names: Vec<&str> = reports.iter().map(|r| r.name).collect();
    assert_eq!(
        names,
        vec![
            "envelope round-trip",
            "replay determinism",
            "vocabulary",
            "append-only in git",
            "causation integrity",
            "restore",
            "domain↔ops consistency",
        ]
    );
    assert!(reports.iter().all(|r| r.passed()), "{reports:?}");
}

// ---------------------------------------------------------------- laws on concrete values

#[test]
fn hex_gives_two_lowercase_digits_per_byte_that_read_back() {
    let bytes: Vec<u8> = (0..=255u8).collect();
    let s = hex(&bytes);
    assert_eq!(s.len(), 2 * bytes.len());
    assert!(s.chars().all(|c| "0123456789abcdef".contains(c)));
    for (i, b) in bytes.iter().enumerate() {
        assert_eq!(u8::from_str_radix(&s[2 * i..2 * i + 2], 16), Ok(*b));
    }
}

#[test]
fn envelope_of_joined_logs_shifts_line_numbers() {
    let a = vec![event("e1", "goal.created", "{}", None), "[1]".to_string()];
    let b = vec!["nope".to_string(), r#"{"id":"x"}"#.to_string()];
    let joined: Vec<String> = a.iter().chain(b.iter()).cloned().collect();
    let renum = |f: &String, k: usize| -> String {
        let rest = f.strip_prefix("line ").unwrap();
        let colon = rest.find(':').unwrap();
        let n: usize = rest[..colon].parse().unwrap();
        format!("line {}{}", n + k, &rest[colon..])
    };
    let mut expected = failures(&check_envelope(&a));
    expected.extend(failures(&check_envelope(&b)).iter().map(|f| renum(f, a.len())));
    assert_eq!(failures(&check_envelope(&joined)), expected);
    assert!(check_envelope(&joined).notes.is_empty());
}

#[test]
fn more_pack_files_never_add_vocabulary_failures() {
    let ops = r#"[{"CreateNode":{"id":"n1","kind":"vibe","props":{}}},{"CreateRelation":{"from":"n1","rel":"likes","to":"n2","props":{}}}]"#;
    let evs = events_of(&[event("e1", "state.ops_applied", ops, None)]);
    let pack = r#"{"id":"pack_1","name":"moods","version":"1","object_types":{"vibe":{"kind":"vibe","required_props":[],"description":null}},"relation_types":{},"policies":[],"prompts":[],"settings":{}}"#;
    let few = vec![PackFile { file_name: "other.txt".to_string(), contents: None }];
    let more = vec![
        PackFile { file_name: "moods.json".to_string(), contents: Some(pack.to_string()) },
        PackFile { file_name: "other.txt".to_string(), contents: None },
    ];
    let before = failures(&check_vocabulary(&few, &evs));
    let after = failures(&check_vocabulary(&more, &evs));
    assert_eq!(before.len(), 2);
    assert_eq!(after, vec!["line 1: CreateRelation from n1 uses undeclared rel `likes`".to_string()]);
    assert!(after.iter().all(|f| before.contains(f)));
}

#[test]
fn pairing_verdict_does_not_depend_on_order() {
    let lines = vec![
        event("e1", "goal.created", r#"{"id":"g","status":"Open"}"#, None),
        event("e2", "state.ops_applied", &create("g", "goal", r#"{"status":"Open"}"#), Some("e1")),
        event("e3", "task.created", r#"{"id":"t"}"#, None),
        event("e4", "state.ops_applied", &create("t", "task", "{}"), Some("e3")),
    ];
    let reordered = vec![lines[3].clone(), lines[1].clone(), lines[2].clone(), lines[0].clone()];
    assert!(check_pairing(&events_of(&lines)).passed());
    assert!(check_pairing(&events_of(&reordered)).passed());
    let broken: Vec<String> = vec![lines[0].clone(), lines[2].clone(), lines[3].clone()];
    let broken_reordered = vec![broken[2].clone(), broken[0].clone(), broken[1].clone()];
    assert!(!check_pairing(&events_of(&broken)).passed());
    assert!(!check_pairing(&events_of(&broken_reordered)).passed());
}

#[test]
fn fixture_facts_only_add_restore_failures() {
    let log = small_log()[..2].join("\n");
    let without = run_all(&repo_with_log(Ok(log.clone())), false).unwrap();
    let with = run_all(&repo_with_log(Ok(log)), true).unwrap();
    for i in 0..7 {
        if i != 5 {
            assert_eq!(without[i].failures, with[i].failures);
            assert_eq!(without[i].notes, with[i].notes);
        }
    }
    assert!(with[5].failures.starts_with(&without[5].failures));
    assert_eq!(with[5].failures.len(), 6);
}
