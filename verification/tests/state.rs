use bomb_ttl::cancel::{Cancel, CancelAction, CancelInput};
use bomb_ttl::cli::{list_outcome, run_list, Line};
use bomb_ttl::qsub::QsubError;
use bomb_ttl::state::{state_file, LoadError, State, StateEntry, StateFile};
use serde_json::Value;

fn entry(path: &str, jobid: &str, created: u64, delete: u64, inode: u64) -> StateEntry {
    StateEntry {
        path: path.to_string(),
        raw_path: None,
        jobid: jobid.to_string(),
        created_at_secs: created,
        delete_at_secs: delete,
        inode,
    }
}

fn to_json(s: &State) -> Vec<u8> {
    let mut entries = serde_json::Map::new();
    for i in 0..s.entries.len() {
        let e = s.entries.entry_at(i);
        let mut row = serde_json::Map::new();
        row.insert("path".to_string(), Value::from(e.path.clone()));
        if let Some(b) = &e.raw_path {
            row.insert("raw_path".to_string(), Value::from(b.clone()));
        }
        row.insert("jobid".to_string(), Value::from(e.jobid.clone()));
        row.insert("created_at_secs".to_string(), Value::from(e.created_at_secs));
        row.insert("delete_at_secs".to_string(), Value::from(e.delete_at_secs));
        row.insert("inode".to_string(), Value::from(e.inode));
        entries.insert(s.entries.key_at(i).clone(), Value::Object(row));
    }
    let mut all = serde_json::Map::new();
    all.insert("version".to_string(), Value::from(s.version));
    all.insert("entries".to_string(), Value::Object(entries));
    serde_json::to_vec_pretty(&Value::Object(all)).unwrap()
}

fn from_json(bytes: &[u8]) -> StateFile {
    let all: Value = match serde_json::from_slice(bytes) {
        Ok(v) => v,
        Err(e) => return StateFile::Malformed(e.to_string()),
    };
    let mut rows = Vec::new();
    for (key, row) in all["entries"].as_object().unwrap() {
        let mut e = entry(
            row["path"].as_str().unwrap(),
            row["jobid"].as_str().unwrap(),
            row["created_at_secs"].as_u64().unwrap(),
            row["delete_at_secs"].as_u64().unwrap(),
            row["inode"].as_u64().unwrap(),
        );
        e.raw_path = row
            .get("raw_path")
            .map(|v| v.as_array().unwrap().iter().map(|n| n.as_u64().unwrap() as u8).collect());
        rows.push((key.clone(), e));
    }
    StateFile::Parsed(State::from_rows(all["version"].as_u64().unwrap() as u32, rows))
}

#[test]
fn round_trip_through_json() {
    let mut s = State::empty();
    s.entries.insert(State::key(42, 1_000), entry("/x/y", "127.0.0.1:5000", 1_000, 2_000, 42));
    let loaded = State::load(from_json(&to_json(&s))).unwrap();
    assert_eq!(loaded.version, State::VERSION);
    assert_eq!(loaded.entries.len(), 1);
    assert_eq!(loaded.entries.get(&State::key(42, 1_000)).unwrap().jobid, "127.0.0.1:5000");
    assert_eq!(loaded, s);
}

#[test]
fn missing_file_is_empty_state() {
    let s = State::load(StateFile::Missing).unwrap();
    assert!(s.entries.is_empty());
    assert_eq!(s.version, State::VERSION);
}

#[test]
fn prune_orphans_removes_missing_paths() {
    let mut s = State { version: State::VERSION, ..State::default() };
    s.entries.insert("1:1".into(), entry("/d/alive", "j1", 1, 2, 1));
    s.entries.insert("2:2".into(), entry("/d/ghost", "j2", 2, 3, 2));
    let removed = s.prune_orphans(|p| p == b"/d/alive");
    assert_eq!(removed, 1);
    assert_eq!(s.entries.len(), 1);
    assert_eq!(s.entries.get("1:1").unwrap().jobid, "j1");
}

#[test]
fn keys_are_inode_and_time() {
    assert_eq!(State::key(42, 1_000), "42:1000");
    assert_eq!(State::key(0, u64::MAX), "0:18446744073709551615");
    assert_ne!(State::key(1, 11), State::key(11, 1));
}

#[test]
fn versions_of_loaded_states() {
    let s = State::load(StateFile::Parsed(State::default())).unwrap();
    assert_eq!(s.version, 1);
    let s = State::load(StateFile::Parsed(State::from_rows(7, Vec::new()))).unwrap();
    assert_eq!(s.version, 7);
}

#[test]
fn malformed_file_is_an_error() {
    for bytes in [&b"{"[..], b"", b"no"] {
        assert!(matches!(State::load(from_json(bytes)), Err(LoadError::InvalidData(_))));
    }
}

#[test]
fn failures_to_load_are_told_apart() {
    let e = State::load(StateFile::Unreadable("denied".to_string())).unwrap_err();
    assert_eq!(e, LoadError::Io("denied".to_string()));
    assert_eq!(e.text(), "denied");
    let e = State::load(StateFile::Malformed("bad".to_string())).unwrap_err();
    assert_eq!(e, LoadError::InvalidData("bad".to_string()));
    assert_eq!(e.text(), "bad");
}

#[test]
fn state_is_kept_in_the_root() {
    assert_eq!(state_file(b"/r"), b"/r/.bomb-ttl/state.json");
    assert_eq!(state_file(b"/r/"), b"/r/.bomb-ttl/state.json");
    assert_eq!(state_file(b""), b".bomb-ttl/state.json");
}

#[test]
fn later_rows_count() {
    let rows = vec![
        ("b".to_string(), entry("/1", "j1", 1, 1, 1)),
        ("a".to_string(), entry("/2", "j2", 2, 2, 2)),
        ("b".to_string(), entry("/3", "j3", 3, 3, 3)),
    ];
    let s = State::from_rows(1, rows);
    assert_eq!(s.entries.len(), 2);
    assert_eq!(s.entries.key_at(0), "a");
    assert_eq!(s.entries.entry_at(1).path, "/3");
    assert_eq!(s.clone(), s);
}

fn two_entries() -> State {
    State::from_rows(
        1,
        vec![
            ("2:2".to_string(), entry("/d/two", "j2", 2, 86_400, 2)),
            ("1:1".to_string(), entry("/d/one", "j1", 1, 0, 1)),
        ],
    )
}

#[test]
fn listing_is_in_the_order_of_the_keys() {
    assert_eq!(run_list(&State::empty()), vec!["(no scheduled entries)"]);
    assert_eq!(
        run_list(&two_entries()),
        vec![
            "path\tjobid\tdelete_at_unix\tdelete_at_iso",
            "/d/one\tj1\t0\t1970-01-01T00:00:00Z",
            "/d/two\tj2\t86400\t1970-01-02T00:00:00Z",
        ]
    );
}

#[test]
fn listing_prints_and_exits() {
    let out = |s: &str| Line::Stdout(s.to_string());
    assert_eq!(list_outcome(StateFile::Missing), (vec![out("(no scheduled entries)")], 0));
    assert_eq!(
        list_outcome(StateFile::Parsed(two_entries())),
        (
            vec![
                out("path\tjobid\tdelete_at_unix\tdelete_at_iso"),
                out("/d/one\tj1\t0\t1970-01-01T00:00:00Z"),
                out("/d/two\tj2\t86400\t1970-01-02T00:00:00Z"),
            ],
            0
        )
    );
    for file in [StateFile::Unreadable("bad".to_string()), StateFile::Malformed("bad".to_string())] {
        assert_eq!(
            list_outcome(file),
            (vec![Line::Stderr("bomb-ttl: load state: bad".to_string())], 1)
        );
    }
}

#[test]
fn cancel_finds_by_path_or_by_name() {
    for t in ["/d/two", "/d//./two/", "two", "/elsewhere/two"] {
        let mut s = two_entries();
        assert_eq!(s.cancel(t.as_bytes()).unwrap().jobid, "j2");
        assert_eq!(s.entries.len(), 1);
        assert!(s.entries.get("1:1").is_some());
    }
    let mut s = two_entries();
    assert!(s.cancel(b"/d/three").is_none());
    assert!(s.cancel(b"/d").is_none());
    assert!(s.cancel(b"/").is_none());
    assert_eq!(s, two_entries());
    let mut s = two_entries();
    s.entries.insert("0".to_string(), entry("/other/two", "j0", 0, 0, 0));
    // The entry of that path, though another of that name comes first.
    assert_eq!(s.cancel(b"/d/two").unwrap().jobid, "j2");
    assert_eq!(s.entries.len(), 2);
    // With no entry of that path left, the first of that name.
    assert_eq!(s.cancel(b"/d/two").unwrap().jobid, "j0");
    assert!(s.cancel(b"/d/two").is_none());
}

fn raw(bytes: &[u8], jobid: &str, inode: u64) -> StateEntry {
    let mut e = entry(&String::from_utf8_lossy(bytes), jobid, 1, 2, inode);
    e.raw_path = Some(bytes.to_vec());
    e
}

#[test]
fn paths_that_are_not_text_are_kept_apart() {
    let mut s = State::empty();
    s.entries.insert(State::key(1, 1), raw(b"/d/a\xff", "j1", 1));
    s.entries.insert(State::key(2, 1), raw(b"/d/a\xfe", "j2", 2));
    assert_eq!(s.entries.entry_at(0).path, s.entries.entry_at(1).path);
    assert_eq!(s.entries.entry_at(0).path_bytes(), b"/d/a\xff");
    assert_eq!(two_entries().entries.entry_at(0).path_bytes(), b"/d/one");
    assert_eq!(State::load(from_json(&to_json(&s))).unwrap(), s);
    assert_eq!(s.clone(), s);

    let mut c = s.clone();
    assert_eq!(c.cancel(b"/d/a\xfe").unwrap().jobid, "j2");
    assert!(c.cancel(b"/d/a\xfe").is_none());
    assert_eq!(c.cancel(b"a\xff").unwrap().jobid, "j1");

    assert_eq!(s.prune_orphans(|p| p == b"/d/a\xfe"), 1);
    assert_eq!(s.entries.entry_at(0).jobid, "j2");
}

#[test]
fn state_without_version_reads_back_as_the_first() {
    let s = State::from_rows(0, vec![("1:1".to_string(), entry("/d/one", "j1", 1, 0, 1))]);
    let loaded = State::load(from_json(&to_json(&s))).unwrap();
    assert_eq!(loaded.version, State::VERSION);
    assert_eq!(loaded.entries, s.entries);
}

fn cancel_run(outcome: Result<bool, QsubError>, saved: CancelInput) -> (Vec<Line>, u8, usize) {
    let mut c = Cancel::new(b"/d/two".to_vec(), b"two".to_vec());
    let mut lines = Vec::new();
    assert!(matches!(c.action(), CancelAction::LoadState));
    lines.extend(c.step(CancelInput::Loaded(StateFile::Parsed(two_entries()))));
    match c.action() {
        CancelAction::DeleteJob { jobid } => assert_eq!(jobid, "j2"),
        other => panic!("{:?}", other),
    }
    lines.extend(c.step(CancelInput::Deleted(outcome)));
    assert!(matches!(c.action(), CancelAction::SaveState));
    let left = c.state().entries.len();
    lines.extend(c.step(saved));
    match c.action() {
        CancelAction::Exit { code } => (lines, code, left),
        other => panic!("{:?}", other),
    }
}

#[test]
fn cancel_drops_the_entry_whatever_qdel_says() {
    let out = |s: &str| Line::Stdout(s.to_string());
    let err = |s: &str| Line::Stderr(s.to_string());
    assert_eq!(
        cancel_run(Ok(true), CancelInput::Saved),
        (vec![out("cancelled jobid=j2 path=/d/two")], 0, 1)
    );
    assert_eq!(
        cancel_run(Ok(false), CancelInput::Saved),
        (vec![out("qdel j2 returned non-zero (entry dropped from state anyway)")], 0, 1)
    );
    assert_eq!(
        cancel_run(Err(QsubError::Io("x".to_string())), CancelInput::SaveFailed("full".to_string())),
        (vec![err("bomb-ttl: qdel j2: qsub io: x"), err("bomb-ttl: save state: full")], 1, 1)
    );
}

#[test]
fn cancel_that_ends_early() {
    let mut c = Cancel::new(b"/d/three".to_vec(), b"./three".to_vec());
    let line = c.step(CancelInput::Loaded(StateFile::Parsed(two_entries())));
    assert_eq!(line, Some(Line::Stderr("bomb-ttl: no scheduled entry for ./three".to_string())));
    assert!(matches!(c.action(), CancelAction::Exit { code: 2 }));
    let mut c = Cancel::new(b"/d/three".to_vec(), b"./three".to_vec());
    let line = c.step(CancelInput::Loaded(StateFile::Unreadable("bad".to_string())));
    assert_eq!(line, Some(Line::Stderr("bomb-ttl: load state: bad".to_string())));
    assert!(matches!(c.action(), CancelAction::Exit { code: 1 }));
}
