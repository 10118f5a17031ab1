use bomb_ttl::cli::{daemon_banner, event_text, interval_from, print_report, scan_exit_code, ttl_from, ttl_minutes};
use bomb_ttl::daemon::{Daemon, DaemonAction};
use bomb_ttl::qsub::{QsubError, QsubOutcome};
use bomb_ttl::scan::{ScanEvent, ScanReport};
use bomb_ttl::state::{State, StateEntry, StateFile};
use bomb_ttl::sweep::{kept_name, FileMeta, Sweep, SweepAction, SweepInput};
use bomb_ttl::time::{Span, Timestamp};

/// A root directory in memory.
struct Root {
    files: Vec<(Vec<u8>, FileMeta)>,
    state: Option<State>,
    can_stat: bool,
    can_remove: bool,
    can_list: bool,
    can_save: bool,
    qsub: fn(&[u8]) -> Result<QsubOutcome, QsubError>,
    submitted: Vec<(Vec<u8>, u64)>,
}

fn at(secs: i64) -> Timestamp {
    Timestamp::new(secs, 0)
}

fn meta(inode: u64, created: i64) -> FileMeta {
    FileMeta { inode, is_dir: false, created: Some(at(created)), modified: None, clock: at(0) }
}

fn accept(path: &[u8]) -> Result<QsubOutcome, QsubError> {
    Ok(QsubOutcome { jobid: format!("127.0.0.1:{}", path.len()), workdir: None })
}

/// The path of the entry with this name.
fn path_of(name: &[u8]) -> Vec<u8> {
    [b"/r/", name].concat()
}

fn root(files: &[(&str, FileMeta)]) -> Root {
    Root {
        files: files.iter().map(|(n, m)| (n.as_bytes().to_vec(), *m)).collect(),
        state: None,
        can_stat: true,
        can_remove: true,
        can_list: true,
        can_save: true,
        qsub: accept,
        submitted: Vec::new(),
    }
}

fn failed() -> String {
    "denied".to_string()
}

fn scan_root(root: &mut Root, ttl: u64, now: i64) -> ScanReport {
    let mut sweep = Sweep::new(b"/r".to_vec(), Span::from_secs(ttl), at(now));
    let mut listing = root.files.clone();
    listing.reverse();
    let mut current: Option<(Vec<u8>, FileMeta)> = None;
    loop {
        let input = match sweep.action() {
            SweepAction::LoadState { file } => {
                assert_eq!(file, b"/r/.bomb-ttl/state.json");
                SweepInput::Loaded(match &root.state {
                    Some(s) => StateFile::Parsed(s.clone()),
                    None => StateFile::Missing,
                })
            }
            SweepAction::CheckPaths => {
                let s = sweep.state();
                let live = (0..s.entries.len())
                    .map(|i| {
                        let path = s.entries.entry_at(i).path_bytes();
                        root.files.iter().any(|(n, _)| path_of(n) == path)
                    })
                    .collect();
                SweepInput::Checked(live)
            }
            SweepAction::ListRoot { root: dir } => {
                assert_eq!(dir, b"/r");
                if root.can_list {
                    SweepInput::Listed
                } else {
                    SweepInput::ListFailed(failed())
                }
            }
            SweepAction::NextEntry => match listing.pop() {
                Some((n, m)) => {
                    current = Some((n.clone(), m));
                    SweepInput::Entry { name: n }
                }
                None => SweepInput::NoMoreEntries,
            },
            SweepAction::StatEntry { target } => {
                let (name, m) = current.clone().unwrap();
                assert_eq!(target, path_of(&name));
                if root.can_stat {
                    SweepInput::Stat(m)
                } else {
                    SweepInput::StatFailed(failed())
                }
            }
            SweepAction::RemoveEntry { target, is_dir } => {
                let (name, m) = current.clone().unwrap();
                assert_eq!(target, path_of(&name));
                assert_eq!(is_dir, m.is_dir);
                if root.can_remove {
                    root.files.retain(|(n, _)| *n != name);
                    SweepInput::Removed
                } else {
                    SweepInput::RemoveFailed(failed())
                }
            }
            SweepAction::SubmitEntry { target, delay } => match (root.qsub)(&target) {
                Ok(o) => {
                    root.submitted.push((target, delay.as_secs()));
                    SweepInput::Submitted(o)
                }
                Err(e) => SweepInput::SubmitFailed(e),
            },
            SweepAction::SaveState { file } => {
                assert_eq!(file, b"/r/.bomb-ttl/state.json");
                if root.can_save {
                    root.state = Some(sweep.state().clone());
                    SweepInput::Saved
                } else {
                    SweepInput::SaveFailed(failed())
                }
            }
            SweepAction::Finish => return sweep.into_report(),
        };
        assert!(sweep.can_count(&input));
        sweep.step(input);
    }
}

fn placed() -> Vec<(&'static str, FileMeta)> {
    vec![(".bomb-ttl", meta(1, 0)), (".gitignore", meta(2, 0)), ("README.md", meta(3, 0))]
}

#[test]
fn deletes_past_ttl_immediately_no_qsub_needed() {
    let mut files = placed();
    files.push(("stale.txt", meta(4, 1_000)));
    let mut r = root(&files);
    let report = scan_root(&mut r, 60, 1_000 + 120);
    assert!(!r.files.iter().any(|(n, _)| n == b"stale.txt"), "stale file should be deleted on the spot");
    assert_eq!(report.stats.deleted_now, 1);
    assert_eq!(report.stats.newly_scheduled, 0);
    assert!(matches!(report.events[0], ScanEvent::DeletedNow { .. }));
    assert_eq!(r.files.len(), 3);
}

#[test]
fn schedules_future_entry_via_qsub_once_idempotent() {
    let mut files = placed();
    files.push(("fresh.txt", meta(4, 1_000)));
    let mut r = root(&files);
    let r1 = scan_root(&mut r, 3600, 1_000);
    assert_eq!(r1.stats.seen, 1, "events: {:#?}", r1.events);
    assert_eq!(r1.stats.newly_scheduled, 1, "events: {:#?}", r1.events);
    assert_eq!(r1.stats.deleted_now, 0);

    let s = r.state.clone().unwrap();
    assert_eq!(s.entries.len(), 1);
    let entry = s.entries.entry_at(0);
    assert!(entry.jobid.starts_with("127.0.0.1:"), "jobid={}", entry.jobid);
    assert!(entry.delete_at_secs > 0);
    assert_eq!(entry.delete_at_secs, 4_600);
    assert_eq!(s.entries.key_at(0), "4:1000");

    let r2 = scan_root(&mut r, 3600, 1_000);
    assert_eq!(r2.stats.newly_scheduled, 0, "second scan must not re-queue: {:#?}", r2.events);
    assert_eq!(r2.stats.already_scheduled, 1);
    assert_eq!(r.submitted, vec![(b"/r/fresh.txt".to_vec(), 3600)]);
}

#[test]
fn skips_state_dir_and_meta_files() {
    let mut r = root(&placed());
    let report = scan_root(&mut r, 3600, 0);
    assert_eq!(report.stats.seen, 0, "ensure_root meta files must be skipped: {:#?}", report.events);
    assert_eq!(report.stats.newly_scheduled, 0);
    // Not even once they are past their time to live.
    let report = scan_root(&mut r, 3600, 100_000);
    assert_eq!(report.stats.seen, 0);
    assert_eq!(r.files.len(), 3);
}

#[test]
fn prunes_orphan_state_entries() {
    let mut r = root(&placed());
    let mut s = State::empty();
    s.entries.insert(
        "99:99".into(),
        StateEntry {
            path: "/r/ghost".to_string(),
            raw_path: None,
            jobid: "127.0.0.1:1".into(),
            created_at_secs: 1,
            delete_at_secs: 99_999_999_999,
            inode: 99,
        },
    );
    r.state = Some(s);
    let report = scan_root(&mut r, 3600, 0);
    assert_eq!(report.stats.orphans_pruned, 1);
    assert!(r.state.unwrap().entries.is_empty());
}

#[test]
fn recreated_file_gets_a_fresh_schedule() {
    let mut r = root(&[("f", meta(4, 1_000))]);
    scan_root(&mut r, 3600, 1_000);
    r.files = vec![(b"f".to_vec(), meta(4, 1_001))];
    let report = scan_root(&mut r, 3600, 1_001);
    assert_eq!(report.stats.newly_scheduled, 1);
    r.files = vec![(b"f".to_vec(), meta(5, 1_001))];
    let report = scan_root(&mut r, 3600, 1_001);
    assert_eq!(report.stats.newly_scheduled, 1);
    assert_eq!(r.submitted.len(), 3);
}

#[test]
fn age_is_measured_to_the_nanosecond() {
    let mut m = meta(4, 1_000);
    m.created = Some(Timestamp::new(1_000, 1));
    let mut r = root(&[("f", m)]);
    let report = scan_root(&mut r, 60, 1_060);
    assert_eq!(report.stats.newly_scheduled, 1);
    assert_eq!(r.submitted, vec![(b"/r/f".to_vec(), 0)]);
    m.created = Some(Timestamp::new(1_000, 0));
    let mut r = root(&[("f", m)]);
    assert_eq!(scan_root(&mut r, 60, 1_060).stats.deleted_now, 1);
}

#[test]
fn birth_falls_back_to_modification_and_clock() {
    let m = FileMeta { inode: 1, is_dir: true, created: None, modified: Some(at(5)), clock: at(9) };
    assert_eq!(m.birth(), at(5));
    let n = FileMeta { modified: None, ..m };
    assert_eq!(n.birth(), at(9));
    assert_eq!(FileMeta { created: Some(at(1)), ..m }.birth(), at(1));
    // Born after the scan began, so of no age at all.
    let mut r = root(&[("f", n)]);
    scan_root(&mut r, 60, 3);
    assert_eq!(r.submitted, vec![(b"/r/f".to_vec(), 60)]);
    let mut r = root(&[("f", n)]);
    assert_eq!(scan_root(&mut r, 0, 3).stats.deleted_now, 1);
}

#[test]
fn time_before_1970_and_far_future() {
    let mut r = root(&[("f", meta(4, -10))]);
    scan_root(&mut r, 60, 0);
    assert_eq!(r.submitted, vec![(b"/r/f".to_vec(), 50)]);
    let s = r.state.unwrap();
    assert_eq!(s.entries.key_at(0), "4:0");
    let mut r = root(&[("f", meta(4, i64::MAX))]);
    scan_root(&mut r, u64::MAX, 0);
    assert_eq!(r.state.unwrap().entries.entry_at(0).delete_at_secs, u64::MAX);
}

#[test]
fn names_that_are_not_text_are_swept() {
    let mut r = root(&[]);
    r.files = vec![(b"old\xff".to_vec(), meta(4, 0)), (b"new\xff".to_vec(), meta(5, 990))];
    let report = scan_root(&mut r, 60, 1_000);
    assert_eq!((report.stats.seen, report.stats.deleted_now, report.stats.newly_scheduled), (2, 1, 1));
    assert_eq!(r.files.len(), 1);
    assert_eq!(r.submitted, vec![(b"/r/new\xff".to_vec(), 50)]);
    assert_eq!(
        print_report(&report)[1..],
        [
            "  - deleted /r/old\u{fffd} (age 1000s)",
            "  + queued /r/new\u{fffd} jobid=127.0.0.1:7 delay=50s",
        ]
    );
    let s = r.state.clone().unwrap();
    assert_eq!(s.entries.entry_at(0).path, "/r/new\u{fffd}");
    assert_eq!(s.entries.entry_at(0).raw_path.as_deref(), Some(&b"/r/new\xff"[..]));
    assert_eq!(s.entries.entry_at(0).path_bytes(), b"/r/new\xff");

    // It is found again, so its record is neither pruned nor made twice.
    let report = scan_root(&mut r, 60, 1_000);
    assert_eq!((report.stats.orphans_pruned, report.stats.already_scheduled), (0, 1));
    assert_eq!(r.submitted.len(), 1);
}

#[test]
fn names_that_are_kept() {
    for n in [".bomb-ttl", ".gitignore", "README.md"] {
        assert!(kept_name(n.as_bytes()));
    }
    for n in ["", "README.m", "README.md2", "readme.md", ".bomb", "\u{fffd}"] {
        assert!(!kept_name(n.as_bytes()));
    }
}

#[test]
fn deleting_drops_the_record() {
    let mut r = root(&[("f", meta(4, 1_000)), ("g", meta(5, 1_000))]);
    scan_root(&mut r, 60, 1_000);
    assert_eq!(r.state.as_ref().unwrap().entries.len(), 2);
    r.can_remove = false;
    let report = scan_root(&mut r, 60, 2_000);
    assert_eq!((report.stats.errors, report.stats.deleted_now), (2, 0));
    assert_eq!(r.state.as_ref().unwrap().entries.len(), 2);
    r.can_remove = true;
    let report = scan_root(&mut r, 60, 2_000);
    assert_eq!((report.stats.errors, report.stats.deleted_now), (0, 2));
    assert!(r.state.unwrap().entries.is_empty());
}

fn only_error(report: &ScanReport) -> (Vec<u8>, String) {
    assert_eq!(report.stats.errors, 1);
    assert_eq!(scan_exit_code(report), 1);
    match &report.events[..] {
        [ScanEvent::Error { path, message }] => (path.clone(), message.clone()),
        other => panic!("{:?}", other),
    }
}

fn pair(path: &str, message: &str) -> (Vec<u8>, String) {
    (path.as_bytes().to_vec(), message.to_string())
}

#[test]
fn failures_are_reported() {
    let one = [("f", meta(4, 0))];
    let mut r = root(&one);
    r.can_stat = false;
    assert_eq!(only_error(&scan_root(&mut r, 60, 0)), pair("/r/f", "stat: denied"));
    let mut r = root(&one);
    r.can_remove = false;
    assert_eq!(only_error(&scan_root(&mut r, 60, 60)), pair("/r/f", "rm: denied"));
    let mut r = root(&one);
    r.qsub = |_| Err(QsubError::NotFound);
    assert_eq!(
        only_error(&scan_root(&mut r, 60, 0)),
        pair("/r/f", "qsub not on PATH — `source <tren-crc>/scheduler/env.sh` first")
    );
    r.qsub = |_| Err(QsubError::NoJobAddress);
    assert_eq!(
        only_error(&scan_root(&mut r, 60, 0)),
        pair("/r/f", "submit qsub: qsub closed before printing `[qsub] node …` job address")
    );
    r.qsub = |_| Err(QsubError::Io("pipe".to_string()));
    assert_eq!(only_error(&scan_root(&mut r, 60, 0)), pair("/r/f", "submit qsub: qsub io: pipe"));
    assert!(r.state.unwrap().entries.is_empty());
    let mut r = root(&[]);
    r.can_save = false;
    assert_eq!(only_error(&scan_root(&mut r, 60, 0)), pair("/r/.bomb-ttl/state.json", "save state: denied"));
    let mut r = root(&one);
    r.can_list = false;
    assert_eq!(only_error(&scan_root(&mut r, 60, 0)), pair("/r", "read_dir: denied"));
    assert_eq!(r.state, Some(State::empty()));
}

#[test]
fn state_is_saved_though_the_root_cannot_be_listed() {
    let mut r = root(&[("f", meta(4, 1_000)), ("g", meta(5, 1_000))]);
    scan_root(&mut r, 60, 1_000);
    r.files.pop();
    r.can_list = false;
    let report = scan_root(&mut r, 60, 1_000);
    assert_eq!(only_error(&report), pair("/r", "read_dir: denied"));
    assert_eq!(report.stats.orphans_pruned, 1);
    let s = r.state.unwrap();
    assert_eq!(s.entries.len(), 1);
    assert_eq!(s.entries.entry_at(0).path, "/r/f");
}

#[test]
fn unreadable_state_is_an_error_and_an_empty_state() {
    for file in [StateFile::Unreadable("bad".to_string()), StateFile::Malformed("bad".to_string())] {
        let mut s = Sweep::new(b"/r/".to_vec(), Span::from_secs(1), at(0));
        s.step(SweepInput::Loaded(file));
        assert!(matches!(s.action(), SweepAction::CheckPaths));
        assert!(s.state().entries.is_empty());
        assert_eq!(s.state().version, State::VERSION);
        assert_eq!(s.stats().errors, 1);
        assert_eq!(only_error(&s.into_report()), pair("/r/.bomb-ttl/state.json", "load state: bad"));
    }
}

#[test]
fn root_that_is_not_text_is_reported_by_its_bytes() {
    let mut s = Sweep::new(b"/\xff".to_vec(), Span::from_secs(60), at(0));
    s.step(SweepInput::Loaded(StateFile::Missing));
    s.step(SweepInput::Checked(Vec::new()));
    s.step(SweepInput::Listed);
    s.step(SweepInput::Entry { name: b"f".to_vec() });
    s.step(SweepInput::Stat(meta(4, 0)));
    s.step(SweepInput::Submitted(QsubOutcome { jobid: "j".to_string(), workdir: None }));
    s.step(SweepInput::NoMoreEntries);
    s.step(SweepInput::SaveFailed(failed()));
    let report = s.into_report();
    match &report.events[..] {
        [ScanEvent::Scheduled { path, .. }, ScanEvent::Error { path: file, .. }] => {
            assert_eq!(path, b"/\xff/f");
            assert_eq!(file, b"/\xff/.bomb-ttl/state.json");
        }
        other => panic!("{:?}", other),
    }
    assert_eq!(
        print_report(&report)[1..],
        [
            "  + queued /\u{fffd}/f jobid=j delay=60s",
            "  ! error  /\u{fffd}/.bomb-ttl/state.json: save state: denied",
        ]
    );
    assert_eq!(event_text(&report.events[0], "here"), "  + queued here jobid=j delay=60s");
}

#[test]
fn every_entry_gives_one_event() {
    let mut r = root(&[("a", meta(1, 0)), ("b", meta(2, 90)), ("README.md", meta(3, 0)), ("c", meta(4, 95))]);
    scan_root(&mut root(&[]), 60, 0);
    let report = scan_root(&mut r, 60, 100);
    assert_eq!(report.stats.seen, 3);
    assert_eq!(report.events.len(), 3);
    assert_eq!(
        print_report(&report),
        vec![
            "bomb-ttl scan: seen=3 deleted_now=1 scheduled+=2 already=0 pruned=0 errors=0",
            "  - deleted /r/a (age 100s)",
            "  + queued /r/b jobid=127.0.0.1:4 delay=50s",
            "  + queued /r/c jobid=127.0.0.1:4 delay=55s",
        ]
    );
    assert_eq!(scan_exit_code(&report), 0);
    r.can_remove = false;
    r.files.push((b"d".to_vec(), meta(9, 0)));
    let report = scan_root(&mut r, 60, 100);
    assert_eq!(
        print_report(&report),
        vec![
            "bomb-ttl scan: seen=3 deleted_now=0 scheduled+=0 already=2 pruned=0 errors=1",
            "  = already /r/b jobid=127.0.0.1:4",
            "  = already /r/c jobid=127.0.0.1:4",
            "  ! error  /r/d: rm: denied",
        ]
    );
}

#[test]
fn settings_come_from_flag_then_environment_then_default() {
    assert_eq!(ttl_minutes(Some(5), Some("7")), 5);
    assert_eq!(ttl_minutes(None, Some("7")), 7);
    assert_eq!(ttl_minutes(None, Some("x")), 1440);
    assert_eq!(ttl_minutes(None, None), 1440);
    assert_eq!(ttl_from(None, None), Span::from_secs(86_400));
    assert_eq!(interval_from(None, None), Span::from_secs(60));
    assert_eq!(interval_from(Some(0), Some("9")), Span::from_secs(1));
    assert_eq!(interval_from(None, Some("0")), Span::from_secs(1));
    assert_eq!(interval_from(None, Some("300")), Span::from_secs(300));
    assert_eq!(
        daemon_banner(b"/r", &Span::from_secs(7200), &Span::from_secs(300)),
        "bomb-ttl daemon: root=/r ttl=7200s interval=300s"
    );
}

#[test]
fn daemon_scans_waits_and_stops() {
    let mut d = Daemon::new(&Span::from_secs(2));
    let seen: Vec<DaemonAction> = (0..7).map(|_| d.next(false)).collect();
    let (s, w) = (DaemonAction::Scan, DaemonAction::SleepOneSecond);
    assert_eq!(seen, vec![s, w, w, s, w, w, s]);
    assert_eq!(d.next(true), DaemonAction::Shutdown);
    assert_eq!(Daemon::new(&Span::from_secs(2)).next(true), DaemonAction::Shutdown);
}
