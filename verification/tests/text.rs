use bomb_ttl::entries::EntryMap;
use bomb_ttl::paths::{file_name, same_file_name, same_path};
use bomb_ttl::setup::{ensure_root, resolve_root, SetupStep, GITIGNORE_TEXT, README_TEXT};
use bomb_ttl::state::StateEntry;
use bomb_ttl::text::{is_white_space, parse_u64};
use bomb_ttl::time::{Span, Timestamp};
use std::collections::BTreeMap;
use std::path::Path;

#[test]
fn white_space_is_what_unicode_says() {
    for n in 0..=0x10_ffffu32 {
        if let Some(c) = char::from_u32(n) {
            assert_eq!(is_white_space(c), c.is_whitespace(), "{:x}", n);
        }
    }
}

#[test]
fn numbers_are_parsed_as_std_does() {
    for s in [
        "", "0", "7", "+7", "-7", "-0", "+", "++1", "+-1", " 1", "1 ", "1_0", "007", "٣", "18446744073709551615",
        "18446744073709551616", "99999999999999999999", "000000000000000000000001", "0x10", "1e3",
        "18446744073709551615x", "18446744073709551616x",
    ] {
        assert_eq!(parse_u64(s), s.parse::<u64>().ok(), "{:?}", s);
    }
}

#[test]
fn paths_are_compared_as_std_does() {
    let all = [
        "", "/", ".", "..", "./", "../", "/.", "/..", "a", "./a", "a/", "a/.", "a//b", "a/b", "a/./b",
        "/a/b", "//a/b", "/a/./b/", "./a/b", "././a/b", ".//a", "a/..", "a/../b", "..a", ".a", "a.", "/a/b/.",
        "...", "b", "/x/b", "é/ü",
    ];
    for a in all {
        let name = file_name(a.as_bytes()).map(|n| String::from_utf8(n).unwrap());
        assert_eq!(name.as_deref(), Path::new(a).file_name().map(|n| n.to_str().unwrap()), "{:?}", a);
        for b in all {
            assert_eq!(same_path(a.as_bytes(), b.as_bytes()), Path::new(a) == Path::new(b), "{:?} {:?}", a, b);
            assert_eq!(
                same_file_name(a.as_bytes(), b.as_bytes()),
                Path::new(a).file_name() == Path::new(b).file_name(),
                "{:?} {:?}",
                a,
                b
            );
        }
    }
}

fn bytes(s: &str) -> Vec<u8> {
    s.as_bytes().to_vec()
}

#[test]
fn explicit_root_wins() {
    let r = resolve_root(Some(bytes("x")), Some("y".to_string()), Some(bytes("/z")));
    assert_eq!(r, bytes("x"));
    assert_eq!(resolve_root(Some(bytes("")), Some("y".to_string()), None), bytes(""));
}

#[test]
fn environment_names_the_root() {
    assert_eq!(resolve_root(None, Some("/e/é".to_string()), Some(bytes("/z"))), bytes("/e/é"));
}

#[test]
fn working_directory_holds_the_root() {
    assert_eq!(resolve_root(None, None, Some(bytes("/z"))), bytes("/z/Workspace/tmp"));
    assert_eq!(resolve_root(None, Some(String::new()), Some(bytes("/"))), bytes("/Workspace/tmp"));
    assert_eq!(resolve_root(None, None, None), bytes("./Workspace/tmp"));
}

fn steps(has_gitignore: bool, has_readme: bool) -> Vec<(String, Option<String>)> {
    ensure_root(has_gitignore, has_readme)
        .into_iter()
        .map(|s| match s {
            SetupStep::WriteFile { name, contents } => (name, Some(contents)),
            SetupStep::MakeDir { name } => (name, None),
        })
        .collect()
}

#[test]
fn new_root_gets_its_files() {
    let gi = (".gitignore".to_string(), Some("*\n!.gitignore\n!README.md\n".to_string()));
    let rm = ("README.md".to_string(), Some(README_TEXT.to_string()));
    let sd = (".bomb-ttl".to_string(), None);
    assert_eq!(GITIGNORE_TEXT, "*\n!.gitignore\n!README.md\n");
    assert!(README_TEXT.starts_with("# Workspace/tmp/\n\nPrimary scratch directory. Files placed here are swept by\n[chikaharu"));
    assert!(README_TEXT.ends_with("`qsub` scheduler.\n\nDo **not** put long-lived sources, build outputs you want to\nkeep, or anything you can't reproduce here.\n"));
    assert_eq!(steps(false, false), vec![gi.clone(), rm.clone(), sd.clone()]);
    assert_eq!(steps(true, false), vec![rm, sd.clone()]);
    assert_eq!(steps(false, true), vec![gi, sd.clone()]);
    assert_eq!(steps(true, true), vec![sd]);
}

#[test]
fn spans_and_timestamps() {
    let a = Span::new(3, 100);
    let b = Span::new(1, 999_999_999);
    assert!(a.at_least(&b) && !b.at_least(&a) && a.at_least(&a));
    assert_eq!(a.minus(&b), Span::new(1, 101));
    assert_eq!((a.as_secs(), b.as_secs()), (3, 1));
    let t = Timestamp::new(-1, 500_000_000);
    let u = Timestamp::new(2, 250_000_000);
    assert_eq!(u.since(&t), Span::new(2, 750_000_000));
    assert_eq!(t.since(&u), Span::from_secs(0));
    assert_eq!(t.secs_since_epoch(), 0);
    assert_eq!(u.secs_since_epoch(), 2);
    assert_eq!(Timestamp::new(i64::MAX, 0).since(&Timestamp::new(i64::MIN, 0)), Span::from_secs(u64::MAX));
}

fn entry(n: u64) -> StateEntry {
    StateEntry {
        path: format!("/p{}", n),
        raw_path: if n % 2 == 0 { None } else { Some(vec![b'/', 0xff, n as u8]) },
        jobid: format!("j{}", n),
        created_at_secs: n,
        delete_at_secs: n + 1,
        inode: n,
    }
}

#[test]
fn entries_are_kept_as_in_an_ordered_map() {
    let keys = ["10:1", "9:1", "é", "z", "", "1", "10", "10:", "\u{10000}", "\u{ffff}", "9:1", "a"];
    let mut m = EntryMap::new();
    let mut b: BTreeMap<String, StateEntry> = BTreeMap::new();
    for (i, k) in keys.iter().enumerate() {
        m.insert(k.to_string(), entry(i as u64));
        b.insert(k.to_string(), entry(i as u64));
    }
    for k in ["10", "none", "é"] {
        assert_eq!(m.remove(k), b.remove(k));
    }
    assert_eq!(m.len(), b.len());
    for (i, (k, e)) in b.iter().enumerate() {
        assert_eq!(m.key_at(i), k);
        assert_eq!(m.entry_at(i), e);
        assert_eq!(m.get(k), Some(e));
    }
    assert!(m.get("10").is_none());
    assert_eq!(m.clone(), m);
    let live: Vec<bool> = (0..m.len()).map(|i| i % 2 == 0).collect();
    assert_eq!(m.retain_live(&live), b.len() / 2);
    let left: Vec<&String> = b.keys().enumerate().filter(|(i, _)| i % 2 == 0).map(|(_, k)| k).collect();
    assert_eq!(left, (0..m.len()).map(|i| m.key_at(i)).collect::<Vec<_>>());
    assert_eq!(&m.remove_at(1), &b[left[1]]);
    assert_eq!(m.len(), left.len() - 1);
}
