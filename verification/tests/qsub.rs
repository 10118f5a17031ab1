use bomb_ttl::qsub::{
    delayed_rm_command, launch_error, parse_node_line, qdel, shell_single_quote,
    submit_delayed_rm, submit_delayed_rm_with_bin, NodeSearch, QsubError, SearchStep,
};
use bomb_ttl::time::Span;

#[test]
fn parses_classic_node_line() {
    let o = parse_node_line("[qsub] node 127.0.0.1:54321  workdir /x/.tren-abc\n").unwrap();
    assert_eq!(o.jobid, "127.0.0.1:54321");
    assert_eq!(o.workdir.as_deref(), Some("/x/.tren-abc"));
}

#[test]
fn parses_addr_only() {
    let o = parse_node_line("[qsub] node 127.0.0.1:1\n").unwrap();
    assert_eq!(o.jobid, "127.0.0.1:1");
    assert_eq!(o.workdir, None);
}

#[test]
fn ignores_unrelated_lines() {
    assert!(parse_node_line("[qsub] exit=0\n").is_none());
    assert!(parse_node_line("hello\n").is_none());
}

#[test]
fn shell_quote_handles_apostrophe() {
    let q = shell_single_quote("a'b c");
    assert_eq!(q, "'a'\\''b c'");
}

#[test]
fn node_line_may_be_indented_but_needs_an_address() {
    let o = parse_node_line(" \t\u{3000}[qsub] node \u{a0}here\u{2028}workdir").unwrap();
    assert_eq!(o.jobid, "here");
    assert_eq!(o.workdir, None);
    assert!(parse_node_line("[qsub] node   \n").is_none());
    assert!(parse_node_line("[qsub] node").is_none());
    assert!(parse_node_line("").is_none());
    assert!(parse_node_line("x [qsub] node a").is_none());
}

#[test]
fn node_line_workdir_needs_its_tag() {
    let o = parse_node_line("[qsub] node a dir /x").unwrap();
    assert_eq!(o.workdir, None);
    let o = parse_node_line("[qsub] node a workdir /x extra").unwrap();
    assert_eq!(o.workdir.as_deref(), Some("/x"));
}

#[test]
fn shell_quote_of_plain_and_empty_text() {
    assert_eq!(shell_single_quote(""), "''");
    assert_eq!(shell_single_quote("$x `y` \"z\" \n"), "'$x `y` \"z\" \n'");
    assert_eq!(shell_single_quote("''"), "''\\'''\\'''");
}

/// The value of one shell word made of quotations and escaped characters.
fn read_word(t: &str) -> Option<String> {
    let mut out = String::new();
    let mut it = t.chars();
    let mut quoted = false;
    while let Some(c) = it.next() {
        match (quoted, c) {
            (true, '\'') => quoted = false,
            (true, c) => out.push(c),
            (false, '\'') => quoted = true,
            (false, '\\') => out.push(it.next()?),
            _ => return None,
        }
    }
    if quoted {
        None
    } else {
        Some(out)
    }
}

#[test]
fn quoted_text_reads_back() {
    for s in ["", "a", "a'b", "'", "it''s \\ 'x'", "/tmp/a b;rm -rf /"] {
        assert_eq!(read_word(&shell_single_quote(s)).as_deref(), Some(s));
    }
}

#[test]
fn command_sleeps_for_whole_seconds() {
    assert_eq!(
        delayed_rm_command(b"/x/it's", &Span::new(3599, 999_999_999)),
        b"sleep 3599 && rm -rf -- '/x/it'\\''s'"
    );
    assert_eq!(delayed_rm_command(b"a", &Span::from_secs(0)), b"sleep 0 && rm -rf -- 'a'");
}

#[test]
fn command_keeps_bytes_that_are_not_text() {
    assert_eq!(
        delayed_rm_command(b"/x/\xff'\x80", &Span::from_secs(5)),
        b"sleep 5 && rm -rf -- '/x/\xff'\\''\x80'"
    );
    let l = submit_delayed_rm(None, b"/x/\xff", &Span::from_secs(5));
    assert_eq!(l.args[2], b"sleep 5 && rm -rf -- '/x/\xff'");
}

#[test]
fn text_is_quoted_as_its_bytes() {
    for s in ["", "plain", "it's", "caf\u{e9} '\u{1f4a3}'"] {
        let mut want = b"sleep 0 && rm -rf -- ".to_vec();
        want.extend_from_slice(shell_single_quote(s).as_bytes());
        assert_eq!(delayed_rm_command(s.as_bytes(), &Span::from_secs(0)), want);
    }
}

#[test]
fn qsub_is_started_with_bash() {
    let l = submit_delayed_rm(None, b"/x", &Span::from_secs(7));
    assert_eq!(l.program, "qsub");
    assert_eq!(l.args, vec![&b"bash"[..], b"-c", b"sleep 7 && rm -rf -- '/x'"]);
    let l = submit_delayed_rm(Some("/opt/qsub".to_string()), b"/x", &Span::from_secs(7));
    assert_eq!(l.program, "/opt/qsub");
    let l = submit_delayed_rm_with_bin(String::new(), b"/x", &Span::from_secs(7));
    assert_eq!(l.program, "");
    assert_eq!(l.args.len(), 3);
}

#[test]
fn qdel_is_started_with_the_job() {
    let l = qdel(None, "127.0.0.1:1");
    assert_eq!(l.program, "qdel");
    assert_eq!(l.args, vec![b"127.0.0.1:1"]);
    assert_eq!(qdel(Some("q".to_string()), "j").program, "q");
}

#[test]
fn errors_have_messages() {
    assert_eq!(
        launch_error(false, "nope".to_string()).text(),
        "qsub not found on PATH — did you `source <tren-crc>/scheduler/env.sh`?"
    );
    assert_eq!(launch_error(true, "denied".to_string()).text(), "qsub io: denied");
    assert_eq!(
        QsubError::NoJobAddress.text(),
        "qsub closed before printing `[qsub] node …` job address"
    );
}

fn search(has_stderr: bool, has_stdout: bool, errs: &[&str], outs: &[&str]) -> (Option<String>, usize, usize) {
    let mut s = NodeSearch::new(has_stderr, has_stdout);
    let (mut e, mut o) = (0, 0);
    loop {
        match s.step() {
            SearchStep::ReadStderr => {
                s.feed(errs.get(e).copied());
                e += 1;
            }
            SearchStep::ReadStdout => {
                s.feed(outs.get(o).copied());
                o += 1;
            }
            SearchStep::Done => break,
        }
    }
    match s.finish() {
        Ok(found) => (Some(found.jobid), e, o),
        Err(err) => {
            assert!(matches!(err, QsubError::NoJobAddress));
            (None, e, o)
        }
    }
}

#[test]
fn search_stops_at_the_first_node_line() {
    let errs = ["noise\n", "[qsub] node a\n", "[qsub] node b\n"];
    assert_eq!(search(true, true, &errs, &["[qsub] node c\n"]), (Some("a".to_string()), 2, 0));
}

#[test]
fn search_turns_to_stdout_when_stderr_ends() {
    let r = search(true, true, &["noise\n"], &["x\n", "[qsub] node c\n"]);
    assert_eq!(r, (Some("c".to_string()), 2, 2));
    assert_eq!(search(true, false, &["noise\n"], &["[qsub] node c\n"]), (None, 2, 0));
    assert_eq!(search(false, true, &["[qsub] node a\n"], &["[qsub] node c\n"]), (None, 0, 0));
}

#[test]
fn search_reads_stderr_until_it_ends() {
    for n in [15, 16, 17, 500] {
        let mut lines = vec!["noise\n"; n];
        assert_eq!(search(true, false, &lines, &[]), (None, n + 1, 0));
        lines.push("[qsub] node late\n");
        assert_eq!(search(true, true, &lines, &[]), (Some("late".to_string()), n + 1, 0));
    }
}

#[test]
fn search_looks_at_sixteen_lines_of_stdout() {
    let mut lines = vec!["noise\n"; 16];
    lines.push("[qsub] node late\n");
    assert_eq!(search(true, true, &[], &lines), (None, 1, 16));
    lines[15] = "[qsub] node last\n";
    assert_eq!(search(true, true, &[], &lines), (Some("last".to_string()), 1, 16));
}
