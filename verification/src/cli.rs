//! The settings of the program and what it prints.

use vstd::prelude::*;

use crate::calendar;
use crate::calendar::fmt_iso;
use crate::entries;
use crate::scan::{EventView, ReportView};
use crate::scan::{ScanEvent, ScanReport};
use crate::state;
use crate::state::EntryView;
use crate::state::{State, StateEntry, StateFile};
use crate::text;
use crate::text::{parse_u64, push_decimal, show};
use crate::time::{Span, NANOS_PER_SEC};

verus! {

/// A line to print, and where to.
#[derive(Debug, PartialEq, Eq)]
pub enum Line {
    Stdout(String),
    Stderr(String),
}

/// The contents of a [`Line`].
pub enum LineView {
    Stdout(Seq<char>),
    Stderr(Seq<char>),
}

impl View for Line {
    type V = LineView;

    open spec fn view(&self) -> LineView {
        match self {
            Line::Stdout(s) => LineView::Stdout(s@),
            Line::Stderr(s) => LineView::Stderr(s@),
        }
    }
}

/// The contents of each line.
pub open spec fn line_views(v: Seq<Line>) -> Seq<LineView> {
    v.map_values(|l: Line| l@)
}

/// A setting: the one that was given, else the one that the environment
/// holds, if that is a number, else `default`.
pub open spec fn setting(flag: Option<u64>, env: Option<&str>, default: u64) -> u64 {
    match flag {
        Some(n) => n,
        None => match env {
            Some(s) => match text::number_in(s@) {
                Some(n) => n,
                None => default,
            },
            None => default,
        },
    }
}

fn choose_setting(flag: Option<u64>, env: Option<&str>, default: u64) -> (n: u64)
    ensures
        n == setting(flag, env, default),
{
    if let Some(n) = flag {
        return n;
    }
    if let Some(s) = env {
        if let Some(n) = parse_u64(s) {
            return n;
        }
    }
    default
}

/// The time to live in minutes, from `--ttl` and the value of `BOMB_TTL_MIN`.
pub fn ttl_minutes(flag: Option<u64>, env: Option<&str>) -> (n: u64)
    ensures
        n == setting(flag, env, crate::DEFAULT_TTL_MIN),
{
    choose_setting(flag, env, crate::DEFAULT_TTL_MIN)
}

/// The time to live in nanoseconds.
pub open spec fn ttl_nanos(flag: Option<u64>, env: Option<&str>) -> nat {
    (setting(flag, env, crate::DEFAULT_TTL_MIN) * 60 * NANOS_PER_SEC) as nat
}

/// The time between two scans in nanoseconds.
pub open spec fn interval_nanos(flag: Option<u64>, env: Option<&str>) -> nat {
    let secs = setting(flag, env, crate::DEFAULT_INTERVAL_SEC);
    (if secs == 0 {
        1
    } else {
        secs as int
    } * NANOS_PER_SEC) as nat
}

/// What was given counts, whatever the environment holds, if it holds anything:
/// `--ttl` in minutes and `--interval` in seconds, of which there is one at
/// least.
pub proof fn law_flag_comes_first(n: u64, env: Option<&str>, default: u64)
    ensures
        setting(Some(n), env, default) == n,
        ttl_nanos(Some(n), env) == n * 60_000_000_000,
        n > 0 ==> interval_nanos(Some(n), env) == n * 1_000_000_000,
        n == 0 ==> interval_nanos(Some(n), env) == 1_000_000_000,
{
}

/// Where nothing was given, the number that the environment holds counts, in
/// the same units.
pub proof fn law_environment_comes_next(s: &str, n: u64, default: u64)
    requires
        text::number_in(s@) == Some(n),
    ensures
        setting(None, Some(s), default) == n,
        ttl_nanos(None, Some(s)) == n * 60_000_000_000,
        n > 0 ==> interval_nanos(None, Some(s)) == n * 1_000_000_000,
        n == 0 ==> interval_nanos(None, Some(s)) == 1_000_000_000,
{
}

/// Where nothing was given and the environment holds no number, the default
/// counts: 24 hours, and a minute between two scans.
pub proof fn law_default_comes_last(env: Option<&str>, default: u64)
    requires
        env is None || text::number_in(env->0@) is None,
    ensures
        setting(None, env, default) == default,
        ttl_nanos(None, env) == 24 * 3600 * 1_000_000_000,
        interval_nanos(None, env) == 60 * 1_000_000_000,
{
}

/// The time to live, from `--ttl` and the value of `BOMB_TTL_MIN`.
pub fn ttl_from(flag: Option<u64>, env: Option<&str>) -> (ttl: Span)
    requires
        setting(flag, env, crate::DEFAULT_TTL_MIN) * 60 <= u64::MAX,
    ensures
        ttl@ == setting(flag, env, crate::DEFAULT_TTL_MIN) * 60 * NANOS_PER_SEC,
        ttl@ == ttl_nanos(flag, env),
{
    Span::from_secs(ttl_minutes(flag, env) * 60)
}

/// The time between two scans, from `--interval` and the value of
/// `BOMB_TTL_INTERVAL_SEC`: one second at least.
pub fn interval_from(flag: Option<u64>, env: Option<&str>) -> (interval: Span)
    ensures
        interval@ == (if setting(flag, env, crate::DEFAULT_INTERVAL_SEC) == 0 {
            1
        } else {
            setting(flag, env, crate::DEFAULT_INTERVAL_SEC) as int
        }) * NANOS_PER_SEC,
        interval@ == interval_nanos(flag, env),
{
    let secs: u64 = choose_setting(flag, env, crate::DEFAULT_INTERVAL_SEC);
    Span::from_secs(if secs == 0 { 1 } else { secs })
}

/// The whole seconds in `nanos` nanoseconds, in decimal.
pub open spec fn secs_text(nanos: nat) -> Seq<char> {
    text::decimal(nanos / (NANOS_PER_SEC as nat))
}

/// What a daemon prints when it starts.
pub open spec fn banner_text(root: Seq<u8>, ttl: nat, interval: nat) -> Seq<char> {
    "bomb-ttl daemon: root="@ + text::shown(root) + " ttl="@ + secs_text(ttl) + "s interval="@
        + secs_text(interval) + "s"@
}

/// What a daemon prints when it starts.
pub fn daemon_banner(root: &[u8], ttl: &Span, interval: &Span) -> (s: String)
    ensures
        s@ == "bomb-ttl daemon: root="@ + text::shown(root@) + " ttl="@ + secs_text(ttl@)
            + "s interval="@ + secs_text(interval@) + "s"@,
        s@ == banner_text(root@, ttl@, interval@),
{
    let mut s = "bomb-ttl daemon: root=".to_owned();
    s.append(show(root).as_str());
    s.append(" ttl=");
    push_decimal(&mut s, ttl.as_secs());
    s.append("s interval=");
    push_decimal(&mut s, interval.as_secs());
    s.append("s");
    s
}

/// The exit code of a single scan: 1 where there was an error, else 0.
pub open spec fn exit_code_of(r: ReportView) -> u8 {
    if r.stats.errors > 0 {
        1
    } else {
        0
    }
}

/// The exit code of a single scan.
pub fn scan_exit_code(report: &ScanReport) -> (code: u8)
    ensures
        code == (if report@.stats.errors > 0 { 1u8 } else { 0u8 }),
        code == exit_code_of(report@),
{
    if report.stats.errors > 0 {
        1
    } else {
        0
    }
}

/// The path that an event is about.
pub open spec fn event_path(e: EventView) -> Seq<u8> {
    match e {
        EventView::DeletedNow { path, .. } => path,
        EventView::Scheduled { path, .. } => path,
        EventView::AlreadyScheduled { path, .. } => path,
        EventView::Error { path, .. } => path,
    }
}

/// The line for an event, where its path is shown as `path`.
pub open spec fn event_line(e: EventView, path: Seq<char>) -> Seq<char> {
    match e {
        EventView::DeletedNow { age, .. } => "  - deleted "@ + path + " (age "@ + secs_text(age)
            + "s)"@,
        EventView::Scheduled { jobid, delay, .. } => "  + queued "@ + path + " jobid="@ + jobid
            + " delay="@ + secs_text(delay) + "s"@,
        EventView::AlreadyScheduled { jobid, .. } => "  = already "@ + path + " jobid="@ + jobid,
        EventView::Error { message, .. } => "  ! error  "@ + path + ": "@ + message,
    }
}

/// The lines for a report: one with the counts, and one for each event.
pub open spec fn report_lines(r: ReportView) -> Seq<Seq<char>> {
    let s = r.stats;
    seq![
        "bomb-ttl scan: seen="@ + text::decimal(s.seen) + " deleted_now="@ + text::decimal(
            s.deleted_now,
        ) + " scheduled+="@ + text::decimal(s.newly_scheduled) + " already="@ + text::decimal(
            s.already_scheduled,
        ) + " pruned="@ + text::decimal(s.orphans_pruned) + " errors="@ + text::decimal(s.errors),
    ] + r.events.map_values(|e: EventView| event_line(e, text::shown(event_path(e))))
}

/// The line for an event, where its path is shown as `path`.
pub fn event_text(e: &ScanEvent, path: &str) -> (s: String)
    ensures
        s@ == event_line(e@, path@),
{
    match e {
        ScanEvent::DeletedNow { age, .. } => {
            let mut s = "  - deleted ".to_owned();
            s.append(path);
            s.append(" (age ");
            push_decimal(&mut s, age.as_secs());
            s.append("s)");
            s
        },
        ScanEvent::Scheduled { jobid, delay, .. } => {
            let mut s = "  + queued ".to_owned();
            s.append(path);
            s.append(" jobid=");
            s.append(jobid.as_str());
            s.append(" delay=");
            push_decimal(&mut s, delay.as_secs());
            s.append("s");
            s
        },
        ScanEvent::AlreadyScheduled { jobid, .. } => {
            let mut s = "  = already ".to_owned();
            s.append(path);
            s.append(" jobid=");
            s.append(jobid.as_str());
            s
        },
        ScanEvent::Error { message, .. } => {
            let mut s = "  ! error  ".to_owned();
            s.append(path);
            s.append(": ");
            s.append(message.as_str());
            s
        },
    }
}

fn path_text(e: &ScanEvent) -> (s: String)
    ensures
        s@ == text::shown(event_path(e@)),
{
    match e {
        ScanEvent::DeletedNow { path, .. } => show(path.as_slice()),
        ScanEvent::Scheduled { path, .. } => show(path.as_slice()),
        ScanEvent::AlreadyScheduled { path, .. } => show(path.as_slice()),
        ScanEvent::Error { path, .. } => show(path.as_slice()),
    }
}

/// The lines that are printed for a report.
pub fn print_report(report: &ScanReport) -> (lines: Vec<String>)
    ensures
        text::texts(lines@) == report_lines(report@),
{
    let st = &report.stats;
    let mut s = "bomb-ttl scan: seen=".to_owned();
    push_decimal(&mut s, st.seen as u64);
    s.append(" deleted_now=");
    push_decimal(&mut s, st.deleted_now as u64);
    s.append(" scheduled+=");
    push_decimal(&mut s, st.newly_scheduled as u64);
    s.append(" already=");
    push_decimal(&mut s, st.already_scheduled as u64);
    s.append(" pruned=");
    push_decimal(&mut s, st.orphans_pruned as u64);
    s.append(" errors=");
    push_decimal(&mut s, st.errors as u64);
    let ghost all = report_lines(report@);
    let mut lines: Vec<String> = Vec::new();
    lines.push(s);
    assert(text::texts(lines@) =~= all.take(1));
    let mut i: usize = 0;
    while i < report.events.len()
        invariant
            i <= report.events@.len(),
            all == report_lines(report@),
            text::texts(lines@) == all.take(i + 1),
        decreases report.events@.len() - i,
    {
        let ghost before = text::texts(lines@);
        let e = &report.events[i];
        lines.push(event_text(e, path_text(e).as_str()));
        assert(all[i + 1] == event_line(e@, text::shown(event_path(e@))));
        assert(text::texts(lines@) =~= before.push(all[i + 1]));
        i = i + 1;
        assert(text::texts(lines@) =~= all.take(i + 1));
    }
    assert(all.take(i + 1) =~= all);
    lines
}

/// The line for a scheduled deletion.
pub open spec fn entry_line(e: EntryView) -> Seq<char> {
    e.path + "\t"@ + e.jobid + "\t"@ + text::decimal(e.delete_at_secs as nat) + "\t"@
        + calendar::iso_text(e.delete_at_secs)
}

/// The lines that list the scheduled deletions, in the order of their keys.
pub open spec fn list_lines(rows: Seq<entries::Row>) -> Seq<Seq<char>> {
    if rows.len() == 0 {
        seq!["(no scheduled entries)"@]
    } else {
        seq!["path\tjobid\tdelete_at_unix\tdelete_at_iso"@] + rows.map_values(
            |r: entries::Row| entry_line(r.1),
        )
    }
}

fn entry_text(e: &StateEntry) -> (s: String)
    ensures
        s@ == entry_line(e@),
{
    let mut s = e.path.clone();
    s.append("\t");
    s.append(e.jobid.as_str());
    s.append("\t");
    push_decimal(&mut s, e.delete_at_secs);
    s.append("\t");
    s.append(fmt_iso(e.delete_at_secs).as_str());
    s
}

/// The lines that list the scheduled deletions of a state.
pub fn run_list(state: &State) -> (lines: Vec<String>)
    ensures
        text::texts(lines@) == list_lines(state@.rows),
{
    let mut lines: Vec<String> = Vec::new();
    let ghost all = list_lines(state@.rows);
    if state.entries.is_empty() {
        lines.push("(no scheduled entries)".to_owned());
        assert(text::texts(lines@) =~= all);
        return lines;
    }
    lines.push("path\tjobid\tdelete_at_unix\tdelete_at_iso".to_owned());
    assert(text::texts(lines@) =~= all.take(1));
    let mut i: usize = 0;
    while i < state.entries.len()
        invariant
            i <= state@.rows.len(),
            state@.rows.len() > 0,
            all == list_lines(state@.rows),
            text::texts(lines@) == all.take(i + 1),
        decreases state@.rows.len() - i,
    {
        let ghost before = text::texts(lines@);
        lines.push(entry_text(state.entries.entry_at(i)));
        assert(all[i + 1] == entry_line(state@.rows[i as int].1));
        assert(text::texts(lines@) =~= before.push(all[i + 1]));
        i = i + 1;
        assert(text::texts(lines@) =~= all.take(i + 1));
    }
    assert(all.take(i + 1) =~= all);
    lines
}

/// What listing prints and the code that it exits with: the scheduled
/// deletions on stdout and 0, or why they cannot be told on stderr and 1.
pub open spec fn listing(file: StateFile) -> (Seq<LineView>, u8) {
    match state::state_in(file) {
        Ok(s) => (list_lines(s.rows).map_values(|l: Seq<char>| LineView::Stdout(l)), 0),
        Err(e) => (
            seq![LineView::Stderr("bomb-ttl: load state: "@ + state::load_error_text(e))],
            1,
        ),
    }
}

/// Lists what the state file records: the lines to print, and the code to
/// exit with.
pub fn list_outcome(file: StateFile) -> (r: (Vec<Line>, u8))
    ensures
        (line_views(r.0@), r.1) == listing(file),
{
    let ghost all = listing(file).0;
    let mut lines: Vec<Line> = Vec::new();
    match State::load(file) {
        Ok(s) => {
            let texts = run_list(&s);
            let ghost listed = text::texts(texts@);
            assert(line_views(lines@) =~= all.take(0));
            let mut i: usize = 0;
            while i < texts.len()
                invariant
                    i <= texts@.len() == all.len(),
                    text::texts(texts@) == listed,
                    all == listed.map_values(|l: Seq<char>| LineView::Stdout(l)),
                    line_views(lines@) == all.take(i as int),
                decreases texts@.len() - i,
            {
                let ghost before = line_views(lines@);
                assert(listed[i as int] == texts@[i as int]@);
                lines.push(Line::Stdout(texts[i].clone()));
                assert(line_views(lines@) =~= before.push(all[i as int]));
                i = i + 1;
                assert(line_views(lines@) =~= all.take(i as int));
            }
            assert(all.take(i as int) =~= all);
            (lines, 0)
        },
        Err(e) => {
            let mut s = "bomb-ttl: load state: ".to_owned();
            s.append(e.text());
            lines.push(Line::Stderr(s));
            assert(line_views(lines@) =~= all);
            (lines, 1)
        },
    }
}

/// A length of time is printed as a numeral whose value is its whole seconds.
pub proof fn law_lengths_are_told_in_seconds(nanos: nat)
    ensures
        text::denotes(secs_text(nanos), nanos / 1_000_000_000),
{
    text::law_decimal_denotes_the_number(nanos / 1_000_000_000);
}

/// A daemon tells its root, as it is where it is text, and the whole seconds of
/// its time to live and of its interval.
pub proof fn law_daemon_tells_its_settings(root: Seq<char>, ttl: nat, interval: nat)
    ensures
        exists|a: Seq<char>, b: Seq<char>|
            #[trigger] text::denotes(a, ttl / 1_000_000_000) && #[trigger] text::denotes(
                b,
                interval / 1_000_000_000,
            ) && banner_text(vstd::utf8::encode_utf8(root), ttl, interval)
                == "bomb-ttl daemon: root="@ + root + " ttl="@ + a + "s interval="@ + b + "s"@,
{
    text::law_text_is_shown_as_it_is(root);
    law_lengths_are_told_in_seconds(ttl);
    law_lengths_are_told_in_seconds(interval);
}

/// The first line of a report has each count behind its own name, as a numeral
/// whose value is that count.
pub proof fn law_report_tells_the_counts(r: ReportView)
    ensures
        report_lines(r).len() == r.events.len() + 1,
        exists|seen, deleted, scheduled, already, pruned, errors|
            {
                &&& #[trigger] text::denotes(seen, r.stats.seen)
                &&& #[trigger] text::denotes(deleted, r.stats.deleted_now)
                &&& #[trigger] text::denotes(scheduled, r.stats.newly_scheduled)
                &&& #[trigger] text::denotes(already, r.stats.already_scheduled)
                &&& #[trigger] text::denotes(pruned, r.stats.orphans_pruned)
                &&& #[trigger] text::denotes(errors, r.stats.errors)
                &&& report_lines(r)[0] == "bomb-ttl scan: seen="@ + seen + " deleted_now="@ + deleted
                    + " scheduled+="@ + scheduled + " already="@ + already + " pruned="@ + pruned
                    + " errors="@ + errors
            },
{
    text::law_decimal_denotes_the_number(r.stats.seen);
    text::law_decimal_denotes_the_number(r.stats.deleted_now);
    text::law_decimal_denotes_the_number(r.stats.newly_scheduled);
    text::law_decimal_denotes_the_number(r.stats.already_scheduled);
    text::law_decimal_denotes_the_number(r.stats.orphans_pruned);
    text::law_decimal_denotes_the_number(r.stats.errors);
}

/// Each event has a line of its own, in the order in which they happened. It
/// tells what happened to the path of the event, which stands there as it is
/// where it is text; with the job, where there is one; and with the whole
/// seconds of the age or of the delay.
pub proof fn law_report_tells_the_events(r: ReportView, i: int, path: Seq<char>)
    requires
        0 <= i < r.events.len(),
        event_path(r.events[i]) == vstd::utf8::encode_utf8(path),
    ensures
        ({
            let line = report_lines(r)[i + 1];
            match r.events[i] {
                EventView::DeletedNow { path: p, age } => {
                    &&& p == vstd::utf8::encode_utf8(path)
                    &&& exists|n: Seq<char>| #[trigger]
                        text::denotes(n, age / 1_000_000_000) && line == "  - deleted "@ + path
                            + " (age "@ + n + "s)"@
                },
                EventView::Scheduled { path: p, jobid, delay } => {
                    &&& p == vstd::utf8::encode_utf8(path)
                    &&& exists|n: Seq<char>| #[trigger]
                        text::denotes(n, delay / 1_000_000_000) && line == "  + queued "@ + path
                            + " jobid="@ + jobid + " delay="@ + n + "s"@
                },
                EventView::AlreadyScheduled { path: p, jobid } => {
                    &&& p == vstd::utf8::encode_utf8(path)
                    &&& line == "  = already "@ + path + " jobid="@ + jobid
                },
                EventView::Error { path: p, message } => {
                    &&& p == vstd::utf8::encode_utf8(path)
                    &&& line == "  ! error  "@ + path + ": "@ + message
                },
            }
        }),
{
    text::law_text_is_shown_as_it_is(path);
    match r.events[i] {
        EventView::DeletedNow { age, .. } => law_lengths_are_told_in_seconds(age),
        EventView::Scheduled { delay, .. } => law_lengths_are_told_in_seconds(delay),
        _ => {},
    }
    assert(report_lines(r)[i + 1] == event_line(r.events[i], path));
}

proof fn lemma_parts(line: Seq<char>, head: Seq<char>, tail: Seq<char>)
    requires
        line == head + tail,
    ensures
        head.is_prefix_of(line),
        line.skip(head.len() as int) == tail,
{
    assert(line.skip(head.len() as int) =~= tail);
}

proof fn lemma_last_column(e: EntryView)
    ensures
        ({
            let unix = text::decimal(e.delete_at_secs as nat);
            let head = e.path + "\t"@ + e.jobid + "\t"@ + unix + "\t"@;
            &&& head.is_prefix_of(entry_line(e))
            &&& entry_line(e).skip(head.len() as int) == calendar::iso_text(e.delete_at_secs)
        }),
{
    let unix = text::decimal(e.delete_at_secs as nat);
    let head = e.path + "\t"@ + e.jobid + "\t"@ + unix + "\t"@;
    lemma_parts(entry_line(e), head, calendar::iso_text(e.delete_at_secs));
}

/// The line of a scheduled deletion has four columns: the path, the job, and
/// twice the time of the deletion. The third is a numeral whose value is that
/// time, and the last is the date and the time of day of the same moment, as
/// long as an `i32` can hold the year.
pub proof fn law_line_names_one_moment(e: EntryView)
    requires
        e.delete_at_secs < 67_767_976_233_532_800,
    ensures
        exists|unix: Seq<char>|
            {
                let head = e.path + "\t"@ + e.jobid + "\t"@ + unix + "\t"@;
                &&& #[trigger] text::denotes(unix, e.delete_at_secs as nat)
                &&& head.is_prefix_of(entry_line(e))
                &&& calendar::names_moment(
                    entry_line(e).skip(head.len() as int),
                    e.delete_at_secs as int,
                )
            },
{
    let unix = text::decimal(e.delete_at_secs as nat);
    let head = e.path + "\t"@ + e.jobid + "\t"@ + unix + "\t"@;
    text::law_decimal_denotes_the_number(e.delete_at_secs as nat);
    calendar::law_iso_text_names_the_moment(e.delete_at_secs);
    lemma_last_column(e);
    assert(text::denotes(unix, e.delete_at_secs as nat));
}

/// A list has a header and then one line for each entry, in the order of the
/// keys; an empty one says so.
pub proof fn law_list_has_a_line_for_each_entry(rows: Seq<entries::Row>, i: int)
    ensures
        rows.len() == 0 ==> list_lines(rows) == seq!["(no scheduled entries)"@],
        rows.len() > 0 ==> {
            &&& list_lines(rows).len() == rows.len() + 1
            &&& list_lines(rows)[0] == "path\tjobid\tdelete_at_unix\tdelete_at_iso"@
        },
        0 <= i < rows.len() ==> list_lines(rows)[i + 1] == entry_line(rows[i].1),
{
}

/// Listing exits with 0 and prints to stdout alone where there is a state to be
/// had from the file, and else with 1 and prints one line, to stderr.
pub proof fn law_listing_fails_only_without_a_state(file: StateFile)
    ensures
        file is Parsed || file is Missing ==> {
            &&& listing(file).1 == 0
            &&& forall|i: int|
                0 <= i < listing(file).0.len() ==> #[trigger] listing(file).0[i] is Stdout
        },
        file is Unreadable || file is Malformed ==> {
            &&& listing(file).1 == 1
            &&& listing(file).0.len() == 1
            &&& listing(file).0[0] is Stderr
        },
        file matches StateFile::Parsed(s) ==> {
            &&& listing(file).0.len() == list_lines(s@.rows).len()
            &&& forall|i: int|
                0 <= i < listing(file).0.len() ==> #[trigger] listing(file).0[i]
                    == LineView::Stdout(list_lines(s@.rows)[i])
        },
{
}

} // verus!
