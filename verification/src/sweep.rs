//! The course of a scan: walk one directory level under the root, delete
//! what is past its time to live, and have everything else deleted later.
//!
//! A [`Sweep`] decides; its caller acts. [`Sweep::action`] says what is to be
//! done, and [`Sweep::step`] is told what came of it.

use vstd::prelude::*;
use vstd::slice::slice_to_vec;

use crate::entries;
use crate::paths;
use crate::paths::{join, same_bytes};
use crate::qsub;
use crate::qsub::{QsubError, QsubOutcome};
use crate::scan;
use crate::scan::{Counts, EventView, ReportView};
use crate::scan::{ScanEvent, ScanReport};
use crate::state;
use crate::state::{EntryView, StateView};
use crate::state::{state_file, State, StateEntry, StateFile};
use crate::text;
use crate::text::show;
use crate::time::NANOS_PER_SEC;
use crate::time::{Span, Timestamp};

verus! {

/// What the file system tells of an entry of the root.
#[derive(Debug, Clone, Copy)]
pub struct FileMeta {
    pub inode: u64,
    pub is_dir: bool,
    /// When the entry was created, where the file system keeps that.
    pub created: Option<Timestamp>,
    /// When the entry was last modified, where the file system keeps that.
    pub modified: Option<Timestamp>,
    /// When the other two were asked for.
    pub clock: Timestamp,
}

/// When an entry came to be, as well as can be told: when it was created,
/// else when it was last modified, else just now.
pub open spec fn birth(meta: FileMeta) -> int {
    match meta.created {
        Some(t) => t@,
        None => match meta.modified {
            Some(t) => t@,
            None => meta.clock@,
        },
    }
}

/// The whole seconds from 1970 to the birth of an entry; none before 1970.
pub open spec fn birth_secs(meta: FileMeta) -> u64 {
    if birth(meta) >= 0 {
        (birth(meta) / (NANOS_PER_SEC as int)) as u64
    } else {
        0
    }
}

/// The key under which the deletion of an entry is recorded.
pub open spec fn key_of(meta: FileMeta) -> Seq<char> {
    state::key_text(meta.inode, birth_secs(meta))
}

/// The age of an entry at `now`, in nanoseconds.
pub open spec fn age_of(meta: FileMeta, now: int) -> nat {
    if now >= birth(meta) {
        (now - birth(meta)) as nat
    } else {
        0
    }
}

impl FileMeta {
    /// When the entry came to be, as well as can be told.
    pub fn birth(&self) -> (t: Timestamp)
        ensures
            t@ == birth(*self),
    {
        match self.created {
            Some(t) => t,
            None => match self.modified {
                Some(t) => t,
                None => self.clock,
            },
        }
    }
}

/// Whether an entry with this name is never swept: the state directory and
/// the two files that are placed in a new root.
pub open spec fn is_kept_name(name: Seq<u8>) -> bool {
    ||| name == vstd::utf8::encode_utf8(crate::STATE_DIR_NAME@)
    ||| name == vstd::utf8::encode_utf8(".gitignore"@)
    ||| name == vstd::utf8::encode_utf8("README.md"@)
}

/// Whether an entry with this name is never swept.
pub fn kept_name(name: &[u8]) -> (r: bool)
    ensures
        r == is_kept_name(name@),
{
    same_bytes(name, crate::STATE_DIR_NAME.as_bytes()) || same_bytes(name, ".gitignore".as_bytes())
        || same_bytes(name, "README.md".as_bytes())
}

/// How far a sweep has come.
#[derive(Debug)]
pub enum Phase {
    Loading,
    Checking,
    Listing,
    Walking,
    Looking { path: Vec<u8> },
    Removing { path: Vec<u8>, is_dir: bool, key: String, age: Span },
    Submitting { path: Vec<u8>, key: String, created_at_secs: u64, inode: u64, delay: Span },
    Saving,
    Finished,
}

/// The contents of a [`Phase`].
pub enum PhaseView {
    Loading,
    Checking,
    Listing,
    Walking,
    Looking { path: Seq<u8> },
    Removing { path: Seq<u8>, is_dir: bool, key: Seq<char>, age: nat },
    Submitting { path: Seq<u8>, key: Seq<char>, created_at_secs: u64, inode: u64, delay: nat },
    Saving,
    Finished,
}

impl View for Phase {
    type V = PhaseView;

    open spec fn view(&self) -> PhaseView {
        match self {
            Phase::Loading => PhaseView::Loading,
            Phase::Checking => PhaseView::Checking,
            Phase::Listing => PhaseView::Listing,
            Phase::Walking => PhaseView::Walking,
            Phase::Looking { path } => PhaseView::Looking { path: path@ },
            Phase::Removing { path, is_dir, key, age } => PhaseView::Removing {
                path: path@,
                is_dir: *is_dir,
                key: key@,
                age: age@,
            },
            Phase::Submitting { path, key, created_at_secs, inode, delay } =>
                PhaseView::Submitting {
                path: path@,
                key: key@,
                created_at_secs: *created_at_secs,
                inode: *inode,
                delay: delay@,
            },
            Phase::Saving => PhaseView::Saving,
            Phase::Finished => PhaseView::Finished,
        }
    }
}

/// What a sweep wants done.
#[derive(Debug)]
pub enum SweepAction {
    /// Read the state file.
    LoadState { file: Vec<u8> },
    /// Find out for each entry of the state, in the order of the keys,
    /// whether its path exists.
    CheckPaths,
    /// Open the root for listing.
    ListRoot { root: Vec<u8> },
    /// Take the next entry of the root.
    NextEntry,
    /// Ask the file system about an entry, without following it where it is a
    /// link.
    StatEntry { target: Vec<u8> },
    /// Delete an entry, with all that is in it where it is a directory.
    RemoveEntry { target: Vec<u8>, is_dir: bool },
    /// Have an entry deleted later.
    SubmitEntry { target: Vec<u8>, delay: Span },
    /// Write the state file.
    SaveState { file: Vec<u8> },
    /// Nothing: the sweep is over.
    Finish,
}

/// What came of an action.
#[derive(Debug)]
pub enum SweepInput {
    Loaded(StateFile),
    Checked(Vec<bool>),
    Listed,
    ListFailed(String),
    /// The next entry: its name.
    Entry { name: Vec<u8> },
    NoMoreEntries,
    Stat(FileMeta),
    StatFailed(String),
    Removed,
    RemoveFailed(String),
    Submitted(QsubOutcome),
    SubmitFailed(QsubError),
    Saved,
    SaveFailed(String),
}

/// The state of a sweep.
pub struct SweepView {
    pub root: Seq<u8>,
    pub ttl: nat,
    pub now: int,
    pub phase: PhaseView,
    pub state: StateView,
    pub report: ReportView,
}

/// A sweep that has not done anything.
pub open spec fn new_sweep(root: Seq<u8>, ttl: nat, now: int) -> SweepView {
    SweepView {
        root,
        ttl,
        now,
        phase: PhaseView::Loading,
        state: state::empty_state(),
        report: ReportView { stats: scan::no_counts(), events: Seq::empty() },
    }
}

/// Whether `input` can come of the action that the sweep wants.
pub open spec fn fits(v: SweepView, input: SweepInput) -> bool {
    match input {
        SweepInput::Loaded(_) => v.phase is Loading,
        SweepInput::Checked(live) => v.phase is Checking && live@.len() == v.state.rows.len(),
        SweepInput::Listed => v.phase is Listing,
        SweepInput::ListFailed(_) => v.phase is Listing,
        SweepInput::Entry { .. } => v.phase is Walking,
        SweepInput::NoMoreEntries => v.phase is Walking,
        SweepInput::Stat(_) => v.phase is Looking,
        SweepInput::StatFailed(_) => v.phase is Looking,
        SweepInput::Removed => v.phase is Removing,
        SweepInput::RemoveFailed(_) => v.phase is Removing,
        SweepInput::Submitted(_) => v.phase is Submitting,
        SweepInput::SubmitFailed(_) => v.phase is Submitting,
        SweepInput::Saved => v.phase is Saving,
        SweepInput::SaveFailed(_) => v.phase is Saving,
    }
}

/// The sweep with an error in its report, gone on to `phase`.
pub open spec fn failed(
    v: SweepView,
    path: Seq<u8>,
    message: Seq<char>,
    phase: PhaseView,
) -> SweepView {
    SweepView { report: scan::with_error(v.report, path, message), phase, ..v }
}

/// The sweep after the state file was read, or could not be.
pub open spec fn after_load(v: SweepView, file: StateFile) -> SweepView {
    let v = SweepView { phase: PhaseView::Checking, ..v };
    match state::state_in(file) {
        Ok(s) => SweepView { state: s, ..v },
        Err(e) => failed(
            SweepView { state: state::empty_state(), ..v },
            state::file_of(v.root),
            "load state: "@ + state::load_error_text(e),
            PhaseView::Checking,
        ),
    }
}

/// The sweep after the paths of the state were looked for: only the entries
/// whose path exists are left.
pub open spec fn after_check(v: SweepView, live: Seq<bool>) -> SweepView {
    let rows = entries::live_rows(v.state.rows, live);
    let pruned = (v.state.rows.len() - rows.len()) as u32;
    SweepView {
        phase: PhaseView::Listing,
        state: StateView { rows, ..v.state },
        report: ReportView {
            stats: Counts { orphans_pruned: pruned as nat, ..v.report.stats },
            ..v.report
        },
        ..v
    }
}

/// The sweep after it was handed an entry: passed over where its name is one
/// that is never swept.
pub open spec fn after_entry(v: SweepView, name: Seq<u8>) -> SweepView {
    if is_kept_name(name) {
        v
    } else {
        SweepView {
            phase: PhaseView::Looking { path: paths::joined(v.root, name) },
            report: ReportView {
                stats: Counts { seen: v.report.stats.seen + 1, ..v.report.stats },
                ..v.report
            },
            ..v
        }
    }
}

/// The sweep after it learned what the file system tells of an entry: the
/// entry is deleted once it is as old as the time to live, left alone where
/// its deletion is already scheduled, and else scheduled for deletion when
/// what is left of the time to live has passed.
pub open spec fn after_stat(v: SweepView, path: Seq<u8>, meta: FileMeta) -> SweepView {
    let key = key_of(meta);
    let age = age_of(meta, v.now);
    if age >= v.ttl {
        SweepView {
            phase: PhaseView::Removing { path, is_dir: meta.is_dir, key, age },
            ..v
        }
    } else if entries::as_map(v.state.rows).contains_key(key) {
        SweepView {
            phase: PhaseView::Walking,
            report: ReportView {
                stats: Counts {
                    already_scheduled: v.report.stats.already_scheduled + 1,
                    ..v.report.stats
                },
                events: v.report.events.push(
                    EventView::AlreadyScheduled {
                        path,
                        jobid: entries::as_map(v.state.rows)[key].jobid,
                    },
                ),
            },
            ..v
        }
    } else {
        SweepView {
            phase: PhaseView::Submitting {
                path,
                key,
                created_at_secs: birth_secs(meta),
                inode: meta.inode,
                delay: (v.ttl - age) as nat,
            },
            ..v
        }
    }
}

/// The sweep after an entry was deleted.
pub open spec fn after_removal(v: SweepView, path: Seq<u8>, key: Seq<char>, age: nat) -> SweepView {
    SweepView {
        phase: PhaseView::Walking,
        state: StateView { rows: entries::without_row(v.state.rows, key), ..v.state },
        report: ReportView {
            stats: Counts { deleted_now: v.report.stats.deleted_now + 1, ..v.report.stats },
            events: v.report.events.push(EventView::DeletedNow { path, age }),
        },
        ..v
    }
}

/// When an entry that came to be at `created_at_secs` is to be deleted.
pub open spec fn deletion_secs(created_at_secs: u64, ttl: nat) -> u64 {
    let at = created_at_secs + ttl / (NANOS_PER_SEC as nat);
    if at <= u64::MAX {
        at as u64
    } else {
        u64::MAX
    }
}

/// What is recorded once the job `jobid` was queued for the entry that a sweep
/// in `phase` has submitted.
pub open spec fn scheduled_entry(phase: PhaseView, ttl: nat, jobid: Seq<char>) -> EntryView {
    let path = phase->Submitting_path;
    EntryView {
        path: text::shown(path),
        raw_path: if vstd::utf8::valid_utf8(path) {
            None
        } else {
            Some(path)
        },
        jobid,
        created_at_secs: phase->Submitting_created_at_secs,
        delete_at_secs: deletion_secs(phase->Submitting_created_at_secs, ttl),
        inode: phase->Submitting_inode,
    }
}

/// The sweep after the deletion of the entry that it has submitted in `phase`
/// was scheduled.
pub open spec fn after_submission(v: SweepView, phase: PhaseView, jobid: Seq<char>) -> SweepView {
    SweepView {
        phase: PhaseView::Walking,
        state: StateView {
            rows: entries::with_row(
                v.state.rows,
                phase->Submitting_key,
                scheduled_entry(phase, v.ttl, jobid),
            ),
            ..v.state
        },
        report: ReportView {
            stats: Counts { newly_scheduled: v.report.stats.newly_scheduled + 1, ..v.report.stats },
            events: v.report.events.push(
                EventView::Scheduled {
                    path: phase->Submitting_path,
                    jobid,
                    delay: phase->Submitting_delay,
                },
            ),
        },
        ..v
    }
}

/// The message for a deletion that could not be scheduled.
pub open spec fn submit_message(e: QsubError) -> Seq<char> {
    if e is NotFound {
        "qsub not on PATH — `source <tren-crc>/scheduler/env.sh` first"@
    } else {
        "submit qsub: "@ + qsub::error_text(e)
    }
}

/// The path of the entry that the sweep is busy with.
pub open spec fn current_path(phase: PhaseView) -> Seq<u8> {
    match phase {
        PhaseView::Looking { path } => path,
        PhaseView::Removing { path, .. } => path,
        PhaseView::Submitting { path, .. } => path,
        _ => Seq::empty(),
    }
}

/// The sweep after it was told `input`.
pub open spec fn after(v: SweepView, input: SweepInput) -> SweepView {
    let path = current_path(v.phase);
    match input {
        SweepInput::Loaded(file) => after_load(v, file),
        SweepInput::Checked(live) => after_check(v, live@),
        SweepInput::Listed => SweepView { phase: PhaseView::Walking, ..v },
        SweepInput::ListFailed(why) => failed(
            v,
            v.root,
            "read_dir: "@ + why@,
            PhaseView::Saving,
        ),
        SweepInput::Entry { name } => after_entry(v, name@),
        SweepInput::NoMoreEntries => SweepView { phase: PhaseView::Saving, ..v },
        SweepInput::Stat(meta) => after_stat(v, path, meta),
        SweepInput::StatFailed(why) => failed(v, path, "stat: "@ + why@, PhaseView::Walking),
        SweepInput::Removed => after_removal(
            v,
            path,
            v.phase->Removing_key,
            v.phase->Removing_age,
        ),
        SweepInput::RemoveFailed(why) => failed(v, path, "rm: "@ + why@, PhaseView::Walking),
        SweepInput::Submitted(outcome) => after_submission(v, v.phase, outcome.jobid@),
        SweepInput::SubmitFailed(e) => failed(
            v,
            path,
            submit_message(e),
            PhaseView::Walking,
        ),
        SweepInput::Saved => SweepView { phase: PhaseView::Finished, ..v },
        SweepInput::SaveFailed(why) => failed(
            v,
            state::file_of(v.root),
            "save state: "@ + why@,
            PhaseView::Finished,
        ),
    }
}

/// Whether `action` is what the sweep wants done.
pub open spec fn wants(v: SweepView, action: SweepAction) -> bool {
    match v.phase {
        PhaseView::Loading => {
            &&& action is LoadState
            &&& action->LoadState_file@ == state::file_of(v.root)
        },
        PhaseView::Checking => action is CheckPaths,
        PhaseView::Listing => action is ListRoot && action->root@ == v.root,
        PhaseView::Walking => action is NextEntry,
        PhaseView::Looking { path } => action is StatEntry && action->StatEntry_target@ == path,
        PhaseView::Removing { path, is_dir, .. } => {
            &&& action is RemoveEntry
            &&& action->RemoveEntry_target@ == path
            &&& action->is_dir == is_dir
        },
        PhaseView::Submitting { path, delay, .. } => {
            &&& action is SubmitEntry
            &&& action->SubmitEntry_target@ == path
            &&& action->delay@ == delay
        },
        PhaseView::Saving => {
            &&& action is SaveState
            &&& action->SaveState_file@ == state::file_of(v.root)
        },
        PhaseView::Finished => action is Finish,
    }
}

/// A scan on its way.
#[derive(Debug)]
pub struct Sweep {
    root: Vec<u8>,
    ttl: Span,
    now: Timestamp,
    phase: Phase,
    state: State,
    report: ScanReport,
}

impl View for Sweep {
    type V = SweepView;

    closed spec fn view(&self) -> SweepView {
        SweepView {
            root: self.root@,
            ttl: self.ttl@,
            now: self.now@,
            phase: self.phase@,
            state: self.state@,
            report: self.report@,
        }
    }
}

impl Sweep {
    /// A new sweep of `root`, at `now`, for entries older than `ttl`.
    pub fn new(root: Vec<u8>, ttl: Span, now: Timestamp) -> (s: Sweep)
        ensures
            s@ == new_sweep(root@, ttl@, now@),
    {
        Sweep {
            root,
            ttl,
            now,
            phase: Phase::Loading,
            state: State::empty(),
            report: ScanReport::new(),
        }
    }

    /// What the sweep wants done.
    pub fn action(&self) -> (action: SweepAction)
        ensures
            wants(self@, action),
    {
        match &self.phase {
            Phase::Loading => SweepAction::LoadState { file: state_file(self.root.as_slice()) },
            Phase::Checking => SweepAction::CheckPaths,
            Phase::Listing => SweepAction::ListRoot { root: slice_to_vec(self.root.as_slice()) },
            Phase::Walking => SweepAction::NextEntry,
            Phase::Looking { path } => SweepAction::StatEntry {
                target: slice_to_vec(path.as_slice()),
            },
            Phase::Removing { path, is_dir, .. } => SweepAction::RemoveEntry {
                target: slice_to_vec(path.as_slice()),
                is_dir: *is_dir,
            },
            Phase::Submitting { path, delay, .. } => SweepAction::SubmitEntry {
                target: slice_to_vec(path.as_slice()),
                delay: *delay,
            },
            Phase::Saving => SweepAction::SaveState { file: state_file(self.root.as_slice()) },
            Phase::Finished => SweepAction::Finish,
        }
    }

    /// The state as it is to be checked or written.
    pub fn state(&self) -> (s: &State)
        ensures
            s@ == self@.state,
    {
        &self.state
    }

    /// The counts so far.
    pub fn stats(&self) -> (s: &crate::scan::ScanStats)
        ensures
            s@ == self@.report.stats,
    {
        &self.report.stats
    }

    /// The report, at the end.
    pub fn into_report(self) -> (r: ScanReport)
        ensures
            r@ == self@.report,
    {
        self.report
    }

    /// Whether the counters can take what `input` adds to them.
    pub fn can_count(&self, input: &SweepInput) -> (r: bool)
        requires
            fits(self@, *input),
        ensures
            r == scan::countable(after(self@, *input).report.stats),
    {
        let s = &self.report.stats;
        match input {
            SweepInput::Loaded(StateFile::Unreadable(_)) => s.errors < u32::MAX,
            SweepInput::Loaded(StateFile::Malformed(_)) => s.errors < u32::MAX,
            SweepInput::ListFailed(_) => s.errors < u32::MAX,
            SweepInput::Entry { name } => kept_name(name.as_slice()) || s.seen < u32::MAX,
            SweepInput::Stat(meta) => {
                let created = meta.birth();
                let key = State::key(meta.inode, created.secs_since_epoch());
                self.now.since(&created).at_least(&self.ttl) || s.already_scheduled < u32::MAX
                    || self.state.entries.get(key.as_str()).is_none()
            },
            SweepInput::StatFailed(_) => s.errors < u32::MAX,
            SweepInput::Removed => s.deleted_now < u32::MAX,
            SweepInput::RemoveFailed(_) => s.errors < u32::MAX,
            SweepInput::Submitted(_) => s.newly_scheduled < u32::MAX,
            SweepInput::SubmitFailed(_) => s.errors < u32::MAX,
            SweepInput::SaveFailed(_) => s.errors < u32::MAX,
            _ => true,
        }
    }

    /// Tells the sweep what came of the action that it wanted.
    pub fn step(&mut self, input: SweepInput)
        requires
            fits(old(self)@, input),
            scan::countable(after(old(self)@, input).report.stats),
        ensures
            final(self)@ == after(old(self)@, input),
    {
        let mut phase = Phase::Walking;
        std::mem::swap(&mut phase, &mut self.phase);
        match input {
            SweepInput::Loaded(file) => self.loaded(file),
            SweepInput::Checked(live) => self.checked(&live),
            SweepInput::Listed => {},
            SweepInput::ListFailed(why) => {
                let root = slice_to_vec(self.root.as_slice());
                self.report.add_error(root, "read_dir: ", why.as_str());
                self.phase = Phase::Saving;
            },
            SweepInput::Entry { name } => self.entry(&name),
            SweepInput::NoMoreEntries => {
                self.phase = Phase::Saving;
            },
            SweepInput::Stat(meta) => {
                if let Phase::Looking { path } = phase {
                    self.stat(path, &meta);
                }
            },
            SweepInput::StatFailed(why) => {
                if let Phase::Looking { path } = phase {
                    self.report.add_error(path, "stat: ", why.as_str());
                }
            },
            SweepInput::Removed => {
                if let Phase::Removing { path, key, age, .. } = phase {
                    self.removed(path, key, age);
                }
            },
            SweepInput::RemoveFailed(why) => {
                if let Phase::Removing { path, .. } = phase {
                    self.report.add_error(path, "rm: ", why.as_str());
                }
            },
            SweepInput::Submitted(outcome) => {
                self.submitted(phase, outcome.jobid);
            },
            SweepInput::SubmitFailed(e) => {
                if let Phase::Submitting { path, .. } = phase {
                    self.submit_failed(path, &e);
                }
            },
            SweepInput::Saved => {
                self.phase = Phase::Finished;
            },
            SweepInput::SaveFailed(why) => {
                let file = state_file(self.root.as_slice());
                self.report.add_error(file, "save state: ", why.as_str());
                self.phase = Phase::Finished;
            },
        }
    }

    fn loaded(&mut self, file: StateFile)
        requires
            scan::countable(after_load(old(self)@, file).report.stats),
        ensures
            final(self)@ == after_load(old(self)@, file),
    {
        match State::load(file) {
            Ok(s) => {
                self.state = s;
            },
            Err(e) => {
                self.state = State::empty();
                let file = state_file(self.root.as_slice());
                self.report.add_error(file, "load state: ", e.text());
            },
        }
        self.phase = Phase::Checking;
    }

    fn checked(&mut self, live: &Vec<bool>)
        requires
            live@.len() == old(self)@.state.rows.len(),
        ensures
            final(self)@ == after_check(old(self)@, live@),
    {
        let pruned: usize = self.state.entries.retain_live(live);
        #[verifier::truncate]
        let pruned: u32 = pruned as u32;
        self.report.stats.orphans_pruned = pruned;
        self.phase = Phase::Listing;
    }

    fn entry(&mut self, name: &Vec<u8>)
        requires
            old(self)@.phase is Walking,
            scan::countable(after_entry(old(self)@, name@).report.stats),
        ensures
            final(self)@ == after_entry(old(self)@, name@),
    {
        if !kept_name(name.as_slice()) {
            self.report.stats.seen = self.report.stats.seen + 1;
            let root = slice_to_vec(self.root.as_slice());
            self.phase = Phase::Looking { path: join(root, name.as_slice()) };
        }
    }

    fn stat(&mut self, path: Vec<u8>, meta: &FileMeta)
        requires
            scan::countable(after_stat(old(self)@, path@, *meta).report.stats),
        ensures
            final(self)@ == after_stat(old(self)@, path@, *meta),
    {
        let created = meta.birth();
        let created_at_secs: u64 = created.secs_since_epoch();
        let age = self.now.since(&created);
        let key = State::key(meta.inode, created_at_secs);
        if age.at_least(&self.ttl) {
            self.phase = Phase::Removing { path, is_dir: meta.is_dir, key, age };
            return ;
        }
        if let Some(e) = self.state.entries.get(key.as_str()) {
            let jobid = e.jobid.clone();
            self.report.stats.already_scheduled = self.report.stats.already_scheduled + 1;
            self.report.add_event(ScanEvent::AlreadyScheduled { path, jobid });
            self.phase = Phase::Walking;
            return ;
        }
        let delay = self.ttl.minus(&age);
        self.phase = Phase::Submitting { path, key, created_at_secs, inode: meta.inode, delay };
    }

    fn removed(&mut self, path: Vec<u8>, key: String, age: Span)
        requires
            scan::countable(after_removal(old(self)@, path@, key@, age@).report.stats),
        ensures
            final(self)@ == after_removal(old(self)@, path@, key@, age@),
    {
        self.report.stats.deleted_now = self.report.stats.deleted_now + 1;
        self.report.add_event(ScanEvent::DeletedNow { path, age });
        self.state.entries.remove(key.as_str());
        self.phase = Phase::Walking;
    }

    fn submitted(&mut self, phase: Phase, jobid: String)
        requires
            phase@ is Submitting,
            scan::countable(after_submission(old(self)@, phase@, jobid@).report.stats),
        ensures
            final(self)@ == after_submission(old(self)@, phase@, jobid@),
    {
        if let Phase::Submitting { path, key, created_at_secs, inode, delay } = phase {
            let delete_at_secs: u64 = created_at_secs.saturating_add(self.ttl.as_secs());
            let shown = show(path.as_slice());
            proof {
                vstd::utf8::encode_utf8_valid_utf8(shown@);
                if vstd::utf8::valid_utf8(path@) {
                    vstd::utf8::decode_utf8_encode_utf8(path@);
                }
            }
            let raw_path = if same_bytes(path.as_slice(), shown.as_str().as_bytes()) {
                None
            } else {
                Some(slice_to_vec(path.as_slice()))
            };
            self.state.entries.insert(
                key,
                StateEntry {
                    path: shown,
                    raw_path,
                    jobid: jobid.clone(),
                    created_at_secs,
                    delete_at_secs,
                    inode,
                },
            );
            self.report.stats.newly_scheduled = self.report.stats.newly_scheduled + 1;
            self.report.add_event(ScanEvent::Scheduled { path, jobid, delay });
            self.phase = Phase::Walking;
        }
    }

    fn submit_failed(&mut self, path: Vec<u8>, e: &QsubError)
        requires
            old(self)@.report.stats.errors < u32::MAX,
        ensures
            final(self)@ == failed(old(self)@, path@, submit_message(*e), old(self)@.phase),
    {
        match e {
            QsubError::NotFound => {
                self.report.add_error(
                    path,
                    "qsub not on PATH — `source <tren-crc>/scheduler/env.sh` first",
                    "",
                );
                proof {
                    reveal_strlit("");
                    assert(submit_message(*e) + ""@ =~= submit_message(*e));
                }
            },
            _ => self.report.add_error(path, "submit qsub: ", e.text().as_str()),
        }
    }
}

} // verus!
