//! What holds of every sweep.

use vstd::prelude::*;

use crate::entries;
use crate::paths;
use crate::qsub::QsubOutcome;
use crate::scan::EventView;
use crate::state;
use crate::state::EntryView;
use crate::state::{State, StateFile};
use crate::sweep;
use crate::sweep::{FileMeta, PhaseView, SweepAction, SweepInput, SweepView};
use crate::text;
use crate::time;
use crate::time::Timestamp;

verus! {

/// The sweep that has come from `v` after it was told all `inputs`.
pub open spec fn run(v: SweepView, inputs: Seq<SweepInput>) -> SweepView
    decreases inputs.len(),
{
    if inputs.len() == 0 {
        v
    } else {
        sweep::after(run(v, inputs.drop_last()), inputs.last())
    }
}

/// Whether a state that was read has its keys in order, as every
/// [`State`](crate::state::State) has.
pub open spec fn is_sound_input(input: SweepInput) -> bool {
    match input {
        SweepInput::Loaded(StateFile::Parsed(s)) => entries::in_order(s@.rows),
        _ => true,
    }
}

/// Whether each of the `inputs` can come of what the sweep wants by then.
pub open spec fn is_run(v: SweepView, inputs: Seq<SweepInput>) -> bool
    decreases inputs.len(),
{
    inputs.len() > 0 ==> {
        &&& is_run(v, inputs.drop_last())
        &&& sweep::fits(run(v, inputs.drop_last()), inputs.last())
        &&& is_sound_input(inputs.last())
    }
}

/// Every step keeps the keys of the state in order.
pub proof fn law_keys_stay_in_order(v: SweepView, input: SweepInput)
    requires
        entries::in_order(v.state.rows),
        sweep::fits(v, input),
        is_sound_input(input),
    ensures
        entries::in_order(sweep::after(v, input).state.rows),
{
    match input {
        SweepInput::Checked(live) => entries::lemma_live_order(v.state.rows, live@),
        SweepInput::Removed => entries::lemma_dropped(v.state.rows, v.phase->Removing_key),
        SweepInput::Submitted(outcome) => {
            entries::lemma_recorded(
                v.state.rows,
                v.phase->Submitting_key,
                sweep::scheduled_entry(v.phase, v.ttl, outcome.jobid@),
            );
        },
        _ => {},
    }
}

/// The state directory and the files that are placed in a new root are
/// passed over: they are not even counted.
pub proof fn law_kept_names_are_left_alone(v: SweepView, name: Vec<u8>)
    requires
        v.phase is Walking,
        sweep::is_kept_name(name@),
    ensures
        sweep::after(v, SweepInput::Entry { name }) == v,
{
}

/// Every other entry is counted and looked at, whatever bytes its name has.
pub proof fn law_all_others_are_looked_at(v: SweepView, name: Vec<u8>)
    requires
        v.phase is Walking,
        !sweep::is_kept_name(name@),
    ensures
        ({
            let next = sweep::after(v, SweepInput::Entry { name });
            &&& next.phase == (PhaseView::Looking { path: paths::joined(v.root, name@) })
            &&& next.report.stats.seen == v.report.stats.seen + 1
        }),
{
}

/// What is deleted on the spot is what has reached its time to live; what is
/// scheduled is what has not and is not recorded yet, for when the rest of
/// its time to live has passed; and everything else is left alone. Learning
/// of an entry changes no record.
pub proof fn law_age_decides(v: SweepView, path: Seq<u8>, meta: FileMeta)
    requires
        v.phase == (PhaseView::Looking { path }),
    ensures
        ({
            let next = sweep::after(v, SweepInput::Stat(meta));
            let age = sweep::age_of(meta, v.now);
            let known = entries::as_map(v.state.rows).contains_key(sweep::key_of(meta));
            &&& next.state == v.state
            &&& next.phase is Removing <==> age >= v.ttl
            &&& next.phase is Submitting <==> age < v.ttl && !known
            &&& next.phase is Walking <==> age < v.ttl && known
            &&& next.phase is Submitting ==> {
                &&& next.phase->Submitting_delay + age == v.ttl
                &&& 0 < next.phase->Submitting_delay <= v.ttl
            }
        }),
{
}

/// What decides is the time since the entry was created, where that is known,
/// else since it was last modified, else none at all. An entry is deleted on
/// the spot if and only if that time has reached the time to live. One that is
/// queued is queued for when the rest of the time to live has passed, and both
/// go by the path that the sweep was busy with.
pub proof fn law_time_since_creation_decides(
    v: SweepView,
    path: Seq<u8>,
    meta: FileMeta,
    born: Timestamp,
)
    requires
        v.phase == (PhaseView::Looking { path }),
        meta.created is Some ==> born == meta.created->0,
        meta.created is None && meta.modified is Some ==> born == meta.modified->0,
        meta.created is None && meta.modified is None ==> born == meta.clock,
    ensures
        ({
            let next = sweep::after(v, SweepInput::Stat(meta)).phase;
            let age = if v.now >= born@ {
                v.now - born@
            } else {
                0
            };
            &&& next is Removing <==> age >= v.ttl
            &&& next is Removing ==> {
                &&& next->Removing_path == path
                &&& next->Removing_is_dir == meta.is_dir
                &&& next->Removing_age == age
                &&& next->Removing_key == sweep::key_of(meta)
            }
            &&& next is Submitting ==> {
                &&& next->Submitting_path == path
                &&& next->Submitting_inode == meta.inode
                &&& next->Submitting_key == sweep::key_of(meta)
                &&& next->Submitting_delay == v.ttl - age
                &&& born@ >= 0 ==> {
                    let secs = next->Submitting_created_at_secs;
                    secs * 1_000_000_000 <= born@ < (secs + 1) * 1_000_000_000
                }
                &&& born@ < 0 ==> next->Submitting_created_at_secs == 0
            }
        }),
{
    time::lemma_seconds_fit(born);
}

/// Where it is known when an entry was created, nothing depends on when it was
/// last modified, nor on the time when that was asked for.
pub proof fn law_modification_does_not_matter(v: SweepView, a: FileMeta, b: FileMeta)
    requires
        v.phase is Looking,
        a.created is Some,
        a.created == b.created,
        a.inode == b.inode,
        a.is_dir == b.is_dir,
    ensures
        sweep::after(v, SweepInput::Stat(a)) == sweep::after(v, SweepInput::Stat(b)),
        sweep::key_of(a) == sweep::key_of(b),
{
}

/// The key of an entry is made of two numerals with a colon in between: the
/// value of the first is its inode, and that of the second the whole seconds
/// from 1970 to when it was created.
pub proof fn law_key_names_the_entry(meta: FileMeta)
    requires
        meta.created is Some,
        meta.created->0@ >= 0,
    ensures
        exists|a: Seq<char>, b: Seq<char>|
            #[trigger] text::denotes(a, meta.inode as nat) && #[trigger] text::denotes(
                b,
                (meta.created->0@ / 1_000_000_000) as nat,
            ) && sweep::key_of(meta) == a + seq![':'] + b,
{
    let born = meta.created->0;
    time::lemma_seconds_fit(born);
    let secs = sweep::birth_secs(meta);
    assert(secs == born@ / 1_000_000_000);
    state::law_key_names_inode_and_time(meta.inode, secs);
}

/// Whatever is done about an entry is done to the path that its name has in
/// the root: it is looked at, and then deleted, with what is in it where it is
/// a directory, or queued.
pub proof fn law_entry_is_dealt_with_under_its_path(
    v: SweepView,
    name: Vec<u8>,
    look: SweepAction,
    meta: FileMeta,
    deal: SweepAction,
)
    requires
        v.phase is Walking,
        !sweep::is_kept_name(name@),
        sweep::wants(sweep::after(v, SweepInput::Entry { name }), look),
        sweep::wants(
            sweep::after(sweep::after(v, SweepInput::Entry { name }), SweepInput::Stat(meta)),
            deal,
        ),
    ensures
        look is StatEntry,
        look->StatEntry_target@ == paths::joined(v.root, name@),
        deal is RemoveEntry || deal is SubmitEntry || deal is NextEntry,
        deal is RemoveEntry ==> {
            &&& deal->RemoveEntry_target@ == paths::joined(v.root, name@)
            &&& deal->is_dir == meta.is_dir
        },
        deal is SubmitEntry ==> {
            &&& deal->SubmitEntry_target@ == paths::joined(v.root, name@)
            &&& 0 < deal->delay@ <= v.ttl
        },
{
}

/// A sweep reads the state of its root, looks for what is recorded there, lists
/// the root, and at the end saves the state in the file that it was read from.
pub proof fn law_sweep_goes_by_its_root(v: SweepView, action: SweepAction)
    requires
        sweep::wants(v, action),
    ensures
        v.phase is Loading <==> action is LoadState,
        v.phase is Checking <==> action is CheckPaths,
        v.phase is Listing <==> action is ListRoot,
        v.phase is Walking <==> action is NextEntry,
        v.phase is Saving <==> action is SaveState,
        v.phase is Finished <==> action is Finish,
        action is LoadState ==> action->LoadState_file@ == state::file_of(v.root),
        action is ListRoot ==> action->root@ == v.root,
        action is SaveState ==> action->SaveState_file@ == state::file_of(v.root),
{
}

/// A sweep goes from reading the state to checking its paths, listing the root,
/// walking through it, and saving. It keeps its settings and the version of its
/// state, and counts entries and orphans only where it meets them.
pub proof fn law_sweep_goes_on(v: SweepView, input: SweepInput)
    requires
        sweep::fits(v, input),
    ensures
        ({
            let next = sweep::after(v, input);
            &&& v.phase is Loading ==> next.phase is Checking
            &&& v.phase is Checking ==> next.phase is Listing
            &&& v.phase is Listing ==> next.phase is Walking || next.phase is Saving
            &&& v.phase is Listing ==> (next.phase is Saving <==> input is ListFailed)
            &&& v.phase is Walking ==> (next.phase is Saving <==> input is NoMoreEntries)
            &&& v.phase is Removing || v.phase is Submitting ==> next.phase is Walking
            &&& input is StatFailed ==> next.phase is Walking
            &&& v.phase is Saving ==> next.phase is Finished
            &&& next.root == v.root
            &&& next.ttl == v.ttl
            &&& next.now == v.now
            &&& !(input is Loaded) ==> next.state.version == v.state.version
            &&& !(input is Entry) ==> next.report.stats.seen == v.report.stats.seen
            &&& !(input is Checked) ==> next.report.stats.orphans_pruned
                == v.report.stats.orphans_pruned
        }),
{
}

/// What came of an entry is told of its own path, once: that it was deleted at
/// its age, or queued as the job that was given for the delay that was asked
/// for.
pub proof fn law_what_was_done_is_told(v: SweepView, input: SweepInput)
    requires
        sweep::fits(v, input),
    ensures
        ({
            let next = sweep::after(v, input).report;
            let stats = v.report.stats;
            &&& input is Removed ==> {
                &&& next.events == v.report.events.push(
                    EventView::DeletedNow {
                        path: v.phase->Removing_path,
                        age: v.phase->Removing_age,
                    },
                )
                &&& next.stats.deleted_now == stats.deleted_now + 1
                &&& next.stats.seen == stats.seen
            }
            &&& input matches SweepInput::Submitted(outcome) ==> {
                &&& next.events == v.report.events.push(
                    EventView::Scheduled {
                        path: v.phase->Submitting_path,
                        jobid: outcome.jobid@,
                        delay: v.phase->Submitting_delay,
                    },
                )
                &&& next.stats.newly_scheduled == stats.newly_scheduled + 1
                &&& next.stats.seen == stats.seen
            }
        }),
{
}

/// An entry that is recorded and not past its time to live is left alone, and
/// that is told of its path, with the job that is recorded.
pub proof fn law_recorded_is_told_with_its_job(v: SweepView, path: Seq<u8>, meta: FileMeta, i: int)
    requires
        v.phase == (PhaseView::Looking { path }),
        entries::in_order(v.state.rows),
        0 <= i < v.state.rows.len(),
        v.state.rows[i].0 == sweep::key_of(meta),
        sweep::age_of(meta, v.now) < v.ttl,
    ensures
        ({
            let next = sweep::after(v, SweepInput::Stat(meta));
            &&& next.phase is Walking
            &&& next.state == v.state
            &&& next.report.events == v.report.events.push(
                EventView::AlreadyScheduled { path, jobid: v.state.rows[i].1.jobid },
            )
            &&& next.report.stats.already_scheduled == v.report.stats.already_scheduled + 1
        }),
{
    entries::lemma_row_of_key(v.state.rows, i);
}

/// Each failure is told once, with the path that it is about, what was
/// attempted and the description of what went wrong: an entry's own path, the
/// root where it cannot be listed, and the state file where it cannot be read
/// or saved.
pub proof fn law_failures_are_told(v: SweepView, input: SweepInput)
    requires
        sweep::fits(v, input),
    ensures
        ({
            let next = sweep::after(v, input).report;
            let file = state::file_of(v.root);
            let about = |path: Seq<u8>, message: Seq<char>|
                {
                    &&& next.events == v.report.events.push(EventView::Error { path, message })
                    &&& next.stats.errors == v.report.stats.errors + 1
                };
            &&& input matches SweepInput::Loaded(StateFile::Unreadable(why)) ==> about(
                file,
                "load state: "@ + why@,
            )
            &&& input matches SweepInput::Loaded(StateFile::Malformed(why)) ==> about(
                file,
                "load state: "@ + why@,
            )
            &&& input matches SweepInput::ListFailed(why) ==> about(v.root, "read_dir: "@ + why@)
            &&& input matches SweepInput::StatFailed(why) ==> about(
                v.phase->Looking_path,
                "stat: "@ + why@,
            )
            &&& input matches SweepInput::RemoveFailed(why) ==> about(
                v.phase->Removing_path,
                "rm: "@ + why@,
            )
            &&& input matches SweepInput::SubmitFailed(e) ==> about(
                v.phase->Submitting_path,
                if e is NotFound {
                    "qsub not on PATH — `source <tren-crc>/scheduler/env.sh` first"@
                } else {
                    "submit qsub: "@ + crate::qsub::error_text(e)
                },
            )
            &&& input matches SweepInput::SaveFailed(why) ==> about(file, "save state: "@ + why@)
        }),
{
}

/// An entry is to be deleted the whole seconds of the time to live after it
/// came to be, or at the latest time that there is.
pub proof fn law_deletion_is_a_time_to_live_later(created_at_secs: u64, ttl: nat)
    ensures
        created_at_secs + ttl / 1_000_000_000 <= u64::MAX ==> sweep::deletion_secs(
            created_at_secs,
            ttl,
        ) == created_at_secs + ttl / 1_000_000_000,
        created_at_secs + ttl / 1_000_000_000 > u64::MAX ==> sweep::deletion_secs(
            created_at_secs,
            ttl,
        ) == u64::MAX,
{
}

/// Once an entry was deleted, what was recorded under its key is gone, and
/// nothing else is.
pub proof fn law_deleting_drops_the_record(v: SweepView)
    requires
        v.phase is Removing,
        entries::in_order(v.state.rows),
    ensures
        entries::as_map(sweep::after(v, SweepInput::Removed).state.rows) == entries::as_map(
            v.state.rows,
        ).remove(v.phase->Removing_key),
        sweep::after(v, SweepInput::Removed).state.version == v.state.version,
{
    entries::lemma_dropped(v.state.rows, v.phase->Removing_key);
}

/// A new sweep has done nothing yet: it is about to read the state of its root,
/// and has its time to live and its time from the start.
pub proof fn law_sweep_starts_with_its_settings(root: Seq<u8>, ttl: nat, now: int)
    ensures
        ({
            let v = sweep::new_sweep(root, ttl, now);
            &&& v.phase is Loading
            &&& v.root == root
            &&& v.ttl == ttl
            &&& v.now == now
            &&& v.state.rows.len() == 0
            &&& v.report.events.len() == 0
            &&& v.report.stats.seen == 0
            &&& v.report.stats.orphans_pruned == 0
        }),
{
}

/// The names that are never swept are these three and no other.
pub proof fn law_three_names_are_kept(name: Seq<u8>)
    ensures
        sweep::is_kept_name(name) <==> {
            ||| name == vstd::utf8::encode_utf8(".bomb-ttl"@)
            ||| name == vstd::utf8::encode_utf8(".gitignore"@)
            ||| name == vstd::utf8::encode_utf8("README.md"@)
        },
{
}

/// The state that a sweep starts from is the one that was read, or one without
/// entries where none could be.
pub proof fn law_sweep_starts_from_what_was_read(v: SweepView, file: StateFile)
    requires
        v.phase is Loading,
    ensures
        ({
            let next = sweep::after(v, SweepInput::Loaded(file));
            &&& file matches StateFile::Parsed(s) ==> next.state.rows == s@.rows
            &&& !(file is Parsed) ==> next.state.rows.len() == 0
            &&& file is Parsed || file is Missing ==> next.report == v.report
        }),
{
}

/// As many orphans are counted as paths were not found, unless there are more
/// than the counter can hold.
pub proof fn law_orphans_are_counted(v: SweepView, live: Vec<bool>)
    requires
        v.phase is Checking,
        live@.len() == v.state.rows.len(),
        live@.len() <= u32::MAX,
    ensures
        ({
            let next = sweep::after(v, SweepInput::Checked(live));
            &&& next.report.stats.orphans_pruned + entries::live_count(live@) == live@.len()
            &&& next.state.rows.len() == entries::live_count(live@)
            &&& next.report.events == v.report.events
            &&& next.report.stats.errors == v.report.stats.errors
        }),
{
    entries::law_live_rows_are_counted(v.state.rows, live@);
    entries::lemma_live_rows(v.state.rows, live@);
}

/// The number of events of each kind.
pub open spec fn count_events(events: Seq<EventView>, kind: spec_fn(EventView) -> bool) -> nat
    decreases events.len(),
{
    if events.len() == 0 {
        0
    } else {
        count_events(events.drop_last(), kind) + (if kind(events.last()) { 1nat } else { 0nat })
    }
}

/// Whether the counts of a sweep are the numbers of its events.
pub open spec fn counts_are_right(v: SweepView) -> bool {
    let events = v.report.events;
    let stats = v.report.stats;
    &&& stats.deleted_now == count_events(events, |e: EventView| e is DeletedNow)
    &&& stats.newly_scheduled == count_events(events, |e: EventView| e is Scheduled)
    &&& stats.already_scheduled == count_events(events, |e: EventView| e is AlreadyScheduled)
    &&& stats.errors == count_events(events, |e: EventView| e is Error)
}

proof fn lemma_count_push(events: Seq<EventView>, e: EventView, kind: spec_fn(EventView) -> bool)
    ensures
        count_events(events.push(e), kind) == count_events(events, kind) + (if kind(e) {
            1nat
        } else {
            0nat
        }),
{
    assert(events.push(e).drop_last() =~= events);
}

/// A sweep starts with counts that are right.
pub proof fn law_counts_start_right(root: Seq<u8>, ttl: nat, now: int)
    ensures
        counts_are_right(sweep::new_sweep(root, ttl, now)),
{
}

/// Every step keeps the counts equal to the numbers of events.
pub proof fn law_counts_stay_right(v: SweepView, input: SweepInput)
    requires
        counts_are_right(v),
        sweep::fits(v, input),
    ensures
        counts_are_right(sweep::after(v, input)),
{
    let next = sweep::after(v, input);
    let events = v.report.events;
    if next.report.events.len() == events.len() + 1 {
        let e = next.report.events.last();
        assert(next.report.events =~= events.push(e));
        lemma_count_push(events, e, |e: EventView| e is DeletedNow);
        lemma_count_push(events, e, |e: EventView| e is Scheduled);
        lemma_count_push(events, e, |e: EventView| e is AlreadyScheduled);
        lemma_count_push(events, e, |e: EventView| e is Error);
    } else {
        assert(next.report.events =~= events);
    }
}

proof fn lemma_nothing_counted(events: Seq<EventView>, kind: spec_fn(EventView) -> bool)
    ensures
        count_events(events, kind) == 0 <==> forall|i: int|
            0 <= i < events.len() ==> !kind(#[trigger] events[i]),
    decreases events.len(),
{
    if events.len() > 0 {
        let rest = events.drop_last();
        lemma_nothing_counted(rest, kind);
        assert forall|i: int| 0 <= i < rest.len() implies rest[i] == #[trigger] events[i] by {
        }
        if count_events(events, kind) == 0 {
            assert forall|i: int| 0 <= i < events.len() implies !kind(#[trigger] events[i]) by {
                if i < rest.len() {
                    assert(!kind(rest[i]));
                }
            }
        } else if kind(events.last()) {
            assert(kind(events[events.len() - 1]));
        } else {
            let i = choose|i: int| 0 <= i < rest.len() && kind(#[trigger] rest[i]);
            assert(kind(events[i]));
        }
    }
}

/// A scan exits with 0 if and only if it has told of no error, and else with 1.
pub proof fn law_exit_code_tells_of_errors(v: SweepView)
    requires
        counts_are_right(v),
    ensures
        crate::cli::exit_code_of(v.report) == 0 <==> forall|i: int|
            0 <= i < v.report.events.len() ==> !(#[trigger] v.report.events[i] is Error),
        crate::cli::exit_code_of(v.report) <= 1,
{
    lemma_nothing_counted(v.report.events, |e: EventView| e is Error);
}

/// Whether the sweep is busy with an entry that it has counted as seen.
pub open spec fn is_busy(v: SweepView) -> bool {
    v.phase is Looking || v.phase is Removing || v.phase is Submitting
}

/// Whether `input` tells of a failure that is not about an entry.
pub open spec fn is_general_failure(input: SweepInput) -> bool {
    ||| input matches SweepInput::Loaded(StateFile::Unreadable(_))
    ||| input matches SweepInput::Loaded(StateFile::Malformed(_))
    ||| input is ListFailed
    ||| input is SaveFailed
}

/// The number of `inputs` that tell of a failure that is not about an entry.
pub open spec fn general_failures(inputs: Seq<SweepInput>) -> nat
    decreases inputs.len(),
{
    if inputs.len() == 0 {
        0
    } else {
        general_failures(inputs.drop_last()) + (if is_general_failure(inputs.last()) {
            1nat
        } else {
            0nat
        })
    }
}

/// Every entry that is seen gives exactly one event by the time the sweep is
/// done with it, and there are no other events but for the failures that are
/// not about an entry.
pub proof fn law_one_event_for_each_entry(
    root: Seq<u8>,
    ttl: nat,
    now: int,
    inputs: Seq<SweepInput>,
)
    requires
        is_run(sweep::new_sweep(root, ttl, now), inputs),
    ensures
        ({
            let v = run(sweep::new_sweep(root, ttl, now), inputs);
            v.report.events.len() + (if is_busy(v) { 1nat } else { 0nat }) == v.report.stats.seen
                + general_failures(inputs)
        }),
    decreases inputs.len(),
{
    if inputs.len() > 0 {
        law_one_event_for_each_entry(root, ttl, now, inputs.drop_last());
    }
}

/// A row of the state is kept by the check of the paths if and only if its
/// path was found.
pub proof fn law_orphans_are_pruned(v: SweepView, live: Vec<bool>, row: entries::Row)
    requires
        v.phase is Checking,
        live@.len() == v.state.rows.len(),
    ensures
        sweep::after(v, SweepInput::Checked(live)).state.rows.contains(row) <==> exists|i: int|
            0 <= i < v.state.rows.len() && #[trigger] v.state.rows[i] == row && live@[i],
{
    entries::lemma_live_rows(v.state.rows, live@);
}

/// Whether `input` tells that the entry recorded under `key` was deleted.
pub open spec fn removes(v: SweepView, input: SweepInput, key: Seq<char>) -> bool {
    input is Removed && v.phase is Removing && v.phase->Removing_key == key
}

/// Whether one of the `inputs` tells that the entry recorded under `key` was
/// deleted.
pub open spec fn run_removes(v: SweepView, inputs: Seq<SweepInput>, key: Seq<char>) -> bool
    decreases inputs.len(),
{
    inputs.len() > 0 && (run_removes(v, inputs.drop_last(), key) || removes(
        run(v, inputs.drop_last()),
        inputs.last(),
        key,
    ))
}

/// Whether the sweep is past reading and checking the state.
pub open spec fn is_past_check(v: SweepView) -> bool {
    !(v.phase is Loading || v.phase is Checking)
}

/// Whether `entry` is recorded under `key`, and the sweep is not about to
/// schedule the deletion of an entry with that key.
pub open spec fn is_settled(v: SweepView, key: Seq<char>, entry: EntryView) -> bool {
    &&& is_past_check(v)
    &&& entries::in_order(v.state.rows)
    &&& entries::as_map(v.state.rows).contains_key(key)
    &&& entries::as_map(v.state.rows)[key] == entry
    &&& !(v.phase is Submitting && v.phase->Submitting_key == key)
}

/// Once the deletion of an entry is recorded it stays recorded, and is never
/// scheduled a second time, for as long as the entry is not deleted: whatever
/// else the sweep runs into.
pub proof fn law_recorded_is_never_queued_again(
    v: SweepView,
    inputs: Seq<SweepInput>,
    key: Seq<char>,
    entry: EntryView,
)
    requires
        is_settled(v, key, entry),
        is_run(v, inputs),
        !run_removes(v, inputs, key),
    ensures
        is_settled(run(v, inputs), key, entry),
    decreases inputs.len(),
{
    if inputs.len() > 0 {
        law_recorded_is_never_queued_again(v, inputs.drop_last(), key, entry);
        let before = run(v, inputs.drop_last());
        let input = inputs.last();
        law_keys_stay_in_order(before, input);
        match input {
            SweepInput::Removed => {
                entries::lemma_dropped(before.state.rows, before.phase->Removing_key);
            },
            SweepInput::Submitted(outcome) => {
                entries::lemma_recorded(
                    before.state.rows,
                    before.phase->Submitting_key,
                    sweep::scheduled_entry(before.phase, before.ttl, outcome.jobid@),
                );
            },
            _ => {},
        }
    }
}

/// Scheduling the deletion of an entry records it under the key of the entry:
/// with its path, whatever bytes that has, with its job, and with the time
/// when it will be deleted, which is the time to live after it came to be.
pub proof fn law_scheduling_records(v: SweepView, outcome: QsubOutcome)
    requires
        v.phase is Submitting,
        entries::in_order(v.state.rows),
    ensures
        ({
            let entry = sweep::scheduled_entry(v.phase, v.ttl, outcome.jobid@);
            &&& is_settled(
                sweep::after(v, SweepInput::Submitted(outcome)),
                v.phase->Submitting_key,
                entry,
            )
            &&& state::path_of(entry) == v.phase->Submitting_path
            &&& entry.path == text::shown(v.phase->Submitting_path)
            &&& entry.jobid == outcome.jobid@
            &&& entry.created_at_secs == v.phase->Submitting_created_at_secs
            &&& entry.delete_at_secs == sweep::deletion_secs(entry.created_at_secs, v.ttl)
            &&& entry.inode == v.phase->Submitting_inode
        }),
{
    if vstd::utf8::valid_utf8(v.phase->Submitting_path) {
        vstd::utf8::decode_utf8_encode_utf8(v.phase->Submitting_path);
    }
    entries::lemma_recorded(
        v.state.rows,
        v.phase->Submitting_key,
        sweep::scheduled_entry(v.phase, v.ttl, outcome.jobid@),
    );
}

/// The sweep that has read the state `s`, found the paths that `live` marks,
/// and opened the root.
pub open spec fn ready(v: SweepView, s: State, live: Vec<bool>) -> SweepView {
    sweep::after(
        sweep::after(
            sweep::after(v, SweepInput::Loaded(StateFile::Parsed(s))),
            SweepInput::Checked(live),
        ),
        SweepInput::Listed,
    )
}

/// A deletion that an earlier scan has recorded, and whose path still exists,
/// is not queued again by a later scan: as long as the entry is not deleted
/// it stays recorded, and when the scan comes to an entry with that key, that
/// is not past its time to live, it reports the job of the earlier scan.
pub proof fn law_rescan_does_not_requeue(
    v: SweepView,
    s: State,
    live: Vec<bool>,
    at: int,
    inputs: Seq<SweepInput>,
    path: Seq<u8>,
    meta: FileMeta,
)
    requires
        v.phase is Loading,
        entries::in_order(s@.rows),
        live@.len() == s@.rows.len(),
        0 <= at < live@.len(),
        live@[at],
        s@.rows[at].0 == sweep::key_of(meta),
        is_run(ready(v, s, live), inputs),
        !run_removes(ready(v, s, live), inputs, sweep::key_of(meta)),
    ensures
        is_settled(run(ready(v, s, live), inputs), sweep::key_of(meta), s@.rows[at].1),
        ({
            let w = run(ready(v, s, live), inputs);
            w.phase == (PhaseView::Looking { path }) && sweep::age_of(meta, w.now) < w.ttl ==> {
                let next = sweep::after(w, SweepInput::Stat(meta));
                &&& next.phase is Walking
                &&& next.state == w.state
                &&& next.report.stats.newly_scheduled == w.report.stats.newly_scheduled
                &&& next.report.events == w.report.events.push(
                    EventView::AlreadyScheduled { path, jobid: s@.rows[at].1.jobid },
                )
            }
        }),
{
    let key = sweep::key_of(meta);
    let r = ready(v, s, live);
    let kept = entries::live_rows(s@.rows, live@);
    entries::lemma_live_rows(s@.rows, live@);
    entries::lemma_live_order(s@.rows, live@);
    assert(r.state.rows == kept);
    assert(kept.contains(s@.rows[at]));
    let i = kept.index_of(s@.rows[at]);
    entries::lemma_row_of_key(kept, i);
    law_recorded_is_never_queued_again(r, inputs, key, s@.rows[at].1);
}

/// The root, the time to live and the time of a sweep stay what they are.
proof fn lemma_settings_stay(v: SweepView, inputs: Seq<SweepInput>)
    ensures
        run(v, inputs).root == v.root,
        run(v, inputs).ttl == v.ttl,
        run(v, inputs).now == v.now,
    decreases inputs.len(),
{
    if inputs.len() > 0 {
        lemma_settings_stay(v, inputs.drop_last());
    }
}

proof fn lemma_keys_in_order(v: SweepView, inputs: Seq<SweepInput>)
    requires
        entries::in_order(v.state.rows),
        is_run(v, inputs),
    ensures
        entries::in_order(run(v, inputs).state.rows),
    decreases inputs.len(),
{
    if inputs.len() > 0 {
        lemma_keys_in_order(v, inputs.drop_last());
        law_keys_stay_in_order(run(v, inputs.drop_last()), inputs.last());
    }
}

/// What one scan has queued, a later scan does not queue again. A scan that
/// was told `earlier` has an entry queued and is then told `later`, up to
/// where it wants its state saved. A later scan of the root reads that state
/// back and finds the path of the entry. When it comes to an entry with that
/// key, that is not past its time to live, it does not queue it, and reports
/// the job that the first scan has queued. This holds as long as no scan was
/// told that it has deleted the entry.
pub proof fn law_never_queued_twice(
    root: Seq<u8>,
    ttl: nat,
    now: int,
    earlier: Seq<SweepInput>,
    outcome: QsubOutcome,
    later: Seq<SweepInput>,
    next_ttl: nat,
    next_now: int,
    s: State,
    live: Vec<bool>,
    inputs: Seq<SweepInput>,
    path: Seq<u8>,
    meta: FileMeta,
)
    requires
        is_run(sweep::new_sweep(root, ttl, now), earlier),
        ({
            let asked = run(sweep::new_sweep(root, ttl, now), earlier);
            let queued = sweep::after(asked, SweepInput::Submitted(outcome));
            let written = run(queued, later);
            let again = ready(sweep::new_sweep(root, next_ttl, next_now), s, live);
            &&& asked.phase is Submitting
            &&& asked.phase->Submitting_key == sweep::key_of(meta)
            &&& is_run(queued, later)
            &&& !run_removes(queued, later, sweep::key_of(meta))
            &&& written.phase is Saving
            &&& s@.version == written.state.version
            &&& entries::in_order(s@.rows)
            &&& entries::as_map(s@.rows) == state::last_wins(written.state.rows)
            &&& live@.len() == s@.rows.len()
            &&& forall|i: int|
                0 <= i < live@.len() && #[trigger] s@.rows[i].0 == sweep::key_of(meta) ==> live@[i]
            &&& is_run(again, inputs)
            &&& !run_removes(again, inputs, sweep::key_of(meta))
        }),
    ensures
        ({
            let asked = run(sweep::new_sweep(root, ttl, now), earlier);
            let again = ready(sweep::new_sweep(root, next_ttl, next_now), s, live);
            let w = run(again, inputs);
            &&& is_settled(
                w,
                sweep::key_of(meta),
                sweep::scheduled_entry(asked.phase, ttl, outcome.jobid@),
            )
            &&& w.phase == (PhaseView::Looking { path }) && sweep::age_of(meta, next_now) < next_ttl
                ==> {
                let next = sweep::after(w, SweepInput::Stat(meta));
                &&& next.phase is Walking
                &&& next.state == w.state
                &&& next.report.stats.newly_scheduled == w.report.stats.newly_scheduled
                &&& next.report.events == w.report.events.push(
                    EventView::AlreadyScheduled { path, jobid: outcome.jobid@ },
                )
            }
        }),
{
    let key = sweep::key_of(meta);
    let asked = run(sweep::new_sweep(root, ttl, now), earlier);
    let queued = sweep::after(asked, SweepInput::Submitted(outcome));
    let written = run(queued, later);
    let entry = sweep::scheduled_entry(asked.phase, ttl, outcome.jobid@);
    let again = ready(sweep::new_sweep(root, next_ttl, next_now), s, live);
    lemma_settings_stay(sweep::new_sweep(root, ttl, now), earlier);
    lemma_keys_in_order(sweep::new_sweep(root, ttl, now), earlier);
    law_scheduling_records(asked, outcome);
    law_recorded_is_never_queued_again(queued, later, key, entry);
    state::law_state_reads_back(written.state, s@);
    assert(s@.rows == written.state.rows);
    let at = choose|i: int| 0 <= i < s@.rows.len() && #[trigger] s@.rows[i].0 == key;
    entries::lemma_row_of_key(s@.rows, at);
    lemma_settings_stay(again, inputs);
    law_rescan_does_not_requeue(
        sweep::new_sweep(root, next_ttl, next_now),
        s,
        live,
        at,
        inputs,
        path,
        meta,
    );
}

/// An entry that was deleted and created again, under the same name or
/// another, with another inode or creation time, has another key.
pub proof fn law_created_again_has_another_key(gone: FileMeta, meta: FileMeta)
    requires
        gone.inode != meta.inode || sweep::birth_secs(gone) != sweep::birth_secs(meta),
    ensures
        sweep::key_of(gone) != sweep::key_of(meta),
{
    if sweep::key_of(gone) == sweep::key_of(meta) {
        state::law_keys_are_distinct(
            gone.inode,
            sweep::birth_secs(gone),
            meta.inode,
            sweep::birth_secs(meta),
        );
    }
}

/// Whether one of the `inputs` tells that an entry with this key was queued.
pub open spec fn run_records(v: SweepView, inputs: Seq<SweepInput>, key: Seq<char>) -> bool
    decreases inputs.len(),
{
    inputs.len() > 0 && (run_records(v, inputs.drop_last(), key) || {
        let before = run(v, inputs.drop_last());
        &&& inputs.last() is Submitted
        &&& before.phase is Submitting
        &&& before.phase->Submitting_key == key
    })
}

proof fn lemma_unrecorded_stays_so(v: SweepView, inputs: Seq<SweepInput>, key: Seq<char>)
    requires
        is_past_check(v),
        entries::in_order(v.state.rows),
        !entries::as_map(v.state.rows).contains_key(key),
        is_run(v, inputs),
        !run_records(v, inputs, key),
    ensures
        is_past_check(run(v, inputs)),
        entries::in_order(run(v, inputs).state.rows),
        !entries::as_map(run(v, inputs).state.rows).contains_key(key),
    decreases inputs.len(),
{
    if inputs.len() > 0 {
        lemma_unrecorded_stays_so(v, inputs.drop_last(), key);
        let before = run(v, inputs.drop_last());
        law_keys_stay_in_order(before, inputs.last());
        match inputs.last() {
            SweepInput::Removed => {
                entries::lemma_dropped(before.state.rows, before.phase->Removing_key);
            },
            SweepInput::Submitted(outcome) => {
                entries::lemma_recorded(
                    before.state.rows,
                    before.phase->Submitting_key,
                    sweep::scheduled_entry(before.phase, before.ttl, outcome.jobid@),
                );
            },
            _ => {},
        }
    }
}

/// An entry whose key no earlier scan has recorded, such as one that was
/// deleted and created again, gets a schedule of its own: when a scan comes to
/// it, that has not queued it yet and that finds it not past its time to live,
/// the scan has it queued, for when the rest of its time to live has passed.
/// What is recorded under other keys, for the same path too, does not matter.
pub proof fn law_created_again_is_scheduled_afresh(
    v: SweepView,
    s: State,
    live: Vec<bool>,
    inputs: Seq<SweepInput>,
    path: Seq<u8>,
    meta: FileMeta,
)
    requires
        v.phase is Loading,
        entries::in_order(s@.rows),
        live@.len() == s@.rows.len(),
        !entries::has_key(s@.rows, sweep::key_of(meta)),
        is_run(ready(v, s, live), inputs),
        !run_records(ready(v, s, live), inputs, sweep::key_of(meta)),
    ensures
        ({
            let w = run(ready(v, s, live), inputs);
            let age = sweep::age_of(meta, w.now);
            w.phase == (PhaseView::Looking { path }) && age < w.ttl ==> sweep::after(
                w,
                SweepInput::Stat(meta),
            ).phase == (PhaseView::Submitting {
                path,
                key: sweep::key_of(meta),
                created_at_secs: sweep::birth_secs(meta),
                inode: meta.inode,
                delay: (w.ttl - age) as nat,
            })
        }),
{
    let key = sweep::key_of(meta);
    let r = ready(v, s, live);
    let kept = entries::live_rows(s@.rows, live@);
    entries::lemma_live_rows(s@.rows, live@);
    entries::lemma_live_order(s@.rows, live@);
    assert(r.state.rows == kept);
    if entries::has_key(kept, key) {
        let i = choose|i: int| 0 <= i < kept.len() && #[trigger] kept[i].0 == key;
        assert(kept.contains(kept[i]));
        let j = choose|j: int|
            0 <= j < s@.rows.len() && #[trigger] s@.rows[j] == kept[i] && live@[j];
        assert(s@.rows[j].0 == key);
    }
    lemma_unrecorded_stays_so(r, inputs, key);
}

/// A sweep ends only after it has wanted the state saved, and what it wanted
/// saved is its state at the end.
pub proof fn law_state_is_saved_before_the_end(v: SweepView, input: SweepInput)
    requires
        sweep::fits(v, input),
        sweep::after(v, input).phase is Finished,
    ensures
        v.phase is Saving,
        sweep::after(v, input).state == v.state,
{
}

/// The record of deletions changes only when the state is read, when its
/// paths are checked, when an entry was deleted and when one was scheduled.
pub proof fn law_failures_change_no_record(v: SweepView, input: SweepInput)
    requires
        sweep::fits(v, input),
        !(input is Loaded || input is Checked || input is Removed || input is Submitted),
    ensures
        sweep::after(v, input).state == v.state,
{
}

} // verus!
