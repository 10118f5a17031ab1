//! The course of the cancellation of a scheduled deletion.
//!
//! A [`Cancel`] decides; its caller acts. [`Cancel::action`] says what is to
//! be done, and [`Cancel::step`] is told what came of it.

use vstd::prelude::*;

use crate::cli::{Line, LineView};
use crate::paths;
use crate::qsub;
use crate::qsub::QsubError;
use crate::state;
use crate::state::{EntryView, StateView};
use crate::state::{State, StateEntry, StateFile};
use crate::text;
use crate::text::show;

verus! {

/// How far a cancellation has come.
#[derive(Debug)]
pub enum CancelPhase {
    Loading,
    Deleting(StateEntry),
    Saving,
    Finished { code: u8 },
}

/// The contents of a [`CancelPhase`].
pub enum CancelPhaseView {
    Loading,
    Deleting(EntryView),
    Saving,
    Finished { code: u8 },
}

impl View for CancelPhase {
    type V = CancelPhaseView;

    open spec fn view(&self) -> CancelPhaseView {
        match self {
            CancelPhase::Loading => CancelPhaseView::Loading,
            CancelPhase::Deleting(e) => CancelPhaseView::Deleting(e@),
            CancelPhase::Saving => CancelPhaseView::Saving,
            CancelPhase::Finished { code } => CancelPhaseView::Finished { code: *code },
        }
    }
}

/// What a cancellation wants done.
#[derive(Debug)]
pub enum CancelAction {
    /// Read the state file.
    LoadState,
    /// Delete the queued job.
    DeleteJob { jobid: String },
    /// Write the state file.
    SaveState,
    /// Exit with this code.
    Exit { code: u8 },
}

/// What came of an action.
#[derive(Debug)]
pub enum CancelInput {
    Loaded(StateFile),
    /// Whether `qdel` ended well, or why it could not be run.
    Deleted(Result<bool, QsubError>),
    Saved,
    SaveFailed(String),
}

/// The state of a cancellation.
pub struct CancelView {
    /// The path whose deletion is to be cancelled.
    pub target: Seq<u8>,
    /// That path as it was given.
    pub given: Seq<u8>,
    pub phase: CancelPhaseView,
    pub state: StateView,
}

/// Whether `input` can come of the action that the cancellation wants.
pub open spec fn fits(v: CancelView, input: CancelInput) -> bool {
    match input {
        CancelInput::Loaded(_) => v.phase is Loading,
        CancelInput::Deleted(_) => v.phase is Deleting,
        CancelInput::Saved => v.phase is Saving,
        CancelInput::SaveFailed(_) => v.phase is Saving,
    }
}

/// The cancellation with the state `s`: without the entry that is meant, if
/// there is one.
pub open spec fn after_find(v: CancelView, s: StateView) -> CancelView {
    let i = state::meant_row(s.rows, v.target);
    if i < s.rows.len() {
        CancelView {
            phase: CancelPhaseView::Deleting(s.rows[i].1),
            state: StateView { rows: s.rows.remove(i), ..s },
            ..v
        }
    } else {
        CancelView { phase: CancelPhaseView::Finished { code: 2 }, state: s, ..v }
    }
}

/// The cancellation after it was told `input`. Whatever came of `qdel`, the
/// state is saved without the entry.
pub open spec fn after(v: CancelView, input: CancelInput) -> CancelView {
    match input {
        CancelInput::Loaded(file) => match state::state_in(file) {
            Ok(s) => after_find(v, s),
            Err(_) => CancelView { phase: CancelPhaseView::Finished { code: 1 }, ..v },
        },
        CancelInput::Deleted(_) => CancelView { phase: CancelPhaseView::Saving, ..v },
        CancelInput::Saved => CancelView { phase: CancelPhaseView::Finished { code: 0 }, ..v },
        CancelInput::SaveFailed(_) => CancelView {
            phase: CancelPhaseView::Finished { code: 1 },
            ..v
        },
    }
}

/// The line for what came of `qdel`.
pub open spec fn deleted_line(e: EntryView, outcome: Result<bool, QsubError>) -> LineView {
    match outcome {
        Ok(true) => LineView::Stdout("cancelled jobid="@ + e.jobid + " path="@ + e.path),
        Ok(false) => LineView::Stdout(
            "qdel "@ + e.jobid + " returned non-zero (entry dropped from state anyway)"@,
        ),
        Err(why) => LineView::Stderr("bomb-ttl: qdel "@ + e.jobid + ": "@ + qsub::error_text(why)),
    }
}

/// The line to print when the cancellation is told `input`, if any.
pub open spec fn line_for(v: CancelView, input: CancelInput) -> Option<LineView> {
    match input {
        CancelInput::Loaded(file) => match state::state_in(file) {
            Ok(s) => if after_find(v, s).phase is Finished {
                Some(LineView::Stderr("bomb-ttl: no scheduled entry for "@ + text::shown(v.given)))
            } else {
                None
            },
            Err(e) => Some(
                LineView::Stderr("bomb-ttl: load state: "@ + state::load_error_text(e)),
            ),
        },
        CancelInput::Deleted(outcome) => Some(deleted_line(v.phase->Deleting_0, outcome)),
        CancelInput::Saved => None,
        CancelInput::SaveFailed(why) => Some(LineView::Stderr("bomb-ttl: save state: "@ + why@)),
    }
}

/// Whether `action` is what a cancellation in `phase` wants done.
pub open spec fn wants(phase: CancelPhaseView, action: CancelAction) -> bool {
    match phase {
        CancelPhaseView::Loading => action is LoadState,
        CancelPhaseView::Deleting(e) => action is DeleteJob && action->jobid@ == e.jobid,
        CancelPhaseView::Saving => action is SaveState,
        CancelPhaseView::Finished { code } => action == (CancelAction::Exit { code }),
    }
}

/// A cancellation on its way.
#[derive(Debug)]
pub struct Cancel {
    target: Vec<u8>,
    given: Vec<u8>,
    phase: CancelPhase,
    state: State,
}

impl View for Cancel {
    type V = CancelView;

    closed spec fn view(&self) -> CancelView {
        CancelView {
            target: self.target@,
            given: self.given@,
            phase: self.phase@,
            state: self.state@,
        }
    }
}

/// `prefix` and what follows it.
fn two(prefix: &str, rest: &str) -> (s: String)
    ensures
        s@ == prefix@ + rest@,
{
    let mut s = prefix.to_owned();
    s.append(rest);
    s
}

fn deletion_line(e: &StateEntry, outcome: &Result<bool, QsubError>) -> (line: Line)
    ensures
        line@ == deleted_line(e@, *outcome),
{
    match outcome {
        Ok(true) => {
            let mut s = two("cancelled jobid=", e.jobid.as_str());
            s.append(" path=");
            s.append(e.path.as_str());
            Line::Stdout(s)
        },
        Ok(false) => {
            let mut s = two("qdel ", e.jobid.as_str());
            s.append(" returned non-zero (entry dropped from state anyway)");
            Line::Stdout(s)
        },
        Err(why) => {
            let mut s = two("bomb-ttl: qdel ", e.jobid.as_str());
            s.append(": ");
            s.append(why.text().as_str());
            Line::Stderr(s)
        },
    }
}

impl Cancel {
    /// A new cancellation of the deletion of `target`, which was given as
    /// `given`.
    pub fn new(target: Vec<u8>, given: Vec<u8>) -> (c: Cancel)
        ensures
            c@ == (CancelView {
                target: target@,
                given: given@,
                phase: CancelPhaseView::Loading,
                state: state::empty_state(),
            }),
    {
        Cancel { target, given, phase: CancelPhase::Loading, state: State::empty() }
    }

    /// What the cancellation wants done.
    pub fn action(&self) -> (action: CancelAction)
        ensures
            wants(self@.phase, action),
    {
        match &self.phase {
            CancelPhase::Loading => CancelAction::LoadState,
            CancelPhase::Deleting(e) => CancelAction::DeleteJob { jobid: e.jobid.clone() },
            CancelPhase::Saving => CancelAction::SaveState,
            CancelPhase::Finished { code } => CancelAction::Exit { code: *code },
        }
    }

    /// The state as it is to be written.
    pub fn state(&self) -> (s: &State)
        ensures
            s@ == self@.state,
    {
        &self.state
    }

    /// Tells the cancellation what came of the action that it wanted.
    /// Returns the line to print, if any.
    pub fn step(&mut self, input: CancelInput) -> (line: Option<Line>)
        requires
            fits(old(self)@, input),
        ensures
            final(self)@ == after(old(self)@, input),
            line is Some <==> line_for(old(self)@, input) is Some,
            line is Some ==> line_for(old(self)@, input) == Some(line->0@),
    {
        match input {
            CancelInput::Loaded(file) => match State::load(file) {
                Ok(s) => {
                    self.state = s;
                    match self.state.cancel(self.target.as_slice()) {
                        Some(e) => {
                            self.phase = CancelPhase::Deleting(e);
                            None
                        },
                        None => {
                            self.phase = CancelPhase::Finished { code: 2 };
                            let given = show(self.given.as_slice());
                            Some(
                                Line::Stderr(
                                    two("bomb-ttl: no scheduled entry for ", given.as_str()),
                                ),
                            )
                        },
                    }
                },
                Err(e) => {
                    self.phase = CancelPhase::Finished { code: 1 };
                    Some(Line::Stderr(two("bomb-ttl: load state: ", e.text())))
                },
            },
            CancelInput::Deleted(outcome) => {
                let line = match &self.phase {
                    CancelPhase::Deleting(e) => Some(deletion_line(e, &outcome)),
                    _ => None,
                };
                self.phase = CancelPhase::Saving;
                line
            },
            CancelInput::Saved => {
                self.phase = CancelPhase::Finished { code: 0 };
                None
            },
            CancelInput::SaveFailed(why) => {
                self.phase = CancelPhase::Finished { code: 1 };
                Some(Line::Stderr(two("bomb-ttl: save state: ", why.as_str())))
            },
        }
    }
}

/// A cancellation that finds its entry drops that entry and no other, and
/// wants the state saved without it whatever comes of `qdel`. Where an entry
/// has the given path, the one that is dropped has it; else none has, and the
/// one that is dropped is the first whose path ends in the same name.
pub proof fn law_cancel_drops_one_entry(
    v: CancelView,
    file: StateFile,
    outcome: Result<bool, QsubError>,
)
    requires
        v.phase is Loading,
        after(v, CancelInput::Loaded(file)).phase is Deleting,
    ensures
        file is Parsed,
        ({
            let before = state::loaded_state(file->Parsed_0@);
            let w = after(v, CancelInput::Loaded(file));
            let next = after(w, CancelInput::Deleted(outcome));
            let i = state::meant_row(before.rows, v.target);
            let path = state::path_of(before.rows[i].1);
            &&& 0 <= i < before.rows.len()
            &&& w.phase == CancelPhaseView::Deleting(before.rows[i].1)
            &&& paths::last_name(path) == paths::last_name(v.target)
            &&& (exists|j: int|
                0 <= j < before.rows.len() && paths::is_same_path(
                    state::path_of(#[trigger] before.rows[j].1),
                    v.target,
                )) ==> paths::is_same_path(path, v.target)
            &&& paths::is_same_path(path, v.target) ==> forall|j: int|
                0 <= j < i ==> !paths::is_same_path(
                    state::path_of(#[trigger] before.rows[j].1),
                    v.target,
                )
            &&& !paths::is_same_path(path, v.target) ==> {
                &&& paths::last_name(path) == paths::last_name(v.target)
                &&& forall|j: int|
                    0 <= j < i ==> paths::last_name(state::path_of(#[trigger] before.rows[j].1))
                        != paths::last_name(v.target)
            }
            &&& next.phase is Saving
            &&& next.state.rows == before.rows.remove(i)
            &&& next.state.version == before.version
        }),
{
    let rows = if file is Parsed {
        state::loaded_state(file->Parsed_0@).rows
    } else {
        state::empty_state().rows
    };
    state::lemma_first_same_path(rows, v.target);
    state::lemma_first_same_name(rows, v.target);
}

/// Where no recorded path is the given one or ends in the same name, a
/// cancellation changes no record and exits with 2.
pub proof fn law_cancel_without_entry(v: CancelView, s: State)
    requires
        v.phase is Loading,
        forall|j: int|
            0 <= j < s@.rows.len() ==> {
                let path = state::path_of(#[trigger] s@.rows[j].1);
                !paths::is_same_path(path, v.target) && paths::last_name(path) != paths::last_name(
                    v.target,
                )
            },
    ensures
        after(v, CancelInput::Loaded(StateFile::Parsed(s))).phase == (CancelPhaseView::Finished {
            code: 2,
        }),
        after(v, CancelInput::Loaded(StateFile::Parsed(s))).state == state::loaded_state(s@),
        line_for(v, CancelInput::Loaded(StateFile::Parsed(s))) == Some(
            LineView::Stderr("bomb-ttl: no scheduled entry for "@ + text::shown(v.given)),
        ),
{
    state::lemma_first_same_path(s@.rows, v.target);
    state::lemma_first_same_name(s@.rows, v.target);
}

/// Where a recorded path ends in the name that the given one ends in, a
/// cancellation finds an entry, and says nothing yet.
pub proof fn law_name_is_enough_to_cancel(v: CancelView, s: State, i: int)
    requires
        v.phase is Loading,
        0 <= i < s@.rows.len(),
        paths::last_name(state::path_of(s@.rows[i].1)) == paths::last_name(v.target),
    ensures
        after(v, CancelInput::Loaded(StateFile::Parsed(s))).phase is Deleting,
        after(v, CancelInput::Loaded(StateFile::Parsed(s))).state.rows.len() == s@.rows.len() - 1,
        line_for(v, CancelInput::Loaded(StateFile::Parsed(s))) is None,
{
    state::lemma_first_same_path(s@.rows, v.target);
    state::lemma_first_same_name(s@.rows, v.target);
}

/// Where one entry has the given path, and no other has the same names on its
/// path, that entry is the one that is dropped, and its job is the one that is
/// deleted.
pub proof fn law_cancel_takes_the_given_path(v: CancelView, s: State, i: int, action: CancelAction)
    requires
        v.phase is Loading,
        0 <= i < s@.rows.len(),
        state::path_of(s@.rows[i].1) == v.target,
        forall|j: int|
            0 <= j < s@.rows.len() && j != i ==> paths::names(
                state::path_of(#[trigger] s@.rows[j].1),
            ) != paths::names(v.target),
        wants(after(v, CancelInput::Loaded(StateFile::Parsed(s))).phase, action),
    ensures
        after(v, CancelInput::Loaded(StateFile::Parsed(s))).phase == CancelPhaseView::Deleting(
            s@.rows[i].1,
        ),
        after(v, CancelInput::Loaded(StateFile::Parsed(s))).state.rows == s@.rows.remove(i),
        action is DeleteJob,
        action->jobid@ == s@.rows[i].1.jobid,
{
    let k = state::first_same_path(s@.rows, v.target);
    state::lemma_first_same_path(s@.rows, v.target);
    paths::law_same_path_is_an_equivalence(v.target, v.target, v.target);
    if k < s@.rows.len() {
        paths::law_same_path_has_the_same_names(state::path_of(s@.rows[k].1), v.target);
    }
    assert(k == i);
}

/// A cancellation ends with 0 once the state is saved, with 1 where the state
/// could not be read or saved, and in between it only waits for `qdel`. Each
/// failure is told on stderr, with its description.
pub proof fn law_cancel_tells_how_it_ended(
    v: CancelView,
    why: String,
    outcome: Result<bool, QsubError>,
)
    ensures
        after(v, CancelInput::Saved).phase == (CancelPhaseView::Finished { code: 0 }),
        line_for(v, CancelInput::Saved) is None,
        after(v, CancelInput::SaveFailed(why)).phase == (CancelPhaseView::Finished { code: 1 }),
        line_for(v, CancelInput::SaveFailed(why)) == Some(
            LineView::Stderr("bomb-ttl: save state: "@ + why@),
        ),
        after(v, CancelInput::Loaded(StateFile::Unreadable(why))).phase
            == (CancelPhaseView::Finished { code: 1 }),
        after(v, CancelInput::Loaded(StateFile::Malformed(why))).phase
            == (CancelPhaseView::Finished { code: 1 }),
        line_for(v, CancelInput::Loaded(StateFile::Unreadable(why))) == Some(
            LineView::Stderr("bomb-ttl: load state: "@ + why@),
        ),
        line_for(v, CancelInput::Loaded(StateFile::Malformed(why))) == Some(
            LineView::Stderr("bomb-ttl: load state: "@ + why@),
        ),
        after(v, CancelInput::Deleted(outcome)).phase is Saving,
        after(v, CancelInput::Deleted(outcome)).state == v.state,
{
}

/// What came of `qdel` is told with the job and, where it went well, the path
/// of the entry; on stderr only where `qdel` could not be run.
pub proof fn law_deletion_is_told(e: EntryView, outcome: Result<bool, QsubError>)
    ensures
        outcome == Ok::<bool, QsubError>(true) ==> deleted_line(e, outcome) == LineView::Stdout(
            "cancelled jobid="@ + e.jobid + " path="@ + e.path,
        ),
        outcome == Ok::<bool, QsubError>(false) ==> deleted_line(e, outcome) == LineView::Stdout(
            "qdel "@ + e.jobid + " returned non-zero (entry dropped from state anyway)"@,
        ),
        outcome is Err ==> deleted_line(e, outcome) == LineView::Stderr(
            "bomb-ttl: qdel "@ + e.jobid + ": "@ + qsub::error_text(outcome->Err_0),
        ),
{
}

} // verus!
