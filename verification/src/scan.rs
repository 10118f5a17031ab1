//! What a scan reports.

use vstd::prelude::*;

use crate::time::Span;

verus! {

/// What a scan has counted.
#[derive(Debug, Clone, Copy, PartialEq, Eq)]
pub struct ScanStats {
    pub seen: u32,
    pub deleted_now: u32,
    pub already_scheduled: u32,
    pub newly_scheduled: u32,
    pub orphans_pruned: u32,
    pub errors: u32,
}

/// The counts of a [`ScanStats`], which have no upper limit of their own.
pub struct Counts {
    pub seen: nat,
    pub deleted_now: nat,
    pub already_scheduled: nat,
    pub newly_scheduled: nat,
    pub orphans_pruned: nat,
    pub errors: nat,
}

/// Counts of nothing.
pub open spec fn no_counts() -> Counts {
    Counts {
        seen: 0,
        deleted_now: 0,
        already_scheduled: 0,
        newly_scheduled: 0,
        orphans_pruned: 0,
        errors: 0,
    }
}

/// Whether a [`ScanStats`] can hold these counts.
pub open spec fn countable(c: Counts) -> bool {
    &&& c.seen <= u32::MAX
    &&& c.deleted_now <= u32::MAX
    &&& c.already_scheduled <= u32::MAX
    &&& c.newly_scheduled <= u32::MAX
    &&& c.orphans_pruned <= u32::MAX
    &&& c.errors <= u32::MAX
}

impl View for ScanStats {
    type V = Counts;

    open spec fn view(&self) -> Counts {
        Counts {
            seen: self.seen as nat,
            deleted_now: self.deleted_now as nat,
            already_scheduled: self.already_scheduled as nat,
            newly_scheduled: self.newly_scheduled as nat,
            orphans_pruned: self.orphans_pruned as nat,
            errors: self.errors as nat,
        }
    }
}

impl Default for ScanStats {
    fn default() -> (s: ScanStats)
        ensures
            s@ == no_counts(),
    {
        ScanStats {
            seen: 0,
            deleted_now: 0,
            already_scheduled: 0,
            newly_scheduled: 0,
            orphans_pruned: 0,
            errors: 0,
        }
    }
}

/// Something that a scan did or ran into.
#[derive(Debug)]
pub enum ScanEvent {
    DeletedNow { path: Vec<u8>, age: Span },
    Scheduled { path: Vec<u8>, jobid: String, delay: Span },
    AlreadyScheduled { path: Vec<u8>, jobid: String },
    Error { path: Vec<u8>, message: String },
}

/// The contents of a [`ScanEvent`].
pub enum EventView {
    DeletedNow { path: Seq<u8>, age: nat },
    Scheduled { path: Seq<u8>, jobid: Seq<char>, delay: nat },
    AlreadyScheduled { path: Seq<u8>, jobid: Seq<char> },
    Error { path: Seq<u8>, message: Seq<char> },
}

impl View for ScanEvent {
    type V = EventView;

    open spec fn view(&self) -> EventView {
        match self {
            ScanEvent::DeletedNow { path, age } => EventView::DeletedNow { path: path@, age: age@ },
            ScanEvent::Scheduled { path, jobid, delay } => EventView::Scheduled {
                path: path@,
                jobid: jobid@,
                delay: delay@,
            },
            ScanEvent::AlreadyScheduled { path, jobid } => EventView::AlreadyScheduled {
                path: path@,
                jobid: jobid@,
            },
            ScanEvent::Error { path, message } => EventView::Error {
                path: path@,
                message: message@,
            },
        }
    }
}

/// The contents of each event.
pub open spec fn event_views(v: Seq<ScanEvent>) -> Seq<EventView> {
    v.map_values(|e: ScanEvent| e@)
}

/// The outcome of a scan.
#[derive(Debug)]
pub struct ScanReport {
    pub stats: ScanStats,
    pub events: Vec<ScanEvent>,
}

/// The contents of a [`ScanReport`].
pub struct ReportView {
    pub stats: Counts,
    pub events: Seq<EventView>,
}

impl View for ScanReport {
    type V = ReportView;

    open spec fn view(&self) -> ReportView {
        ReportView { stats: self.stats@, events: event_views(self.events@) }
    }
}

/// A report with one more error.
pub open spec fn with_error(r: ReportView, path: Seq<u8>, message: Seq<char>) -> ReportView {
    ReportView {
        stats: Counts { errors: r.stats.errors + 1, ..r.stats },
        events: r.events.push(EventView::Error { path, message }),
    }
}

impl ScanReport {
    /// A report of nothing.
    pub fn new() -> (r: ScanReport)
        ensures
            r@ == (ReportView { stats: no_counts(), events: Seq::empty() }),
    {
        let events: Vec<ScanEvent> = Vec::new();
        assert(event_views(events@) =~= Seq::empty());
        ScanReport { stats: ScanStats::default(), events }
    }

    /// Adds an event.
    pub(crate) fn add_event(&mut self, event: ScanEvent)
        ensures
            final(self)@ == (ReportView { events: old(self)@.events.push(event@), ..old(self)@ }),
    {
        let ghost before = event_views(self.events@);
        let ghost e = event@;
        self.events.push(event);
        assert(event_views(self.events@) =~= before.push(e));
    }

    /// Adds an error: what was attempted, and how it failed.
    pub(crate) fn add_error(&mut self, path: Vec<u8>, attempt: &str, why: &str)
        requires
            old(self)@.stats.errors < u32::MAX,
        ensures
            final(self)@ == with_error(old(self)@, path@, attempt@ + why@),
    {
        self.stats.errors = self.stats.errors + 1;
        let mut message = attempt.to_owned();
        message.append(why);
        self.add_event(ScanEvent::Error { path, message });
    }
}

/// A counter can hold every number of 32 bits.
pub proof fn law_counters_hold_32_bits(c: Counts)
    ensures
        countable(c) <==> {
            &&& c.seen < 0x1_0000_0000
            &&& c.deleted_now < 0x1_0000_0000
            &&& c.already_scheduled < 0x1_0000_0000
            &&& c.newly_scheduled < 0x1_0000_0000
            &&& c.orphans_pruned < 0x1_0000_0000
            &&& c.errors < 0x1_0000_0000
        },
{
}

} // verus!
