//! The rhythm of repeated scans.

use vstd::prelude::*;

use crate::time::Span;

verus! {

/// What a daemon does next.
#[derive(Debug, Clone, Copy, PartialEq, Eq, Structural)]
pub enum DaemonAction {
    /// Scan the root.
    Scan,
    /// Sleep for one second.
    SleepOneSecond,
    /// Exit.
    Shutdown,
}

/// A daemon, which scans and then waits, over and over.
#[derive(Debug)]
pub struct Daemon {
    interval_secs: u64,
    waited: Option<u64>,
}

/// The state of a daemon.
pub struct DaemonView {
    /// The seconds to wait after a scan.
    pub interval_secs: nat,
    /// The seconds waited since the last scan, once there was one.
    pub waited: Option<nat>,
}

impl View for Daemon {
    type V = DaemonView;

    closed spec fn view(&self) -> DaemonView {
        DaemonView {
            interval_secs: self.interval_secs as nat,
            waited: match self.waited {
                Some(s) => Some(s as nat),
                None => None,
            },
        }
    }
}

/// A daemon that waits for `interval` nanoseconds, in whole seconds, after each
/// scan, and has not scanned yet.
pub open spec fn new_daemon(interval: nat) -> DaemonView {
    DaemonView { interval_secs: interval / (crate::time::NANOS_PER_SEC as nat), waited: None }
}

/// What a daemon does next, given whether it was asked to stop.
pub open spec fn daemon_action(v: DaemonView, stop: bool) -> DaemonAction {
    if stop {
        DaemonAction::Shutdown
    } else if v.waited is Some && v.waited->0 < v.interval_secs {
        DaemonAction::SleepOneSecond
    } else {
        DaemonAction::Scan
    }
}

/// The daemon once it has done so.
pub open spec fn daemon_after(v: DaemonView, action: DaemonAction) -> DaemonView {
    match action {
        DaemonAction::Scan => DaemonView { waited: Some(0), ..v },
        DaemonAction::SleepOneSecond => DaemonView { waited: Some(v.waited->0 + 1), ..v },
        DaemonAction::Shutdown => v,
    }
}

impl Daemon {
    /// A daemon that waits for `interval`, in whole seconds, after each scan.
    pub fn new(interval: &Span) -> (d: Daemon)
        ensures
            d@ == (DaemonView {
                interval_secs: interval@ / (crate::time::NANOS_PER_SEC as nat),
                waited: None,
            }),
            d@ == new_daemon(interval@),
    {
        Daemon { interval_secs: interval.as_secs(), waited: None }
    }

    /// What to do next, given whether the daemon was asked to stop.
    pub fn next(&mut self, stop: bool) -> (action: DaemonAction)
        ensures
            action == daemon_action(old(self)@, stop),
            final(self)@ == daemon_after(old(self)@, action),
    {
        if stop {
            return DaemonAction::Shutdown;
        }
        if let Some(secs) = self.waited {
            if secs < self.interval_secs {
                self.waited = Some(secs + 1);
                return DaemonAction::SleepOneSecond;
            }
        }
        self.waited = Some(0);
        DaemonAction::Scan
    }
}

/// A daemon after `n` actions in which it was not asked to stop.
pub open spec fn daemon_run(v: DaemonView, n: nat) -> DaemonView
    decreases n,
{
    if n == 0 {
        v
    } else {
        let before = daemon_run(v, (n - 1) as nat);
        daemon_after(before, daemon_action(before, false))
    }
}

proof fn lemma_daemon_run(interval_secs: nat, n: nat)
    ensures
        ({
            let v = daemon_run(DaemonView { interval_secs, waited: None }, n);
            &&& v.interval_secs == interval_secs
            &&& n == 0 ==> v.waited is None
            &&& n > 0 ==> v.waited == Some(((n - 1) % (interval_secs as int + 1)) as nat)
        }),
    decreases n,
{
    if n > 0 {
        lemma_daemon_run(interval_secs, (n - 1) as nat);
        let d = interval_secs as int + 1;
        if n > 1 {
            let k = n as int - 2;
            assert((k + 1) % d == (if k % d == d - 1 { 0 } else { k % d + 1 })) by {
                vstd::arithmetic::div_mod::lemma_fundamental_div_mod(k, d);
                let q = k / d;
                let r = k % d;
                if r == d - 1 {
                    assert(k + 1 == (q + 1) * d + 0) by (nonlinear_arith)
                        requires
                            k == d * q + r,
                            r == d - 1,
                    ;
                    vstd::arithmetic::div_mod::lemma_fundamental_div_mod_converse(k + 1, d, q + 1, 0);
                } else {
                    assert(k + 1 == q * d + (r + 1)) by (nonlinear_arith)
                        requires
                            k == d * q + r,
                    ;
                    vstd::arithmetic::div_mod::lemma_fundamental_div_mod_converse(k + 1, d, q, r + 1);
                }
            }
        } else {
            assert(0int % d == 0) by {
                vstd::arithmetic::div_mod::lemma_small_mod(0, d as nat);
            }
        }
    }
}

/// Until it is asked to stop, a daemon scans first and then once after every
/// `interval_secs` seconds, and sleeps in between.
pub proof fn law_daemon_keeps_its_rhythm(interval_secs: nat, n: nat)
    ensures
        daemon_action(daemon_run(DaemonView { interval_secs, waited: None }, n), false) == (if n % (
        interval_secs + 1) == 0 {
            DaemonAction::Scan
        } else {
            DaemonAction::SleepOneSecond
        }),
{
    lemma_daemon_run(interval_secs, n);
    lemma_daemon_run(interval_secs, n + 1);
    vstd::arithmetic::div_mod::lemma_small_mod(0, interval_secs + 1);
}

/// A daemon with an interval of `secs` seconds, or of less than a second more,
/// scans at once and then each time after it has slept `secs` times for one
/// second.
pub proof fn law_daemon_waits_for_its_interval(interval: nat, secs: nat, n: nat)
    requires
        secs * 1_000_000_000 <= interval < (secs + 1) * 1_000_000_000,
    ensures
        daemon_action(daemon_run(new_daemon(interval), n), false) == (if n % (secs + 1) == 0 {
            DaemonAction::Scan
        } else {
            DaemonAction::SleepOneSecond
        }),
{
    assert(interval / 1_000_000_000 == secs);
    law_daemon_keeps_its_rhythm(secs, n);
}

/// A daemon that is asked to stop neither scans nor sleeps again.
pub proof fn law_daemon_stops(v: DaemonView)
    ensures
        daemon_action(v, true) is Shutdown,
{
}

} // verus!
