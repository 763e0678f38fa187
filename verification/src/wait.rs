//! Waiting for ports to open: scan again every half second until all are open
//! or the deadline passes. The caller scans, sleeps and reads the clock; this
//! module decides what comes next.

use vstd::prelude::*;

use crate::scan::{count_status, with_status, PortResult, Status};
use crate::span::TimeSpan;
use crate::text::{decimal_string, decimal_text};

verus! {

/// Milliseconds between two scans.
pub const RETRY_INTERVAL_MS: u64 = 500;

/// What a wait ended with.
pub struct WaitOutcome {
    /// The results of the last scan.
    pub results: Vec<PortResult>,
    /// Whether every port was open in the last scan.
    pub all_open: bool,
    /// How many scans were made.
    pub attempts: u32,
}

/// The next step of a wait.
pub enum WaitStep {
    /// The wait is over.
    Done(WaitOutcome),
    /// Sleep this long, then scan again.
    Sleep(TimeSpan),
}

/// The state of a wait for `port_count` ports to open before `deadline`.
pub struct Waiter {
    port_count: usize,
    deadline: TimeSpan,
    attempts: u32,
}

/// How many of `results` are open.
pub open spec fn open_count(results: Seq<PortResult>) -> nat {
    results.filter(with_status(Status::Open)).len()
}

impl Waiter {
    /// The number of ports waited for.
    pub closed spec fn spec_port_count(&self) -> nat {
        self.port_count as nat
    }

    /// The deadline, counted from the start of the wait.
    pub closed spec fn spec_deadline(&self) -> nat {
        self.deadline@
    }

    /// The scans begun so far.
    pub closed spec fn spec_attempts(&self) -> nat {
        self.attempts as nat
    }

    /// A wait that has not scanned yet.
    pub fn new(port_count: usize, deadline: TimeSpan) -> (w: Waiter)
        ensures
            w.spec_port_count() == port_count,
            w.spec_deadline() == deadline@,
            w.spec_attempts() == 0,
    {
        Waiter { port_count, deadline, attempts: 0 }
    }

    /// The scans begun so far.
    pub fn attempts(&self) -> (r: u32)
        ensures
            r == self.spec_attempts(),
    {
        self.attempts
    }

    /// Counts the start of one more scan.
    pub fn begin_attempt(&mut self)
        requires
            old(self).spec_attempts() < u32::MAX,
        ensures
            final(self).spec_attempts() == old(self).spec_attempts() + 1,
            final(self).spec_port_count() == old(self).spec_port_count(),
            final(self).spec_deadline() == old(self).spec_deadline(),
    {
        self.attempts = self.attempts + 1;
    }

    /// Decides what follows a scan that gave `results`, `elapsed` after the wait
    /// began: done when every port is open; done, unsuccessfully, once the
    /// deadline has passed; otherwise sleep half a second, or less when the
    /// deadline is nearer.
    pub fn after_scan(&self, results: Vec<PortResult>, elapsed: TimeSpan) -> (step: WaitStep)
        ensures
            match step {
                WaitStep::Done(o) => {
                    &&& o.results@ == results@
                    &&& o.attempts == self.spec_attempts()
                    &&& o.all_open == (open_count(results@) == self.spec_port_count())
                    &&& !o.all_open ==> elapsed@ >= self.spec_deadline()
                },
                WaitStep::Sleep(d) => {
                    &&& open_count(results@) != self.spec_port_count()
                    &&& elapsed@ < self.spec_deadline()
                    &&& d@ == if self.spec_deadline() - elapsed@ <= 500_000_000 {
                        self.spec_deadline() - elapsed@
                    } else {
                        500_000_000
                    }
                    &&& 0 < d@ <= 500_000_000
                    &&& elapsed@ + d@ <= self.spec_deadline()
                },
            },
    {
        let open = count_status(&results, Status::Open);
        if open == self.port_count {
            return WaitStep::Done(WaitOutcome { results, all_open: true, attempts: self.attempts });
        }
        if elapsed.at_least(&self.deadline) {
            return WaitStep::Done(
                WaitOutcome { results, all_open: false, attempts: self.attempts },
            );
        }
        let left = self.deadline.minus(&elapsed);
        WaitStep::Sleep(left.shorter(TimeSpan::from_millis(RETRY_INTERVAL_MS)))
    }
}

/// The progress line after a scan.
pub open spec fn progress_text(attempt: nat, open: nat, total: nat) -> Seq<char> {
    "attempt "@ + decimal_text(attempt) + ": "@ + decimal_text(open) + "/"@ + decimal_text(total)
        + " open"@
}

/// The progress line after a scan: `attempt N: OPEN/TOTAL open`.
pub fn progress_line(attempt: u32, results: &Vec<PortResult>, total: usize) -> (r: String)
    ensures
        r@ == progress_text(attempt as nat, open_count(results@), total as nat),
{
    let open = count_status(results, Status::Open);
    let mut r = "attempt ".to_owned();
    let a = decimal_string(attempt as u64);
    r.append(a.as_str());
    r.append(": ");
    let o = decimal_string(open as u64);
    r.append(o.as_str());
    r.append("/");
    let t = decimal_string(total as u64);
    r.append(t.as_str());
    r.append(" open");
    r
}

/// The message when the deadline passes first.
pub open spec fn expired_text(attempts: nat, summary: Seq<char>) -> Seq<char> {
    "wait deadline expired after "@ + decimal_text(attempts) + " attempts: "@ + summary
}

/// The message when the deadline passes first, with the summary of the last scan.
pub fn expired_message(attempts: u32, summary: &str) -> (r: String)
    ensures
        r@ == expired_text(attempts as nat, summary@),
{
    let mut r = "wait deadline expired after ".to_owned();
    let a = decimal_string(attempts as u64);
    r.append(a.as_str());
    r.append(" attempts: ");
    r.append(summary);
    r
}

} // verus!
