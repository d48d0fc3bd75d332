//! One reporting pass: the replies of the registered reporters, gathered in
//! the order they were asked, then aggregated into the pass's result.
use crate::registry::ProtocolViolation;
use crate::report::{memory_report_of, MemoryReportResult, ProcessReports};
use vstd::prelude::*;

verus! {

/// What came back from the reporter that was asked last.
pub enum ReplyOutcome {
    /// Its reports.
    Received(ProcessReports),
    /// Nothing within the configured wait; it is left out of this pass.
    TimedOut,
    /// Its channel broke: the reporter is gone.
    Lost,
}

/// A pass in progress.
pub struct CollectionPass {
    own_pid: u32,
    pending: usize,
    replies: Vec<ProcessReports>,
}

impl CollectionPass {
    /// The id of the process that runs the pass.
    pub closed spec fn own_pid(&self) -> u32 {
        self.own_pid
    }

    /// How many reporters are still to answer.
    pub closed spec fn pending(&self) -> nat {
        self.pending as nat
    }

    /// The replies kept so far, in the order they came.
    pub closed spec fn replies(&self) -> Seq<ProcessReports> {
        self.replies@
    }

    /// A pass over `reporters` reporters, run by process `own_pid`.
    pub fn new(reporters: usize, own_pid: u32) -> (r: CollectionPass)
        ensures
            r.own_pid() == own_pid,
            r.pending() == reporters,
            r.replies() == Seq::<ProcessReports>::empty(),
    {
        CollectionPass { own_pid, pending: reporters, replies: Vec::new() }
    }

    /// Whether every reporter has been dealt with.
    pub fn is_complete(&self) -> (r: bool)
        ensures
            r == (self.pending() == 0),
    {
        self.pending == 0
    }

    /// Records what the reporter asked last gave back. A lost reporter is
    /// a protocol violation; one that timed out is left out.
    pub fn record(&mut self, outcome: ReplyOutcome) -> (r: Result<(), ProtocolViolation>)
        requires
            old(self).pending() > 0,
        ensures
            final(self).own_pid() == old(self).own_pid(),
            final(self).pending() == old(self).pending() - 1,
            match outcome {
                ReplyOutcome::Received(reply) => r is Ok && final(self).replies()
                    == old(self).replies().push(reply),
                ReplyOutcome::TimedOut => r is Ok && final(self).replies() == old(self).replies(),
                ReplyOutcome::Lost => r == Err::<(), ProtocolViolation>(
                    ProtocolViolation::ReporterLost,
                ) && final(self).replies() == old(self).replies(),
            },
    {
        self.pending = self.pending - 1;
        match outcome {
            ReplyOutcome::Received(reply) => {
                self.replies.push(reply);
                Ok(())
            },
            ReplyOutcome::TimedOut => Ok(()),
            ReplyOutcome::Lost => Err(ProtocolViolation::ReporterLost),
        }
    }

    /// The result of a complete pass: one entry per kept reply, in order.
    pub fn finish(self) -> (r: MemoryReportResult)
        requires
            self.pending() == 0,
        ensures
            r.results@ == self.replies().map_values(
                |p: ProcessReports| memory_report_of(p, self.own_pid()),
            ),
    {
        MemoryReportResult::from_replies(self.replies, self.own_pid)
    }
}

} // verus!
