//! The values exchanged during a memory-reporting pass.
use vstd::prelude::*;

verus! {

/// The various kinds of memory measurement.
///
/// "Explicit" means memory the application allocated itself, at the OS level
/// (mmap and the like) or at the heap level (malloc and the like), as opposed
/// to implicitly mapped memory such as code segments and thread stacks.
#[derive(Clone, Copy, Debug, PartialEq, Eq, Structural)]
pub enum ReportKind {
    /// An explicit allocation on the tracked (jemalloc) heap.
    ExplicitJemallocHeapSize,
    /// An explicit allocation on the system heap.
    ExplicitSystemHeapSize,
    /// An explicit allocation not on the heap, e.g. via mmap().
    ExplicitNonHeapSize,
    /// An explicit allocation whose location is unknown or uncertain.
    ExplicitUnknownLocationSize,
    /// A non-explicit measurement such as "resident" or "vsize", or a
    /// grouping that cross-cuts the explicit measurements.
    NonExplicitSize,
}

/// A single memory-related measurement.
#[derive(Clone, Debug, PartialEq)]
pub struct Report {
    /// The identifying path for this report, e.g. `["js", "heap"]`.
    pub path: Vec<String>,
    /// The report kind.
    pub kind: ReportKind,
    /// The size, in bytes.
    pub size: usize,
}

impl Report {
    /// Builds a report from its three parts.
    pub fn new(path: Vec<String>, kind: ReportKind, size: usize) -> (r: Report)
        ensures
            r.path == path,
            r.kind == kind,
            r.size == size,
    {
        Report { path, kind, size }
    }
}

/// The reports one reporter produced in one pass, stamped with its process id.
#[derive(Clone, Debug, PartialEq)]
pub struct ProcessReports {
    /// The set of reports.
    pub reports: Vec<Report>,
    /// The process id.
    pub pid: u32,
}

impl ProcessReports {
    /// Adopts these reports and stamps them with the id of the reporting process.
    pub fn new(reports: Vec<Report>, pid: u32) -> (r: ProcessReports)
        ensures
            r.reports == reports,
            r.pid == pid,
    {
        ProcessReports { reports, pid }
    }
}

/// The registry's per-process unit of the aggregated result.
#[derive(Clone, Debug, PartialEq)]
pub struct MemoryReport {
    /// The pid of the report.
    pub pid: u32,
    /// Whether the reporting process is the one that hosts the registry.
    pub is_main_process: bool,
    /// All the reports for this pid.
    pub reports: Vec<Report>,
}

/// What the registry makes of one reply, given the id of its own process.
pub open spec fn memory_report_of(reply: ProcessReports, own_pid: u32) -> MemoryReport {
    MemoryReport { pid: reply.pid, is_main_process: reply.pid == own_pid, reports: reply.reports }
}

impl MemoryReport {
    /// Wraps one reply; it comes from the main process when its pid is `own_pid`.
    pub fn from_process(reply: ProcessReports, own_pid: u32) -> (r: MemoryReport)
        ensures
            r == memory_report_of(reply, own_pid),
    {
        let is_main_process = reply.pid == own_pid;
        MemoryReport { pid: reply.pid, is_main_process, reports: reply.reports }
    }
}

/// The snapshot that one reporting pass produces.
#[derive(Clone, Debug, PartialEq)]
pub struct MemoryReportResult {
    /// One entry per reply, in the order the replies came.
    pub results: Vec<MemoryReport>,
}

impl MemoryReportResult {
    /// Aggregates the replies of one pass, keeping their order.
    pub fn from_replies(replies: Vec<ProcessReports>, own_pid: u32) -> (r: MemoryReportResult)
        ensures
            r.results@ == replies@.map_values(|p: ProcessReports| memory_report_of(p, own_pid)),
    {
        let ghost all = replies@;
        let mut rest = replies;
        let mut results: Vec<MemoryReport> = Vec::new();
        while rest.len() > 0
            invariant
                results.len() + rest.len() == all.len(),
                rest@ == all.subrange(results.len() as int, all.len() as int),
                forall|j: int|
                    0 <= j < results.len() ==> results@[j] == memory_report_of(all[j], own_pid),
            decreases rest.len(),
        {
            let reply = rest.remove(0);
            results.push(MemoryReport::from_process(reply, own_pid));
        }
        assert(results@ =~= all.map_values(|p: ProcessReports| memory_report_of(p, own_pid)));
        MemoryReportResult { results }
    }
}

/// A pass over one reporter that replies from the registry's own process
/// yields exactly that reply, marked as coming from the main process.
pub proof fn lemma_round_trip(reply: ProcessReports, own_pid: u32)
    requires
        reply.pid == own_pid,
    ensures
        seq![reply].map_values(|p: ProcessReports| memory_report_of(p, own_pid)) == seq![
            MemoryReport { pid: own_pid, is_main_process: true, reports: reply.reports },
        ],
{
    assert(seq![reply].map_values(|p: ProcessReports| memory_report_of(p, own_pid)) =~= seq![
        MemoryReport { pid: own_pid, is_main_process: true, reports: reply.reports },
    ]);
}

} // verus!
