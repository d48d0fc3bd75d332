use profile_mem::registry::{NextAction, ProfilerMsg, Registry};
use profile_mem::report::{MemoryReport, MemoryReportResult, ProcessReports, Report, ReportKind};
use profile_mem::sender::OpaqueSender;

fn js_heap() -> Report {
    Report::new(vec!["js".to_string(), "heap".to_string()], ReportKind::ExplicitJemallocHeapSize, 1024)
}

#[test]
fn round_trip_through_one_reporter() {
    let own_pid: u32 = 4242;
    let mut registry: Registry<u32> = Registry::new();
    assert_eq!(registry.register("R1".to_string(), 0), Ok(()));
    let chan: u8 = 1;
    let step = registry.handle_msg(ProfilerMsg::Report(chan));
    assert!(matches!(step, Ok(NextAction::Collect(1))));
    let mut replies = Vec::new();
    for _ in 0..registry.len() {
        replies.push(ProcessReports::new(vec![js_heap()], own_pid));
    }
    let result = MemoryReportResult::from_replies(replies, own_pid);
    let expected = MemoryReportResult {
        results: vec![MemoryReport { pid: own_pid, is_main_process: true, reports: vec![js_heap()] }],
    };
    assert_eq!(result, expected);
}

#[test]
fn replies_keep_their_order_and_origin() {
    let a = ProcessReports::new(vec![js_heap()], 10);
    let b = ProcessReports::new(
        vec![Report::new(vec!["resident".to_string()], ReportKind::NonExplicitSize, 7)],
        11,
    );
    let c = ProcessReports::new(Vec::new(), 10);
    let result = MemoryReportResult::from_replies(vec![a, b, c], 10);
    assert_eq!(result.results.len(), 3);
    assert_eq!(result.results[0].pid, 10);
    assert!(result.results[0].is_main_process);
    assert_eq!(result.results[0].reports, vec![js_heap()]);
    assert_eq!(result.results[1].pid, 11);
    assert!(!result.results[1].is_main_process);
    assert_eq!(result.results[1].reports[0].size, 7);
    assert_eq!(result.results[1].reports[0].kind, ReportKind::NonExplicitSize);
    assert!(result.results[2].is_main_process);
    assert!(result.results[2].reports.is_empty());
}

#[test]
fn no_replies_give_an_empty_result() {
    let result = MemoryReportResult::from_replies(Vec::new(), 1);
    assert!(result.results.is_empty());
}

#[test]
fn memory_report_from_another_process() {
    let m = MemoryReport::from_process(ProcessReports::new(vec![js_heap()], 3), 4);
    assert_eq!(m.pid, 3);
    assert!(!m.is_main_process);
    assert_eq!(m.reports, vec![js_heap()]);
}

#[test]
fn process_reports_are_stamped() {
    let p = ProcessReports::new(vec![js_heap()], 99);
    assert_eq!(p.pid, 99);
    assert_eq!(p.reports[0].path, vec!["js".to_string(), "heap".to_string()]);
    assert_eq!(p.reports[0].size, 1024);
}

#[test]
fn queue_sender_delivers() {
    let (tx, rx) = crossbeam_channel::unbounded::<u32>();
    OpaqueSender::send(&tx, 5);
    assert_eq!(rx.try_recv(), Ok(5));
}

#[test]
fn queue_sender_swallows_a_lost_peer() {
    let (tx, rx) = crossbeam_channel::unbounded::<u32>();
    drop(rx);
    OpaqueSender::send(&tx, 5);
}
