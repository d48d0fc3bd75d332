use profile_mem::pass::{CollectionPass, ReplyOutcome};
use profile_mem::registry::ProtocolViolation;
use profile_mem::report::{ProcessReports, Report, ReportKind};

fn reply(pid: u32, size: usize) -> ProcessReports {
    ProcessReports::new(
        vec![Report::new(vec!["layout".to_string()], ReportKind::ExplicitSystemHeapSize, size)],
        pid,
    )
}

#[test]
fn pass_keeps_replies_in_order() {
    let mut pass = CollectionPass::new(3, 1);
    assert!(!pass.is_complete());
    assert_eq!(pass.record(ReplyOutcome::Received(reply(2, 10))), Ok(()));
    assert_eq!(pass.record(ReplyOutcome::TimedOut), Ok(()));
    assert_eq!(pass.record(ReplyOutcome::Received(reply(1, 30))), Ok(()));
    assert!(pass.is_complete());
    let result = pass.finish();
    assert_eq!(result.results.len(), 2);
    assert_eq!(result.results[0].pid, 2);
    assert!(!result.results[0].is_main_process);
    assert_eq!(result.results[0].reports[0].size, 10);
    assert_eq!(result.results[1].pid, 1);
    assert!(result.results[1].is_main_process);
    assert_eq!(result.results[1].reports[0].size, 30);
}

#[test]
fn lost_reporter_is_a_violation() {
    let mut pass = CollectionPass::new(2, 1);
    assert_eq!(pass.record(ReplyOutcome::Lost), Err(ProtocolViolation::ReporterLost));
}

#[test]
fn empty_pass_is_complete_at_once() {
    let pass = CollectionPass::new(0, 5);
    assert!(pass.is_complete());
    assert!(pass.finish().results.is_empty());
}
