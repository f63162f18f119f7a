use tish::jobs::{JobManager, JobStatus};
use tish::signals::{SignalAction, SignalHandler};

#[test]
fn tstp_without_foreground_is_ignored() {
    let mut h = SignalHandler::new();
    let mut jobs = JobManager::new();
    assert_eq!(h.handle_tstp(&mut jobs), SignalAction::Ignore);
    assert!(jobs.jobs.is_empty());
}

#[test]
fn stop_forwards_to_group_and_records_job() {
    let mut h = SignalHandler::new();
    let mut jobs = JobManager::new();
    h.set_foreground_process(321, "vim", &vec!["notes".to_string()]);
    assert_eq!(h.foreground_pid, 321);
    let a = h.handle_tstp(&mut jobs);
    assert_eq!(a, SignalAction::StopGroup { group: -321, job_id: Some(1) });
    assert_eq!(h.foreground_pid, -1);
    assert!(h.foreground_info.is_none());
    assert_eq!(jobs.jobs[0].pid, 321);
    assert_eq!(jobs.jobs[0].status, JobStatus::Suspended);
    assert_eq!(jobs.jobs[0].command, "vim");
}

#[test]
fn interrupt_forwards_and_clears() {
    let mut h = SignalHandler::new();
    h.set_foreground_process(99, "cat", &vec![]);
    assert_eq!(h.handle_int(), SignalAction::InterruptGroup { group: -99 });
    assert_eq!(h.foreground_pid, -1);
    assert_eq!(h.handle_int(), SignalAction::Ignore);
}

#[test]
fn continue_hands_terminal_to_group() {
    let mut h = SignalHandler::new();
    assert_eq!(h.handle_cont(), SignalAction::Ignore);
    h.set_foreground_process(55, "less", &vec![]);
    assert_eq!(h.handle_cont(), SignalAction::ContinueGroup { group: -55 });
    assert_eq!(h.foreground_pid, 55);
}

#[test]
fn zero_pid_leaves_shell_in_foreground() {
    let mut h = SignalHandler::new();
    h.set_foreground_process(0, "x", &vec![]);
    assert_eq!(h.foreground_pid, -1);
    h.set_foreground_process(8, "x", &vec![]);
    h.clear_foreground_process();
    assert_eq!(h.foreground_pid, -1);
    assert!(h.foreground_info.is_none());
}

#[test]
fn tstp_on_tracked_job_keeps_its_id() {
    let mut h = SignalHandler::new();
    let mut jobs = JobManager::new();
    jobs.add_job(Some(10), "make".to_string(), vec![]).unwrap();
    jobs.add_job(Some(20), "sleep".to_string(), vec!["9".to_string()]).unwrap();
    h.set_foreground_process(20, "sleep", &vec!["9".to_string()]);
    assert_eq!(h.handle_tstp(&mut jobs), SignalAction::StopGroup { group: -20, job_id: Some(2) });
    assert_eq!(jobs.jobs.len(), 2);
    assert_eq!(jobs.jobs[1].status, JobStatus::Suspended);
    assert_eq!(jobs.jobs[0].status, JobStatus::Running);
}
