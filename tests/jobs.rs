use tish::jobs::{needs_force_kill, JobError, JobManager, JobStatus, SignalOutcome};

fn s(x: &str) -> String {
    x.to_string()
}

#[test]
fn ids_follow_spawn_order() {
    let mut m = JobManager::new();
    let mut ids = Vec::new();
    for pid in [500u32, 400, 300, 200, 100] {
        ids.push(m.add_job(Some(pid), s("sleep"), vec![s("5")]).unwrap());
    }
    assert_eq!(ids, vec![1, 2, 3, 4, 5]);
    // Completion order does not change later ids.
    m.remove_job(300, SignalOutcome::Delivered, None).unwrap();
    m.remove_job(500, SignalOutcome::Delivered, None).unwrap();
    assert_eq!(m.add_job(Some(600), s("true"), vec![]), Ok(6));
}

#[test]
fn add_without_pid_fails() {
    let mut m = JobManager::new();
    assert_eq!(m.add_job(None, s("x"), vec![]), Err(JobError::NoProcessId));
    assert!(m.jobs.is_empty());
    assert_eq!(m.add_job(Some(7), s("x"), vec![]), Ok(1));
}

#[test]
fn same_pid_replaces_entry() {
    let mut m = JobManager::new();
    m.add_job(Some(10), s("a"), vec![]).unwrap();
    m.add_job(Some(10), s("b"), vec![]).unwrap();
    assert_eq!(m.jobs.len(), 1);
    assert_eq!(m.jobs[0].command, "b");
    assert_eq!(m.jobs[0].id, 2);
}

#[test]
fn contains_and_lookup() {
    let mut m = JobManager::new();
    m.add_job(Some(42), s("vim"), vec![s("f")]).unwrap();
    assert!(m.contains_pid(42));
    assert!(!m.contains_pid(43));
    assert_eq!(m.get_job_by_id(1).unwrap().pid, 42);
    assert!(m.get_job_by_id(2).is_none());
}

#[test]
fn resume_without_id_takes_highest_suspended() {
    let mut m = JobManager::new();
    m.add_job(Some(1), s("a"), vec![]).unwrap();
    m.add_job(Some(2), s("b"), vec![]).unwrap();
    m.add_job(Some(3), s("c"), vec![]).unwrap();
    m.suspend_job(3, s("c"), vec![]).unwrap();
    m.suspend_job(1, s("a"), vec![]).unwrap();
    assert_eq!(m.get_last_suspended().unwrap().id, 3);
    assert_eq!(m.resume_job(None), Some(3));
    assert_eq!(m.get_job_by_id(3).unwrap().status, JobStatus::Running);
    assert_eq!(m.resume_job(None), Some(1));
    assert_eq!(m.resume_job(None), None);
}

#[test]
fn resume_by_id_ignores_recency() {
    let mut m = JobManager::new();
    m.add_job(Some(11), s("a"), vec![]).unwrap();
    m.add_job(Some(12), s("b"), vec![]).unwrap();
    m.suspend_job(11, s("a"), vec![]).unwrap();
    m.suspend_job(12, s("b"), vec![]).unwrap();
    assert_eq!(m.resume_job(Some(1)), Some(11));
    assert_eq!(m.get_job_by_id(1).unwrap().status, JobStatus::Running);
    assert_eq!(m.get_job_by_id(2).unwrap().status, JobStatus::Suspended);
    assert_eq!(m.resume_job(Some(9)), None);
}

#[test]
fn suspend_untracked_foreground_job_adds_it() {
    let mut m = JobManager::new();
    assert_eq!(m.suspend_job(77, s("top"), vec![]), Ok(1));
    assert_eq!(m.jobs[0].status, JobStatus::Suspended);
    assert_eq!(m.jobs[0].command, "top");
}

#[test]
fn list_removes_dead_jobs_once() {
    let mut m = JobManager::new();
    m.add_job(Some(5), s("a"), vec![]).unwrap();
    m.add_job(Some(6), s("b"), vec![s("x")]).unwrap();
    m.suspend_job(6, s("b"), vec![]).unwrap();
    let first = m.list_jobs(&vec![6]);
    assert_eq!(first.len(), 2);
    assert_eq!(first[0].status, JobStatus::Completed(0));
    assert_eq!(first[1].status, JobStatus::Suspended);
    assert_eq!(first[1].args, vec![s("x")]);
    assert_eq!(m.jobs.len(), 1);
    let second = m.list_jobs(&vec![]);
    assert_eq!(second.len(), 1);
    assert!(m.jobs.is_empty());
    assert!(m.list_jobs(&vec![]).is_empty());
}

#[test]
fn list_with_all_completed_empties_table() {
    let mut m = JobManager::new();
    m.add_job(Some(1), s("a"), vec![]).unwrap();
    m.add_job(Some(2), s("b"), vec![]).unwrap();
    assert_eq!(m.list_jobs(&vec![]).len(), 2);
    assert!(m.jobs.is_empty());
    assert!(m.list_jobs(&vec![]).is_empty());
}

#[test]
fn remove_unknown_pid_is_error() {
    let mut m = JobManager::new();
    m.add_job(Some(3), s("a"), vec![]).unwrap();
    assert_eq!(m.remove_job(4, SignalOutcome::Delivered, None), Err(JobError::NoSuchJob));
    assert_eq!(m.jobs.len(), 1);
    assert_eq!(m.remove_job(3, SignalOutcome::Delivered, None), Ok(()));
    assert!(!m.contains_pid(3));
}

#[test]
fn status_labels() {
    assert_eq!(JobStatus::Running.label(), "Running");
    assert_eq!(JobStatus::Suspended.label(), "Suspended");
    assert_eq!(JobStatus::Completed(3).label(), "Completed");
}

#[test]
fn background_job_scenario() {
    // "sleep 5 &": one running entry with id 1; a stop makes it suspended; fg 1 resumes it.
    let mut m = JobManager::new();
    assert_eq!(m.add_job(Some(4242), s("sleep"), vec![s("5")]), Ok(1));
    assert_eq!(m.jobs[0].status, JobStatus::Running);
    assert_eq!(m.suspend_job(4242, s("sleep"), vec![s("5")]), Ok(1));
    assert_eq!(m.jobs[0].status, JobStatus::Suspended);
    assert_eq!(m.resume_job(Some(1)), Some(4242));
    assert_eq!(m.jobs[0].status, JobStatus::Running);
}

#[test]
fn kill_escalation_decisions() {
    assert!(needs_force_kill(SignalOutcome::Failed));
    assert!(!needs_force_kill(SignalOutcome::Delivered));
    assert!(!needs_force_kill(SignalOutcome::NoSuchProcess));
    let mut m = JobManager::new();
    m.add_job(Some(1), s("a"), vec![]).unwrap();
    m.add_job(Some(2), s("b"), vec![]).unwrap();
    m.add_job(Some(3), s("c"), vec![]).unwrap();
    // Terminate and kill both failed: the job stays.
    assert_eq!(m.remove_job(1, SignalOutcome::Failed, Some(SignalOutcome::Failed)), Err(JobError::KillFailed));
    assert!(m.contains_pid(1));
    // The kill reached it.
    assert_eq!(m.remove_job(1, SignalOutcome::Failed, Some(SignalOutcome::Delivered)), Ok(()));
    assert!(!m.contains_pid(1));
    // The process was already gone.
    assert_eq!(m.remove_job(2, SignalOutcome::NoSuchProcess, None), Ok(()));
    // A kill that found no process does not count as delivered.
    assert_eq!(m.remove_job(3, SignalOutcome::Failed, Some(SignalOutcome::NoSuchProcess)), Err(JobError::KillFailed));
    assert_eq!(m.remove_job(9, SignalOutcome::Delivered, None), Err(JobError::NoSuchJob));
}
