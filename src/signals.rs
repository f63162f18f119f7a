use vstd::prelude::*;

use crate::jobs::{suspend_effect, JobManager};

verus! {

/// What the shell does in answer to a terminal-control signal.
#[derive(Clone, Copy, Debug, PartialEq, Eq, Structural)]
pub enum SignalAction {
    /// Nothing runs in the foreground: nothing to forward.
    Ignore,
    /// Send the stop signal to process group `group` (a negated pid) and take
    /// the terminal back; `job_id` is the id the suspended job holds in the table.
    StopGroup { group: i32, job_id: Option<usize> },
    /// Send the interrupt signal to process group `group` and take the terminal back.
    InterruptGroup { group: i32 },
    /// Send the continue signal to process group `group` and hand it the terminal.
    ContinueGroup { group: i32 },
}

/// Which process group holds the terminal: `-1` for the shell itself, or the
/// pid of the foreground job together with its program and arguments.
pub struct SignalHandler {
    pub foreground_pid: i32,
    pub foreground_info: Option<(String, Vec<String>)>,
}

impl SignalHandler {
    /// Exactly one of: the shell holds the terminal, or one job does.
    pub open spec fn wf(&self) -> bool {
        ||| self.foreground_pid == -1 && self.foreground_info is None
        ||| self.foreground_pid > 0 && self.foreground_info is Some
    }

    pub open spec fn shell_owned(&self) -> bool {
        self.foreground_pid == -1 && self.foreground_info is None
    }

    pub fn new() -> (r: Self)
        ensures
            r.wf(),
            r.shell_owned(),
    {
        SignalHandler { foreground_pid: -1, foreground_info: None }
    }

    /// Records the job that now holds the terminal. A pid that names no
    /// process (zero or below) leaves the shell holding it.
    pub fn set_foreground_process(&mut self, pid: i32, program: &str, args: &Vec<String>)
        ensures
            final(self).wf(),
            pid <= 0 ==> final(self).shell_owned(),
            pid > 0 ==> {
                &&& final(self).foreground_pid == pid
                &&& final(self).foreground_info matches Some(info)
                &&& info.0@ == program@
                &&& info.1.deep_view() == args.deep_view()
            },
    {
        if pid <= 0 {
            self.clear_foreground_process();
            return;
        }
        self.foreground_pid = pid;
        self.foreground_info = Some((crate::text::string_from_vec(&crate::text::chars_of(program)), args.clone()));
    }

    /// The shell holds the terminal again.
    pub fn clear_foreground_process(&mut self)
        ensures
            final(self).wf(),
            final(self).shell_owned(),
    {
        self.foreground_pid = -1;
        self.foreground_info = None;
    }

    /// A stop request: the foreground job's group is stopped and recorded as
    /// suspended in `jobs` (added under the next id, with the recorded program
    /// and arguments, when it was not tracked), and the shell holds the
    /// terminal again. Without a foreground job nothing happens.
    pub fn handle_tstp(&mut self, jobs: &mut JobManager) -> (r: SignalAction)
        requires
            old(self).wf(),
            old(jobs).wf(),
        ensures
            final(self).wf(),
            final(self).shell_owned(),
            final(jobs).wf(),
            old(self).foreground_pid <= 0 ==> r == SignalAction::Ignore && final(jobs).table() == old(jobs).table(),
            old(self).foreground_pid > 0 ==> (r matches SignalAction::StopGroup { group, job_id }
                && group == -old(self).foreground_pid
                && suspend_effect(old(jobs).table(), old(jobs).next_id(), final(jobs).table(), final(jobs).next_id(),
                    old(self).foreground_pid as u32, (old(self).foreground_info->0).0, (old(self).foreground_info->0).1, job_id)),
    {
        let pid = self.foreground_pid;
        if pid <= 0 {
            self.clear_foreground_process();
            return SignalAction::Ignore;
        }
        let info = self.foreground_info.take();
        let job_id = match info {
            Some((command, args)) => {
                let r = jobs.suspend_job(pid as u32, command, args);
                match r {
                    Ok(id) => Some(id),
                    Err(_) => None,
                }
            },
            None => None,
        };
        self.clear_foreground_process();
        SignalAction::StopGroup { group: -pid, job_id }
    }

    /// An interrupt request: the foreground job's group is interrupted and the
    /// shell holds the terminal again. The shell holds it afterwards in any case.
    pub fn handle_int(&mut self) -> (r: SignalAction)
        ensures
            final(self).wf(),
            final(self).shell_owned(),
            old(self).foreground_pid <= 0 ==> r == SignalAction::Ignore,
            old(self).foreground_pid > 0 ==> r == (SignalAction::InterruptGroup { group: (-old(self).foreground_pid) as i32 }),
    {
        let pid = self.foreground_pid;
        self.clear_foreground_process();
        if pid > 0 {
            SignalAction::InterruptGroup { group: -pid }
        } else {
            SignalAction::Ignore
        }
    }

    /// A continue request: the foreground job's group is continued and handed
    /// the terminal. Who holds the terminal does not change.
    pub fn handle_cont(&self) -> (r: SignalAction)
        ensures
            self.foreground_pid <= 0 ==> r == SignalAction::Ignore,
            self.foreground_pid > 0 ==> r == (SignalAction::ContinueGroup { group: (-self.foreground_pid) as i32 }),
    {
        if self.foreground_pid > 0 {
            SignalAction::ContinueGroup { group: -self.foreground_pid }
        } else {
            SignalAction::Ignore
        }
    }
}

} // verus!
