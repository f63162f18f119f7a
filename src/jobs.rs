use vstd::prelude::*;

verus! {

#[derive(Clone, Copy, Debug, PartialEq, Eq, Structural)]
pub enum JobStatus {
    Running,
    Suspended,
    Completed(i32),
}

impl JobStatus {
    /// The word that a job listing shows for this status.
    pub fn label(&self) -> (r: &'static str)
        ensures
            *self is Running ==> r@ == "Running"@,
            *self is Suspended ==> r@ == "Suspended"@,
            *self is Completed ==> r@ == "Completed"@,
    {
        match self {
            JobStatus::Running => "Running",
            JobStatus::Suspended => "Suspended",
            JobStatus::Completed(_) => "Completed",
        }
    }
}

/// A background or suspended process that the shell tracks.
#[derive(Debug)]
pub struct Job {
    pub id: usize,
    pub pid: u32,
    pub status: JobStatus,
    pub command: String,
    pub args: Vec<String>,
}

#[derive(Clone, Copy, Debug, PartialEq, Eq, Structural)]
pub enum JobError {
    /// The operating system reported no process id for the spawned job.
    NoProcessId,
    /// Every job id has been handed out.
    IdsExhausted,
    /// No tracked job has that process id.
    NoSuchJob,
    /// Neither the terminate nor the kill signal ended the process.
    KillFailed,
}

/// What became of a signal sent to a process.
#[derive(Clone, Copy, Debug, PartialEq, Eq, Structural)]
pub enum SignalOutcome {
    Delivered,
    /// The process no longer exists.
    NoSuchProcess,
    /// Sending failed for another reason.
    Failed,
}

/// A terminate that failed for a reason other than a missing process is followed by a kill.
pub fn needs_force_kill(term: SignalOutcome) -> (r: bool)
    ensures
        r == (term == SignalOutcome::Failed),
{
    match term {
        SignalOutcome::Failed => true,
        _ => false,
    }
}

/// The job's process is gone: the terminate signal reached it or found it
/// already gone, or else the kill signal reached it.
pub open spec fn job_ended(term: SignalOutcome, force: Option<SignalOutcome>) -> bool {
    term == SignalOutcome::Delivered || term == SignalOutcome::NoSuchProcess
        || force == Some(SignalOutcome::Delivered)
}

/// At most one job per pid, ids unique and below the next id to hand out,
/// and no completed job left in the table.
pub open spec fn table_wf(t: Seq<Job>, next: nat) -> bool {
    &&& next >= 1
    &&& forall|i: int| 0 <= i < t.len() ==> 1 <= (#[trigger] t[i]).id < next
    &&& forall|i: int| 0 <= i < t.len() ==> !((#[trigger] t[i]).status is Completed)
    &&& forall|i: int, j: int| 0 <= i < t.len() && 0 <= j < t.len() && i != j ==> (#[trigger] t[i]).pid != (#[trigger] t[j]).pid
    &&& forall|i: int, j: int| 0 <= i < t.len() && 0 <= j < t.len() && i != j ==> (#[trigger] t[i]).id != (#[trigger] t[j]).id
}

pub open spec fn has_pid(t: Seq<Job>, pid: u32) -> bool {
    exists|i: int| 0 <= i < t.len() && (#[trigger] t[i]).pid == pid
}

/// `t2` is `t` with `j` put in place of the job with the same pid, or added at the end.
pub open spec fn job_put(t: Seq<Job>, t2: Seq<Job>, j: Job) -> bool {
    ||| exists|i: int| 0 <= i < t.len() && (#[trigger] t[i]).pid == j.pid && t2 == t.update(i, j)
    ||| !has_pid(t, j.pid) && t2 == t.push(j)
}

/// The jobs of `t` whose pid is in `alive`, in order.
pub open spec fn keep_alive(t: Seq<Job>, alive: Seq<u32>) -> Seq<Job>
    decreases t.len(),
{
    if t.len() == 0 {
        Seq::empty()
    } else if alive.contains(t[0].pid) {
        seq![t[0]] + keep_alive(t.drop_first(), alive)
    } else {
        keep_alive(t.drop_first(), alive)
    }
}

/// What a listing shows of a job: its status as it is, or completed when its process is gone.
pub open spec fn listed_status(j: Job, alive: Seq<u32>) -> JobStatus {
    if alive.contains(j.pid) {
        j.status
    } else {
        JobStatus::Completed(0)
    }
}

pub open spec fn same_job_text(a: Job, b: Job) -> bool {
    &&& a.id == b.id
    &&& a.pid == b.pid
    &&& a.command@ == b.command@
    &&& a.args.deep_view() == b.args.deep_view()
}

/// Among the suspended jobs of `t`, the one at `i` has the highest id.
pub open spec fn is_last_suspended(t: Seq<Job>, i: int) -> bool {
    &&& 0 <= i < t.len()
    &&& t[i].status is Suspended
    &&& forall|k: int| 0 <= k < t.len() && (#[trigger] t[k]).status is Suspended ==> t[k].id <= t[i].id
}

/// The job at `i` of `t` is the one that `job_id` picks,
/// and `t2` is `t` with that job running.
pub open spec fn resumed_at(t: Seq<Job>, t2: Seq<Job>, i: int, job_id: Option<usize>) -> bool {
    &&& 0 <= i < t.len()
    &&& (job_id is Some ==> job_id == Some(t[i].id))
    &&& (job_id is None ==> is_last_suspended(t, i))
    &&& t2.len() == t.len()
    &&& t2[i].status is Running
    &&& same_job_text(t2[i], t[i])
    &&& forall|k: int| 0 <= k < t.len() && k != i ==> t2[k] == t[k]
}

pub open spec fn ok_id(r: Result<usize, JobError>) -> Option<usize> {
    match r {
        Ok(i) => Some(i),
        Err(_) => None,
    }
}

/// The job at `i` of `t` has process `pid` and id `id`, and `t2` is `t` with that job suspended.
pub open spec fn suspended_at(t: Seq<Job>, t2: Seq<Job>, i: int, pid: u32, id: Option<usize>) -> bool {
    &&& 0 <= i < t.len()
    &&& t[i].pid == pid
    &&& id == Some(t[i].id)
    &&& t2.len() == t.len()
    &&& t2[i].status is Suspended
    &&& same_job_text(t2[i], t[i])
    &&& forall|k: int| 0 <= k < t.len() && k != i ==> t2[k] == t[k]
}

/// Suspending the job of `pid` takes table `t` with next id `n` to `t2` with
/// next id `n2`, giving the job's id as `id`: a tracked job is marked
/// suspended in place; an untracked one is added, suspended, under the next
/// id with the given program and arguments; when no id is left, nothing changes.
pub open spec fn suspend_effect(
    t: Seq<Job>,
    n: nat,
    t2: Seq<Job>,
    n2: nat,
    pid: u32,
    command: String,
    args: Vec<String>,
    id: Option<usize>,
) -> bool {
    if has_pid(t, pid) {
        n2 == n && exists|i: int| #[trigger] suspended_at(t, t2, i, pid, id)
    } else if n >= usize::MAX {
        id is None && t2 == t && n2 == n
    } else {
        &&& id == Some(n as usize)
        &&& n2 == n + 1
        &&& t2 == t.push((Job { id: n as usize, pid: pid, status: JobStatus::Suspended, command: command, args: args }))
    }
}

pub open spec fn has_suspended(t: Seq<Job>) -> bool {
    exists|k: int| 0 <= k < t.len() && (#[trigger] t[k]).status is Suspended
}

proof fn lemma_wf_remove(t: Seq<Job>, next: nat, i: int)
    requires
        table_wf(t, next),
        0 <= i < t.len(),
    ensures
        table_wf(t.remove(i), next),
        forall|k: int| 0 <= k < t.remove(i).len() ==> (#[trigger] t.remove(i)[k]).pid != t[i].pid,
{
    let t2 = t.remove(i);
    assert forall|k: int| 0 <= k < t2.len() implies (#[trigger] t2[k]).pid != t[i].pid && 1 <= t2[k].id < next
        && !(t2[k].status is Completed) by {
        if k < i {
            assert(t2[k] == t[k]);
        } else {
            assert(t2[k] == t[k + 1]);
        }
    }
    assert forall|a: int, b: int| 0 <= a < t2.len() && 0 <= b < t2.len() && a != b implies (#[trigger] t2[a]).pid != (#[trigger] t2[b]).pid && t2[a].id != t2[b].id by {
        let a2 = if a < i { a } else { a + 1 };
        let b2 = if b < i { b } else { b + 1 };
        assert(t2[a] == t[a2]);
        assert(t2[b] == t[b2]);
    }
}

/// The id handed to the next job is held by no job in the table, so an id is never used twice.
pub proof fn lemma_next_id_is_fresh(t: Seq<Job>, next: nat)
    requires
        table_wf(t, next),
    ensures
        forall|i: int| 0 <= i < t.len() ==> (#[trigger] t[i]).id != next,
{
}

/// Listing a second time, with the same processes alive, leaves the table as the first listing left it.
pub proof fn lemma_list_jobs_idempotent(t: Seq<Job>, alive: Seq<u32>)
    ensures
        keep_alive(keep_alive(t, alive), alive) == keep_alive(t, alive),
    decreases t.len(),
{
    if t.len() > 0 {
        lemma_list_jobs_idempotent(t.drop_first(), alive);
        let k = keep_alive(t.drop_first(), alive);
        if alive.contains(t[0].pid) {
            let s = seq![t[0]] + k;
            assert(s[0] == t[0]);
            assert(s.drop_first() =~= k);
        }
    }
}

/// When none of the tracked processes is alive, a listing leaves the table empty.
pub proof fn lemma_list_jobs_all_completed(t: Seq<Job>, alive: Seq<u32>)
    requires
        forall|i: int| 0 <= i < t.len() ==> !alive.contains((#[trigger] t[i]).pid),
    ensures
        keep_alive(t, alive).len() == 0,
    decreases t.len(),
{
    if t.len() > 0 {
        assert forall|i: int| 0 <= i < t.drop_first().len() implies !alive.contains((#[trigger] t.drop_first()[i]).pid) by {
            assert(t.drop_first()[i] == t[i + 1]);
        }
        lemma_list_jobs_all_completed(t.drop_first(), alive);
    }
}

fn contains_u32(v: &Vec<u32>, x: u32) -> (r: bool)
    ensures
        r == v@.contains(x),
{
    let mut i: usize = 0;
    while i < v.len()
        invariant
            i <= v@.len(),
            forall|k: int| 0 <= k < i ==> v@[k] != x,
        decreases v@.len() - i,
    {
        if v[i] == x {
            assert(v@[i as int] == x);
            return true;
        }
        i = i + 1;
    }
    false
}

/// The registry of background jobs: their ids, processes and statuses.
pub struct JobManager {
    pub jobs: Vec<Job>,
    job_counter: usize,
}

fn clone_job(j: &Job) -> (r: Job)
    ensures
        same_job_text(r, *j),
        r.status == j.status,
{
    Job { id: j.id, pid: j.pid, status: j.status, command: j.command.clone(), args: j.args.clone() }
}

impl JobManager {
    pub closed spec fn table(&self) -> Seq<Job> {
        self.jobs@
    }

    /// The id that the next new job gets.
    pub closed spec fn next_id(&self) -> nat {
        self.job_counter as nat
    }

    /// Every id handed out so far, to jobs still tracked or long removed: the
    /// counter starts at 1 and rises by one with each id it hands out, and by
    /// nothing else.
    pub open spec fn issued_ids(&self) -> Set<nat> {
        Set::new(|x: nat| 1 <= x && x < self.next_id())
    }

    pub open spec fn wf(&self) -> bool {
        &&& table_wf(self.table(), self.next_id())
        &&& self.next_id() <= usize::MAX
    }

    pub fn new() -> (r: Self)
        ensures
            r.wf(),
            r.table().len() == 0,
            r.next_id() == 1,
    {
        JobManager { jobs: Vec::new(), job_counter: 1 }
    }

    fn index_of_pid(&self, pid: u32) -> (r: Option<usize>)
        ensures
            r matches Some(i) ==> i < self.table().len() && self.table()[i as int].pid == pid,
            r is None ==> !has_pid(self.table(), pid),
    {
        let mut i: usize = 0;
        while i < self.jobs.len()
            invariant
                i <= self.jobs@.len(),
                forall|k: int| 0 <= k < i ==> (#[trigger] self.jobs@[k]).pid != pid,
            decreases self.jobs@.len() - i,
        {
            if self.jobs[i].pid == pid {
                return Some(i);
            }
            i = i + 1;
        }
        None
    }

    fn index_of_id(&self, job_id: usize) -> (r: Option<usize>)
        ensures
            r matches Some(i) ==> i < self.table().len() && self.table()[i as int].id == job_id,
            r is None ==> forall|k: int| 0 <= k < self.table().len() ==> (#[trigger] self.table()[k]).id != job_id,
    {
        let mut i: usize = 0;
        while i < self.jobs.len()
            invariant
                i <= self.jobs@.len(),
                forall|k: int| 0 <= k < i ==> (#[trigger] self.jobs@[k]).id != job_id,
            decreases self.jobs@.len() - i,
        {
            if self.jobs[i].id == job_id {
                return Some(i);
            }
            i = i + 1;
        }
        None
    }

    fn index_of_last_suspended(&self) -> (r: Option<usize>)
        ensures
            r matches Some(i) ==> is_last_suspended(self.table(), i as int),
            r is None ==> !has_suspended(self.table()),
    {
        let mut best: Option<usize> = None;
        let mut i: usize = 0;
        while i < self.jobs.len()
            invariant
                i <= self.jobs@.len(),
                best matches Some(b) ==> b < i && self.jobs@[b as int].status is Suspended
                    && forall|k: int| 0 <= k < i && (#[trigger] self.jobs@[k]).status is Suspended ==> self.jobs@[k].id <= self.jobs@[b as int].id,
                best is None ==> forall|k: int| 0 <= k < i ==> !((#[trigger] self.jobs@[k]).status is Suspended),
            decreases self.jobs@.len() - i,
        {
            if let JobStatus::Suspended = self.jobs[i].status {
                match best {
                    Some(b) => {
                        if self.jobs[i].id > self.jobs[b].id {
                            best = Some(i);
                        }
                    },
                    None => {
                        best = Some(i);
                    },
                }
            }
            i = i + 1;
        }
        best
    }

    /// Records a job that was just spawned, under the next id, as running.
    /// Fails when the system gave no process id.
    pub fn add_job(&mut self, pid: Option<u32>, command: String, args: Vec<String>) -> (r: Result<usize, JobError>)
        requires
            old(self).wf(),
        ensures
            final(self).wf(),
            pid is None ==> r == Err::<usize, JobError>(JobError::NoProcessId),
            pid is Some && old(self).next_id() == usize::MAX ==> r == Err::<usize, JobError>(JobError::IdsExhausted),
            r is Err ==> final(self).table() == old(self).table() && final(self).next_id() == old(self).next_id(),
            pid is Some && old(self).next_id() < usize::MAX ==> {
                &&& r == Ok::<usize, JobError>(old(self).next_id() as usize)
                &&& final(self).next_id() == old(self).next_id() + 1
                &&& job_put(old(self).table(), final(self).table(),
                    (Job { id: old(self).next_id() as usize, pid: pid->0, status: JobStatus::Running, command: command, args: args }))
            },
            r matches Ok(id) ==> forall|x: nat| #[trigger] old(self).issued_ids().contains(x) ==> x < id,
            r matches Ok(id) ==> final(self).issued_ids() == old(self).issued_ids().insert(id as nat),
            r is Err ==> final(self).issued_ids() == old(self).issued_ids(),
            forall|i: int| 0 <= i < final(self).table().len() ==> #[trigger] final(self).issued_ids().contains(
                final(self).table()[i].id as nat),
    {
        let p = match pid {
            Some(p) => p,
            None => return Err(JobError::NoProcessId),
        };
        let r = self.put_job(p, JobStatus::Running, command, args);
        proof {
            if let Ok(id) = r {
                assert(self.issued_ids() =~= old(self).issued_ids().insert(id as nat));
            } else {
                assert(self.issued_ids() =~= old(self).issued_ids());
            }
        }
        r
    }

    fn put_job(&mut self, pid: u32, status: JobStatus, command: String, args: Vec<String>) -> (r: Result<usize, JobError>)
        requires
            old(self).wf(),
            !(status is Completed),
        ensures
            final(self).wf(),
            old(self).next_id() == usize::MAX ==> r == Err::<usize, JobError>(JobError::IdsExhausted),
            r is Err ==> final(self).table() == old(self).table() && final(self).next_id() == old(self).next_id(),
            old(self).next_id() < usize::MAX ==> {
                &&& r == Ok::<usize, JobError>(old(self).next_id() as usize)
                &&& final(self).next_id() == old(self).next_id() + 1
                &&& job_put(old(self).table(), final(self).table(),
                    (Job { id: old(self).next_id() as usize, pid: pid, status: status, command: command, args: args }))
            },
    {
        if self.job_counter == usize::MAX {
            return Err(JobError::IdsExhausted);
        }
        let id = self.job_counter;
        let ghost t = self.jobs@;
        let job = Job { id, pid, status, command, args };
        match self.index_of_pid(pid) {
            Some(i) => {
                self.jobs.remove(i);
                self.jobs.insert(i, job);
                assert(self.jobs@ =~= t.update(i as int, job));
            },
            None => {
                self.jobs.push(job);
            },
        }
        self.job_counter = id + 1;
        proof {
            let t2 = self.jobs@;
            assert forall|i: int, j: int| 0 <= i < t2.len() && 0 <= j < t2.len() && i != j implies (#[trigger] t2[i]).pid != (#[trigger] t2[j]).pid by {
                if t2[i] != job && t2[j] != job {
                    assert(t.contains(t2[i]));
                }
            }
            assert forall|i: int, j: int| 0 <= i < t2.len() && 0 <= j < t2.len() && i != j implies (#[trigger] t2[i]).id != (#[trigger] t2[j]).id by {
                if t2[i] != job && t2[j] != job {
                    assert(t.contains(t2[i]));
                }
            }
        }
        Ok(id)
    }

    pub fn contains_pid(&self, pid: u32) -> (r: bool)
        ensures
            r == has_pid(self.table(), pid),
    {
        self.index_of_pid(pid).is_some()
    }

    pub fn get_job_by_id(&self, job_id: usize) -> (r: Option<&Job>)
        ensures
            r matches Some(j) ==> j.id == job_id && self.table().contains(*j),
            r is None ==> forall|k: int| 0 <= k < self.table().len() ==> (#[trigger] self.table()[k]).id != job_id,
    {
        match self.index_of_id(job_id) {
            Some(i) => Some(&self.jobs[i]),
            None => None,
        }
    }

    /// The suspended job with the highest id, if any.
    pub fn get_last_suspended(&self) -> (r: Option<&Job>)
        ensures
            r matches Some(j) ==> exists|i: int| is_last_suspended(self.table(), i) && self.table()[i] == *j,
            r is None ==> !has_suspended(self.table()),
    {
        match self.index_of_last_suspended() {
            Some(i) => Some(&self.jobs[i]),
            None => None,
        }
    }

    fn set_status(&mut self, i: usize, status: JobStatus)
        requires
            i < old(self).table().len(),
            old(self).wf(),
            !(status is Completed),
        ensures
            final(self).wf(),
            final(self).next_id() == old(self).next_id(),
            final(self).table().len() == old(self).table().len(),
            final(self).table()[i as int].status == status,
            same_job_text(final(self).table()[i as int], old(self).table()[i as int]),
            forall|k: int| 0 <= k < old(self).table().len() && k != i ==> final(self).table()[k] == old(self).table()[k],
    {
        let mut job = self.jobs.remove(i);
        job.status = status;
        self.jobs.insert(i, job);
        proof {
            let t = old(self).jobs@;
            assert(self.jobs@ =~= t.update(i as int, job));
        }
    }

    /// Marks the job of `pid` suspended, first recording it under the next id
    /// when the table does not track it yet (a foreground job). Gives its id.
    pub fn suspend_job(&mut self, pid: u32, command: String, args: Vec<String>) -> (r: Result<usize, JobError>)
        requires
            old(self).wf(),
        ensures
            final(self).wf(),
            suspend_effect(old(self).table(), old(self).next_id(), final(self).table(), final(self).next_id(),
                pid, command, args, ok_id(r)),
            r is Err ==> r == Err::<usize, JobError>(JobError::IdsExhausted),
    {
        match self.index_of_pid(pid) {
            Some(i) => {
                let id = self.jobs[i].id;
                self.set_status(i, JobStatus::Suspended);
                assert(suspended_at(old(self).table(), self.table(), i as int, pid, Some(id)));
                Ok(id)
            },
            None => self.put_job(pid, JobStatus::Suspended, command, args),
        }
    }

    /// Marks a job running again and gives its pid: the job with the given
    /// id, whatever its status, or without an id the suspended job with the highest id.
    pub fn resume_job(&mut self, job_id: Option<usize>) -> (r: Option<u32>)
        requires
            old(self).wf(),
        ensures
            final(self).wf(),
            final(self).next_id() == old(self).next_id(),
            final(self).table().len() == old(self).table().len(),
            r is None ==> final(self).table() == old(self).table(),
            job_id matches Some(id) ==> (r is None <==> forall|k: int| 0 <= k < old(self).table().len() ==> (#[trigger] old(self).table()[k]).id != id),
            job_id is None ==> (r is None <==> !has_suspended(old(self).table())),
            r is Some ==> exists|i: int| #[trigger] resumed_at(old(self).table(), final(self).table(), i, job_id)
                && r == Some(old(self).table()[i].pid),
    {
        let found = match job_id {
            Some(id) => self.index_of_id(id),
            None => self.index_of_last_suspended(),
        };
        match found {
            Some(i) => {
                let pid = self.jobs[i].pid;
                self.set_status(i, JobStatus::Running);
                proof {
                    let ii = i as int;
                    let t = old(self).table();
                    assert(0 <= ii < t.len() && t[ii].pid == pid);
                    assert(job_id is Some ==> job_id == Some(t[ii].id));
                    assert(forall|k: int| 0 <= k < t.len() && k != ii ==> self.table()[k] == t[k]);
                    assert(job_id is None ==> is_last_suspended(t, ii));
                    assert(self.table()[ii].status is Running);
                    assert(resumed_at(t, self.table(), ii, job_id));
                }
                Some(pid)
            },
            None => None,
        }
    }

    /// Reclassifies each job against the pids whose processes are still
    /// alive: a job whose process is gone is listed as completed and removed.
    /// Gives every job as it stood, with the status the listing shows.
    pub fn list_jobs(&mut self, alive: &Vec<u32>) -> (r: Vec<Job>)
        requires
            old(self).wf(),
        ensures
            final(self).wf(),
            final(self).next_id() == old(self).next_id(),
            r@.len() == old(self).table().len(),
            forall|i: int| 0 <= i < r@.len() ==> same_job_text(#[trigger] r@[i], old(self).table()[i])
                && r@[i].status == listed_status(old(self).table()[i], alive@),
            final(self).table() == keep_alive(old(self).table(), alive@),
    {
        let ghost t = self.jobs@;
        let mut listing: Vec<Job> = Vec::new();
        let mut i: usize = 0;
        while i < self.jobs.len()
            invariant
                self.jobs@ == t,
                i <= t.len(),
                listing@.len() == i,
                forall|k: int| 0 <= k < i ==> same_job_text(#[trigger] listing@[k], t[k])
                    && listing@[k].status == listed_status(t[k], alive@),
            decreases t.len() - i,
        {
            let mut j = clone_job(&self.jobs[i]);
            if !contains_u32(alive, j.pid) {
                j.status = JobStatus::Completed(0);
            }
            listing.push(j);
            i = i + 1;
        }
        let mut n: usize = self.jobs.len();
        assert(t.skip(t.len() as int) =~= Seq::<Job>::empty());
        assert(t.take(t.len() as int) =~= t);
        while n > 0
            invariant
                n <= t.len(),
                table_wf(self.jobs@, self.next_id()),
                self.next_id() == old(self).next_id(),
                self.jobs@ == t.take(n as int) + keep_alive(t.skip(n as int), alive@),
            decreases n,
        {
            let ghost rest = keep_alive(t.skip(n as int), alive@);
            proof {
                assert(t.skip(n - 1)[0] == t[n - 1]);
                assert(t.skip(n - 1).drop_first() =~= t.skip(n as int));
                assert(t.take(n as int) =~= t.take(n - 1).push(t[n - 1]));
            }
            n = n - 1;
            assert(self.jobs@[n as int] == t[n as int]);
            if !contains_u32(alive, self.jobs[n].pid) {
                proof {
                    lemma_wf_remove(self.jobs@, self.next_id(), n as int);
                }
                self.jobs.remove(n);
                assert(self.jobs@ =~= t.take(n as int) + keep_alive(t.skip(n as int), alive@));
            } else {
                assert(self.jobs@ =~= t.take(n as int) + keep_alive(t.skip(n as int), alive@));
            }
        }
        assert(t.skip(0) =~= t);
        assert(self.jobs@ =~= keep_alive(t, alive@));
        listing
    }

    /// Ends the tracking of the job of `pid`, given what became of the
    /// terminate signal sent to it and, where one was sent, the kill signal.
    /// A delivered terminate, or a process that no longer exists, ends the job;
    /// otherwise a delivered kill does. The entry is removed only when the job ended.
    pub fn remove_job(&mut self, pid: u32, term: SignalOutcome, force: Option<SignalOutcome>) -> (r: Result<(), JobError>)
        requires
            old(self).wf(),
        ensures
            final(self).wf(),
            final(self).next_id() == old(self).next_id(),
            !has_pid(old(self).table(), pid) ==> r == Err::<(), JobError>(JobError::NoSuchJob)
                && final(self).table() == old(self).table(),
            has_pid(old(self).table(), pid) && !job_ended(term, force) ==> r == Err::<(), JobError>(JobError::KillFailed)
                && final(self).table() == old(self).table(),
            has_pid(old(self).table(), pid) && job_ended(term, force) ==> r is Ok && exists|i: int|
                0 <= i < old(self).table().len() && old(self).table()[i].pid == pid
                && final(self).table() == old(self).table().remove(i),
            r is Ok ==> !has_pid(final(self).table(), pid),
    {
        let ended = match term {
            SignalOutcome::Delivered | SignalOutcome::NoSuchProcess => true,
            SignalOutcome::Failed => match force {
                Some(SignalOutcome::Delivered) => true,
                _ => false,
            },
        };
        match self.index_of_pid(pid) {
            Some(i) => {
                if !ended {
                    return Err(JobError::KillFailed);
                }
                let ghost t = self.jobs@;
                self.jobs.remove(i);
                proof {
                    lemma_wf_remove(t, self.next_id(), i as int);
                }
                Ok(())
            },
            None => Err(JobError::NoSuchJob),
        }
    }
}

} // verus!
