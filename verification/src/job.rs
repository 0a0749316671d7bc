//! Job management: the set of child processes the shell watches.

use vstd::prelude::*;

verus! {

/// Identifier of a process.
pub type Pid = i32;

/// What has become of a watched process.
#[derive(Clone, Copy, Debug, Eq, PartialEq, Structural)]
pub enum WaitStatus {
    /// The process is still running.
    StillAlive,
    /// The process exited with the given status.
    Exited(Pid, i32),
    /// The process was killed by the signal with the given number.
    Signaled(Pid, i32),
    /// The process was stopped by the signal with the given number.
    Stopped(Pid, i32),
    /// The process continued after a stop.
    Continued(Pid),
}

/// Set of one or more processes executing a pipeline.
///
/// A job records the process ID of one child process of the shell; though
/// more processes may be involved in the pipeline, the shell takes care of
/// only one process of the job.
#[derive(Debug, Eq, PartialEq)]
pub struct Job {
    /// Process ID.
    pub pid: Pid,
    /// Whether the job is job-controlled: whether the job process runs in
    /// its own process group.
    pub job_controlled: bool,
    /// Status of the process.
    pub status: WaitStatus,
    /// String representation of this process.
    pub name: String,
}

impl Clone for Job {
    fn clone(&self) -> (r: Self)
        ensures
            r == *self,
    {
        Job {
            pid: self.pid,
            job_controlled: self.job_controlled,
            status: self.status,
            name: self.name.clone(),
        }
    }
}

impl Job {
    /// Creates a new job for the given process, not yet job-controlled,
    /// still alive, and with an empty name.
    pub fn new(pid: Pid) -> (r: Job)
        ensures
            r.pid == pid,
            !r.job_controlled,
            r.status == WaitStatus::StillAlive,
            r.name@ == Seq::<char>::empty(),
    {
        Job { pid, job_controlled: false, status: WaitStatus::StillAlive, name: String::new() }
    }
}

/// Declares `slab::Slab` so slabs can stand in fields and signatures.
#[verifier::external_type_specification]
#[verifier::external_body]
#[verifier::reject_recursive_types(T)]
pub struct ExSlab<T>(slab::Slab<T>);

/// The jobs a slab holds, by their keys.
pub uninterp spec fn slab_jobs(s: slab::Slab<Job>) -> Map<int, Job>;

/// Creates an empty slab.
///
/// Relies on `slab::Slab::new`: the new slab holds nothing.
#[verifier::external_body]
fn slab_new() -> (r: slab::Slab<Job>)
    ensures
        forall|k: int| !slab_jobs(r).dom().contains(k),
{
    slab::Slab::new()
}

/// Stores a job in a free slot.
///
/// Relies on `slab::Slab::insert`: the value is stored under a key that no
/// stored value occupied, and that key is returned.
#[verifier::external_body]
fn slab_insert(s: &mut slab::Slab<Job>, job: Job) -> (r: usize)
    ensures
        !slab_jobs(*old(s)).dom().contains(r as int),
        slab_jobs(*final (s)) == slab_jobs(*old(s)).insert(r as int, job),
{
    s.insert(job)
}

/// Removes the job under a key, if one is stored.
///
/// Relies on `slab::Slab::try_remove`: the value under the key is removed
/// and returned, or nothing happens when the key is vacant.
#[verifier::external_body]
fn slab_try_remove(s: &mut slab::Slab<Job>, key: usize) -> (r: Option<Job>)
    ensures
        match r {
            Some(job) => slab_jobs(*old(s)).dom().contains(key as int) && job == slab_jobs(
                *old(s),
            )[key as int] && slab_jobs(*final (s)) == slab_jobs(*old(s)).remove(key as int),
            None => !slab_jobs(*old(s)).dom().contains(key as int) && slab_jobs(*final (s))
                == slab_jobs(*old(s)),
        },
{
    s.try_remove(key)
}

/// Reads the job under a key, if one is stored.
///
/// Relies on `slab::Slab::get`: a reference to the value under the key, or
/// nothing when the key is vacant.
#[verifier::external_body]
fn slab_get(s: &slab::Slab<Job>, key: usize) -> (r: Option<&Job>)
    ensures
        match r {
            Some(job) => slab_jobs(*s).dom().contains(key as int) && *job == slab_jobs(
                *s,
            )[key as int],
            None => !slab_jobs(*s).dom().contains(key as int),
        },
{
    s.get(key)
}

/// Lists the stored jobs with their keys, in ascending key order.
///
/// Relies on `slab::Slab::iter`: every occupied slot is yielded exactly
/// once, as its key with the stored value, in ascending key order.
#[verifier::external_body]
fn slab_items(s: &slab::Slab<Job>) -> (r: Vec<(usize, Job)>)
    ensures
        forall|i: int|
            0 <= i < r@.len() ==> slab_jobs(*s).dom().contains(
                (#[trigger] r@[i]).0 as int,
            ) && r@[i].1 == slab_jobs(*s)[r@[i].0 as int],
        forall|k: int|
            slab_jobs(*s).dom().contains(k) ==> exists|i: int|
                0 <= i < r@.len() && (#[trigger] r@[i]).0 as int == k,
        forall|i: int, j: int| 0 <= i < j < r@.len() ==> r@[i].0 < r@[j].0,
{
    s.iter().map(|pair: (usize, &Job)| (pair.0, pair.1.clone())).collect()
}

/// Collection of jobs, with the process ID of the most recent asynchronous
/// command.
#[derive(Debug)]
pub struct JobSet {
    /// Jobs managed by the shell.
    jobs: slab::Slab<Job>,
    /// Process ID of the most recently executed asynchronous command.
    last_async_pid: Pid,
}

impl Default for JobSet {
    /// Creates an empty job set, as [`JobSet::new`] does.
    fn default() -> (r: JobSet)
        ensures
            forall|k: int| !r.jobs_map().dom().contains(k),
            r.last_async() == 0,
    {
        JobSet::new()
    }
}

impl JobSet {
    /// The stored jobs by their indices, for specification purposes.
    pub closed spec fn jobs_map(self) -> Map<int, Job> {
        slab_jobs(self.jobs)
    }

    /// The recorded process ID of the most recent asynchronous command.
    pub closed spec fn last_async(self) -> Pid {
        self.last_async_pid
    }

    /// Creates an empty job set.
    pub fn new() -> (r: JobSet)
        ensures
            forall|k: int| !r.jobs_map().dom().contains(k),
            r.last_async() == 0,
    {
        JobSet { jobs: slab_new(), last_async_pid: 0 }
    }

    /// Adds a job to this job set, returning the fresh index assigned to it.
    pub fn add_job(&mut self, job: Job) -> (r: usize)
        ensures
            !old(self).jobs_map().dom().contains(r as int),
            final (self).jobs_map() == old(self).jobs_map().insert(r as int, job),
            final (self).last_async() == old(self).last_async(),
    {
        slab_insert(&mut self.jobs, job)
    }

    /// Removes a job from this job set, returning it; the result is `None`
    /// when no job is stored under the index.
    pub fn remove_job(&mut self, index: usize) -> (r: Option<Job>)
        ensures
            match r {
                Some(job) => old(self).jobs_map().dom().contains(index as int) && job == old(
                    self,
                ).jobs_map()[index as int] && final (self).jobs_map() == old(
                    self,
                ).jobs_map().remove(index as int),
                None => !old(self).jobs_map().dom().contains(index as int) && final (
                self).jobs_map() == old(self).jobs_map(),
            },
            final (self).last_async() == old(self).last_async(),
    {
        slab_try_remove(&mut self.jobs, index)
    }

    /// Returns the job at the specified index, or `None` when no job is
    /// stored under it.
    pub fn get_job(&self, index: usize) -> (r: Option<&Job>)
        ensures
            match r {
                Some(job) => self.jobs_map().dom().contains(index as int) && *job
                    == self.jobs_map()[index as int],
                None => !self.jobs_map().dom().contains(index as int),
            },
    {
        slab_get(&self.jobs, index)
    }

    /// Returns the stored jobs with their indices, in ascending index order.
    pub fn iter(&self) -> (r: Vec<(usize, Job)>)
        ensures
            forall|i: int|
                0 <= i < r@.len() ==> self.jobs_map().dom().contains(
                    (#[trigger] r@[i]).0 as int,
                ) && r@[i].1 == self.jobs_map()[r@[i].0 as int],
            forall|k: int|
                self.jobs_map().dom().contains(k) ==> exists|i: int|
                    0 <= i < r@.len() && (#[trigger] r@[i]).0 as int == k,
            forall|i: int, j: int| 0 <= i < j < r@.len() ==> r@[i].0 < r@[j].0,
    {
        slab_items(&self.jobs)
    }

    /// Returns the process ID of the most recently executed asynchronous
    /// command: the value set by [`set_last_async_pid`](Self::set_last_async_pid),
    /// or 0 when none has been set.
    pub fn last_async_pid(&self) -> (r: Pid)
        ensures
            r == self.last_async(),
    {
        self.last_async_pid
    }

    /// Returns the process ID of the most recently executed asynchronous
    /// command for expanding the special parameter named by `!`, keeping the
    /// command from being disowned too soon.
    pub fn expand_last_async_pid(&mut self) -> (r: Pid)
        ensures
            r == old(self).last_async(),
            final (self).jobs_map() == old(self).jobs_map(),
            final (self).last_async() == old(self).last_async(),
    {
        self.last_async_pid
    }

    /// Sets the process ID of the most recently executed asynchronous
    /// command.
    pub fn set_last_async_pid(&mut self, pid: Pid)
        ensures
            final (self).jobs_map() == old(self).jobs_map(),
            final (self).last_async() == pid,
    {
        self.last_async_pid = pid;
    }
}

} // verus!
