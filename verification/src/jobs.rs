//! Background-job bookkeeping: the registry of last run times and the job
//! that sweeps expired one-time codes.

use vstd::prelude::*;

use crate::auth_store::spec_unexpired_otps;
use crate::errors::DaoError;
use crate::strutil::str_eq;

verus! {

/// One registry row: a job's name and when it last ran.
#[derive(Debug)]
pub struct JobRegistryItem {
    pub job_name: String,
    pub last_run_timestamp: u64,
}

/// The last run time recorded for a job, or `now` for a job that never ran.
pub fn get_last_run_time(job_name: &str, registry: &Vec<JobRegistryItem>, now: u64) -> (r: u64)
    ensures
        (exists|i: int|
            0 <= i < registry@.len() && (#[trigger] registry@[i]).job_name@ == job_name@) ==> exists|
            i: int,
        |
            0 <= i < registry@.len() && (#[trigger] registry@[i]).job_name@ == job_name@
                && r == registry@[i].last_run_timestamp,
        !(exists|i: int|
            0 <= i < registry@.len() && (#[trigger] registry@[i]).job_name@ == job_name@) ==> r
            == now,
{
    let n = registry.len();
    let mut i: usize = 0;
    while i < n
        invariant
            n == registry@.len(),
            i <= n,
            forall|j: int| 0 <= j < i ==> (#[trigger] registry@[j]).job_name@ != job_name@,
        decreases n - i,
    {
        if str_eq(registry[i].job_name.as_str(), job_name) {
            assert(registry@[i as int].job_name@ == job_name@);
            return registry[i].last_run_timestamp;
        }
        i += 1;
    }
    now
}

/// The job that periodically clears expired one-time codes, with its
/// scheduling state.
#[derive(Debug)]
pub struct ClearOtpAttemptsJob {
    pub job_frequency: u64,
    pub attempts_lifetime: u64,
    pub is_running: bool,
    pub last_run_time: u64,
}

impl ClearOtpAttemptsJob {
    /// A job that considers itself last run at `now`.
    pub fn new(job_frequency: u64, attempts_lifetime: u64, now: u64) -> (r: ClearOtpAttemptsJob)
        ensures
            r.job_frequency == job_frequency,
            r.attempts_lifetime == attempts_lifetime,
            !r.spec_is_running(),
            r.spec_last_run_time() == now,
    {
        ClearOtpAttemptsJob { job_frequency, attempts_lifetime, is_running: false, last_run_time: now }
    }

    /// Whether the job believes it is running.
    pub closed spec fn spec_is_running(&self) -> bool {
        self.is_running
    }

    /// When the job last ran.
    pub closed spec fn spec_last_run_time(&self) -> u64 {
        self.last_run_time
    }

    /// The job's display name.
    pub fn name() -> (r: &'static str)
        ensures
            r@ == "Clear OTP Attempts"@,
    {
        "Clear OTP Attempts"
    }

    /// How often the job should run.
    pub fn run_frequency(&self) -> (r: u64)
        ensures
            r == self.job_frequency,
    {
        self.job_frequency
    }

    /// When the job last ran.
    pub fn last_run_time(&self) -> (r: u64)
        ensures
            r == self.spec_last_run_time(),
    {
        self.last_run_time
    }

    /// Records a run time.
    pub fn set_last_run_time(&mut self, time: u64)
        ensures
            final(self).spec_last_run_time() == time,
            final(self).spec_is_running() == old(self).spec_is_running(),
            final(self).job_frequency == old(self).job_frequency,
            final(self).attempts_lifetime == old(self).attempts_lifetime,
    {
        self.last_run_time = time;
    }

    /// Whether the job is marked running.
    pub fn is_running(&self) -> (r: bool)
        ensures
            r == self.spec_is_running(),
    {
        self.is_running
    }

    /// Marks the job idle.
    pub fn set_running_state_not_running(&mut self)
        ensures
            !final(self).spec_is_running(),
            final(self).spec_last_run_time() == old(self).spec_last_run_time(),
            final(self).job_frequency == old(self).job_frequency,
            final(self).attempts_lifetime == old(self).attempts_lifetime,
    {
        self.is_running = false;
    }

    /// Marks the job running.
    pub fn set_running_state_running(&mut self)
        ensures
            final(self).spec_is_running(),
            final(self).spec_last_run_time() == old(self).spec_last_run_time(),
            final(self).job_frequency == old(self).job_frequency,
            final(self).attempts_lifetime == old(self).attempts_lifetime,
    {
        self.is_running = true;
    }

    /// The job's work: sweep the codes that expired before `now`.
    pub fn run_handler_func(&mut self, dao: &mut crate::auth_store::Dao, now: u64) -> (r: Result<
        (),
        DaoError,
    >)
        requires
            old(dao).wf(),
        ensures
            *final(self) == *old(self),
            final(dao).wf(),
            r is Ok,
            final(dao).otps() == spec_unexpired_otps(old(dao).otps(), now),
    {
        dao.delete_all_expired_otps(now)
    }
}

} // verus!
