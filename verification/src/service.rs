//! The job table of the simulation service: which jobs there are, what state
//! each is in, and which are dropped to make room. The tasks, the sockets and
//! the signals are kept elsewhere.
use crate::control::{default_policy, ExecutionPolicy};
use crate::engine::{SimulationError, SimulationRequest};
use crate::runtime::{report, Report};
use crate::text::{cat2, cat3, padded_hex, padded_hex_text, text_before, text_eq, text_lt};
use crate::waveform::{SimulationResult, VERSION};
use vstd::prelude::*;

verus! {

pub const DEFAULT_MAX_RETAINED_JOBS: usize = 256;

pub const DEFAULT_MAX_CONCURRENT_JOBS: usize = 4;

pub const DEFAULT_MAX_SERVICE_REQUEST_BYTES: usize = 8 * 1024 * 1024;

/// A request that the service refuses.
#[derive(Clone, Debug, PartialEq, Eq)]
pub struct ServiceError {
    pub code: String,
    pub message: String,
}

impl View for ServiceError {
    type V = Report;

    open spec fn view(&self) -> Report {
        Report { code: self.code@, message: self.message@ }
    }
}

/// The status of the answer to a refused request.
pub open spec fn status_of(code: Seq<char>) -> u16 {
    if code == "simulation_job_not_found"@ {
        404
    } else if code == "service_queue_full"@ {
        429
    } else {
        500
    }
}

impl ServiceError {
    pub fn new(code: &str, message: &str) -> (r: Self)
        ensures
            r@ == report(code@, message@),
    {
        ServiceError { code: code.to_owned(), message: message.to_owned() }
    }

    /// The HTTP status of the answer.
    pub fn status(&self) -> (r: u16)
        ensures
            r == status_of(self@.code),
    {
        if text_eq(self.code.as_str(), "simulation_job_not_found") {
            404
        } else if text_eq(self.code.as_str(), "service_queue_full") {
            429
        } else {
            500
        }
    }

    /// The code and the message, for a reader.
    pub fn to_text(&self) -> (r: String)
        ensures
            r@ == self@.code + ": "@ + self@.message,
    {
        cat3(self.code.as_str(), ": ", self.message.as_str())
    }
}

#[derive(Clone, Copy, Debug, PartialEq, Eq, Structural)]
pub struct ServiceLimits {
    pub max_retained_jobs: usize,
    pub max_concurrent_jobs: usize,
    pub max_request_bytes: usize,
    pub execution_policy: ExecutionPolicy,
}

impl Default for ServiceLimits {
    fn default() -> (r: Self)
        ensures
            r == (ServiceLimits {
                max_retained_jobs: DEFAULT_MAX_RETAINED_JOBS,
                max_concurrent_jobs: DEFAULT_MAX_CONCURRENT_JOBS,
                max_request_bytes: DEFAULT_MAX_SERVICE_REQUEST_BYTES,
                execution_policy: default_policy(),
            }),
    {
        ServiceLimits {
            max_retained_jobs: DEFAULT_MAX_RETAINED_JOBS,
            max_concurrent_jobs: DEFAULT_MAX_CONCURRENT_JOBS,
            max_request_bytes: DEFAULT_MAX_SERVICE_REQUEST_BYTES,
            execution_policy: ExecutionPolicy::default(),
        }
    }
}

impl ServiceLimits {
    /// What is wrong with the limits, if anything.
    pub open spec fn failure(self) -> Option<Report> {
        let code = "service_config_invalid"@;
        if self.max_retained_jobs == 0 {
            Some(report(code, "max_retained_jobs must be greater than zero"@))
        } else if self.max_concurrent_jobs == 0 || self.max_concurrent_jobs
            > self.max_retained_jobs {
            Some(report(code, "max_concurrent_jobs must be in 1..=max_retained_jobs"@))
        } else if self.max_request_bytes == 0 {
            Some(report(code, "max_request_bytes must be greater than zero"@))
        } else {
            match self.execution_policy.failure() {
                Some(f) => Some(report(code, f.message)),
                None => None,
            }
        }
    }

    pub fn validate(&self) -> (r: Result<(), ServiceError>)
        ensures
            match (r, self.failure()) {
                (Ok(_), None) => true,
                (Err(e), Some(f)) => e@ == f,
                _ => false,
            },
    {
        let code = "service_config_invalid";
        if self.max_retained_jobs == 0 {
            return Err(ServiceError::new(code, "max_retained_jobs must be greater than zero"));
        }
        if self.max_concurrent_jobs == 0 || self.max_concurrent_jobs > self.max_retained_jobs {
            return Err(
                ServiceError::new(code, "max_concurrent_jobs must be in 1..=max_retained_jobs"),
            );
        }
        if self.max_request_bytes == 0 {
            return Err(ServiceError::new(code, "max_request_bytes must be greater than zero"));
        }
        match self.execution_policy.validate() {
            Err(e) => Err(ServiceError::new(code, e.message())),
            Ok(_) => Ok(()),
        }
    }
}

/// The name of a job.
#[derive(Debug, PartialEq, Eq, PartialOrd, Ord, Hash)]
pub struct SimulationJobId(pub String);

impl View for SimulationJobId {
    type V = Seq<char>;

    open spec fn view(&self) -> Seq<char> {
        self.0@
    }
}

impl Clone for SimulationJobId {
    fn clone(&self) -> (r: Self)
        ensures
            r == *self,
    {
        SimulationJobId(self.0.clone())
    }
}

impl SimulationJobId {
    pub fn as_str(&self) -> (r: &str)
        ensures
            r@ == self@,
    {
        self.0.as_str()
    }
}

#[derive(Clone, Copy, Debug, PartialEq, Eq, Structural)]
pub enum SimulationJobStatus {
    Queued,
    Running,
    Cancelling,
    Succeeded,
    Failed,
    Cancelled,
}

impl SimulationJobStatus {
    /// Whether a job has come to its end.
    pub open spec fn ended(self) -> bool {
        self == SimulationJobStatus::Succeeded || self == SimulationJobStatus::Failed || self
            == SimulationJobStatus::Cancelled
    }

    pub fn is_terminal(self) -> (r: bool)
        ensures
            r == self.ended(),
    {
        match self {
            SimulationJobStatus::Succeeded | SimulationJobStatus::Failed
            | SimulationJobStatus::Cancelled => true,
            _ => false,
        }
    }
}

/// Why a job failed.
#[derive(Clone, Debug, PartialEq, Eq)]
pub struct SimulationJobFailure {
    pub code: String,
    pub message: String,
    pub simulation: Option<SimulationError>,
}

impl SimulationJobFailure {
    /// A failure of the simulation.
    pub open spec fn is_of(self, error: SimulationError) -> bool {
        &&& self.code@ == error.spec_code()
        &&& self.message@ == error.spec_text()
        &&& self.simulation == Some(error)
    }

    pub fn simulation(error: SimulationError) -> (r: Self)
        ensures
            r.is_of(error),
    {
        SimulationJobFailure {
            code: error.code().to_owned(),
            message: error.to_text(),
            simulation: Some(error),
        }
    }

    pub fn worker(message: &str) -> (r: Self)
        ensures
            r.code@ == "service_worker_failed"@,
            r.message@ == message@,
            r.simulation is None,
    {
        SimulationJobFailure {
            code: "service_worker_failed".to_owned(),
            message: message.to_owned(),
            simulation: None,
        }
    }
}

/// What is known of a job.
#[derive(Clone, Debug, PartialEq, Eq)]
pub struct SimulationJobSnapshot {
    pub id: SimulationJobId,
    pub status: SimulationJobStatus,
    pub result: Option<SimulationResult>,
    pub error: Option<SimulationJobFailure>,
}

/// A change of a job.
#[derive(Clone, Debug, PartialEq, Eq)]
pub struct SimulationJobEvent {
    pub job: SimulationJobSnapshot,
}

/// What the service says of itself.
#[derive(Clone, Copy, Debug, PartialEq, Eq)]
pub struct HealthResponse {
    pub status: &'static str,
    pub version: &'static str,
}

pub fn health() -> (r: HealthResponse)
    ensures
        r.status@ == "ok"@,
        r.version@ == VERSION@,
{
    HealthResponse { status: "ok", version: VERSION }
}

/// A request for a simulation.
#[derive(Clone, Debug, PartialEq, Eq)]
pub struct SubmitSimulation {
    pub request: SimulationRequest,
}

/// A new job.
pub open spec fn is_fresh(job: SimulationJobSnapshot, number: u64) -> bool {
    &&& job.id@ == "sim-"@ + padded_hex(number as nat, 16)
    &&& job.status == SimulationJobStatus::Queued
    &&& job.result is None
    &&& job.error is None
}

/// The jobs of the service, in the order of their names.
#[derive(Debug, PartialEq, Eq)]
pub struct JobTable {
    pub jobs: Vec<SimulationJobSnapshot>,
    pub next_job: u64,
}

/// The place of the first of the first `n` jobs that has ended.
pub open spec fn ended_place(jobs: Seq<SimulationJobSnapshot>, n: int) -> Option<int>
    decreases n,
{
    if n <= 0 {
        None
    } else {
        match ended_place(jobs, n - 1) {
            Some(i) => Some(i),
            None => if jobs[n - 1].status.ended() {
                Some(n - 1)
            } else {
                None
            },
        }
    }
}

proof fn lemma_ended_place(jobs: Seq<SimulationJobSnapshot>, n: int)
    requires
        0 <= n <= jobs.len(),
    ensures
        match ended_place(jobs, n) {
            Some(i) => 0 <= i < n && jobs[i].status.ended() && forall|k: int|
                0 <= k < i ==> !(#[trigger] jobs[k]).status.ended(),
            None => forall|k: int| 0 <= k < n ==> !(#[trigger] jobs[k]).status.ended(),
        },
    decreases n,
{
    if n > 0 {
        lemma_ended_place(jobs, n - 1);
    }
}

/// The jobs that are kept: ended jobs go, the first first, until there is room.
pub open spec fn pruned(jobs: Seq<SimulationJobSnapshot>, max_retained: nat) -> Seq<
    SimulationJobSnapshot,
>
    decreases jobs.len(),
{
    let place = ended_place(jobs, jobs.len() as int);
    if jobs.len() < max_retained {
        jobs
    } else {
        match place {
            None => jobs,
            Some(i) => if 0 <= i < jobs.len() {
                pruned(jobs.remove(i), max_retained)
            } else {
                jobs
            },
        }
    }
}

/// The names of the jobs that are dropped, in the order in which they go.
pub open spec fn dropped_names(jobs: Seq<SimulationJobSnapshot>, max_retained: nat) -> Seq<
    SimulationJobId,
>
    decreases jobs.len(),
{
    if jobs.len() < max_retained {
        Seq::empty()
    } else {
        match ended_place(jobs, jobs.len() as int) {
            None => Seq::empty(),
            Some(i) => if 0 <= i < jobs.len() {
                seq![jobs[i].id] + dropped_names(jobs.remove(i), max_retained)
            } else {
                Seq::empty()
            },
        }
    }
}

/// No active job is dropped, and the jobs that are kept leave room unless all
/// of them are active.
pub proof fn pruning_keeps_active_jobs(
    jobs: Seq<SimulationJobSnapshot>,
    max_retained: nat,
    i: int,
)
    requires
        0 <= i < jobs.len(),
    ensures
        !jobs[i].status.ended() ==> pruned(jobs, max_retained).contains(jobs[i]),
        pruned(jobs, max_retained).len() < max_retained || forall|k: int|
            0 <= k < pruned(jobs, max_retained).len() ==> !(#[trigger] pruned(
                jobs,
                max_retained,
            )[k]).status.ended(),
    decreases jobs.len(),
{
    lemma_ended_place(jobs, jobs.len() as int);
    if jobs.len() >= max_retained {
        match ended_place(jobs, jobs.len() as int) {
            None => {
                assert(jobs.contains(jobs[i]));
            },
            Some(e) => {
                let rest = jobs.remove(e);
                if rest.len() == 0 {
                    assert(pruned(rest, max_retained) =~= rest);
                } else if i < e {
                    assert(rest[i] == jobs[i]);
                    pruning_keeps_active_jobs(rest, max_retained, i);
                } else if i > e {
                    assert(rest[i - 1] == jobs[i]);
                    pruning_keeps_active_jobs(rest, max_retained, i - 1);
                } else {
                    pruning_keeps_active_jobs(rest, max_retained, 0);
                }
            },
        }
    } else {
        assert(jobs.contains(jobs[i]));
    }
}

/// How many jobs have not ended.
pub open spec fn active_count(jobs: Seq<SimulationJobSnapshot>) -> nat
    decreases jobs.len(),
{
    if jobs.len() == 0 {
        0
    } else {
        active_count(jobs.drop_last()) + if jobs.last().status.ended() {
            0nat
        } else {
            1nat
        }
    }
}

proof fn lemma_active_without(jobs: Seq<SimulationJobSnapshot>, i: int)
    requires
        0 <= i < jobs.len(),
        jobs[i].status.ended(),
    ensures
        active_count(jobs.remove(i)) == active_count(jobs),
    decreases jobs.len(),
{
    if i == jobs.len() - 1 {
        assert(jobs.remove(i) =~= jobs.drop_last());
    } else {
        lemma_active_without(jobs.drop_last(), i);
        assert(jobs.remove(i).drop_last() =~= jobs.drop_last().remove(i));
    }
}

proof fn lemma_active_bound(jobs: Seq<SimulationJobSnapshot>)
    ensures
        active_count(jobs) <= jobs.len(),
        (forall|k: int| 0 <= k < jobs.len() ==> !(#[trigger] jobs[k]).status.ended())
            ==> active_count(jobs) == jobs.len(),
    decreases jobs.len(),
{
    if jobs.len() > 0 {
        let rest = jobs.drop_last();
        lemma_active_bound(rest);
        if forall|k: int| 0 <= k < jobs.len() ==> !(#[trigger] jobs[k]).status.ended() {
            assert forall|k: int| 0 <= k < rest.len() implies !(#[trigger] rest[k]).status.ended() by {
                assert(rest[k] == jobs[k]);
            }
            assert(!jobs[jobs.len() - 1].status.ended());
        }
    }
}

/// There is no room for another job exactly when the active jobs alone fill it.
pub proof fn room_is_left_by_active_jobs(jobs: Seq<SimulationJobSnapshot>, max_retained: nat)
    ensures
        active_count(pruned(jobs, max_retained)) == active_count(jobs),
        pruned(jobs, max_retained).len() >= max_retained <==> active_count(jobs) >= max_retained,
    decreases jobs.len(),
{
    lemma_active_bound(jobs);
    lemma_ended_place(jobs, jobs.len() as int);
    if jobs.len() >= max_retained {
        match ended_place(jobs, jobs.len() as int) {
            None => {},
            Some(i) => {
                lemma_active_without(jobs, i);
                room_is_left_by_active_jobs(jobs.remove(i), max_retained);
            },
        }
    }
}

/// How many jobs at the front have names before a name.
pub open spec fn id_place(jobs: Seq<SimulationJobSnapshot>, id: Seq<char>) -> int
    decreases jobs.len(),
{
    if jobs.len() == 0 {
        0
    } else {
        let before = id_place(jobs.drop_last(), id);
        if before < jobs.len() - 1 || !text_before(jobs.last().id@, id) {
            before
        } else {
            jobs.len() as int
        }
    }
}

proof fn lemma_id_place(jobs: Seq<SimulationJobSnapshot>, id: Seq<char>)
    ensures
        0 <= id_place(jobs, id) <= jobs.len(),
        id_place(jobs, id) < jobs.len() ==> !text_before(jobs[id_place(jobs, id)].id@, id),
        forall|k: int|
            0 <= k < id_place(jobs, id) ==> text_before((#[trigger] jobs[k]).id@, id),
    decreases jobs.len(),
{
    if jobs.len() > 0 {
        let rest = jobs.drop_last();
        lemma_id_place(rest, id);
        assert forall|k: int| 0 <= k < id_place(jobs, id) implies text_before(
            (#[trigger] jobs[k]).id@,
            id,
        ) by {
            if k < rest.len() {
                assert(rest[k] == jobs[k]);
            }
        }
        if id_place(rest, id) < rest.len() {
            assert(rest[id_place(rest, id)] == jobs[id_place(rest, id)]);
        }
    }
}

/// The jobs with one more, in its place; one with the same name gives way.
pub open spec fn with_job(jobs: Seq<SimulationJobSnapshot>, job: SimulationJobSnapshot) -> Seq<
    SimulationJobSnapshot,
> {
    let place = id_place(jobs, job.id@);
    if place < jobs.len() && jobs[place].id@ == job.id@ {
        jobs.update(place, job)
    } else {
        jobs.insert(place, job)
    }
}

/// The place of the first of the first `n` jobs with a name.
pub open spec fn job_place(jobs: Seq<SimulationJobSnapshot>, id: Seq<char>, n: int) -> Option<int>
    decreases n,
{
    if n <= 0 {
        None
    } else {
        match job_place(jobs, id, n - 1) {
            Some(i) => Some(i),
            None => if jobs[n - 1].id@ == id {
                Some(n - 1)
            } else {
                None
            },
        }
    }
}

proof fn lemma_job_place_stays(jobs: Seq<SimulationJobSnapshot>, id: Seq<char>, n: int, m: int)
    requires
        0 <= m <= n,
        job_place(jobs, id, m) is Some,
    ensures
        job_place(jobs, id, n) == job_place(jobs, id, m),
    decreases n - m,
{
    if m < n {
        lemma_job_place_stays(jobs, id, n, m + 1);
    }
}

pub open spec fn unknown_job() -> Report {
    report("simulation_job_not_found"@, "simulation job was not found"@)
}

pub fn job_not_found() -> (r: ServiceError)
    ensures
        r@ == unknown_job(),
{
    ServiceError::new("simulation_job_not_found", "simulation job was not found")
}

/// A job that is being cancelled, unless it has ended.
pub open spec fn being_cancelled(job: SimulationJobSnapshot) -> SimulationJobSnapshot {
    if job.status.ended() {
        job
    } else {
        SimulationJobSnapshot { status: SimulationJobStatus::Cancelling, ..job }
    }
}

/// A job that was cancelled.
pub open spec fn stopped(job: SimulationJobSnapshot) -> SimulationJobSnapshot {
    SimulationJobSnapshot {
        status: SimulationJobStatus::Cancelled,
        result: None,
        error: None,
        ..job
    }
}

/// How the work on a job ended.
pub enum ServiceOutcome {
    /// The simulation gave a result.
    Done(SimulationResult),
    /// The simulation failed.
    Refused(SimulationError),
    /// The worker was lost.
    Lost(String),
}

/// A job after the work on it ended. `cancelled` says whether it was to be
/// cancelled by then; the loss of a worker is noted all the same.
pub open spec fn finished(
    job: SimulationJobSnapshot,
    cancelled: bool,
    outcome: ServiceOutcome,
    after: SimulationJobSnapshot,
) -> bool {
    match outcome {
        ServiceOutcome::Done(result) => if cancelled {
            after == stopped(job)
        } else {
            after == (SimulationJobSnapshot {
                status: SimulationJobStatus::Succeeded,
                result: Some(result),
                error: None,
                ..job
            })
        },
        ServiceOutcome::Refused(error) => if cancelled || crate::runtime::was_cancelled(error) {
            after == stopped(job)
        } else {
            &&& after.error is Some
            &&& after.error->Some_0.is_of(error)
            &&& after == (SimulationJobSnapshot {
                status: SimulationJobStatus::Failed,
                result: None,
                error: after.error,
                ..job
            })
        },
        ServiceOutcome::Lost(message) => {
            &&& after.error is Some
            &&& after.error->Some_0.code@ == "service_worker_failed"@
            &&& after.error->Some_0.message@ == message@
            &&& after.error->Some_0.simulation is None
            &&& after == (SimulationJobSnapshot {
                status: SimulationJobStatus::Failed,
                result: None,
                error: after.error,
                ..job
            })
        },
    }
}

impl JobTable {
    pub fn new() -> (r: Self)
        ensures
            r.jobs@ == Seq::<SimulationJobSnapshot>::empty(),
            r.next_job == 1,
    {
        JobTable { jobs: Vec::new(), next_job: 1 }
    }

    fn find_ended(&self) -> (r: Option<usize>)
        ensures
            match (r, ended_place(self.jobs@, self.jobs@.len() as int)) {
                (Some(i), Some(k)) => i == k && i < self.jobs@.len(),
                (None, None) => true,
                _ => false,
            },
    {
        let mut i: usize = 0;
        while i < self.jobs.len()
            invariant
                i <= self.jobs@.len(),
                forall|k: int| 0 <= k < i ==> !(#[trigger] self.jobs@[k]).status.ended(),
            decreases self.jobs@.len() - i,
        {
            if self.jobs[i].status.is_terminal() {
                proof {
                    lemma_ended_place(self.jobs@, self.jobs@.len() as int);
                }
                return Some(i);
            }
            i = i + 1;
        }
        proof {
            lemma_ended_place(self.jobs@, self.jobs@.len() as int);
        }
        None
    }

    /// Drops ended jobs to make room and gives their names.
    pub fn prune_terminal_jobs(&mut self, max_retained: usize) -> (r: Vec<SimulationJobId>)
        ensures
            final(self).jobs@ == pruned(old(self).jobs@, max_retained as nat),
            final(self).next_job == old(self).next_job,
            r@ == dropped_names(old(self).jobs@, max_retained as nat),
    {
        let mut dropped: Vec<SimulationJobId> = Vec::new();
        let mut open: bool = true;
        assert(Seq::<SimulationJobId>::empty() + dropped_names(self.jobs@, max_retained as nat)
            =~= dropped_names(self.jobs@, max_retained as nat));
        while open && self.jobs.len() >= max_retained
            invariant
                pruned(old(self).jobs@, max_retained as nat) == pruned(
                    self.jobs@,
                    max_retained as nat,
                ),
                self.next_job == old(self).next_job,
                dropped_names(old(self).jobs@, max_retained as nat) == dropped@ + dropped_names(
                    self.jobs@,
                    max_retained as nat,
                ),
                !open ==> ended_place(self.jobs@, self.jobs@.len() as int) is None,
            decreases self.jobs@.len() + if open {
                1nat
            } else {
                0nat
            },
        {
            match self.find_ended() {
                None => {
                    open = false;
                },
                Some(i) => {
                    let ghost before = dropped@;
                    let ghost rest = dropped_names(self.jobs@.remove(i as int), max_retained as nat);
                    let job = self.jobs.remove(i);
                    assert(before + (seq![job.id] + rest) =~= before.push(job.id) + rest);
                    dropped.push(job.id);
                },
            }
        }
        assert(dropped@ + Seq::<SimulationJobId>::empty() =~= dropped@);
        dropped
    }

    fn place_job(&mut self, job: SimulationJobSnapshot)
        ensures
            final(self).jobs@ == with_job(old(self).jobs@, job),
            final(self).next_job == old(self).next_job,
    {
        let mut at: usize = 0;
        while at < self.jobs.len() && text_lt(self.jobs[at].id.as_str(), job.id.as_str())
            invariant
                at <= self.jobs@.len(),
                self.jobs@ == old(self).jobs@,
                self.next_job == old(self).next_job,
                forall|k: int| 0 <= k < at ==> text_before((#[trigger] self.jobs@[k]).id@, job.id@),
            decreases self.jobs@.len() - at,
        {
            at = at + 1;
        }
        proof {
            lemma_id_place(self.jobs@, job.id@);
            let place = id_place(self.jobs@, job.id@);
            if place < at {
                assert(text_before(self.jobs@[place].id@, job.id@));
            }
            if at < place {
                assert(text_before(self.jobs@[at as int].id@, job.id@));
            }
        }
        if at < self.jobs.len() && text_eq(self.jobs[at].id.as_str(), job.id.as_str()) {
            self.jobs.set(at, job);
        } else {
            self.jobs.insert(at, job);
        }
    }

    /// Takes in a new job, unless all that are kept are active. The names of the
    /// jobs that were dropped for it are given too.
    pub fn submit(&mut self, limits: &ServiceLimits) -> (r: (
        Result<SimulationJobId, ServiceError>,
        Vec<SimulationJobId>,
    ))
        ensures
            ({
                let kept = pruned(old(self).jobs@, limits.max_retained_jobs as nat);
                let number = old(self).next_job;
                &&& r.0 is Err <==> active_count(old(self).jobs@) >= limits.max_retained_jobs
                &&& r.1@ == dropped_names(old(self).jobs@, limits.max_retained_jobs as nat)
                &&& final(self).next_job == (if number == u64::MAX {
                    0
                } else {
                    (number + 1) as u64
                })
                &&& if kept.len() >= limits.max_retained_jobs {
                    &&& final(self).jobs@ == kept
                    &&& r.0 matches Err(e) && e@ == report(
                        "service_queue_full"@,
                        "all retained service job slots are occupied by active work"@,
                    )
                } else {
                    &&& r.0 matches Ok(id) && exists|job: SimulationJobSnapshot|
                        is_fresh(job, number) && id == job.id && #[trigger] with_job(kept, job)
                            == final(self).jobs@
                }
            }),
    {
        let number: u64 = self.next_job;
        self.next_job = number.wrapping_add(1);
        let name = cat2("sim-", padded_hex_text(number as u128, 16).as_str());
        proof {
            room_is_left_by_active_jobs(old(self).jobs@, limits.max_retained_jobs as nat);
        }
        let dropped = self.prune_terminal_jobs(limits.max_retained_jobs);
        if self.jobs.len() >= limits.max_retained_jobs {
            return (
                Err(
                    ServiceError::new(
                        "service_queue_full",
                        "all retained service job slots are occupied by active work",
                    ),
                ),
                dropped,
            );
        }
        let ghost kept = self.jobs@;
        let id = SimulationJobId(name);
        let job = SimulationJobSnapshot {
            id: id.clone(),
            status: SimulationJobStatus::Queued,
            result: None,
            error: None,
        };
        let ghost made = job;
        self.place_job(job);
        assert(is_fresh(made, number));
        assert(with_job(kept, made) == self.jobs@);
        (Ok(id), dropped)
    }

    /// The place of a job.
    pub fn find(&self, id: &SimulationJobId) -> (r: Option<usize>)
        ensures
            match (r, job_place(self.jobs@, id@, self.jobs@.len() as int)) {
                (Some(i), Some(k)) => i == k && i < self.jobs@.len(),
                (None, None) => true,
                _ => false,
            },
    {
        let jobs = &self.jobs;
        let mut i: usize = 0;
        while i < jobs.len()
            invariant
                i <= jobs@.len(),
                jobs@ == self.jobs@,
                job_place(jobs@, id@, i as int) is None,
            decreases jobs@.len() - i,
        {
            if text_eq(jobs[i].id.as_str(), id.as_str()) {
                proof {
                    lemma_job_place_stays(jobs@, id@, jobs@.len() as int, i + 1);
                }
                return Some(i);
            }
            i = i + 1;
        }
        None
    }

    pub fn get(&self, id: &SimulationJobId) -> (r: Result<&SimulationJobSnapshot, ServiceError>)
        ensures
            match (r, job_place(self.jobs@, id@, self.jobs@.len() as int)) {
                (Ok(job), Some(i)) => *job == self.jobs@[i],
                (Err(e), None) => e@ == unknown_job(),
                _ => false,
            },
    {
        match self.find(id) {
            None => Err(job_not_found()),
            Some(i) => Ok(&self.jobs[i]),
        }
    }

    /// Marks a job as being cancelled. The result says whether it was active, so
    /// that its work is to be stopped.
    pub fn cancel(&mut self, id: &SimulationJobId) -> (r: Result<bool, ServiceError>)
        ensures
            final(self).next_job == old(self).next_job,
            match (r, job_place(old(self).jobs@, id@, old(self).jobs@.len() as int)) {
                (Ok(active), Some(i)) => active == !old(self).jobs@[i].status.ended()
                    && final(self).jobs@ == old(self).jobs@.update(
                    i,
                    being_cancelled(old(self).jobs@[i]),
                ),
                (Err(e), None) => e@ == unknown_job() && final(self).jobs@ == old(self).jobs@,
                _ => false,
            },
    {
        match self.find(id) {
            None => Err(job_not_found()),
            Some(i) => {
                if self.jobs[i].status.is_terminal() {
                    assert(self.jobs@ =~= old(self).jobs@.update(i as int, old(self).jobs@[i as int]));
                    return Ok(false);
                }
                self.jobs[i].status = SimulationJobStatus::Cancelling;
                assert(self.jobs@ =~= old(self).jobs@.update(
                    i as int,
                    being_cancelled(old(self).jobs@[i as int]),
                ));
                Ok(true)
            },
        }
    }

    /// Notes the state of a job, if it is known.
    pub fn update_status(&mut self, id: &SimulationJobId, status: SimulationJobStatus) -> (r: bool)
        ensures
            final(self).next_job == old(self).next_job,
            match job_place(old(self).jobs@, id@, old(self).jobs@.len() as int) {
                Some(i) => r && final(self).jobs@ == old(self).jobs@.update(
                    i,
                    (SimulationJobSnapshot { status, ..old(self).jobs@[i] }),
                ),
                None => !r && final(self).jobs@ == old(self).jobs@,
            },
    {
        match self.find(id) {
            None => false,
            Some(i) => {
                self.jobs[i].status = status;
                assert(self.jobs@ =~= old(self).jobs@.update(
                    i as int,
                    (SimulationJobSnapshot { status, ..old(self).jobs@[i as int] }),
                ));
                true
            },
        }
    }

    /// Notes that a job was cancelled, if it is known.
    pub fn finish_cancelled(&mut self, id: &SimulationJobId) -> (r: bool)
        ensures
            final(self).next_job == old(self).next_job,
            match job_place(old(self).jobs@, id@, old(self).jobs@.len() as int) {
                Some(i) => r && final(self).jobs@ == old(self).jobs@.update(
                    i,
                    stopped(old(self).jobs@[i]),
                ),
                None => !r && final(self).jobs@ == old(self).jobs@,
            },
    {
        match self.find(id) {
            None => false,
            Some(i) => {
                let job = &mut self.jobs[i];
                job.status = SimulationJobStatus::Cancelled;
                job.result = None;
                job.error = None;
                assert(self.jobs@ =~= old(self).jobs@.update(
                    i as int,
                    stopped(old(self).jobs@[i as int]),
                ));
                true
            },
        }
    }

    /// Notes how the work on a job ended, if the job is known.
    pub fn finish(&mut self, id: &SimulationJobId, cancelled: bool, outcome: ServiceOutcome) -> (r:
        bool)
        ensures
            final(self).next_job == old(self).next_job,
            match job_place(old(self).jobs@, id@, old(self).jobs@.len() as int) {
                Some(i) => r && finished(
                    old(self).jobs@[i],
                    cancelled,
                    outcome,
                    final(self).jobs@[i],
                ) && final(self).jobs@ == old(self).jobs@.update(i, final(self).jobs@[i]),
                None => !r && final(self).jobs@ == old(self).jobs@,
            },
    {
        let at: usize = match self.find(id) {
            None => {
                return false;
            },
            Some(at) => at,
        };
        let stop = match &outcome {
            ServiceOutcome::Done(_) => cancelled,
            ServiceOutcome::Refused(error) => cancelled
                || crate::runtime::simulation_was_cancelled(error),
            ServiceOutcome::Lost(_) => false,
        };
        if stop {
            return self.finish_cancelled(id);
        }
        let ghost before = self.jobs@;
        let job = &mut self.jobs[at];
        match outcome {
            ServiceOutcome::Done(result) => {
                job.status = SimulationJobStatus::Succeeded;
                job.result = Some(result);
                job.error = None;
            },
            ServiceOutcome::Refused(error) => {
                job.status = SimulationJobStatus::Failed;
                job.result = None;
                job.error = Some(SimulationJobFailure::simulation(error));
            },
            ServiceOutcome::Lost(message) => {
                job.status = SimulationJobStatus::Failed;
                job.result = None;
                job.error = Some(SimulationJobFailure::worker(message.as_str()));
            },
        }
        assert(self.jobs@ =~= before.update(at as int, self.jobs@[at as int]));
        true
    }

    /// Ends a run. One that was to be cancelled when its work was over is
    /// cancelled, however the work ended.
    pub fn end_run(
        &mut self,
        id: &SimulationJobId,
        cancelled_by_then: bool,
        cancelled_now: bool,
        outcome: ServiceOutcome,
    ) -> (r: bool)
        ensures
            final(self).next_job == old(self).next_job,
            match job_place(old(self).jobs@, id@, old(self).jobs@.len() as int) {
                Some(i) => {
                    &&& r
                    &&& final(self).jobs@ == old(self).jobs@.update(i, final(self).jobs@[i])
                    &&& if cancelled_by_then {
                        final(self).jobs@[i] == stopped(old(self).jobs@[i])
                    } else {
                        finished(
                            old(self).jobs@[i],
                            cancelled_now,
                            outcome,
                            final(self).jobs@[i],
                        )
                    }
                },
                None => !r && final(self).jobs@ == old(self).jobs@,
            },
    {
        proof {
            lemma_job_place(self.jobs@, id@, self.jobs@.len() as int);
        }
        if cancelled_by_then {
            self.finish_cancelled(id)
        } else {
            self.finish(id, cancelled_now, outcome)
        }
    }
}

proof fn lemma_job_place(jobs: Seq<SimulationJobSnapshot>, id: Seq<char>, n: int)
    requires
        0 <= n <= jobs.len(),
    ensures
        job_place(jobs, id, n) matches Some(i) ==> 0 <= i < n,
    decreases n,
{
    if n > 0 {
        lemma_job_place(jobs, id, n - 1);
    }
}

/// A job that has ended stays as it is when it is cancelled, and cancelling an
/// active job twice is as cancelling it once.
pub proof fn cancelling_is_final(job: SimulationJobSnapshot)
    ensures
        job.status.ended() ==> being_cancelled(job) == job,
        being_cancelled(being_cancelled(job)) == being_cancelled(job),
        !job.status.ended() ==> being_cancelled(job).status == SimulationJobStatus::Cancelling,
{
}

/// The work on a job leaves it at its end, with a result exactly where it
/// succeeded and a failure exactly where it failed.
pub proof fn finished_jobs_are_at_their_end(
    job: SimulationJobSnapshot,
    cancelled: bool,
    outcome: ServiceOutcome,
    after: SimulationJobSnapshot,
)
    requires
        finished(job, cancelled, outcome, after),
    ensures
        after.status.ended(),
        after.id == job.id,
        after.result is Some <==> after.status == SimulationJobStatus::Succeeded,
        after.error is Some <==> after.status == SimulationJobStatus::Failed,
{
}

} // verus!
