//! How jobs end, and what a worker is started with.
use crate::engine::SimulationError;
use crate::runtime::{
    bytes_hex, byte_hex, claimed, limited_worker, settled, worker_arguments, Disposition,
    IsolatedProcessLimits, JobOutcome, RuntimeJobSnapshot, RuntimeJobStatus,
};
use crate::service::{
    finished, status_of, ServiceOutcome, SimulationJobSnapshot, SimulationJobStatus,
};
use crate::spelling::hex_value;
use crate::text::{concat_upto, decimal};
use crate::truth::mark;
use vstd::prelude::*;

verus! {

/// A failure of an engine, by its code and whether trying again may help.
pub open spec fn engine_failure(error: SimulationError, code: Seq<char>, retryable: bool) -> bool {
    error matches SimulationError::Engine { engine: _, error } && error@.code == code
        && error@.retryable == retryable
}

/// A result ends a job well and is kept for the next one that asks; a failure that may
/// pass is tried again while attempts are left, and ends the job badly otherwise; a job
/// that was to be stopped is cancelled, whatever came of it.
pub proof fn outcomes_decide_how_jobs_go_on(
    job: RuntimeJobSnapshot,
    stopped: bool,
    outcome: JobOutcome,
    max_attempts: u32,
    after: RuntimeJobSnapshot,
    way: Disposition,
    code: Seq<char>,
)
    requires
        settled(job, stopped, outcome, max_attempts, after, way),
    ensures
        stopped ==> after.status == RuntimeJobStatus::Cancelled && after.result is None && way
            == Disposition::Finish,
        !stopped ==> (outcome matches JobOutcome::Done(result) ==> after.status
            == RuntimeJobStatus::Succeeded && after.result == Some(result) && way
            == Disposition::FinishAndCache),
        !stopped ==> (outcome matches JobOutcome::Refused(error) ==> {
            &&& engine_failure(error, code, true) && job.attempts < max_attempts ==> after.status
                == RuntimeJobStatus::Queued && way == Disposition::Requeue
            &&& engine_failure(error, code, true) && job.attempts >= max_attempts && code
                != "execution_cancelled"@ ==> after.status == RuntimeJobStatus::Failed && way
                == Disposition::Finish
            &&& engine_failure(error, code, false) && code != "execution_cancelled"@
                ==> after.status == RuntimeJobStatus::Failed && way == Disposition::Finish
            &&& engine_failure(error, "execution_cancelled"@, false) ==> after.status
                == RuntimeJobStatus::Cancelled && way == Disposition::Finish
            &&& after.status == RuntimeJobStatus::Failed ==> (after.error matches Some(failure)
                && failure.code@ == error.spec_code() && failure.message@ == error.spec_text())
        }),
        !stopped && outcome is Lost ==> after.status == RuntimeJobStatus::Failed && way
            == Disposition::Finish,
{
}

/// Each time that a worker takes a job up counts as one attempt.
pub proof fn taking_up_counts_as_an_attempt(job: RuntimeJobSnapshot)
    requires
        job.attempts < u32::MAX,
    ensures
        claimed(job).attempts == job.attempts + 1,
        claimed(job).status == RuntimeJobStatus::Running,
        claimed(job).error is None,
        claimed(job).id == job.id,
{
}

/// A job of the service ends with the result that it gave, unless it was to be
/// cancelled by then.
pub proof fn outcomes_decide_how_service_jobs_end(
    job: SimulationJobSnapshot,
    cancelled: bool,
    outcome: ServiceOutcome,
    after: SimulationJobSnapshot,
    code: Seq<char>,
)
    requires
        finished(job, cancelled, outcome, after),
    ensures
        outcome matches ServiceOutcome::Done(result) ==> if cancelled {
            after.status == SimulationJobStatus::Cancelled && after.result is None
        } else {
            after.status == SimulationJobStatus::Succeeded && after.result == Some(result)
        },
        outcome matches ServiceOutcome::Refused(error) ==> {
            &&& cancelled ==> after.status == SimulationJobStatus::Cancelled
            &&& !cancelled && engine_failure(error, "execution_cancelled"@, false) ==> after.status
                == SimulationJobStatus::Cancelled
            &&& !cancelled && (engine_failure(error, code, true) || engine_failure(error, code, false))
                && code != "execution_cancelled"@ ==> after.status == SimulationJobStatus::Failed
            &&& after.status == SimulationJobStatus::Failed ==> (after.error matches Some(failure)
                && failure.code@ == error.spec_code() && failure.message@ == error.spec_text())
        },
        outcome is Lost ==> after.status == SimulationJobStatus::Failed,
{
}

/// A job that nobody knows is not found, a full queue asks for patience, and anything
/// else is a failure of the service.
pub proof fn refusals_have_their_status(code: Seq<char>)
    ensures
        code == "simulation_job_not_found"@ ==> status_of(code) == 404,
        code == "service_queue_full"@ ==> status_of(code) == 429,
        code != "simulation_job_not_found"@ && code != "service_queue_full"@ ==> status_of(code)
            == 500,
{
    reveal_strlit("simulation_job_not_found");
    reveal_strlit("service_queue_full");
    assert(mark("simulation_job_not_found"@) != mark("service_queue_full"@));
}

/// Two hexadecimal digits write one byte, and the digits of each byte stand behind
/// those of the bytes before it.
pub proof fn digits_write_the_bytes(bytes: Seq<u8>, i: int)
    requires
        0 <= i < bytes.len(),
    ensures
        bytes_hex(bytes).len() == 2 * bytes.len(),
        hex_value(bytes_hex(bytes).subrange(2 * i, 2 * i + 2)) == bytes[i],
{
    lemma_digits(bytes, bytes.len() as int);
    let pair = bytes_hex(bytes).subrange(2 * i, 2 * i + 2);
    assert(pair =~= byte_hex(bytes[i]));
    lemma_byte(bytes[i]);
}

proof fn lemma_digits(bytes: Seq<u8>, n: int)
    requires
        0 <= n <= bytes.len(),
    ensures
        ({
            let all = concat_upto(n, |i: int| byte_hex(bytes[i]));
            &&& all.len() == 2 * n
            &&& forall|i: int|
                0 <= i < n ==> all[2 * i] == byte_hex(#[trigger] bytes[i])[0] && all[2 * i + 1]
                    == byte_hex(bytes[i])[1]
        }),
    decreases n,
{
    if n > 0 {
        lemma_digits(bytes, n - 1);
        let f = |i: int| byte_hex(bytes[i]);
        let before = concat_upto(n - 1, f);
        let all = concat_upto(n, f);
        assert(all == before + byte_hex(bytes[n - 1]));
        assert forall|i: int| 0 <= i < n implies all[2 * i] == byte_hex(#[trigger] bytes[i])[0]
            && all[2 * i + 1] == byte_hex(bytes[i])[1] by {
            if i < n - 1 {
                assert(all[2 * i] == before[2 * i]);
                assert(all[2 * i + 1] == before[2 * i + 1]);
            }
        }
    }
}

proof fn lemma_byte(byte: u8)
    ensures
        hex_value(byte_hex(byte)) == byte,
{
    let s = byte_hex(byte);
    let t = s.drop_last();
    assert(t.drop_last() =~= Seq::<char>::empty());
    assert(hex_value(t.drop_last()) == 0);
    assert(hex_value(t) == byte / 16);
    assert(hex_value(s) == hex_value(t) * 16 + byte % 16);
}

/// A worker is started with each of its limits under the name of that limit, in front
/// of the program that they bind, and without the network.
pub proof fn workers_are_bound_by_their_limits(
    worker: Seq<char>,
    run_dir: Seq<char>,
    prlimit: Seq<char>,
    limits: IsolatedProcessLimits,
    present: Seq<bool>,
)
    ensures
        ({
            let all = worker_arguments(worker, run_dir, prlimit, limits, present);
            let count = all.len() as int;
            &&& all.contains("--unshare-net"@)
            &&& all.contains("--unshare-pid"@)
            &&& all.contains("--unshare-user"@)
            &&& all.contains("--clearenv"@)
            &&& count >= 12
            &&& all[count - 12] == prlimit
            &&& all[count - 11] == "--as="@ + decimal(limits.memory_bytes as nat)
            &&& all[count - 10] == "--cpu="@ + decimal(limits.cpu_seconds as nat)
            &&& all[count - 9] == "--nproc="@ + decimal(limits.max_processes as nat)
            &&& all[count - 8] == "--nofile="@ + decimal(limits.max_open_files as nat)
            &&& all[count - 7] == "--fsize="@ + decimal(limits.max_file_bytes as nat)
            &&& all[count - 6] == "--"@
            &&& all[count - 5] == "/worker/sim-worker"@
            &&& all[count - 4] == "--request"@
            &&& all[count - 3] == "/work/request.json"@
            &&& all[count - 2] == "--response"@
            &&& all[count - 1] == "/work/response.json"@
        }),
{
    let all = worker_arguments(worker, run_dir, prlimit, limits, present);
    let tail = limited_worker(prlimit, limits);
    let front = crate::runtime::isolation_arguments();
    let mounts = crate::runtime::mounts(present, 6);
    let around = crate::runtime::surroundings(worker, run_dir);
    assert(all[2] == front[2] && front[2] == "--unshare-user"@);
    assert(all[3] == front[3] && front[3] == "--unshare-pid"@);
    assert(all[6] == front[6] && front[6] == "--unshare-net"@);
    let place = front.len() + mounts.len() + 16;
    assert(all[place as int] == around[16] && around[16] == "--clearenv"@);
    assert forall|i: int| 0 <= i < 12 implies all[all.len() - 12 + i] == #[trigger] tail[i] by {}
    assert(tail[0] == prlimit);
}

} // verus!
