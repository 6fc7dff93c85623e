use ontologyx_sim_core::control::ExecutionPolicy;
use ontologyx_sim_core::engine::{EngineCapabilities, EngineDescriptor};
use ontologyx_sim_core::runtime::{
    answer_job, artifact_path, build_manifest, cancel_job, check_artifact, check_queue,
    check_recovery, check_worker_start, check_worker_wait, claim_job, command_arguments,
    describe_artifact, dropped_jobs, enforce_bytes, isolated_fingerprint, job_file, job_missing,
    new_job_id, recover_job, settle_job, sha256_hex, shown_log_bytes, simulator_fingerprint,
    sort_descriptors, submit_job, unpack_response, worker_exit_error, worker_simulation_error,
    Disposition, FoundWorker, JobOutcome, WorkerWatch,
};
use ontologyx_sim_core::service::{health, JobTable, ServiceOutcome};
use ontologyx_sim_core::{
    AnalysisKind, ContentAddressedStore, EngineError, EngineId, IsolatedProcessExecutor,
    IsolatedProcessLimits, ProductionRuntimeLimits,
    ReproducibilityManifest, RuntimeError, RuntimeJobId, RuntimeJobSnapshot, RuntimeJobStatus,
    ServiceError, ServiceLimits, SimulationError, SimulationJobId, SimulationJobStatus,
    SimulationResult, WorkerResponseEnvelope,
};

const ABC: &str = "ba7816bf8f01cfea414140de5dae2223b00361a396177a9cb410ff61f20015ad";
const EMPTY: &str = "e3b0c44298fc1c149afbf4c8996fb92427ae41e4649b934ca495991b7852b855";

fn descriptor(id: &str) -> EngineDescriptor {
    EngineDescriptor {
        id: EngineId::new(id),
        version: None,
        capabilities: EngineCapabilities {
            analog: false,
            digital: true,
            mixed_signal: false,
            analyses: vec![AnalysisKind::DigitalTransient],
        },
    }
}

fn manifest() -> ReproducibilityManifest {
    build_manifest(
        &b"abc".to_vec(),
        &Vec::new(),
        vec![descriptor("verilator"), descriptor("digital")],
        "simulator:x",
        &ExecutionPolicy::default(),
    )
    .unwrap()
}

fn result() -> SimulationResult {
    SimulationResult::new(
        EngineId::new("digital"),
        None,
        AnalysisKind::DigitalTransient,
        1,
        Vec::new(),
        Vec::new(),
    )
}

fn engine_failure(code: &str, retryable: bool) -> SimulationError {
    SimulationError::Engine {
        engine: EngineId::new("digital"),
        error: EngineError::new(code, "failed").retryable(retryable),
    }
}

fn running_job() -> RuntimeJobSnapshot {
    let mut job = submit_job(RuntimeJobId("sim-1".to_owned()), manifest(), None);
    assert_eq!(job.status, RuntimeJobStatus::Queued);
    claim_job(&mut job);
    job
}

#[test]
fn digests_are_those_of_sha_256() {
    assert_eq!(sha256_hex(&b"abc".to_vec()), ABC);
    assert_eq!(sha256_hex(&Vec::new()), EMPTY);
    assert_eq!(
        simulator_fingerprint(&b"abc".to_vec()),
        format!("simulator:{ABC}")
    );
}

#[test]
fn stored_artifacts_are_found_and_checked() {
    let bytes = b"abc".to_vec();
    let artifact = describe_artifact(&bytes);
    assert_eq!(artifact.sha256, ABC);
    assert_eq!(artifact.bytes, 3);
    assert_eq!(
        artifact_path(&artifact.sha256).unwrap(),
        ("ba".to_owned(), ABC.to_owned())
    );
    assert!(check_artifact(&artifact, &bytes).is_ok());
    assert_eq!(
        check_artifact(&artifact, &b"abd".to_vec()).unwrap_err().code,
        "runtime_artifact_corrupt"
    );
    assert_eq!(
        check_artifact(&artifact, &b"abcd".to_vec()).unwrap_err().code,
        "runtime_artifact_corrupt"
    );
    for bad in ["", "abc", &ABC.to_uppercase(), &format!("{}g", &ABC[..63])] {
        assert_eq!(
            artifact_path(bad).unwrap_err().code,
            "runtime_artifact_invalid"
        );
    }
}

#[test]
fn manifests_name_what_a_result_depends_on() {
    let made = manifest();
    assert_eq!(made.schema_version, 1);
    assert_eq!(made.request_sha256, ABC);
    assert_eq!(made.cache_key_sha256, EMPTY);
    assert_eq!(made.executor_fingerprint, "simulator:x");
    let ids: Vec<&str> = made.engine_descriptors.iter().map(|d| d.id.as_str()).collect();
    assert_eq!(ids, ["digital", "verilator"]);
    let error = build_manifest(
        &Vec::new(),
        &Vec::new(),
        Vec::new(),
        "  ",
        &ExecutionPolicy::default(),
    )
    .unwrap_err();
    assert_eq!(error.code, "runtime_reproducibility_invalid");
    assert_eq!(isolated_fingerprint("image-7").unwrap(), "isolated:image-7");
    assert_eq!(
        isolated_fingerprint("\t").unwrap_err().code,
        "runtime_isolation_invalid"
    );
}

#[test]
fn descriptors_are_sorted_and_none_is_lost() {
    let sorted = sort_descriptors(vec![
        descriptor("xspice"),
        descriptor("digital"),
        descriptor("ngspice"),
        descriptor("digital"),
    ]);
    let ids: Vec<&str> = sorted.iter().map(|d| d.id.as_str()).collect();
    assert_eq!(ids, ["digital", "digital", "ngspice", "xspice"]);
}

#[test]
fn runtime_limits_are_checked() {
    let good = ProductionRuntimeLimits::default();
    assert!(good.validate().is_ok());
    let cases = [
        ProductionRuntimeLimits {
            max_parallel_workers: 0,
            ..good
        },
        ProductionRuntimeLimits {
            max_queued_jobs: 0,
            ..good
        },
        ProductionRuntimeLimits {
            max_retained_terminal_jobs: 0,
            ..good
        },
        ProductionRuntimeLimits {
            max_attempts: 0,
            ..good
        },
        ProductionRuntimeLimits {
            execution_policy: ExecutionPolicy {
                poll_interval_ms: 0,
                ..good.execution_policy
            },
            ..good
        },
    ];
    for limits in cases {
        assert_eq!(limits.validate().unwrap_err().code, "runtime_config_invalid");
    }
    let hard = IsolatedProcessLimits::default();
    assert!(hard.validate().is_ok());
    let none = IsolatedProcessLimits {
        cpu_seconds: 0,
        ..hard
    };
    assert_eq!(none.validate().unwrap_err().code, "runtime_isolation_invalid");
}

#[test]
fn a_job_is_retried_until_its_attempts_run_out() {
    let limits = ProductionRuntimeLimits::default();
    let mut job = running_job();
    assert_eq!((job.status, job.attempts), (RuntimeJobStatus::Running, 1));
    let way = settle_job(
        &mut job,
        false,
        JobOutcome::Refused(engine_failure("execution_timeout", true)),
        &limits,
    );
    assert_eq!(way, Disposition::Requeue);
    assert_eq!(job.status, RuntimeJobStatus::Queued);
    assert_eq!(job.error.as_ref().unwrap().code, "engine_error");
    claim_job(&mut job);
    assert!(job.error.is_none());
    let way = settle_job(
        &mut job,
        false,
        JobOutcome::Refused(engine_failure("execution_timeout", true)),
        &limits,
    );
    assert_eq!(way, Disposition::Finish);
    assert_eq!((job.status, job.attempts), (RuntimeJobStatus::Failed, 2));
}

#[test]
fn jobs_end_as_their_work_did() {
    let limits = ProductionRuntimeLimits::default();
    let mut done = running_job();
    assert_eq!(
        settle_job(&mut done, false, JobOutcome::Done(result()), &limits),
        Disposition::FinishAndCache
    );
    assert_eq!(done.status, RuntimeJobStatus::Succeeded);
    assert!(done.result.is_some() && !done.cache_hit);

    let mut stopped = running_job();
    assert_eq!(
        settle_job(&mut stopped, true, JobOutcome::Done(result()), &limits),
        Disposition::Finish
    );
    assert_eq!(stopped.status, RuntimeJobStatus::Cancelled);
    assert!(stopped.result.is_none());

    let mut ended = running_job();
    settle_job(
        &mut ended,
        false,
        JobOutcome::Refused(engine_failure("execution_cancelled", false)),
        &limits,
    );
    assert_eq!(ended.status, RuntimeJobStatus::Cancelled);
    assert!(ended.error.is_none());

    let mut lost = running_job();
    settle_job(
        &mut lost,
        false,
        JobOutcome::Lost(RuntimeError::new("runtime_worker_failed", "gone")),
        &limits,
    );
    assert_eq!(lost.status, RuntimeJobStatus::Failed);
    assert_eq!(lost.error.unwrap().message, "gone");
}

#[test]
fn known_results_end_a_job_at_once() {
    let job = submit_job(RuntimeJobId("sim-2".to_owned()), manifest(), Some(result()));
    assert_eq!(job.status, RuntimeJobStatus::Succeeded);
    assert!(job.cache_hit && job.attempts == 0);
    let mut queued = running_job();
    answer_job(&mut queued, result());
    assert!(queued.cache_hit && queued.status.is_terminal());
}

#[test]
fn left_behind_and_cancelled_jobs() {
    let mut job = running_job();
    recover_job(&mut job);
    assert_eq!((job.status, job.attempts), (RuntimeJobStatus::Queued, 1));
    cancel_job(&mut job);
    assert_eq!(job.status, RuntimeJobStatus::Cancelled);
    assert!(check_recovery(&job.id, false).is_ok());
    assert_eq!(
        check_recovery(&job.id, true).unwrap_err().to_text(),
        "runtime_recovery_conflict: both queued and running state exist for `sim-1`"
    );
    assert_eq!(job_missing(&job.id).message, "runtime job `sim-1` was not found");
    assert_eq!(job_file(&job.id), "sim-1.json");
}

#[test]
fn queues_and_retention_are_bounded() {
    let limits = ProductionRuntimeLimits {
        max_queued_jobs: 2,
        max_retained_terminal_jobs: 3,
        ..ProductionRuntimeLimits::default()
    };
    assert!(check_queue(1, &limits).is_ok());
    assert_eq!(check_queue(2, &limits).unwrap_err().code, "runtime_queue_full");
    assert_eq!(dropped_jobs(3, &limits), 0);
    assert_eq!(dropped_jobs(8, &limits), 5);
    assert_eq!(
        enforce_bytes("response", 11, 10).unwrap_err().message,
        "response exceeded 10 bytes (observed 11)"
    );
    assert!(enforce_bytes("response", 11, 0).is_ok());
    assert_eq!(shown_log_bytes(0), 65536);
    assert_eq!(shown_log_bytes(100), 100);
}

#[test]
fn job_names_sort_by_time() {
    let first = new_job_id(0xff, ABC, 7);
    let second = new_job_id(0x100, EMPTY, 1);
    assert_eq!(
        first.as_str(),
        "sim-000000000000000000ff-ba7816bf8f01-0000000000000007"
    );
    assert!(first < second);
    assert_eq!(
        new_job_id(0, "short", 0).as_str(),
        "sim-00000000000000000000-short-0000000000000000"
    );
    assert_eq!(
        new_job_id(0, "elevenbytes\u{e9}more", 0).as_str(),
        "sim-00000000000000000000-elevenbytes\u{e9}more-0000000000000000"
    );
    assert_eq!(
        new_job_id(0, "ten-bytes-\u{e9}more", 0).as_str(),
        "sim-00000000000000000000-ten-bytes-\u{e9}-0000000000000000"
    );
}

#[test]
fn workers_are_set_apart() {
    let limits = IsolatedProcessLimits::default();
    let args = command_arguments(
        "/opt/worker",
        "/runtime-job",
        "/usr/bin/prlimit",
        &limits,
        &vec![true, false, false, false, true, false],
    );
    let line = args.join(" ");
    assert!(line.starts_with("--die-with-parent --new-session --unshare-user --unshare-pid --unshare-ipc --unshare-uts --unshare-net --ro-bind /usr /usr --ro-bind /bin /bin --ro-bind /etc /etc --proc /proc"));
    assert!(line.contains("--ro-bind /opt/worker /worker/sim-worker --bind /runtime-job /work --chdir /work --clearenv"));
    assert!(line.contains("/usr/bin/prlimit --as=1073741824 --cpu=120 --nproc=128 --nofile=256 --fsize=268435456 -- /worker/sim-worker --request /work/request.json --response /work/response.json"));
    assert!(!line.contains("/sbin"));
}

#[test]
fn workers_are_watched() {
    let policy = ExecutionPolicy {
        timeout_ms: 100,
        max_log_bytes: 10,
        ..ExecutionPolicy::default()
    };
    assert!(matches!(check_worker_start(&policy, false), WorkerWatch::Go));
    assert!(matches!(check_worker_start(&policy, true), WorkerWatch::Stop(_)));
    let bad = ExecutionPolicy {
        poll_interval_ms: 0,
        ..policy
    };
    let WorkerWatch::GiveUp(error) = check_worker_start(&bad, false) else {
        panic!("expected a refusal");
    };
    assert_eq!(error.code, "runtime_execution_policy_invalid");
    assert!(matches!(check_worker_wait(&policy, false, 99, 10), WorkerWatch::Go));
    let WorkerWatch::Stop(SimulationError::Engine { engine, error }) =
        check_worker_wait(&policy, false, 100, 0)
    else {
        panic!("expected a timeout");
    };
    assert_eq!(engine.as_str(), "isolated-worker");
    assert!(error.is_timeout() && error.is_retryable());
    let WorkerWatch::GiveUp(error) = check_worker_wait(&policy, false, 0, 11) else {
        panic!("expected a limit");
    };
    assert_eq!(error.code, "runtime_resource_limit");
    assert_eq!(
        worker_exit_error("exit status: 1", "boom").message,
        "isolated worker exited with exit status: 1: boom"
    );
    let SimulationError::Engine { error, .. } = worker_simulation_error(&error) else {
        panic!("expected an engine failure");
    };
    assert!(error.is_retryable());
}

#[test]
fn worker_answers_are_read_back() {
    let answer = WorkerResponseEnvelope::from_result(Ok(result()));
    assert!(unpack_response(answer).unwrap().is_ok());
    let answer = WorkerResponseEnvelope::from_result(Err(engine_failure("x", false)));
    assert!(unpack_response(answer).unwrap().is_err());
    let empty = WorkerResponseEnvelope {
        result: None,
        error: None,
    };
    assert_eq!(
        unpack_response(empty).unwrap_err().code,
        "runtime_worker_protocol_invalid"
    );
}

fn small_service() -> ServiceLimits {
    ServiceLimits {
        max_retained_jobs: 2,
        max_concurrent_jobs: 1,
        ..ServiceLimits::default()
    }
}

#[test]
fn service_limits_are_checked() {
    let good = ServiceLimits::default();
    assert!(good.validate().is_ok());
    for limits in [
        ServiceLimits {
            max_retained_jobs: 0,
            ..good
        },
        ServiceLimits {
            max_concurrent_jobs: 257,
            ..good
        },
        ServiceLimits {
            max_request_bytes: 0,
            ..good
        },
    ] {
        let error = limits.validate().unwrap_err();
        assert_eq!(error.code, "service_config_invalid");
        assert_eq!(error.status(), 500);
    }
}

#[test]
fn active_jobs_hold_their_places() {
    let limits = small_service();
    let mut table = JobTable::new();
    let first = table.submit(&limits).0.unwrap();
    assert_eq!(first.as_str(), "sim-0000000000000001");
    let second = table.submit(&limits).0.unwrap();
    let (refused, dropped) = table.submit(&limits);
    let error = refused.unwrap_err();
    assert_eq!((error.code.as_str(), error.status()), ("service_queue_full", 429));
    assert!(dropped.is_empty());

    assert!(table.update_status(&second, SimulationJobStatus::Running));
    assert!(table.finish(&second, false, ServiceOutcome::Done(result())));
    let (third, dropped) = table.submit(&limits);
    assert_eq!(third.unwrap().as_str(), "sim-0000000000000004");
    assert_eq!(dropped, vec![second.clone()]);
    assert!(table.get(&first).is_ok());
    let error = table.get(&second).unwrap_err();
    assert_eq!((error.code.as_str(), error.status()), ("simulation_job_not_found", 404));
}

#[test]
fn jobs_of_the_service_end_once() {
    let limits = small_service();
    let mut table = JobTable::new();
    let id = table.submit(&limits).0.unwrap();
    assert!(table.cancel(&id).unwrap());
    assert_eq!(table.get(&id).unwrap().status, SimulationJobStatus::Cancelling);
    assert!(table.end_run(&id, false, true, ServiceOutcome::Done(result())));
    assert_eq!(table.get(&id).unwrap().status, SimulationJobStatus::Cancelled);
    assert!(!table.cancel(&id).unwrap());
    assert_eq!(table.get(&id).unwrap().status, SimulationJobStatus::Cancelled);

    let other = table.submit(&limits).0.unwrap();
    table.end_run(
        &other,
        false,
        false,
        ServiceOutcome::Refused(engine_failure("x", false)),
    );
    let job = table.get(&other).unwrap();
    assert_eq!(job.status, SimulationJobStatus::Failed);
    assert_eq!(
        job.error.as_ref().unwrap().message,
        "engine `digital` failed: x: failed"
    );
    let unknown = SimulationJobId("sim-x".to_owned());
    assert_eq!(table.cancel(&unknown).unwrap_err().code, "simulation_job_not_found");
    assert!(!table.end_run(&unknown, true, true, ServiceOutcome::Lost("gone".to_owned())));
}

#[test]
fn lost_workers_fail_their_job() {
    let limits = small_service();
    let mut table = JobTable::new();
    let id = table.submit(&limits).0.unwrap();
    table.end_run(&id, false, true, ServiceOutcome::Lost("gate closed".to_owned()));
    let job = table.get(&id).unwrap();
    assert_eq!(job.status, SimulationJobStatus::Failed);
    assert_eq!(job.error.as_ref().unwrap().code, "service_worker_failed");
    assert_eq!(
        ServiceError::new("a", "b").to_text(),
        "a: b"
    );
}

#[test]
fn isolated_executors_need_their_programs() {
    let made = |worker: FoundWorker, bubblewrap: Option<&str>, prlimit: Option<&str>, image: &str| {
        IsolatedProcessExecutor::new(
            worker,
            vec![descriptor("verilator"), descriptor("digital")],
            image,
            IsolatedProcessLimits::default(),
            bubblewrap.map(str::to_owned),
            prlimit.map(str::to_owned),
        )
    };
    let file = || FoundWorker::File("/opt/worker".to_owned());
    let there = Some("/usr/bin/tool");
    let error = made(
        FoundWorker::Unresolved("no such file".to_owned()),
        there,
        there,
        "image",
    )
    .unwrap_err();
    assert_eq!(error.code, "runtime_worker_unavailable");
    assert_eq!(
        error.message,
        "could not resolve isolated worker executable: no such file"
    );
    assert_eq!(
        made(FoundWorker::NotAFile, there, there, "image")
            .unwrap_err()
            .code,
        "runtime_worker_unavailable"
    );
    assert_eq!(
        made(file(), None, there, "image").unwrap_err().code,
        "runtime_isolation_unavailable"
    );
    assert_eq!(
        made(file(), there, None, "image").unwrap_err().code,
        "runtime_isolation_unavailable"
    );
    assert_eq!(
        made(file(), there, there, " ").unwrap_err().code,
        "runtime_isolation_invalid"
    );
    let executor = made(file(), there, there, "image").unwrap();
    assert_eq!(executor.fingerprint, "isolated:image");
    assert_eq!(executor.descriptors[0].id.as_str(), "digital");
    let present = vec![false; 6];
    assert_eq!(
        executor.isolation_command_preview(&present),
        executor.arguments("/runtime-job", &present)
    );
    assert_eq!(
        executor.arguments("/runtime-job", &present),
        command_arguments(
            "/opt/worker",
            "/runtime-job",
            "/usr/bin/tool",
            &executor.limits,
            &present
        )
    );
}

#[test]
fn stores_name_their_content() {
    let store = ContentAddressedStore::new("/var/store");
    assert_eq!(
        store.path_for(ABC).unwrap(),
        ("/var/store".to_owned(), "ba".to_owned(), ABC.to_owned())
    );
    assert_eq!(
        store.path_for("../etc").unwrap_err().code,
        "runtime_artifact_invalid"
    );
    assert_eq!(health().status, "ok");
    assert_eq!(health().version, ontologyx_sim_core::VERSION);
}

#[test]
fn dropped_jobs_are_named() {
    let mut table = JobTable::new();
    let limits = ServiceLimits {
        max_retained_jobs: 2,
        max_concurrent_jobs: 1,
        ..ServiceLimits::default()
    };
    let first = table.submit(&limits).0.unwrap();
    let second = table.submit(&limits).0.unwrap();
    assert_eq!(
        table.submit(&limits).0.unwrap_err().code,
        "service_queue_full"
    );
    assert!(table.finish_cancelled(&second));
    let (third, dropped) = table.submit(&limits);
    assert!(third.is_ok());
    assert_eq!(dropped, vec![second]);
    assert!(table.get(&first).is_ok());
}
