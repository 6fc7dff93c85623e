//! Durable, parallel, reproducible simulation jobs.
//!
//! The filesystem is the durable queue and content store: atomic
//! same-filesystem renames provide claim/recovery semantics without embedding a
//! second server. Here stands what is decided of a job, a manifest, an artifact
//! and a worker; the files, tasks and processes are kept elsewhere.
use crate::control::{default_policy, ExecutionPolicy};
use crate::engine::{EngineDescriptor, SimulationError, SimulationRequest};
use crate::fault::{EngineError, Fault};
use crate::text::{
    blank, cat2, cat3, cat6, concat_upto, decimal, decimal_text, hex_char, hex_digit, hexadecimal,
    is_blank, padded_hex, padded_hex_text, slice_text, text_before, text_eq, text_lt, texts,
    to_chars,
};
use crate::waveform::{EngineId, SimulationResult, VERSION};
use sha2::{Digest, Sha256};
use vstd::prelude::*;

verus! {

pub const RUNTIME_MANIFEST_SCHEMA_VERSION: u16 = 1;

pub const DEFAULT_MAX_PARALLEL_WORKERS: usize = 4;

pub const DEFAULT_MAX_QUEUED_JOBS: usize = 512;

pub const DEFAULT_MAX_RETAINED_TERMINAL_JOBS: usize = 1024;

pub const DEFAULT_MAX_ATTEMPTS: u32 = 2;

pub const DEFAULT_WORKER_MEMORY_BYTES: u64 = 1024 * 1024 * 1024;

pub const DEFAULT_WORKER_CPU_SECONDS: u64 = 120;

pub const DEFAULT_WORKER_PROCESSES: u64 = 128;

pub const DEFAULT_WORKER_OPEN_FILES: u64 = 256;

pub const DEFAULT_WORKER_FILE_BYTES: u64 = 256 * 1024 * 1024;

/// A failure of the runtime itself.
#[derive(Clone, Debug, PartialEq, Eq)]
pub struct RuntimeError {
    pub code: String,
    pub message: String,
}

/// What a failure says: a code and a message.
pub struct Report {
    pub code: Seq<char>,
    pub message: Seq<char>,
}

pub open spec fn report(code: Seq<char>, message: Seq<char>) -> Report {
    Report { code, message }
}

impl View for RuntimeError {
    type V = Report;

    open spec fn view(&self) -> Report {
        Report { code: self.code@, message: self.message@ }
    }
}

impl RuntimeError {
    pub fn new(code: &str, message: &str) -> (r: Self)
        ensures
            r@ == report(code@, message@),
    {
        RuntimeError { code: code.to_owned(), message: message.to_owned() }
    }

    /// The code and the message, for a reader.
    pub fn to_text(&self) -> (r: String)
        ensures
            r@ == self@.code + ": "@ + self@.message,
    {
        cat3(self.code.as_str(), ": ", self.message.as_str())
    }
}

/// Whether a check ends as its model says.
pub open spec fn clears(r: Result<(), RuntimeError>, failure: Option<Report>) -> bool {
    match (r, failure) {
        (Ok(_), None) => true,
        (Err(e), Some(f)) => e@ == f,
        _ => false,
    }
}

#[derive(Clone, Copy, Debug, PartialEq, Eq, Structural)]
pub struct ProductionRuntimeLimits {
    pub max_parallel_workers: usize,
    pub max_queued_jobs: usize,
    pub max_retained_terminal_jobs: usize,
    pub max_attempts: u32,
    pub execution_policy: ExecutionPolicy,
}

impl Default for ProductionRuntimeLimits {
    fn default() -> (r: Self)
        ensures
            r == (ProductionRuntimeLimits {
                max_parallel_workers: DEFAULT_MAX_PARALLEL_WORKERS,
                max_queued_jobs: DEFAULT_MAX_QUEUED_JOBS,
                max_retained_terminal_jobs: DEFAULT_MAX_RETAINED_TERMINAL_JOBS,
                max_attempts: DEFAULT_MAX_ATTEMPTS,
                execution_policy: default_policy(),
            }),
    {
        ProductionRuntimeLimits {
            max_parallel_workers: DEFAULT_MAX_PARALLEL_WORKERS,
            max_queued_jobs: DEFAULT_MAX_QUEUED_JOBS,
            max_retained_terminal_jobs: DEFAULT_MAX_RETAINED_TERMINAL_JOBS,
            max_attempts: DEFAULT_MAX_ATTEMPTS,
            execution_policy: ExecutionPolicy::default(),
        }
    }
}

impl ProductionRuntimeLimits {
    /// What is wrong with the limits, if anything.
    pub open spec fn failure(self) -> Option<Report> {
        let code = "runtime_config_invalid"@;
        if self.max_parallel_workers == 0 {
            Some(report(code, "max_parallel_workers must be greater than zero"@))
        } else if self.max_queued_jobs == 0 {
            Some(report(code, "max_queued_jobs must be greater than zero"@))
        } else if self.max_retained_terminal_jobs == 0 {
            Some(report(code, "max_retained_terminal_jobs must be greater than zero"@))
        } else if self.max_attempts == 0 {
            Some(report(code, "max_attempts must be greater than zero"@))
        } else {
            match self.execution_policy.failure() {
                Some(f) => Some(report(code, f.message)),
                None => None,
            }
        }
    }

    pub fn validate(&self) -> (r: Result<(), RuntimeError>)
        ensures
            clears(r, self.failure()),
    {
        let code = "runtime_config_invalid";
        if self.max_parallel_workers == 0 {
            return Err(
                RuntimeError::new(code, "max_parallel_workers must be greater than zero"),
            );
        }
        if self.max_queued_jobs == 0 {
            return Err(RuntimeError::new(code, "max_queued_jobs must be greater than zero"));
        }
        if self.max_retained_terminal_jobs == 0 {
            return Err(
                RuntimeError::new(code, "max_retained_terminal_jobs must be greater than zero"),
            );
        }
        if self.max_attempts == 0 {
            return Err(RuntimeError::new(code, "max_attempts must be greater than zero"));
        }
        match self.execution_policy.validate() {
            Err(e) => Err(RuntimeError::new(code, e.message())),
            Ok(_) => Ok(()),
        }
    }
}

/// The name of a job.
#[derive(Debug, PartialEq, Eq, PartialOrd, Ord, Hash)]
pub struct RuntimeJobId(pub String);

impl View for RuntimeJobId {
    type V = Seq<char>;

    open spec fn view(&self) -> Seq<char> {
        self.0@
    }
}

impl Clone for RuntimeJobId {
    fn clone(&self) -> (r: Self)
        ensures
            r == *self,
    {
        RuntimeJobId(self.0.clone())
    }
}

impl RuntimeJobId {
    pub fn as_str(&self) -> (r: &str)
        ensures
            r@ == self@,
    {
        self.0.as_str()
    }
}

#[derive(Clone, Copy, Debug, PartialEq, Eq, Structural)]
pub enum RuntimeJobStatus {
    Queued,
    Running,
    Succeeded,
    Failed,
    Cancelled,
}

impl RuntimeJobStatus {
    /// Whether a job has come to its end.
    pub open spec fn ended(self) -> bool {
        self == RuntimeJobStatus::Succeeded || self == RuntimeJobStatus::Failed || self
            == RuntimeJobStatus::Cancelled
    }

    pub fn is_terminal(self) -> (r: bool)
        ensures
            r == self.ended(),
    {
        match self {
            RuntimeJobStatus::Succeeded | RuntimeJobStatus::Failed
            | RuntimeJobStatus::Cancelled => true,
            _ => false,
        }
    }
}

/// What a result depends on.
#[derive(Clone, Debug, PartialEq, Eq)]
pub struct ReproducibilityManifest {
    pub schema_version: u16,
    pub core_version: String,
    pub request_sha256: String,
    pub cache_key_sha256: String,
    pub executor_fingerprint: String,
    pub engine_descriptors: Vec<EngineDescriptor>,
    pub execution_policy: ExecutionPolicy,
}

/// Why a job failed.
#[derive(Clone, Debug, PartialEq, Eq)]
pub struct RuntimeJobFailure {
    pub code: String,
    pub message: String,
    pub simulation: Option<SimulationError>,
}

/// A simulation that an engine ended because it was cancelled.
pub open spec fn was_cancelled(error: SimulationError) -> bool {
    match error {
        SimulationError::Engine { engine: _, error } => error@.code == "execution_cancelled"@,
        _ => false,
    }
}

/// A simulation that may do better another time.
pub open spec fn may_retry(error: SimulationError) -> bool {
    match error {
        SimulationError::Engine { engine: _, error } => error@.retryable,
        _ => false,
    }
}

pub fn simulation_was_cancelled(error: &SimulationError) -> (r: bool)
    ensures
        r == was_cancelled(*error),
{
    match error {
        SimulationError::Engine { engine: _, error } => error.is_cancelled(),
        _ => false,
    }
}

impl RuntimeJobFailure {
    /// A failure of the simulation.
    pub open spec fn is_of(self, error: SimulationError) -> bool {
        &&& self.code@ == error.spec_code()
        &&& self.message@ == error.spec_text()
        &&& self.simulation == Some(error)
    }

    pub fn simulation(error: SimulationError) -> (r: Self)
        ensures
            r.is_of(error),
    {
        RuntimeJobFailure {
            code: error.code().to_owned(),
            message: error.to_text(),
            simulation: Some(error),
        }
    }

    pub fn infrastructure(error: RuntimeError) -> (r: Self)
        ensures
            r == (RuntimeJobFailure {
                code: error.code,
                message: error.message,
                simulation: None,
            }),
    {
        RuntimeJobFailure { code: error.code, message: error.message, simulation: None }
    }

    pub fn retryable(&self) -> (r: bool)
        ensures
            r == match self.simulation {
                Some(error) => may_retry(error),
                None => false,
            },
    {
        match &self.simulation {
            Some(SimulationError::Engine { engine: _, error }) => error.is_retryable(),
            _ => false,
        }
    }
}

/// What is known of a job.
#[derive(Clone, Debug, PartialEq, Eq)]
pub struct RuntimeJobSnapshot {
    pub id: RuntimeJobId,
    pub status: RuntimeJobStatus,
    pub attempts: u32,
    pub cache_hit: bool,
    pub manifest: ReproducibilityManifest,
    pub result: Option<SimulationResult>,
    pub error: Option<RuntimeJobFailure>,
}

/// A job as it is kept.
#[derive(Clone, Debug, PartialEq, Eq)]
pub struct StoredJob {
    pub snapshot: RuntimeJobSnapshot,
    pub request: SimulationRequest,
}

/// Hard limits on a worker process.
#[derive(Clone, Copy, Debug, PartialEq, Eq, Structural)]
pub struct IsolatedProcessLimits {
    pub memory_bytes: u64,
    pub cpu_seconds: u64,
    pub max_processes: u64,
    pub max_open_files: u64,
    pub max_file_bytes: u64,
}

impl Default for IsolatedProcessLimits {
    fn default() -> (r: Self)
        ensures
            r == (IsolatedProcessLimits {
                memory_bytes: DEFAULT_WORKER_MEMORY_BYTES,
                cpu_seconds: DEFAULT_WORKER_CPU_SECONDS,
                max_processes: DEFAULT_WORKER_PROCESSES,
                max_open_files: DEFAULT_WORKER_OPEN_FILES,
                max_file_bytes: DEFAULT_WORKER_FILE_BYTES,
            }),
    {
        IsolatedProcessLimits {
            memory_bytes: DEFAULT_WORKER_MEMORY_BYTES,
            cpu_seconds: DEFAULT_WORKER_CPU_SECONDS,
            max_processes: DEFAULT_WORKER_PROCESSES,
            max_open_files: DEFAULT_WORKER_OPEN_FILES,
            max_file_bytes: DEFAULT_WORKER_FILE_BYTES,
        }
    }
}

impl IsolatedProcessLimits {
    /// What is wrong with the limits, if anything.
    pub open spec fn failure(self) -> Option<Report> {
        if self.memory_bytes == 0 || self.cpu_seconds == 0 || self.max_processes == 0
            || self.max_open_files == 0 || self.max_file_bytes == 0 {
            Some(
                report(
                    "runtime_isolation_invalid"@,
                    "all hard worker limits must be greater than zero"@,
                ),
            )
        } else {
            None
        }
    }

    pub fn validate(&self) -> (r: Result<(), RuntimeError>)
        ensures
            clears(r, self.failure()),
    {
        if self.memory_bytes == 0 || self.cpu_seconds == 0 || self.max_processes == 0
            || self.max_open_files == 0 || self.max_file_bytes == 0 {
            return Err(
                RuntimeError::new(
                    "runtime_isolation_invalid",
                    "all hard worker limits must be greater than zero",
                ),
            );
        }
        Ok(())
    }
}

/// What `sha2::Sha256::digest` gives for some bytes.
pub uninterp spec fn sha256_of(bytes: Seq<u8>) -> Seq<u8>;

/// `sha2::Sha256::digest` hashes bytes. Its result depends on the bytes alone
/// and is thirty-two bytes long.
#[verifier::external_body]
fn sha256(bytes: &Vec<u8>) -> (r: Vec<u8>)
    ensures
        r@ == sha256_of(bytes@),
        r@.len() == 32,
{
    Sha256::digest(bytes.as_slice()).to_vec()
}

/// A byte in two lower case hexadecimal digits.
pub open spec fn byte_hex(byte: u8) -> Seq<char> {
    seq![hex_char((byte / 16) as nat), hex_char((byte % 16) as nat)]
}

/// Bytes in lower case hexadecimal digits.
pub open spec fn bytes_hex(bytes: Seq<u8>) -> Seq<char> {
    concat_upto(bytes.len() as int, |i: int| byte_hex(bytes[i]))
}

/// Bytes in lower case hexadecimal digits.
pub fn hex_of_bytes(bytes: &Vec<u8>) -> (r: String)
    ensures
        r@ == bytes_hex(bytes@),
{
    let ghost f = |i: int| byte_hex(bytes@[i]);
    let mut out = String::new();
    let mut i: usize = 0;
    assert(out@ =~= concat_upto(0, f));
    while i < bytes.len()
        invariant
            i <= bytes@.len(),
            f == (|i: int| byte_hex(bytes@[i])),
            out@ == concat_upto(i as int, f),
        decreases bytes@.len() - i,
    {
        let byte: u8 = bytes[i];
        let ghost before = out@;
        out.push(hex_digit((byte / 16) as u64));
        out.push(hex_digit((byte % 16) as u64));
        assert(out@ =~= before + f(i as int));
        i = i + 1;
    }
    out
}

/// The digest of bytes, in hexadecimal digits.
pub open spec fn digest_of(bytes: Seq<u8>) -> Seq<char> {
    bytes_hex(sha256_of(bytes))
}

pub fn sha256_hex(bytes: &Vec<u8>) -> (r: String)
    ensures
        r@ == digest_of(bytes@),
        is_digest(r@),
{
    let digest = sha256(bytes);
    proof {
        lemma_hex_is_lower(digest@, |i: int| byte_hex(digest@[i]), 32);
    }
    hex_of_bytes(&digest)
}

/// A lower case hexadecimal digit.
pub open spec fn is_lower_hex(c: char) -> bool {
    '0' <= c <= '9' || 'a' <= c <= 'f'
}

/// Sixty-four lower case hexadecimal digits.
pub open spec fn is_digest(s: Seq<char>) -> bool {
    s.len() == 64 && forall|i: int| 0 <= i < s.len() ==> is_lower_hex(#[trigger] s[i])
}

proof fn lemma_hex_is_lower(bytes: Seq<u8>, f: spec_fn(int) -> Seq<char>, n: int)
    requires
        0 <= n <= bytes.len(),
        f == (|i: int| byte_hex(bytes[i])),
    ensures
        concat_upto(n, f).len() == 2 * n,
        forall|k: int| 0 <= k < 2 * n ==> is_lower_hex(#[trigger] concat_upto(n, f)[k]),
    decreases n,
{
    if n > 0 {
        lemma_hex_is_lower(bytes, f, n - 1);
        let before = concat_upto(n - 1, f);
        let after = concat_upto(n, f);
        assert(after == before + f(n - 1));
        let byte = bytes[n - 1];
        assert(byte / 16 < 16 && byte % 16 < 16);
        assert forall|k: int| 0 <= k < 2 * n implies is_lower_hex(#[trigger] after[k]) by {
            if k < before.len() {
                assert(after[k] == before[k]);
            } else if k == before.len() {
                assert(after[k] == hex_char((byte / 16) as nat));
            } else {
                assert(after[k] == hex_char((byte % 16) as nat));
            }
        }
    }
}

/// A stored artifact: its digest and its size.
#[derive(Clone, Debug, PartialEq, Eq)]
pub struct ArtifactRef {
    pub sha256: String,
    pub bytes: u64,
}

fn digest_shaped(text: &str) -> (r: bool)
    ensures
        r == is_digest(text@),
{
    let v = to_chars(text);
    if v.len() != 64 {
        return false;
    }
    let mut i: usize = 0;
    while i < v.len()
        invariant
            i <= v@.len(),
            v@ == text@,
            forall|k: int| 0 <= k < i ==> is_lower_hex(#[trigger] text@[k]),
        decreases v@.len() - i,
    {
        let c = v[i];
        if !(('0' <= c && c <= '9') || ('a' <= c && c <= 'f')) {
            assert(!is_lower_hex(text@[i as int]));
            return false;
        }
        i = i + 1;
    }
    true
}

/// Where an artifact stands below the root of the store: in a directory named
/// by the first two digits of its digest.
pub fn artifact_path(digest: &str) -> (r: Result<(String, String), RuntimeError>)
    ensures
        match r {
            Ok(path) => is_digest(digest@) && path.0@ == digest@.take(2) && path.1@ == digest@,
            Err(e) => !is_digest(digest@) && e@ == report(
                "runtime_artifact_invalid"@,
                "artifact SHA-256 must be 64 lowercase hexadecimal characters"@,
            ),
        },
{
    if !digest_shaped(digest) {
        return Err(
            RuntimeError::new(
                "runtime_artifact_invalid",
                "artifact SHA-256 must be 64 lowercase hexadecimal characters",
            ),
        );
    }
    let v = to_chars(digest);
    let start = slice_text(&v, 0, 2);
    assert(start@ =~= digest@.take(2));
    Ok((start, digest.to_owned()))
}

/// A store that names its content by the digest.
#[derive(Clone, Debug, PartialEq, Eq)]
pub struct ContentAddressedStore {
    pub root: String,
}

impl ContentAddressedStore {
    pub fn new(root: &str) -> (r: Self)
        ensures
            r.root@ == root@,
    {
        ContentAddressedStore { root: root.to_owned() }
    }

    /// Where an artifact stands: the root, the directory below it, and the name.
    pub fn path_for(&self, digest: &str) -> (r: Result<(String, String, String), RuntimeError>)
        ensures
            match r {
                Ok(path) => is_digest(digest@) && path.0@ == self.root@ && path.1@
                    == digest@.take(2) && path.2@ == digest@,
                Err(e) => !is_digest(digest@) && e@ == report(
                    "runtime_artifact_invalid"@,
                    "artifact SHA-256 must be 64 lowercase hexadecimal characters"@,
                ),
            },
    {
        match artifact_path(digest) {
            Err(e) => Err(e),
            Ok((directory, name)) => Ok((self.root.clone(), directory, name)),
        }
    }
}

/// The artifact that some bytes are.
pub fn describe_artifact(bytes: &Vec<u8>) -> (r: ArtifactRef)
    ensures
        r.sha256@ == digest_of(bytes@),
        r.bytes == bytes@.len(),
        is_digest(r.sha256@),
{
    ArtifactRef { sha256: sha256_hex(bytes), bytes: bytes.len() as u64 }
}

/// Why bytes are not an artifact.
pub open spec fn artifact_failure(artifact: ArtifactRef, bytes: Seq<u8>) -> Option<Report> {
    if bytes.len() != artifact.bytes || digest_of(bytes) != artifact.sha256@ {
        Some(
            report(
                "runtime_artifact_corrupt"@,
                "content-addressed artifact did not match its recorded digest/size"@,
            ),
        )
    } else {
        None
    }
}

pub fn check_artifact(artifact: &ArtifactRef, bytes: &Vec<u8>) -> (r: Result<(), RuntimeError>)
    ensures
        clears(r, artifact_failure(*artifact, bytes@)),
{
    if bytes.len() as u64 != artifact.bytes || !text_eq(
        sha256_hex(bytes).as_str(),
        artifact.sha256.as_str(),
    ) {
        return Err(
            RuntimeError::new(
                "runtime_artifact_corrupt",
                "content-addressed artifact did not match its recorded digest/size",
            ),
        );
    }
    Ok(())
}

/// The bytes that an artifact was described from are accepted for it.
pub proof fn stored_artifacts_are_accepted(bytes: Seq<u8>, artifact: ArtifactRef)
    requires
        artifact.sha256@ == digest_of(bytes),
        artifact.bytes == bytes.len(),
    ensures
        artifact_failure(artifact, bytes) is None,
{
}

/// Why a resource is refused.
pub open spec fn bytes_failure(label: Seq<char>, observed: u64, limit: u64) -> Option<Report> {
    if limit != 0 && observed > limit {
        Some(
            report(
                "runtime_resource_limit"@,
                label + " exceeded "@ + decimal(limit as nat) + " bytes (observed "@ + decimal(
                    observed as nat,
                ) + ")"@,
            ),
        )
    } else {
        None
    }
}

pub fn enforce_bytes(label: &str, observed: u64, limit: u64) -> (r: Result<(), RuntimeError>)
    ensures
        clears(r, bytes_failure(label@, observed, limit)),
{
    if limit != 0 && observed > limit {
        let message = cat6(
            label,
            " exceeded ",
            decimal_text(limit).as_str(),
            " bytes (observed ",
            decimal_text(observed).as_str(),
            ")",
        );
        return Err(RuntimeError::new("runtime_resource_limit", message.as_str()));
    }
    Ok(())
}

/// How much of a worker log is shown.
pub fn shown_log_bytes(limit: u64) -> (r: u64)
    ensures
        r == if limit == 0 || limit > 65536 {
            65536
        } else {
            limit
        },
{
    if limit == 0 || limit > 65536 {
        65536
    } else {
        limit
    }
}

/// Descriptors with one more, behind those whose name is not after its name.
pub open spec fn with_descriptor(sorted: Seq<EngineDescriptor>, one: EngineDescriptor) -> Seq<
    EngineDescriptor,
>
    decreases sorted.len(),
{
    if sorted.len() > 0 && text_before(one.id@, sorted.last().id@) {
        with_descriptor(sorted.drop_last(), one).push(sorted.last())
    } else {
        sorted.push(one)
    }
}

/// The first `n` descriptors in the order of their names.
pub open spec fn sorted_descriptors(all: Seq<EngineDescriptor>, n: int) -> Seq<EngineDescriptor>
    decreases n,
{
    if n <= 0 {
        Seq::empty()
    } else {
        with_descriptor(sorted_descriptors(all, n - 1), all[n - 1])
    }
}

/// No name before that of an earlier descriptor.
pub open spec fn in_name_order(all: Seq<EngineDescriptor>) -> bool {
    forall|i: int, j: int|
        0 <= i < j < all.len() ==> !text_before(
            (#[trigger] all[j]).id@,
            (#[trigger] all[i]).id@,
        )
}

proof fn lemma_with_descriptor(sorted: Seq<EngineDescriptor>, one: EngineDescriptor)
    requires
        in_name_order(sorted),
    ensures
        in_name_order(with_descriptor(sorted, one)),
        with_descriptor(sorted, one).to_multiset() =~= sorted.to_multiset().insert(one),
        forall|i: int|
            0 <= i < with_descriptor(sorted, one).len() ==> (#[trigger] with_descriptor(
                sorted,
                one,
            )[i] == one || sorted.contains(with_descriptor(sorted, one)[i])),
    decreases sorted.len(),
{
    broadcast use vstd::seq_lib::group_to_multiset_ensures;

    let after = with_descriptor(sorted, one);
    if sorted.len() > 0 && text_before(one.id@, sorted.last().id@) {
        let rest = sorted.drop_last();
        let last = sorted.last();
        lemma_with_descriptor(rest, one);
        let before = with_descriptor(rest, one);
        assert(sorted =~= rest.push(last));
        assert forall|i: int| 0 <= i < after.len() implies (#[trigger] after[i] == one
            || sorted.contains(after[i])) by {
            if i < before.len() {
                assert(after[i] == before[i]);
                if before[i] != one {
                    let k = choose|k: int| 0 <= k < rest.len() && rest[k] == before[i];
                    assert(sorted[k] == before[i]);
                }
            } else {
                assert(after[i] == sorted[sorted.len() - 1]);
            }
        }
        assert forall|i: int, j: int| 0 <= i < j < after.len() implies !text_before(
            (#[trigger] after[j]).id@,
            (#[trigger] after[i]).id@,
        ) by {
            if j < before.len() {
                assert(after[i] == before[i] && after[j] == before[j]);
            } else {
                assert(after[j] == last);
                assert(after[i] == before[i]);
                if before[i] == one {
                    if text_before(last.id@, one.id@) {
                        crate::text::lemma_before_transitive(one.id@, last.id@, one.id@);
                        crate::text::lemma_before_irreflexive(one.id@);
                    }
                } else {
                    let k = choose|k: int| 0 <= k < rest.len() && rest[k] == before[i];
                    assert(sorted[k] == before[i]);
                    assert(sorted[sorted.len() - 1] == last);
                }
            }
        }
    } else {
        assert forall|i: int| 0 <= i < after.len() implies (#[trigger] after[i] == one
            || sorted.contains(after[i])) by {
            if i < sorted.len() {
                assert(after[i] == sorted[i]);
            }
        }
        assert forall|i: int, j: int| 0 <= i < j < after.len() implies !text_before(
            (#[trigger] after[j]).id@,
            (#[trigger] after[i]).id@,
        ) by {
            if j < sorted.len() {
                assert(after[i] == sorted[i] && after[j] == sorted[j]);
            } else {
                assert(after[i] == sorted[i]);
                let last = sorted.last();
                if i < sorted.len() - 1 && text_before(one.id@, sorted[i].id@) {
                    assert(!text_before(sorted[sorted.len() - 1].id@, sorted[i].id@));
                    crate::text::lemma_before_total(sorted[i].id@, last.id@);
                    if text_before(sorted[i].id@, last.id@) {
                        crate::text::lemma_before_transitive(
                            one.id@,
                            sorted[i].id@,
                            last.id@,
                        );
                    }
                }
            }
        }
    }
}

/// The descriptors of a manifest are those of the executor, in the order of
/// their names.
pub proof fn sorting_keeps_the_descriptors(all: Seq<EngineDescriptor>, n: int)
    requires
        0 <= n <= all.len(),
    ensures
        in_name_order(sorted_descriptors(all, n)),
        sorted_descriptors(all, n).to_multiset() =~= all.take(n).to_multiset(),
    decreases n,
{
    broadcast use vstd::seq_lib::group_to_multiset_ensures;

    if n > 0 {
        sorting_keeps_the_descriptors(all, n - 1);
        lemma_with_descriptor(sorted_descriptors(all, n - 1), all[n - 1]);
        assert(all.take(n) =~= all.take(n - 1).push(all[n - 1]));
    } else {
        assert(all.take(0) =~= Seq::<EngineDescriptor>::empty());
    }
}

fn place_descriptor(sorted: &mut Vec<EngineDescriptor>, one: EngineDescriptor)
    ensures
        final(sorted)@ == with_descriptor(old(sorted)@, one),
{
    let ghost start = sorted@;
    let mut at: usize = sorted.len();
    assert(start.take(at as int) =~= start);
    assert(with_descriptor(start, one) =~= with_descriptor(start.take(at as int), one)
        + start.skip(at as int));
    while at > 0 && text_lt(one.id.as_str(), sorted[at - 1].id.as_str())
        invariant
            at <= sorted@.len(),
            sorted@ == start,
            with_descriptor(start, one) == with_descriptor(start.take(at as int), one)
                + start.skip(at as int),
        decreases at,
    {
        let ghost part = start.take(at as int);
        assert(part.last() == start[at - 1]);
        assert(part.drop_last() =~= start.take(at - 1));
        assert(with_descriptor(start.take(at - 1), one).push(start[at - 1]) + start.skip(
            at as int,
        ) =~= with_descriptor(start.take(at - 1), one) + start.skip(at - 1));
        at = at - 1;
    }
    proof {
        let part = start.take(at as int);
        if at > 0 {
            assert(part.last() == start[at - 1]);
        }
        assert(with_descriptor(part, one) == part.push(one));
        assert(start.insert(at as int, one) =~= part.push(one) + start.skip(at as int));
    }
    sorted.insert(at, one);
}

pub fn sort_descriptors(all: Vec<EngineDescriptor>) -> (r: Vec<EngineDescriptor>)
    ensures
        r@ == sorted_descriptors(all@, all@.len() as int),
{
    let ghost given = all@;
    let mut rest = all;
    let mut out: Vec<EngineDescriptor> = Vec::new();
    let ghost mut n: int = 0;
    while rest.len() > 0
        invariant
            0 <= n <= given.len(),
            rest@ == given.skip(n),
            out@ == sorted_descriptors(given, n),
        decreases rest@.len(),
    {
        let one = rest.remove(0);
        assert(one == given[n]);
        place_descriptor(&mut out, one);
        proof {
            assert(rest@ =~= given.skip(n + 1));
            n = n + 1;
        }
    }
    out
}

/// Why a fingerprint is refused.
pub open spec fn fingerprint_failure(fingerprint: Seq<char>) -> Option<Report> {
    if is_blank(fingerprint) {
        Some(
            report(
                "runtime_reproducibility_invalid"@,
                "runtime executor fingerprint must not be empty"@,
            ),
        )
    } else {
        None
    }
}

/// What a result of a request depends on. `request_bytes` is the request as it
/// is stored; `cache_identity` is what the cache key is made of.
pub fn build_manifest(
    request_bytes: &Vec<u8>,
    cache_identity: &Vec<u8>,
    engine_descriptors: Vec<EngineDescriptor>,
    executor_fingerprint: &str,
    policy: &ExecutionPolicy,
) -> (r: Result<ReproducibilityManifest, RuntimeError>)
    ensures
        match r {
            Ok(m) => {
                &&& fingerprint_failure(executor_fingerprint@) is None
                &&& m.schema_version == RUNTIME_MANIFEST_SCHEMA_VERSION
                &&& m.core_version@ == VERSION@
                &&& m.request_sha256@ == digest_of(request_bytes@)
                &&& m.cache_key_sha256@ == digest_of(cache_identity@)
                &&& is_digest(m.cache_key_sha256@)
                &&& m.executor_fingerprint@ == executor_fingerprint@
                &&& m.engine_descriptors@ == sorted_descriptors(
                    engine_descriptors@,
                    engine_descriptors@.len() as int,
                )
                &&& m.execution_policy == *policy
            },
            Err(e) => fingerprint_failure(executor_fingerprint@) == Some(e@),
        },
{
    if blank(executor_fingerprint) {
        return Err(
            RuntimeError::new(
                "runtime_reproducibility_invalid",
                "runtime executor fingerprint must not be empty",
            ),
        );
    }
    Ok(
        ReproducibilityManifest {
            schema_version: RUNTIME_MANIFEST_SCHEMA_VERSION,
            core_version: VERSION.to_owned(),
            request_sha256: sha256_hex(request_bytes),
            cache_key_sha256: sha256_hex(cache_identity),
            executor_fingerprint: executor_fingerprint.to_owned(),
            engine_descriptors: sort_descriptors(engine_descriptors),
            execution_policy: *policy,
        },
    )
}

/// The fingerprint of an executor in this process, from what describes it.
pub fn simulator_fingerprint(description: &Vec<u8>) -> (r: String)
    ensures
        r@ == "simulator:"@ + digest_of(description@),
{
    cat2("simulator:", sha256_hex(description).as_str())
}

/// The fingerprint of an executor in worker processes.
pub fn isolated_fingerprint(toolchain_fingerprint: &str) -> (r: Result<String, RuntimeError>)
    ensures
        match r {
            Ok(text) => !is_blank(toolchain_fingerprint@) && text@ == "isolated:"@
                + toolchain_fingerprint@,
            Err(e) => is_blank(toolchain_fingerprint@) && e@ == report(
                "runtime_isolation_invalid"@,
                "toolchain_fingerprint must identify the immutable worker/toolchain image"@,
            ),
        },
{
    if blank(toolchain_fingerprint) {
        return Err(
            RuntimeError::new(
                "runtime_isolation_invalid",
                "toolchain_fingerprint must identify the immutable worker/toolchain image",
            ),
        );
    }
    Ok(cat2("isolated:", toolchain_fingerprint))
}

/// How many bytes a character takes.
pub open spec fn char_bytes(c: char) -> nat {
    if (c as u32) < 0x80 {
        1
    } else if (c as u32) < 0x800 {
        2
    } else if (c as u32) < 0x10000 {
        3
    } else {
        4
    }
}

/// How many bytes the first `n` characters take.
pub open spec fn first_bytes(s: Seq<char>, n: int) -> nat
    decreases n,
{
    if n <= 0 {
        0
    } else {
        first_bytes(s, n - 1) + char_bytes(s[n - 1])
    }
}

/// The first `n` characters take twelve bytes.
pub open spec fn key_ends(s: Seq<char>, n: int) -> bool {
    0 <= n <= s.len() && first_bytes(s, n) == 12
}

/// What a key begins with: its first twelve bytes, or all of it where no character
/// ends there.
pub open spec fn key_start(s: Seq<char>) -> Seq<char> {
    if exists|n: int| key_ends(s, n) {
        s.take(choose|n: int| key_ends(s, n))
    } else {
        s
    }
}

proof fn lemma_bytes_grow(s: Seq<char>, m: int, n: int)
    requires
        0 <= m < n,
    ensures
        first_bytes(s, m) < first_bytes(s, n),
    decreases n,
{
    if m < n - 1 {
        lemma_bytes_grow(s, m, n - 1);
    }
}

fn shorten_key(key: &str) -> (r: String)
    ensures
        r@ == key_start(key@),
{
    let v = to_chars(key);
    let mut total: usize = 0;
    let mut i: usize = 0;
    while i < v.len() && total < 12
        invariant
            i <= v@.len(),
            total == first_bytes(v@, i as int),
            total <= 15,
            forall|n: int| 0 <= n < i ==> #[trigger] first_bytes(v@, n) < 12,
        decreases v@.len() - i,
    {
        let c = v[i];
        let width: usize = if (c as u32) < 0x80 {
            1
        } else if (c as u32) < 0x800 {
            2
        } else if (c as u32) < 0x10000 {
            3
        } else {
            4
        };
        total = total + width;
        i = i + 1;
    }
    if total == 12 {
        proof {
            assert(key_ends(key@, i as int));
            let n = choose|n: int| key_ends(key@, n);
            if n < i {
                lemma_bytes_grow(key@, n, i as int);
            }
            if i < n {
                lemma_bytes_grow(key@, i as int, n);
            }
        }
        let start = slice_text(&v, 0, i);
        assert(start@ =~= key@.take(i as int));
        start
    } else {
        proof {
            assert forall|n: int| !key_ends(key@, n) by {
                if i < n && n <= key@.len() {
                    lemma_bytes_grow(key@, i as int, n);
                }
            }
        }
        key.to_owned()
    }
}

/// The name of a job.
pub open spec fn job_id_of(nanos: nat, cache_key: Seq<char>, counter: nat) -> Seq<char> {
    "sim-"@ + padded_hex(nanos, 20) + "-"@ + key_start(cache_key) + "-"@ + padded_hex(counter, 16)
}

/// The name of a new job: when it was made, what it is for and which it is.
pub fn new_job_id(nanos: u128, cache_key: &str, counter: u64) -> (r: RuntimeJobId)
    ensures
        r@ == job_id_of(nanos as nat, cache_key@, counter as nat),
{
    let key = shorten_key(cache_key);
    RuntimeJobId(
        cat6(
            "sim-",
            padded_hex_text(nanos, 20).as_str(),
            "-",
            key.as_str(),
            "-",
            padded_hex_text(counter as u128, 16).as_str(),
        ),
    )
}

/// The name of the file that holds a job.
pub fn job_file(id: &RuntimeJobId) -> (r: String)
    ensures
        r@ == id@ + ".json"@,
{
    cat2(id.as_str(), ".json")
}

/// Whether one more job may be queued.
pub fn check_queue(queued: usize, limits: &ProductionRuntimeLimits) -> (r: Result<
    (),
    RuntimeError,
>)
    ensures
        clears(
            r,
            if queued >= limits.max_queued_jobs {
                Some(report("runtime_queue_full"@, "durable simulation queue is full"@))
            } else {
                None
            },
        ),
{
    if queued >= limits.max_queued_jobs {
        return Err(RuntimeError::new("runtime_queue_full", "durable simulation queue is full"));
    }
    Ok(())
}

/// How many of the ended jobs are dropped, the oldest first.
pub fn dropped_jobs(ended: usize, limits: &ProductionRuntimeLimits) -> (r: usize)
    ensures
        r == if ended <= limits.max_retained_terminal_jobs {
            0
        } else {
            ended - limits.max_retained_terminal_jobs
        },
        ended - r <= limits.max_retained_terminal_jobs,
{
    if ended <= limits.max_retained_terminal_jobs {
        0
    } else {
        ended - limits.max_retained_terminal_jobs
    }
}

/// A job that was submitted: queued, or ended at once where its result is known.
pub open spec fn submitted(
    id: RuntimeJobId,
    manifest: ReproducibilityManifest,
    known: Option<SimulationResult>,
) -> RuntimeJobSnapshot {
    RuntimeJobSnapshot {
        id,
        status: if known is Some {
            RuntimeJobStatus::Succeeded
        } else {
            RuntimeJobStatus::Queued
        },
        attempts: 0,
        cache_hit: known is Some,
        manifest,
        result: known,
        error: None,
    }
}

pub fn submit_job(
    id: RuntimeJobId,
    manifest: ReproducibilityManifest,
    known: Option<SimulationResult>,
) -> (r: RuntimeJobSnapshot)
    ensures
        r == submitted(id, manifest, known),
{
    match known {
        Some(result) => RuntimeJobSnapshot {
            id,
            status: RuntimeJobStatus::Succeeded,
            attempts: 0,
            cache_hit: true,
            manifest,
            result: Some(result),
            error: None,
        },
        None => RuntimeJobSnapshot {
            id,
            status: RuntimeJobStatus::Queued,
            attempts: 0,
            cache_hit: false,
            manifest,
            result: None,
            error: None,
        },
    }
}

/// A job that a worker took up.
pub open spec fn claimed(job: RuntimeJobSnapshot) -> RuntimeJobSnapshot {
    RuntimeJobSnapshot {
        status: RuntimeJobStatus::Running,
        attempts: if job.attempts < u32::MAX {
            (job.attempts + 1) as u32
        } else {
            u32::MAX
        },
        error: None,
        ..job
    }
}

pub fn claim_job(job: &mut RuntimeJobSnapshot)
    ensures
        *final(job) == claimed(*old(job)),
{
    job.status = RuntimeJobStatus::Running;
    job.attempts = job.attempts.saturating_add(1);
    job.error = None;
}

/// A job that was cancelled.
pub open spec fn cancelled(job: RuntimeJobSnapshot) -> RuntimeJobSnapshot {
    RuntimeJobSnapshot { status: RuntimeJobStatus::Cancelled, result: None, error: None, ..job }
}

pub fn cancel_job(job: &mut RuntimeJobSnapshot)
    ensures
        *final(job) == cancelled(*old(job)),
{
    job.status = RuntimeJobStatus::Cancelled;
    job.result = None;
    job.error = None;
}

/// A job that a worker left behind.
pub open spec fn recovered(job: RuntimeJobSnapshot) -> RuntimeJobSnapshot {
    RuntimeJobSnapshot { status: RuntimeJobStatus::Queued, result: None, ..job }
}

pub fn recover_job(job: &mut RuntimeJobSnapshot)
    ensures
        *final(job) == recovered(*old(job)),
{
    job.status = RuntimeJobStatus::Queued;
    job.result = None;
}

/// Why a job that was left behind is not queued again.
pub fn check_recovery(id: &RuntimeJobId, queued: bool) -> (r: Result<(), RuntimeError>)
    ensures
        clears(
            r,
            if queued {
                Some(
                    report(
                        "runtime_recovery_conflict"@,
                        "both queued and running state exist for `"@ + id@ + "`"@,
                    ),
                )
            } else {
                None
            },
        ),
{
    if queued {
        let message = cat3("both queued and running state exist for `", id.as_str(), "`");
        return Err(RuntimeError::new("runtime_recovery_conflict", message.as_str()));
    }
    Ok(())
}

/// A job whose result was found in the cache.
pub open spec fn answered(job: RuntimeJobSnapshot, result: SimulationResult) -> RuntimeJobSnapshot {
    RuntimeJobSnapshot {
        status: RuntimeJobStatus::Succeeded,
        cache_hit: true,
        result: Some(result),
        error: None,
        ..job
    }
}

pub fn answer_job(job: &mut RuntimeJobSnapshot, result: SimulationResult)
    ensures
        *final(job) == answered(*old(job), result),
{
    job.status = RuntimeJobStatus::Succeeded;
    job.cache_hit = true;
    job.result = Some(result);
    job.error = None;
}

/// How the work on a job ended.
pub enum JobOutcome {
    /// The simulation gave a result.
    Done(SimulationResult),
    /// The simulation failed.
    Refused(SimulationError),
    /// The worker was lost.
    Lost(RuntimeError),
}

/// Where a job goes.
#[derive(Clone, Copy, Debug, PartialEq, Eq, Structural)]
pub enum Disposition {
    /// To its end, with a result that is to be cached.
    FinishAndCache,
    /// To its end.
    Finish,
    /// Back to the queue.
    Requeue,
}

/// How a job goes on after the work on it ended.
pub open spec fn settled(
    job: RuntimeJobSnapshot,
    stopped: bool,
    outcome: JobOutcome,
    max_attempts: u32,
    after: RuntimeJobSnapshot,
    way: Disposition,
) -> bool {
    if stopped {
        after == cancelled(job) && way == Disposition::Finish
    } else {
        match outcome {
            JobOutcome::Done(result) => after == (RuntimeJobSnapshot {
                status: RuntimeJobStatus::Succeeded,
                result: Some(result),
                error: None,
                ..job
            }) && way == Disposition::FinishAndCache,
            JobOutcome::Refused(error) => if may_retry(error) && job.attempts < max_attempts {
                &&& way == Disposition::Requeue
                &&& after.error is Some
                &&& after.error->Some_0.is_of(error)
                &&& after == (RuntimeJobSnapshot {
                    status: RuntimeJobStatus::Queued,
                    error: after.error,
                    ..job
                })
            } else if was_cancelled(error) {
                &&& way == Disposition::Finish
                &&& after == (RuntimeJobSnapshot {
                    status: RuntimeJobStatus::Cancelled,
                    error: None,
                    ..job
                })
            } else {
                &&& way == Disposition::Finish
                &&& after.error is Some
                &&& after.error->Some_0.is_of(error)
                &&& after == (RuntimeJobSnapshot {
                    status: RuntimeJobStatus::Failed,
                    error: after.error,
                    ..job
                })
            },
            JobOutcome::Lost(error) => after == (RuntimeJobSnapshot {
                status: RuntimeJobStatus::Failed,
                error: Some(
                    RuntimeJobFailure {
                        code: error.code,
                        message: error.message,
                        simulation: None,
                    },
                ),
                ..job
            }) && way == Disposition::Finish,
        }
    }
}

/// Notes how the work on a job ended and says where the job goes.
pub fn settle_job(
    job: &mut RuntimeJobSnapshot,
    stopped: bool,
    outcome: JobOutcome,
    limits: &ProductionRuntimeLimits,
) -> (r: Disposition)
    ensures
        settled(*old(job), stopped, outcome, limits.max_attempts, *final(job), r),
{
    if stopped {
        cancel_job(job);
        return Disposition::Finish;
    }
    match outcome {
        JobOutcome::Done(result) => {
            job.status = RuntimeJobStatus::Succeeded;
            job.result = Some(result);
            job.error = None;
            Disposition::FinishAndCache
        },
        JobOutcome::Refused(error) => {
            let ended = simulation_was_cancelled(&error);
            let failure = RuntimeJobFailure::simulation(error);
            if failure.retryable() && job.attempts < limits.max_attempts {
                job.status = RuntimeJobStatus::Queued;
                job.error = Some(failure);
                Disposition::Requeue
            } else if ended {
                job.status = RuntimeJobStatus::Cancelled;
                job.error = None;
                Disposition::Finish
            } else {
                job.status = RuntimeJobStatus::Failed;
                job.error = Some(failure);
                Disposition::Finish
            }
        },
        JobOutcome::Lost(error) => {
            job.status = RuntimeJobStatus::Failed;
            job.error = Some(RuntimeJobFailure::infrastructure(error));
            Disposition::Finish
        },
    }
}

/// A job whose work ended is at its end or back in the queue, and is queued
/// again only while attempts are left.
pub proof fn settled_jobs_are_ended_or_queued(
    job: RuntimeJobSnapshot,
    stopped: bool,
    outcome: JobOutcome,
    max_attempts: u32,
    after: RuntimeJobSnapshot,
    way: Disposition,
)
    requires
        settled(job, stopped, outcome, max_attempts, after, way),
    ensures
        way == Disposition::Requeue ==> after.status == RuntimeJobStatus::Queued && after.attempts
            < max_attempts,
        way != Disposition::Requeue ==> after.status.ended(),
        after.status == RuntimeJobStatus::Succeeded ==> after.result is Some && after.error is None,
        after.status == RuntimeJobStatus::Failed ==> after.error is Some,
        after.status == RuntimeJobStatus::Cancelled ==> after.error is None,
        after.id == job.id && after.attempts == job.attempts && after.manifest == job.manifest,
{
}

/// A job is taken up no more often than its attempts allow: each time that it
/// is queued again after work on it, fewer attempts are left.
pub proof fn attempts_run_out(
    queued: RuntimeJobSnapshot,
    stopped: bool,
    outcome: JobOutcome,
    max_attempts: u32,
    after: RuntimeJobSnapshot,
)
    requires
        settled(claimed(queued), stopped, outcome, max_attempts, after, Disposition::Requeue),
    ensures
        queued.attempts < after.attempts < max_attempts,
{
}

/// A job that nobody knows.
pub fn job_missing(id: &RuntimeJobId) -> (r: RuntimeError)
    ensures
        r@ == report(
            "runtime_job_not_found"@,
            "runtime job `"@ + id@ + "` was not found"@,
        ),
{
    let message = cat3("runtime job `", id.as_str(), "` was not found");
    RuntimeError::new("runtime_job_not_found", message.as_str())
}

/// The directories of the system that a worker may read, where they exist.
pub open spec fn system_paths() -> Seq<Seq<char>> {
    seq!["/bin"@, "/sbin"@, "/lib"@, "/lib64"@, "/etc"@, "/opt"@]
}

pub fn list_system_paths() -> (r: Vec<String>)
    ensures
        texts(r@) == system_paths(),
{
    let mut out: Vec<String> = Vec::new();
    out.push("/bin".to_owned());
    out.push("/sbin".to_owned());
    out.push("/lib".to_owned());
    out.push("/lib64".to_owned());
    out.push("/etc".to_owned());
    out.push("/opt".to_owned());
    assert(texts(out@) =~= system_paths());
    out
}

/// What makes the first `n` directories readable, where they are present.
pub open spec fn mounts(present: Seq<bool>, n: int) -> Seq<Seq<char>>
    decreases n,
{
    if n <= 0 {
        Seq::empty()
    } else if n <= present.len() && present[n - 1] {
        mounts(present, n - 1) + seq!["--ro-bind"@, system_paths()[n - 1], system_paths()[n - 1]]
    } else {
        mounts(present, n - 1)
    }
}

/// What sets a worker apart.
pub open spec fn isolation_arguments() -> Seq<Seq<char>> {
    seq![
        "--die-with-parent"@,
        "--new-session"@,
        "--unshare-user"@,
        "--unshare-pid"@,
        "--unshare-ipc"@,
        "--unshare-uts"@,
        "--unshare-net"@,
        "--ro-bind"@,
        "/usr"@,
        "/usr"@,
    ]
}

/// What a worker finds around it.
pub open spec fn surroundings(worker: Seq<char>, run_dir: Seq<char>) -> Seq<Seq<char>> {
    seq![
        "--proc"@,
        "/proc"@,
        "--dev"@,
        "/dev"@,
        "--tmpfs"@,
        "/tmp"@,
        "--dir"@,
        "/worker"@,
        "--ro-bind"@,
        worker,
        "/worker/sim-worker"@,
        "--bind"@,
        run_dir,
        "/work"@,
        "--chdir"@,
        "/work"@,
        "--clearenv"@,
        "--setenv"@,
        "HOME"@,
        "/tmp"@,
        "--setenv"@,
        "TMPDIR"@,
        "/tmp"@,
        "--setenv"@,
        "PATH"@,
        "/usr/bin:/bin"@,
    ]
}

/// The limits of a worker and what it runs.
pub open spec fn limited_worker(prlimit: Seq<char>, limits: IsolatedProcessLimits) -> Seq<
    Seq<char>,
> {
    seq![
        prlimit,
        "--as="@ + decimal(limits.memory_bytes as nat),
        "--cpu="@ + decimal(limits.cpu_seconds as nat),
        "--nproc="@ + decimal(limits.max_processes as nat),
        "--nofile="@ + decimal(limits.max_open_files as nat),
        "--fsize="@ + decimal(limits.max_file_bytes as nat),
        "--"@,
        "/worker/sim-worker"@,
        "--request"@,
        "/work/request.json"@,
        "--response"@,
        "/work/response.json"@,
    ]
}

/// The arguments that start an isolated worker.
pub open spec fn worker_arguments(
    worker: Seq<char>,
    run_dir: Seq<char>,
    prlimit: Seq<char>,
    limits: IsolatedProcessLimits,
    present: Seq<bool>,
) -> Seq<Seq<char>> {
    isolation_arguments() + mounts(present, 6) + surroundings(worker, run_dir) + limited_worker(
        prlimit,
        limits,
    )
}

fn push_isolation(args: &mut Vec<String>)
    ensures
        texts(final(args)@) == texts(old(args)@) + isolation_arguments(),
{
    let ghost start = texts(args@);
    args.push("--die-with-parent".to_owned());
    args.push("--new-session".to_owned());
    args.push("--unshare-user".to_owned());
    args.push("--unshare-pid".to_owned());
    args.push("--unshare-ipc".to_owned());
    args.push("--unshare-uts".to_owned());
    args.push("--unshare-net".to_owned());
    args.push("--ro-bind".to_owned());
    args.push("/usr".to_owned());
    args.push("/usr".to_owned());
    assert(texts(args@) =~= start + isolation_arguments());
}

fn push_mounts(args: &mut Vec<String>, present: &Vec<bool>)
    ensures
        texts(final(args)@) == texts(old(args)@) + mounts(present@, 6),
{
    let paths = list_system_paths();
    let ghost start = texts(args@);
    let mut i: usize = 0;
    assert(start + mounts(present@, 0) =~= start);
    assert(texts(paths@).len() == paths@.len());
    while i < 6
        invariant
            i <= 6,
            texts(paths@) == system_paths(),
            paths@.len() == 6,
            texts(args@) == start + mounts(present@, i as int),
        decreases 6 - i,
    {
        assert(texts(paths@)[i as int] == paths@[i as int]@);
        let ghost before = texts(args@);
        if i < present.len() && present[i] {
            args.push("--ro-bind".to_owned());
            args.push(paths[i].clone());
            args.push(paths[i].clone());
            assert(texts(args@) =~= before + seq![
                "--ro-bind"@,
                system_paths()[i as int],
                system_paths()[i as int],
            ]);
        }
        assert(texts(args@) =~= start + mounts(present@, i + 1));
        i = i + 1;
    }
}

fn push_surroundings(args: &mut Vec<String>, worker: &str, run_dir: &str)
    ensures
        texts(final(args)@) == texts(old(args)@) + surroundings(worker@, run_dir@),
{
    let ghost start = texts(args@);
    args.push("--proc".to_owned());
    args.push("/proc".to_owned());
    args.push("--dev".to_owned());
    args.push("/dev".to_owned());
    args.push("--tmpfs".to_owned());
    args.push("/tmp".to_owned());
    args.push("--dir".to_owned());
    args.push("/worker".to_owned());
    args.push("--ro-bind".to_owned());
    args.push(worker.to_owned());
    args.push("/worker/sim-worker".to_owned());
    args.push("--bind".to_owned());
    args.push(run_dir.to_owned());
    args.push("/work".to_owned());
    args.push("--chdir".to_owned());
    args.push("/work".to_owned());
    args.push("--clearenv".to_owned());
    args.push("--setenv".to_owned());
    args.push("HOME".to_owned());
    args.push("/tmp".to_owned());
    args.push("--setenv".to_owned());
    args.push("TMPDIR".to_owned());
    args.push("/tmp".to_owned());
    args.push("--setenv".to_owned());
    args.push("PATH".to_owned());
    args.push("/usr/bin:/bin".to_owned());
    assert(texts(args@) =~= start + surroundings(worker@, run_dir@));
}

fn push_limits(args: &mut Vec<String>, prlimit: &str, limits: &IsolatedProcessLimits)
    ensures
        texts(final(args)@) == texts(old(args)@) + limited_worker(prlimit@, *limits),
{
    let ghost start = texts(args@);
    args.push(prlimit.to_owned());
    args.push(cat2("--as=", decimal_text(limits.memory_bytes).as_str()));
    args.push(cat2("--cpu=", decimal_text(limits.cpu_seconds).as_str()));
    args.push(cat2("--nproc=", decimal_text(limits.max_processes).as_str()));
    args.push(cat2("--nofile=", decimal_text(limits.max_open_files).as_str()));
    args.push(cat2("--fsize=", decimal_text(limits.max_file_bytes).as_str()));
    args.push("--".to_owned());
    args.push("/worker/sim-worker".to_owned());
    args.push("--request".to_owned());
    args.push("/work/request.json".to_owned());
    args.push("--response".to_owned());
    args.push("/work/response.json".to_owned());
    assert(texts(args@) =~= start + limited_worker(prlimit@, *limits));
}

/// The arguments that start an isolated worker. `present` says which of the
/// directories of the system exist.
pub fn command_arguments(
    worker: &str,
    run_dir: &str,
    prlimit: &str,
    limits: &IsolatedProcessLimits,
    present: &Vec<bool>,
) -> (r: Vec<String>)
    ensures
        texts(r@) == worker_arguments(worker@, run_dir@, prlimit@, *limits, present@),
{
    let mut args: Vec<String> = Vec::new();
    assert(texts(args@) =~= Seq::<Seq<char>>::empty());
    push_isolation(&mut args);
    assert(texts(args@) =~= isolation_arguments());
    push_mounts(&mut args, present);
    push_surroundings(&mut args, worker, run_dir);
    push_limits(&mut args, prlimit, limits);
    args
}

/// How the path of a worker was resolved.
#[derive(Clone, Debug, PartialEq, Eq)]
pub enum FoundWorker {
    /// It could not be resolved, for this reason.
    Unresolved(String),
    /// It is no file.
    NotAFile,
    File(String),
}

/// An executor that runs each request in a worker behind bubblewrap and prlimit.
#[derive(Clone, Debug, PartialEq, Eq)]
pub struct IsolatedProcessExecutor {
    pub worker: String,
    pub descriptors: Vec<EngineDescriptor>,
    pub fingerprint: String,
    pub limits: IsolatedProcessLimits,
    pub bubblewrap: String,
    pub prlimit: String,
}

impl IsolatedProcessExecutor {
    /// Why an executor cannot be made.
    pub open spec fn new_failure(
        limits: IsolatedProcessLimits,
        worker: FoundWorker,
        bubblewrap: Option<String>,
        prlimit: Option<String>,
        toolchain: Seq<char>,
    ) -> Option<Report> {
        match limits.failure() {
            Some(f) => Some(f),
            None => match worker {
                FoundWorker::Unresolved(reason) => Some(
                    report(
                        "runtime_worker_unavailable"@,
                        "could not resolve isolated worker executable: "@ + reason@,
                    ),
                ),
                FoundWorker::NotAFile => Some(
                    report("runtime_worker_unavailable"@, "isolated worker path is not a file"@),
                ),
                FoundWorker::File(_) => if bubblewrap is None {
                    Some(
                        report(
                            "runtime_isolation_unavailable"@,
                            "bubblewrap (`bwrap`) is required for production worker isolation"@,
                        ),
                    )
                } else if prlimit is None {
                    Some(
                        report(
                            "runtime_isolation_unavailable"@,
                            "`prlimit` is required for production worker resource limits"@,
                        ),
                    )
                } else if is_blank(toolchain) {
                    Some(
                        report(
                            "runtime_isolation_invalid"@,
                            "toolchain_fingerprint must identify the immutable worker/toolchain image"@,
                        ),
                    )
                } else {
                    None
                },
            },
        }
    }

    /// An executor for a worker. `bubblewrap` and `prlimit` are where the two
    /// programs were found, if they were.
    pub fn new(
        worker: FoundWorker,
        descriptors: Vec<EngineDescriptor>,
        toolchain_fingerprint: &str,
        limits: IsolatedProcessLimits,
        bubblewrap: Option<String>,
        prlimit: Option<String>,
    ) -> (r: Result<Self, RuntimeError>)
        ensures
            match r {
                Ok(executor) => {
                    &&& Self::new_failure(
                        limits,
                        worker,
                        bubblewrap,
                        prlimit,
                        toolchain_fingerprint@,
                    ) is None
                    &&& worker == FoundWorker::File(executor.worker)
                    &&& executor.descriptors@ == sorted_descriptors(
                        descriptors@,
                        descriptors@.len() as int,
                    )
                    &&& executor.fingerprint@ == "isolated:"@ + toolchain_fingerprint@
                    &&& executor.limits == limits
                    &&& bubblewrap == Some(executor.bubblewrap)
                    &&& prlimit == Some(executor.prlimit)
                },
                Err(e) => Self::new_failure(
                    limits,
                    worker,
                    bubblewrap,
                    prlimit,
                    toolchain_fingerprint@,
                ) == Some(e@),
            },
    {
        match limits.validate() {
            Err(e) => {
                return Err(e);
            },
            Ok(_) => {},
        }
        let worker = match worker {
            FoundWorker::Unresolved(reason) => {
                let message = cat2(
                    "could not resolve isolated worker executable: ",
                    reason.as_str(),
                );
                return Err(RuntimeError::new("runtime_worker_unavailable", message.as_str()));
            },
            FoundWorker::NotAFile => {
                return Err(
                    RuntimeError::new(
                        "runtime_worker_unavailable",
                        "isolated worker path is not a file",
                    ),
                );
            },
            FoundWorker::File(path) => path,
        };
        let bubblewrap = match bubblewrap {
            None => {
                return Err(
                    RuntimeError::new(
                        "runtime_isolation_unavailable",
                        "bubblewrap (`bwrap`) is required for production worker isolation",
                    ),
                );
            },
            Some(path) => path,
        };
        let prlimit = match prlimit {
            None => {
                return Err(
                    RuntimeError::new(
                        "runtime_isolation_unavailable",
                        "`prlimit` is required for production worker resource limits",
                    ),
                );
            },
            Some(path) => path,
        };
        let fingerprint = match isolated_fingerprint(toolchain_fingerprint) {
            Err(e) => {
                return Err(e);
            },
            Ok(text) => text,
        };
        Ok(
            IsolatedProcessExecutor {
                worker,
                descriptors: sort_descriptors(descriptors),
                fingerprint,
                limits,
                bubblewrap,
                prlimit,
            },
        )
    }

    /// The arguments that start a worker in a directory. `present` says which of
    /// the directories of the system exist.
    pub fn arguments(&self, run_dir: &str, present: &Vec<bool>) -> (r: Vec<String>)
        ensures
            texts(r@) == worker_arguments(
                self.worker@,
                run_dir@,
                self.prlimit@,
                self.limits,
                present@,
            ),
    {
        command_arguments(
            self.worker.as_str(),
            run_dir,
            self.prlimit.as_str(),
            &self.limits,
            present,
        )
    }

    /// The arguments as they would be for some job.
    pub fn isolation_command_preview(&self, present: &Vec<bool>) -> (r: Vec<String>)
        ensures
            texts(r@) == worker_arguments(
                self.worker@,
                "/runtime-job"@,
                self.prlimit@,
                self.limits,
                present@,
            ),
    {
        self.arguments("/runtime-job", present)
    }
}

/// What a worker is asked.
#[derive(Clone, Debug, PartialEq, Eq)]
pub struct WorkerRequestEnvelope {
    pub request: SimulationRequest,
    pub execution_policy: ExecutionPolicy,
}

/// What a worker answers.
#[derive(Clone, Debug, PartialEq, Eq)]
pub struct WorkerResponseEnvelope {
    pub result: Option<SimulationResult>,
    pub error: Option<SimulationError>,
}

impl WorkerResponseEnvelope {
    pub fn from_result(result: Result<SimulationResult, SimulationError>) -> (r: Self)
        ensures
            r == match result {
                Ok(value) => WorkerResponseEnvelope { result: Some(value), error: None },
                Err(error) => WorkerResponseEnvelope { result: None, error: Some(error) },
            },
    {
        match result {
            Ok(value) => WorkerResponseEnvelope { result: Some(value), error: None },
            Err(error) => WorkerResponseEnvelope { result: None, error: Some(error) },
        }
    }
}

/// What an answer says.
pub open spec fn unpacked(response: WorkerResponseEnvelope) -> Option<
    Result<SimulationResult, SimulationError>,
> {
    match (response.result, response.error) {
        (Some(result), None) => Some(Ok(result)),
        (None, Some(error)) => Some(Err(error)),
        _ => None,
    }
}

pub fn unpack_response(response: WorkerResponseEnvelope) -> (r: Result<
    Result<SimulationResult, SimulationError>,
    RuntimeError,
>)
    ensures
        match r {
            Ok(outcome) => unpacked(response) == Some(outcome),
            Err(e) => unpacked(response) is None && e@ == report(
                "runtime_worker_protocol_invalid"@,
                "worker response must contain exactly one of result or error"@,
            ),
        },
{
    match (response.result, response.error) {
        (Some(result), None) => Ok(Ok(result)),
        (None, Some(error)) => Ok(Err(error)),
        _ => Err(
            RuntimeError::new(
                "runtime_worker_protocol_invalid",
                "worker response must contain exactly one of result or error",
            ),
        ),
    }
}

/// What a worker answers is what its caller reads.
pub proof fn answers_are_read_back(result: Result<SimulationResult, SimulationError>)
    ensures
        unpacked(
            match result {
                Ok(value) => WorkerResponseEnvelope { result: Some(value), error: None },
                Err(error) => WorkerResponseEnvelope { result: None, error: Some(error) },
            },
        ) == Some(result),
{
}

/// A failure of the worker itself.
pub open spec fn is_worker_error(
    r: SimulationError,
    code: Seq<char>,
    message: Seq<char>,
    retryable: bool,
) -> bool {
    match r {
        SimulationError::Engine { engine, error } => engine@ == "isolated-worker"@ && error@
            == (Fault { code, message, retryable }),
        _ => false,
    }
}

pub fn worker_engine_error(code: &str, message: &str, retryable: bool) -> (r: SimulationError)
    ensures
        is_worker_error(r, code@, message@, retryable),
{
    SimulationError::Engine {
        engine: EngineId::new("isolated-worker"),
        error: EngineError::new(code, message).retryable(retryable),
    }
}

pub fn worker_simulation_error(error: &RuntimeError) -> (r: SimulationError)
    ensures
        is_worker_error(r, error@.code, error@.message, true),
{
    worker_engine_error(error.code.as_str(), error.message.as_str(), true)
}

/// What is to be done with a worker.
pub enum WorkerWatch {
    /// Go on.
    Go,
    /// End it: the simulation failed.
    Stop(SimulationError),
    /// Give up: the runtime failed.
    GiveUp(RuntimeError),
}

/// Whether a worker may be started.
pub fn check_worker_start(policy: &ExecutionPolicy, cancelled: bool) -> (r: WorkerWatch)
    ensures
        match policy.failure() {
            Some(f) => r matches WorkerWatch::GiveUp(e) && e@ == report(
                "runtime_execution_policy_invalid"@,
                f.message,
            ),
            None => if cancelled {
                r matches WorkerWatch::Stop(e) && is_worker_error(
                    e,
                    "execution_cancelled"@,
                    "isolated worker was cancelled before execution"@,
                    false,
                )
            } else {
                r is Go
            },
        },
{
    match policy.validate() {
        Err(e) => {
            return WorkerWatch::GiveUp(
                RuntimeError::new("runtime_execution_policy_invalid", e.message()),
            );
        },
        Ok(_) => {},
    }
    if cancelled {
        return WorkerWatch::Stop(
            worker_engine_error(
                "execution_cancelled",
                "isolated worker was cancelled before execution",
                false,
            ),
        );
    }
    WorkerWatch::Go
}

/// Whether to wait on for a worker. A log that cannot be inspected has no bytes.
pub fn check_worker_wait(
    policy: &ExecutionPolicy,
    cancelled: bool,
    elapsed_ms: u128,
    log_bytes: u64,
) -> (r: WorkerWatch)
    ensures
        if cancelled {
            r matches WorkerWatch::Stop(e) && is_worker_error(
                e,
                "execution_cancelled"@,
                "isolated worker execution was cancelled"@,
                false,
            )
        } else if policy.timeout_ms != 0 && elapsed_ms >= policy.timeout_ms {
            r matches WorkerWatch::Stop(e) && is_worker_error(
                e,
                "execution_timeout"@,
                "isolated worker exceeded timeout of "@ + decimal(policy.timeout_ms as nat)
                    + " ms"@,
                true,
            )
        } else {
            match bytes_failure("isolated worker log"@, log_bytes, policy.max_log_bytes) {
                Some(f) => r matches WorkerWatch::GiveUp(e) && e@ == f,
                None => r is Go,
            }
        },
{
    if cancelled {
        return WorkerWatch::Stop(
            worker_engine_error(
                "execution_cancelled",
                "isolated worker execution was cancelled",
                false,
            ),
        );
    }
    if policy.timeout_ms != 0 && elapsed_ms >= policy.timeout_ms as u128 {
        let message = cat3(
            "isolated worker exceeded timeout of ",
            decimal_text(policy.timeout_ms).as_str(),
            " ms",
        );
        return WorkerWatch::Stop(
            worker_engine_error("execution_timeout", message.as_str(), true),
        );
    }
    match enforce_bytes("isolated worker log", log_bytes, policy.max_log_bytes) {
        Err(e) => WorkerWatch::GiveUp(e),
        Ok(_) => WorkerWatch::Go,
    }
}

/// A worker that ended without success.
pub fn worker_exit_error(status: &str, log: &str) -> (r: RuntimeError)
    ensures
        r@ == report(
            "runtime_worker_failed"@,
            "isolated worker exited with "@ + status@ + ": "@ + log@,
        ),
{
    let message = crate::text::cat4("isolated worker exited with ", status, ": ", log);
    RuntimeError::new("runtime_worker_failed", message.as_str())
}

proof fn lemma_before_goes_on(p: Seq<char>, q: Seq<char>, x: Seq<char>, y: Seq<char>)
    requires
        p.len() == q.len(),
        text_before(p, q),
    ensures
        text_before(p + x, q + y),
    decreases p.len(),
{
    if p.len() > 0 {
        assert((p + x)[0] == p[0] && (q + y)[0] == q[0]);
        if p[0] == q[0] {
            lemma_before_goes_on(p.skip(1), q.skip(1), x, y);
            assert((p + x).skip(1) =~= p.skip(1) + x);
            assert((q + y).skip(1) =~= q.skip(1) + y);
        }
    }
}

proof fn lemma_before_behind(s: Seq<char>, p: Seq<char>, q: Seq<char>)
    requires
        text_before(p, q),
    ensures
        text_before(s + p, s + q),
    decreases s.len(),
{
    if s.len() > 0 {
        lemma_before_behind(s.skip(1), p, q);
        assert((s + p).skip(1) =~= s.skip(1) + p);
        assert((s + q).skip(1) =~= s.skip(1) + q);
    } else {
        assert(s + p =~= p);
        assert(s + q =~= q);
    }
}

proof fn lemma_hex_width(n: nat, width: nat)
    requires
        width >= 1,
        n < vstd::arithmetic::power::pow(16, width),
    ensures
        padded_hex(n, width).len() == width,
        width > 1 ==> padded_hex(n, width) == padded_hex(n / 16, (width - 1) as nat).push(
            hex_char(n % 16),
        ),
        width == 1 ==> padded_hex(n, width) == seq![hex_char(n)] && n < 16,
    decreases width,
{
    reveal(vstd::arithmetic::power::pow);
    if width == 1 {
        vstd::arithmetic::power::lemma_pow1(16);
        assert(padded_hex(n, 1) =~= seq![hex_char(n)]);
    } else {
        let less = (width - 1) as nat;
        assert(vstd::arithmetic::power::pow(16, width) == 16 * vstd::arithmetic::power::pow(
            16,
            less,
        ));
        assert(n / 16 < vstd::arithmetic::power::pow(16, less));
        lemma_hex_width(n / 16, less);
        if n < 16 {
            assert(n / 16 == 0 && n % 16 == n);
            assert(hexadecimal(0) =~= seq![hex_char(0)]);
            assert(hex_char(0) == '0');
            assert(padded_hex(0, less) =~= crate::text::zeros(less as int));
            assert(padded_hex(n, width) =~= padded_hex(0, less).push(hex_char(n)));
        } else {
            assert(padded_hex(n, width) =~= padded_hex(n / 16, less).push(hex_char(n % 16)));
        }
    }
}

proof fn lemma_hex_order(a: nat, b: nat, width: nat)
    requires
        width >= 1,
        a < b < vstd::arithmetic::power::pow(16, width),
    ensures
        text_before(padded_hex(a, width), padded_hex(b, width)),
    decreases width,
{
    lemma_hex_width(a, width);
    lemma_hex_width(b, width);
    if width == 1 {
        lemma_before_pushed(Seq::empty(), a, b);
        assert(Seq::<char>::empty().push(hex_char(a)) =~= seq![hex_char(a)]);
        assert(Seq::<char>::empty().push(hex_char(b)) =~= seq![hex_char(b)]);
    } else {
        let less = (width - 1) as nat;
        reveal(vstd::arithmetic::power::pow);
        assert(vstd::arithmetic::power::pow(16, width) == 16 * vstd::arithmetic::power::pow(
            16,
            less,
        ));
        lemma_hex_width(a / 16, less);
        lemma_hex_width(b / 16, less);
        let p = padded_hex(a / 16, less);
        let q = padded_hex(b / 16, less);
        if a / 16 < b / 16 {
            lemma_hex_order(a / 16, b / 16, less);
            lemma_before_goes_on(p, q, seq![hex_char(a % 16)], seq![hex_char(b % 16)]);
            assert(p.push(hex_char(a % 16)) =~= p + seq![hex_char(a % 16)]);
            assert(q.push(hex_char(b % 16)) =~= q + seq![hex_char(b % 16)]);
        } else {
            assert(a / 16 == b / 16);
            assert(a % 16 < b % 16);
            lemma_before_pushed(p, a % 16, b % 16);
        }
    }
}

proof fn lemma_before_pushed(s: Seq<char>, a: nat, b: nat)
    requires
        a < b < 16,
    ensures
        text_before(s.push(hex_char(a)), s.push(hex_char(b))),
{
    let x = seq![hex_char(a)];
    let y = seq![hex_char(b)];
    assert(x[0] < y[0]);
    assert(text_before(x, y));
    lemma_before_behind(s, x, y);
    assert(s.push(hex_char(a)) =~= s + x);
    assert(s.push(hex_char(b)) =~= s + y);
}

/// The names of jobs stand in the order in which the jobs were made, so that the
/// first names are those of the oldest jobs. The time is in nanoseconds and
/// has twenty hexadecimal digits at most.
pub proof fn job_names_stand_in_time_order(
    earlier: nat,
    later: nat,
    first_key: Seq<char>,
    second_key: Seq<char>,
    first_counter: nat,
    second_counter: nat,
)
    requires
        earlier < later < vstd::arithmetic::power::pow(16, 20),
    ensures
        text_before(
            job_id_of(earlier, first_key, first_counter),
            job_id_of(later, second_key, second_counter),
        ),
{
    let p = padded_hex(earlier, 20);
    let q = padded_hex(later, 20);
    let x = "-"@ + key_start(first_key) + "-"@ + padded_hex(first_counter, 16);
    let y = "-"@ + key_start(second_key) + "-"@ + padded_hex(second_counter, 16);
    lemma_hex_width(earlier, 20);
    lemma_hex_width(later, 20);
    lemma_hex_order(earlier, later, 20);
    lemma_before_goes_on(p, q, x, y);
    lemma_before_behind("sim-"@, p + x, q + y);
    assert(job_id_of(earlier, first_key, first_counter) =~= "sim-"@ + (p + x));
    assert(job_id_of(later, second_key, second_counter) =~= "sim-"@ + (q + y));
}

} // verus!
