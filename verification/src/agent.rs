//! The node agent's decision logic: task and result validation, the
//! concurrency gate, heartbeat back-off, health derivation, and stake
//! parsing. The surrounding loops (polling, RPC, child processes) live in
//! the host program and feed their observations into these functions.

use vstd::prelude::*;

use crate::errors::ErrorKind;
use crate::node_config::NodeConfig;
use crate::strutil::{all_digits, blen, dec_value, is_digit, pow10, str_eq};
use vstd::string::StringSliceAdditionalSpecFns;

verus! {

/// What the AI backend produced for one task.
pub struct TaskExecution {
    pub proof_hash: String,
    pub output: String,
}

/// A parsed job description.
pub struct TaskDescription {
    pub model: String,
    pub input: String,
    pub task_type: String,
    /// Raw JSON of optional backend parameters.
    pub parameters: Option<String>,
}

/// A task as fetched from the coordinator.
pub struct TaskInfo {
    pub id: u64,
    pub description: String,
    pub assignee: Option<String>,
    pub status: String,
    pub created_at: u64,
    pub reward_amount: String,
    pub requester: String,
}

/// The JSON text parses.
/// Named result of serde_json parsing; a function of the text alone.
pub uninterp spec fn json_well_formed(s: Seq<char>) -> bool;

/// Relies on serde_json::from_str: whether the text is valid JSON depends
/// on the text alone.
#[verifier::external_body]
fn json_is_valid(s: &str) -> (r: bool)
    ensures
        r == json_well_formed(s@),
{
    serde_json::from_str::<serde_json::Value>(s).is_ok()
}

/// The `model`, `input` and `task_type` string fields of a JSON job
/// description, when the text parses and carries all three.
/// Named result of serde_json parsing; a function of the text alone.
pub uninterp spec fn parsed_task_fields(s: Seq<char>) -> Option<
    (Seq<char>, Seq<char>, Seq<char>),
>;

/// Relies on serde_json::from_str, Value::get and Value::as_str: the
/// extracted fields depend on the text alone.
#[verifier::external_body]
fn parse_task_fields(s: &str) -> (r: Option<(String, String, String)>)
    ensures
        match r {
            Some(t) => parsed_task_fields(s@) == Some((t.0@, t.1@, t.2@)),
            None => parsed_task_fields(s@) is None,
        },
{
    let v: serde_json::Value = serde_json::from_str(s).ok()?;
    let model = v.get("model")?.as_str()?.to_string();
    let input = v.get("input")?.as_str()?.to_string();
    let task_type = v.get("task_type")?.as_str()?.to_string();
    Some((model, input, task_type))
}

/// `t` is one of the supported task types.
pub open spec fn spec_supported_type(t: Seq<char>) -> bool {
    ||| t == "inference"@
    ||| t == "text_generation"@
    ||| t == "classification"@
    ||| t == "embedding"@
}

/// Whether `t` names a supported task type.
pub fn is_supported_task_type(t: &str) -> (r: bool)
    ensures
        r == spec_supported_type(t@),
{
    str_eq(t, "inference") || str_eq(t, "text_generation") || str_eq(t, "classification")
        || str_eq(t, "embedding")
}

/// A job description is executable: non-empty text that parses with the
/// three required string fields, a named model, input within 50 KB, and a
/// supported task type.
pub open spec fn spec_task_desc_ok(desc: Seq<char>) -> bool {
    &&& desc.len() > 0
    &&& parsed_task_fields(desc) is Some
    &&& {
        let f = parsed_task_fields(desc)->0;
        &&& f.0.len() > 0
        &&& blen(f.1) <= 50000
        &&& spec_supported_type(f.2)
    }
}

/// `b` is an ASCII hexadecimal digit.
pub open spec fn is_hex_digit(b: u8) -> bool {
    is_digit(b) || (0x41 <= b <= 0x46) || (0x61 <= b <= 0x66)
}

/// All bytes of `s` are hexadecimal digits.
pub open spec fn all_hex(s: Seq<u8>) -> bool {
    forall|i: int| 0 <= i < s.len() ==> is_hex_digit(#[trigger] s[i])
}

/// Whether every byte of `s` is a hexadecimal digit.
pub fn bytes_all_hex(s: &[u8]) -> (r: bool)
    ensures
        r == all_hex(s@),
{
    let n = s.len();
    let mut k: usize = 0;
    while k < n
        invariant
            n == s@.len(),
            0 <= k <= n,
            forall|j: int| 0 <= j < k ==> is_hex_digit(#[trigger] s@[j]),
        decreases n - k,
    {
        let b = s[k];
        let ok = (b >= 0x30 && b <= 0x39) || (b >= 0x41 && b <= 0x46) || (b >= 0x61 && b <= 0x66);
        if !ok {
            proof {
                assert(!is_hex_digit(s@[k as int]));
            }
            return false;
        }
        k = k + 1;
    }
    true
}

/// An execution result is acceptable: the proof hash is exactly 64 hex
/// bytes and the output is non-empty valid JSON of at most 1 MB.
pub open spec fn spec_result_ok(proof_hash: Seq<char>, output: Seq<char>) -> bool {
    &&& proof_hash.len() > 0
    &&& blen(proof_hash) == 64
    &&& all_hex(vstd::utf8::encode_utf8(proof_hash))
    &&& output.len() > 0
    &&& json_well_formed(output)
    &&& blen(output) <= 1000000
}

/// The AI engine: configuration plus the resolved backend paths. Checking
/// that the paths exist on disk is the host's environment check.
pub struct AiEngine {
    pub config: NodeConfig,
    pub python_path: String,
    pub ai_worker_path: String,
}

impl AiEngine {
    /// An engine over the configured Python interpreter and the bundled
    /// worker script.
    pub fn new(config: &NodeConfig) -> (r: AiEngine)
        ensures
            r.python_path@ == config.ai.python_path@,
            r.ai_worker_path@ == "ai_engine/ai_worker.py"@,
    {
        AiEngine {
            config: config.clone(),
            python_path: config.ai.python_path.clone(),
            ai_worker_path: "ai_engine/ai_worker.py".to_owned(),
        }
    }

    /// A parsed task is executable here: the model is named, the task type
    /// is supported, and a usable framework (`pytorch` or `transformers`)
    /// is configured.
    pub fn validate_task(&self, task: &TaskDescription) -> (r: Result<(), ErrorKind>)
        ensures
            r is Ok <==> task.model@.len() > 0 && spec_supported_type(task.task_type@) && (
            spec_has_framework(self.config.ai.supported_frameworks@, "pytorch"@)
                || spec_has_framework(self.config.ai.supported_frameworks@, "transformers"@)),
            r is Err ==> r->Err_0 == ErrorKind::BadRequest,
    {
        if task.model.as_str().is_empty() {
            return Err(ErrorKind::BadRequest);
        }
        if !is_supported_task_type(task.task_type.as_str()) {
            return Err(ErrorKind::BadRequest);
        }
        if !has_framework(&self.config.ai.supported_frameworks, "pytorch") && !has_framework(
            &self.config.ai.supported_frameworks,
            "transformers",
        ) {
            return Err(ErrorKind::BadRequest);
        }
        Ok(())
    }
}

/// Some configured framework equals `name`.
pub open spec fn spec_has_framework(frameworks: Seq<String>, name: Seq<char>) -> bool {
    exists|i: int| 0 <= i < frameworks.len() && #[trigger] frameworks[i]@ == name
}

/// Whether `name` is among the configured frameworks.
fn has_framework(frameworks: &Vec<String>, name: &str) -> (r: bool)
    ensures
        r == spec_has_framework(frameworks@, name@),
{
    let n = frameworks.len();
    let mut k: usize = 0;
    while k < n
        invariant
            n == frameworks@.len(),
            0 <= k <= n,
            forall|j: int| 0 <= j < k ==> #[trigger] frameworks@[j]@ != name@,
        decreases n - k,
    {
        if str_eq(frameworks[k].as_str(), name) {
            proof {
                assert(frameworks@[k as int]@ == name@);
            }
            return true;
        }
        k = k + 1;
    }
    false
}

/// The task processor: the execution gate of the agent. It admits at most
/// `max_concurrent_tasks` jobs at a time; a permit is taken before a job
/// starts and given back when its submission finishes.
pub struct TaskProcessor {
    pub config: NodeConfig,
    pub current_load: u32,
}

impl TaskProcessor {
    /// A processor with no running jobs.
    pub fn new(config: &NodeConfig) -> (r: TaskProcessor)
        ensures
            r.current_load == 0,
            r.config.hardware.max_concurrent_tasks == config.hardware.max_concurrent_tasks,
    {
        TaskProcessor { config: config.clone(), current_load: 0 }
    }

    /// A fetched task may be executed: non-empty description that parses
    /// with the required fields, bounded input, supported type.
    pub fn validate_task(&self, task: &TaskInfo) -> (r: Result<(), ErrorKind>)
        ensures
            r is Ok <==> spec_task_desc_ok(task.description@),
            r is Err ==> r->Err_0 == ErrorKind::BadRequest,
    {
        if task.description.as_str().is_empty() {
            return Err(ErrorKind::BadRequest);
        }
        let fields = match parse_task_fields(task.description.as_str()) {
            Some(f) => f,
            None => {
                return Err(ErrorKind::BadRequest);
            },
        };
        if fields.0.as_str().is_empty() {
            return Err(ErrorKind::BadRequest);
        }
        if crate::strutil::str_blen(fields.1.as_str()) > 50000 {
            return Err(ErrorKind::BadRequest);
        }
        if !is_supported_task_type(fields.2.as_str()) {
            return Err(ErrorKind::BadRequest);
        }
        Ok(())
    }

    /// A produced result may be submitted: 64 hex bytes of proof and
    /// non-empty valid JSON output of at most 1 MB.
    pub fn validate_execution_result(&self, result: &TaskExecution) -> (r: Result<(), ErrorKind>)
        ensures
            r is Ok <==> spec_result_ok(result.proof_hash@, result.output@),
            r is Err ==> r->Err_0 == ErrorKind::BadRequest,
    {
        if result.proof_hash.as_str().is_empty() {
            return Err(ErrorKind::BadRequest);
        }
        if crate::strutil::str_blen(result.proof_hash.as_str()) != 64 {
            return Err(ErrorKind::BadRequest);
        }
        if !bytes_all_hex(result.proof_hash.as_str().as_bytes()) {
            return Err(ErrorKind::BadRequest);
        }
        if result.output.as_str().is_empty() {
            return Err(ErrorKind::BadRequest);
        }
        if !json_is_valid(result.output.as_str()) {
            return Err(ErrorKind::BadRequest);
        }
        if crate::strutil::str_blen(result.output.as_str()) > 1000000 {
            return Err(ErrorKind::BadRequest);
        }
        Ok(())
    }

    /// How many jobs hold a permit right now.
    pub fn get_current_load(&self) -> (r: u32)
        ensures
            r == self.current_load,
    {
        self.current_load
    }

    /// Whether every permit is taken.
    pub fn is_at_capacity(&self) -> (r: bool)
        ensures
            r == (self.current_load >= self.config.hardware.max_concurrent_tasks),
    {
        self.current_load >= self.config.hardware.max_concurrent_tasks
    }

    /// Takes one permit when one is free.
    pub fn try_acquire(&mut self) -> (r: bool)
        ensures
            r == (old(self).current_load < old(self).config.hardware.max_concurrent_tasks),
            r ==> final(self).current_load == old(self).current_load + 1,
            !r ==> final(self).current_load == old(self).current_load,
            final(self).config == old(self).config,
    {
        if self.current_load < self.config.hardware.max_concurrent_tasks {
            self.current_load = self.current_load + 1;
            true
        } else {
            false
        }
    }

    /// Gives a permit back after a job's submission finished, whether it
    /// succeeded or failed.
    pub fn release(&mut self)
        ensures
            final(self).current_load == if old(self).current_load > 0 {
                (old(self).current_load - 1) as u32
            } else {
                0u32
            },
            final(self).config == old(self).config,
    {
        if self.current_load > 0 {
            self.current_load = self.current_load - 1;
        }
    }
}

/// Only tasks the coordinator reports as `Assigned` are picked up by the
/// polling loop.
pub fn should_execute(task: &TaskInfo) -> (r: bool)
    ensures
        r == (task.status@ == "Assigned"@),
{
    str_eq(task.status.as_str(), "Assigned")
}

/// What the heartbeat loop does after one attempt.
#[derive(Clone, Copy, Debug, PartialEq, Eq, Structural)]
pub enum HeartbeatAction {
    /// Wait one interval and try again.
    Proceed,
    /// Too many consecutive misses: wait two intervals before retrying.
    CoolDown,
}

/// The heartbeat loop's state: the configured cadence and how many
/// consecutive attempts have failed.
pub struct HeartbeatManager {
    pub interval_seconds: u64,
    pub max_retries: u32,
    pub consecutive_failures: u32,
}

impl HeartbeatManager {
    /// A manager with the default cadence: one beat a minute, three misses
    /// tolerated.
    pub fn new() -> (r: HeartbeatManager)
        ensures
            r.interval_seconds == 60,
            r.max_retries == 3,
            r.consecutive_failures == 0,
    {
        HeartbeatManager { interval_seconds: 60, max_retries: 3, consecutive_failures: 0 }
    }

    /// The same manager with another interval.
    pub fn with_interval(self, seconds: u64) -> (r: HeartbeatManager)
        ensures
            r.interval_seconds == seconds,
            r.max_retries == self.max_retries,
            r.consecutive_failures == self.consecutive_failures,
    {
        HeartbeatManager { interval_seconds: seconds, ..self }
    }

    /// The same manager with another miss tolerance.
    pub fn with_max_retries(self, retries: u32) -> (r: HeartbeatManager)
        ensures
            r.max_retries == retries,
            r.interval_seconds == self.interval_seconds,
            r.consecutive_failures == self.consecutive_failures,
    {
        HeartbeatManager { max_retries: retries, ..self }
    }

    /// Notes one attempt's outcome and decides how to go on: a success
    /// clears the failure streak; a failure extends it, and reaching the
    /// tolerance forces a cool-down and starts a fresh streak. The loop
    /// never stops.
    pub fn note_outcome(&mut self, ok: bool) -> (r: HeartbeatAction)
        ensures
            final(self).interval_seconds == old(self).interval_seconds,
            final(self).max_retries == old(self).max_retries,
            ok ==> final(self).consecutive_failures == 0 && r is Proceed,
            !ok ==> ({
                let f = if old(self).consecutive_failures < u32::MAX {
                    old(self).consecutive_failures + 1
                } else {
                    u32::MAX as int
                };
                if f >= old(self).max_retries {
                    final(self).consecutive_failures == 0 && r is CoolDown
                } else {
                    final(self).consecutive_failures == f && r is Proceed
                }
            }),
    {
        if ok {
            self.consecutive_failures = 0;
            return HeartbeatAction::Proceed;
        }
        let f = if self.consecutive_failures < u32::MAX {
            self.consecutive_failures + 1
        } else {
            u32::MAX
        };
        if f >= self.max_retries {
            self.consecutive_failures = 0;
            HeartbeatAction::CoolDown
        } else {
            self.consecutive_failures = f;
            HeartbeatAction::Proceed
        }
    }

    /// Whether the loop should warn: no successful beat for more than five
    /// intervals.
    pub fn needs_warning(&self, seconds_since_success: u64) -> (r: bool)
        requires
            self.interval_seconds <= u64::MAX / 5,
        ensures
            r == (seconds_since_success > 5 * self.interval_seconds),
    {
        seconds_since_success > 5 * self.interval_seconds
    }
}

/// The health issues a node can surface.
#[derive(Clone, Copy, Debug, PartialEq, Eq, Structural)]
pub enum IssueKind {
    NotRegistered,
    Inactive,
    StaleHeartbeat,
    HighLatency,
    LowReputation,
}

/// A snapshot of the node's standing, derived from the registry record and
/// the observed network latency (in milliseconds).
pub struct HealthStatus {
    pub is_registered: bool,
    pub is_active: bool,
    pub network_latency_ms: u64,
    pub last_heartbeat_age_seconds: u64,
    pub reputation_score: u32,
    pub total_tasks_completed: u64,
    pub current_stake: String,
}

/// The issues `h` exhibits, in reporting order.
pub open spec fn spec_issues(h: HealthStatus) -> Seq<IssueKind> {
    (if h.is_registered {
        Seq::<IssueKind>::empty()
    } else {
        seq![IssueKind::NotRegistered]
    }) + (if h.is_active {
        Seq::<IssueKind>::empty()
    } else {
        seq![IssueKind::Inactive]
    }) + (if h.last_heartbeat_age_seconds > 300 {
        seq![IssueKind::StaleHeartbeat]
    } else {
        Seq::<IssueKind>::empty()
    }) + (if h.network_latency_ms > 10000 {
        seq![IssueKind::HighLatency]
    } else {
        Seq::<IssueKind>::empty()
    }) + (if h.reputation_score < 50 {
        seq![IssueKind::LowReputation]
    } else {
        Seq::<IssueKind>::empty()
    })
}

/// The human-readable description of one issue.
pub open spec fn spec_issue_message(k: IssueKind) -> Seq<char> {
    match k {
        IssueKind::NotRegistered => "Node not registered"@,
        IssueKind::Inactive => "Node marked as inactive"@,
        IssueKind::StaleHeartbeat => "Last heartbeat too old"@,
        IssueKind::HighLatency => "High network latency"@,
        IssueKind::LowReputation => "Low reputation score"@,
    }
}

/// The description of one issue.
pub fn issue_message(k: &IssueKind) -> (r: String)
    ensures
        r@ == spec_issue_message(*k),
{
    match k {
        IssueKind::NotRegistered => "Node not registered".to_owned(),
        IssueKind::Inactive => "Node marked as inactive".to_owned(),
        IssueKind::StaleHeartbeat => "Last heartbeat too old".to_owned(),
        IssueKind::HighLatency => "High network latency".to_owned(),
        IssueKind::LowReputation => "Low reputation score".to_owned(),
    }
}

impl HealthStatus {
    /// Healthy: registered, active, a heartbeat younger than five minutes,
    /// and latency under ten seconds.
    pub fn is_healthy(&self) -> (r: bool)
        ensures
            r == (self.is_registered && self.is_active && self.last_heartbeat_age_seconds < 300
                && self.network_latency_ms < 10000),
    {
        self.is_registered && self.is_active && self.last_heartbeat_age_seconds < 300
            && self.network_latency_ms < 10000
    }

    /// The list of issues, as enumerated kinds.
    pub fn get_issue_kinds(&self) -> (r: Vec<IssueKind>)
        ensures
            r@ == spec_issues(*self),
    {
        let mut out: Vec<IssueKind> = Vec::new();
        if !self.is_registered {
            out.push(IssueKind::NotRegistered);
        }
        if !self.is_active {
            out.push(IssueKind::Inactive);
        }
        if self.last_heartbeat_age_seconds > 300 {
            out.push(IssueKind::StaleHeartbeat);
        }
        if self.network_latency_ms > 10000 {
            out.push(IssueKind::HighLatency);
        }
        if self.reputation_score < 50 {
            out.push(IssueKind::LowReputation);
        }
        proof {
            assert(out@ =~= spec_issues(*self));
        }
        out
    }

    /// The list of issues, as messages.
    pub fn get_issues(&self) -> (r: Vec<String>)
        ensures
            r@.len() == spec_issues(*self).len(),
            forall|i: int|
                0 <= i < r@.len() ==> (#[trigger] r@[i])@ == spec_issue_message(
                    spec_issues(*self)[i],
                ),
    {
        let kinds = self.get_issue_kinds();
        let n = kinds.len();
        let mut out: Vec<String> = Vec::new();
        let mut k: usize = 0;
        while k < n
            invariant
                n == kinds@.len(),
                kinds@ == spec_issues(*self),
                0 <= k <= n,
                out@.len() == k,
                forall|i: int|
                    0 <= i < k ==> (#[trigger] out@[i])@ == spec_issue_message(kinds@[i]),
            decreases n - k,
        {
            out.push(issue_message(&kinds[k]));
            k = k + 1;
        }
        out
    }
}

/// The index of the first `.` in `b`, or −1 when there is none.
pub open spec fn dot_idx(b: Seq<u8>) -> int
    decreases b.len(),
{
    if b.len() == 0 {
        -1
    } else if b[0] == 0x2Eu8 {
        0
    } else {
        let r = dot_idx(b.drop_first());
        if r < 0 {
            -1
        } else {
            r + 1
        }
    }
}

/// The stake denoted by a decimal token string, in smallest (1e-24) units:
/// a digit string, optionally followed by `.` and 1 to 24 fraction digits.
pub open spec fn spec_stake_yocto(b: Seq<u8>) -> Option<int> {
    let d = dot_idx(b);
    if d < 0 {
        if b.len() > 0 && all_digits(b) && dec_value(b) * pow10(24) <= u128::MAX {
            Some(dec_value(b) * pow10(24))
        } else {
            None
        }
    } else {
        let whole = b.subrange(0, d);
        let frac = b.subrange(d + 1, b.len() as int);
        if whole.len() > 0 && all_digits(whole) && 1 <= frac.len() <= 24 && all_digits(frac)
            && dec_value(whole) * pow10(24) + dec_value(frac) * pow10((24 - frac.len()) as nat)
            <= u128::MAX {
            Some(
                dec_value(whole) * pow10(24) + dec_value(frac) * pow10((24 - frac.len()) as nat),
            )
        } else {
            None
        }
    }
}

/// Parses a configured stake such as `"1.5"` into smallest token units
/// (here, 1.5e24). Rejects anything but `digits` or `digits.digits` with
/// at most 24 fraction digits, and values beyond the 128-bit range.
pub fn parse_stake_amount(s: &str) -> (r: Option<u128>)
    ensures
        match r {
            Some(v) => spec_stake_yocto(s.spec_bytes()) == Some(v as int),
            None => spec_stake_yocto(s.spec_bytes()) is None,
        },
{
    let b = s.as_bytes();
    let dot = find_dot(b);
    proof {
        crate::strutil::lemma_pow10_24();
    }
    let scale: u128 = 1_000_000_000_000_000_000_000_000;
    match dot {
        None => {
            let whole = match crate::strutil::parse_u128_dec(b) {
                Some(v) => v,
                None => {
                    proof {
                        if b@.len() > 0 && all_digits(b@) {
                            crate::strutil::lemma_pow10_24();
                            assert(dec_value(b@) * pow10(24) > u128::MAX) by (nonlinear_arith)
                                requires
                                    dec_value(b@) > u128::MAX,
                                    pow10(24) >= 1_000_000_000_000_000_000_000_000int,
                            ;
                        }
                    }
                    return None;
                },
            };
            if whole > u128::MAX / scale {
                proof {
                    lemma_scale_overflow(dec_value(b@), scale as int);
                }
                return None;
            }
            proof {
                lemma_scale_fits(dec_value(b@), scale as int);
            }
            Some(whole * scale)
        },
        Some(d) => {
            proof {
                assert(b@.subrange(0, d as int) =~= b@.subrange(0, dot_idx(b@)));
            }
            let whole_part = match crate::strutil::parse_u128_dec(slice_range(b, 0, d)) {
                Some(v) => v,
                None => {
                    proof {
                        lemma_whole_overflow_rejects(b@, d as int);
                    }
                    return None;
                },
            };
            let bl = b.len();
            let frac_slice = slice_range(b, d + 1, bl);
            let frac_len = frac_slice.len();
            if frac_len < 1 || frac_len > 24 {
                return None;
            }
            let frac_part = match crate::strutil::parse_u128_dec(frac_slice) {
                Some(v) => v,
                None => {
                    proof {
                        let frac = b@.subrange(d + 1, b@.len() as int);
                        if all_digits(frac) && frac.len() > 0 {
                            crate::strutil::lemma_dec_value_bound(frac);
                            lemma_pow10_le_24(frac.len() as nat);
                            crate::strutil::lemma_pow10_24();
                        }
                    }
                    return None;
                },
            };
            if whole_part > u128::MAX / scale {
                proof {
                    lemma_scale_overflow(dec_value(b@.subrange(0, d as int)), scale as int);
                    let frac = b@.subrange(d + 1, b@.len() as int);
                    lemma_pow10_split_base((24 - frac.len()) as nat);
                    assert(dec_value(frac) * pow10((24 - frac.len()) as nat) >= 0)
                        by (nonlinear_arith)
                        requires
                            dec_value(frac) >= 0,
                            pow10((24 - frac.len()) as nat) > 0,
                    ;
                }
                return None;
            }
            proof {
                lemma_scale_fits(dec_value(b@.subrange(0, d as int)), scale as int);
                let frac = b@.subrange(d + 1, b@.len() as int);
                crate::strutil::lemma_dec_value_bound(frac);
                lemma_frac_scaled_lt_scale(dec_value(frac), frac.len() as nat);
                crate::strutil::lemma_pow10_24();
            }
            let base = whole_part * scale;
            let frac_scaled = frac_part * pow10_u128_frac(24 - frac_len as u32);
            if frac_scaled > u128::MAX - base {
                return None;
            }
            Some(base + frac_scaled)
        },
    }
}

/// Ten to the `n` for fraction scaling.
fn pow10_u128_frac(n: u32) -> (r: u128)
    requires
        n <= 24,
    ensures
        r == pow10(n as nat),
{
    crate::strutil::pow10_u128(n)
}

/// The position of the first `.` in `b`.
fn find_dot(b: &[u8]) -> (r: Option<usize>)
    ensures
        match r {
            Some(i) => 0 <= i < b@.len() && dot_idx(b@) == i as int,
            None => dot_idx(b@) < 0,
        },
{
    let n = b.len();
    let mut k: usize = 0;
    while k < n
        invariant
            n == b@.len(),
            0 <= k <= n,
            forall|j: int| 0 <= j < k ==> b@[j] != 0x2Eu8,
        decreases n - k,
    {
        if b[k] == 0x2E {
            proof {
                lemma_dot_idx_at(b@, k as int);
            }
            return Some(k);
        }
        k = k + 1;
    }
    proof {
        lemma_dot_idx_none(b@);
    }
    None
}

/// A sub-slice by index range.
fn slice_range<'a>(b: &'a [u8], from: usize, to: usize) -> (r: &'a [u8])
    requires
        0 <= from <= to <= b@.len(),
    ensures
        r@ == b@.subrange(from as int, to as int),
{
    &b[from..to]
}

/// Where the first dot sits.
proof fn lemma_dot_idx_at(b: Seq<u8>, k: int)
    requires
        0 <= k < b.len(),
        b[k] == 0x2Eu8,
        forall|j: int| 0 <= j < k ==> b[j] != 0x2Eu8,
    ensures
        dot_idx(b) == k,
    decreases k,
{
    if k > 0 {
        assert(b.drop_first()[k - 1] == b[k]);
        assert(forall|j: int| 0 <= j < k - 1 ==> b.drop_first()[j] == b[j + 1]);
        lemma_dot_idx_at(b.drop_first(), k - 1);
    }
}

/// A dotless sequence has no dot index.
proof fn lemma_dot_idx_none(b: Seq<u8>)
    requires
        forall|j: int| 0 <= j < b.len() ==> b[j] != 0x2Eu8,
    ensures
        dot_idx(b) < 0,
    decreases b.len(),
{
    if b.len() > 0 {
        assert(forall|j: int| 0 <= j < b.len() - 1 ==> b.drop_first()[j] == b[j + 1]);
        lemma_dot_idx_none(b.drop_first());
    }
}

/// Beyond the division bound, scaling overflows.
proof fn lemma_scale_overflow(v: nat, scale: int)
    requires
        scale > 0,
        v > u128::MAX as int / scale,
    ensures
        v * scale > u128::MAX,
{
    vstd::arithmetic::div_mod::lemma_fundamental_div_mod(u128::MAX as int, scale);
    assert(v * scale >= (u128::MAX as int / scale + 1) * scale) by (nonlinear_arith)
        requires
            v >= u128::MAX as int / scale + 1,
            scale > 0,
    ;
    assert((u128::MAX as int / scale + 1) * scale == (u128::MAX as int / scale) * scale + scale)
        by (nonlinear_arith);
    assert(u128::MAX as int % scale < scale);
}

/// Within the division bound, scaling fits.
proof fn lemma_scale_fits(v: nat, scale: int)
    requires
        scale > 0,
        v <= u128::MAX as int / scale,
    ensures
        v * scale <= u128::MAX,
{
    vstd::arithmetic::div_mod::lemma_fundamental_div_mod(u128::MAX as int, scale);
    assert(v * scale <= (u128::MAX as int / scale) * scale) by (nonlinear_arith)
        requires
            v <= u128::MAX as int / scale,
            scale > 0,
    ;
    assert(u128::MAX as int % scale >= 0);
}

/// A fraction of `d` digits scaled by `10^(24-d)` stays below `10^24`.
proof fn lemma_frac_scaled_lt_scale(v: nat, d: nat)
    requires
        1 <= d <= 24,
        v < pow10(d),
    ensures
        v * pow10((24 - d) as nat) < pow10(24),
        v * pow10((24 - d) as nat) >= 0,
{
    lemma_pow10_split(d, (24 - d) as nat);
    assert(v * pow10((24 - d) as nat) < pow10(d) * pow10((24 - d) as nat)) by (nonlinear_arith)
        requires
            v < pow10(d),
            pow10((24 - d) as nat) > 0,
    ;
    assert(v * pow10((24 - d) as nat) >= 0) by (nonlinear_arith)
        requires
            v >= 0,
            pow10((24 - d) as nat) > 0,
    ;
}

/// Powers of ten up to the 24th are bounded by the 24th.
proof fn lemma_pow10_le_24(n: nat)
    requires
        n <= 24,
    ensures
        pow10(n) <= pow10(24),
{
    lemma_pow10_split(n, (24 - n) as nat);
    assert(pow10(n) * pow10((24 - n) as nat) >= pow10(n)) by (nonlinear_arith)
        requires
            pow10(n) > 0,
            pow10((24 - n) as nat) >= 1,
    ;
}

/// `10^a * 10^b == 10^(a+b)`, and powers are positive.
proof fn lemma_pow10_split(a: nat, b: nat)
    ensures
        pow10(a) * pow10(b) == pow10((a + b) as nat),
        pow10(a) > 0,
        pow10(b) > 0,
    decreases a,
{
    if a == 0 {
        lemma_pow10_split_base(b);
    } else {
        lemma_pow10_split((a - 1) as nat, b);
        assert(pow10(a) * pow10(b) == 10 * (pow10((a - 1) as nat) * pow10(b)))
            by (nonlinear_arith)
            requires
                pow10(a) == 10 * pow10((a - 1) as nat),
        ;
    }
}

/// Powers of ten are positive.
proof fn lemma_pow10_split_base(b: nat)
    ensures
        pow10(b) > 0,
    decreases b,
{
    if b > 0 {
        lemma_pow10_split_base((b - 1) as nat);
    }
}

/// Rejecting an overlong whole part is sound: the scaled value would not
/// fit either.
proof fn lemma_whole_overflow_rejects(b: Seq<u8>, d: int)
    requires
        0 <= d < b.len(),
        dot_idx(b) == d,
        b.subrange(0, d).len() == 0 || !all_digits(b.subrange(0, d)) || dec_value(
            b.subrange(0, d),
        ) > u128::MAX,
    ensures
        spec_stake_yocto(b) is None,
{
    let whole = b.subrange(0, d);
    if whole.len() > 0 && all_digits(whole) {
        crate::strutil::lemma_pow10_24();
        let frac = b.subrange(d + 1, b.len() as int);
        assert(dec_value(whole) * pow10(24) > u128::MAX) by (nonlinear_arith)
            requires
                dec_value(whole) > u128::MAX,
                pow10(24) >= 1_000_000_000_000_000_000_000_000int,
        ;
        if 1 <= frac.len() <= 24 && all_digits(frac) {
            lemma_pow10_split_base((24 - frac.len()) as nat);
            assert(dec_value(frac) * pow10((24 - frac.len()) as nat) >= 0) by (nonlinear_arith)
                requires
                    dec_value(frac) >= 0,
                    pow10((24 - frac.len()) as nat) > 0,
            ;
        }
    }
}

} // verus!
