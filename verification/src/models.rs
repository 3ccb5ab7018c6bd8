//! Gateway data model: users, API keys, task mirrors, request validation
//! and pagination.
//!
//! Identifiers that the storage layer keeps as UUIDs are carried here as
//! their 128-bit values; wall-clock times are unix timestamps in seconds.

use vstd::prelude::*;

use crate::errors::ErrorKind;
use crate::strutil::blen;

verus! {

/// A gateway user account.
pub struct User {
    pub id: u128,
    pub near_account_id: Option<String>,
    pub email: Option<String>,
    pub username: String,
    pub password_hash: Option<String>,
    pub is_active: bool,
    pub is_admin: bool,
    pub created_at: u64,
    pub updated_at: u64,
    pub last_login_at: Option<u64>,
}

/// An exact copy of an optional string.
fn copy_opt_string(o: &Option<String>) -> (r: Option<String>)
    ensures
        crate::types::opt_view(r) == crate::types::opt_view(*o),
{
    match o {
        Some(s) => Some(s.clone()),
        None => None,
    }
}

impl Clone for User {
    /// An exact copy.
    fn clone(&self) -> (res: Self)
        ensures
            res.id == self.id,
            crate::types::opt_view(res.near_account_id) == crate::types::opt_view(
                self.near_account_id,
            ),
            crate::types::opt_view(res.email) == crate::types::opt_view(self.email),
            res.username@ == self.username@,
            crate::types::opt_view(res.password_hash) == crate::types::opt_view(
                self.password_hash,
            ),
            res.is_active == self.is_active,
            res.is_admin == self.is_admin,
            res.created_at == self.created_at,
            res.updated_at == self.updated_at,
            res.last_login_at == self.last_login_at,
    {
        User {
            id: self.id,
            near_account_id: copy_opt_string(&self.near_account_id),
            email: copy_opt_string(&self.email),
            username: self.username.clone(),
            password_hash: copy_opt_string(&self.password_hash),
            is_active: self.is_active,
            is_admin: self.is_admin,
            created_at: self.created_at,
            updated_at: self.updated_at,
            last_login_at: self.last_login_at,
        }
    }
}

/// The public shape of a user, as returned with auth responses.
pub struct UserProfile {
    pub id: u128,
    pub username: String,
    pub email: Option<String>,
    pub near_account_id: Option<String>,
    pub is_admin: bool,
    pub created_at: u64,
}

/// The profile of `user`.
pub fn user_profile(user: &User) -> (r: UserProfile)
    ensures
        r.id == user.id,
        r.username@ == user.username@,
        crate::types::opt_view(r.email) == crate::types::opt_view(user.email),
        crate::types::opt_view(r.near_account_id) == crate::types::opt_view(user.near_account_id),
        r.is_admin == user.is_admin,
        r.created_at == user.created_at,
{
    UserProfile {
        id: user.id,
        username: user.username.clone(),
        email: copy_opt_string(&user.email),
        near_account_id: copy_opt_string(&user.near_account_id),
        is_admin: user.is_admin,
        created_at: user.created_at,
    }
}

/// A registration request.
pub struct CreateUserRequest {
    pub username: String,
    pub email: Option<String>,
    pub password: String,
    pub near_account_id: Option<String>,
}

/// A password login request.
pub struct LoginRequest {
    pub username: String,
    pub password: String,
}

/// A wallet-signature login request.
pub struct NearWalletLoginRequest {
    pub account_id: String,
    pub public_key: String,
    pub signature: String,
    pub message: String,
}

/// A successful authentication: a bearer token and the user it names.
pub struct AuthResponse {
    pub access_token: String,
    pub token_type: String,
    pub expires_in: u64,
    pub user: UserProfile,
}

/// An issued API key record.
pub struct ApiKey {
    pub id: u128,
    pub user_id: u128,
    pub name: String,
    pub key_hash: String,
    pub prefix: String,
    pub is_active: bool,
    pub rate_limit_override: Option<i32>,
    pub created_at: u64,
    pub last_used_at: Option<u64>,
    pub expires_at: Option<u64>,
}

impl ApiKey {
    /// An API key is usable at `now` iff it is active and strictly before
    /// its expiry: a key exactly at its expiry time is invalid.
    pub fn is_valid_at(&self, now: u64) -> (r: bool)
        ensures
            r == (self.is_active && (self.expires_at is None || now < self.expires_at->0)),
    {
        self.is_active && match self.expires_at {
            Some(t) => now < t,
            None => true,
        }
    }
}

/// A request to create an API key.
pub struct CreateApiKeyRequest {
    pub name: String,
    pub rate_limit_override: Option<i32>,
    pub expires_in_days: Option<i32>,
}

/// The response for a created or listed API key; the bearer token itself
/// is present only on creation.
pub struct ApiKeyResponse {
    pub id: u128,
    pub name: String,
    pub prefix: String,
    pub key: Option<String>,
    pub is_active: bool,
    pub created_at: u64,
    pub last_used_at: Option<u64>,
    pub expires_at: Option<u64>,
}

/// The gateway's lifecycle states for mirrored tasks.
#[derive(Clone, Copy, Debug, PartialEq, Eq, Structural)]
pub enum TaskStatus {
    Pending,
    Submitted,
    Assigned,
    InProgress,
    Completed,
    Failed,
    Cancelled,
    Expired,
}

impl TaskStatus {
    /// A task in a terminal state cannot be cancelled.
    pub fn is_cancellable(&self) -> (r: bool)
        ensures
            r == !(*self is Completed || *self is Failed || *self is Cancelled),
    {
        !(matches!(self, TaskStatus::Completed | TaskStatus::Failed | TaskStatus::Cancelled))
    }
}

/// The gateway's mirror of one submitted task.
pub struct Task {
    pub id: u128,
    pub user_id: u128,
    pub contract_task_id: Option<i64>,
    pub task_type: String,
    pub model_name: String,
    pub input_data: String,
    pub parameters: Option<String>,
    pub status: TaskStatus,
    pub priority: i32,
    pub estimated_cost: String,
    pub actual_cost: Option<String>,
    pub assigned_node_id: Option<String>,
    pub result_data: Option<String>,
    pub proof_hash: Option<String>,
    pub error_message: Option<String>,
    pub created_at: u64,
    pub started_at: Option<u64>,
    pub completed_at: Option<u64>,
    pub expires_at: u64,
}

/// A task submission through the gateway.
pub struct SubmitTaskRequest {
    pub task_type: String,
    pub model_name: String,
    pub input_data: String,
    pub parameters: Option<String>,
    pub priority: Option<i32>,
    pub max_cost: Option<String>,
}

/// Validates a submission: task type 1–50 bytes, model name 1–200 bytes,
/// input 1–50000 bytes.
pub fn validate_submit_task_request(req: &SubmitTaskRequest) -> (r: Result<(), ErrorKind>)
    ensures
        r is Ok <==> 1 <= blen(req.task_type@) <= 50 && 1 <= blen(req.model_name@) <= 200 && 1
            <= blen(req.input_data@) <= 50000,
        r is Err ==> r->Err_0 == ErrorKind::BadRequest,
{
    let tt = crate::strutil::str_blen(req.task_type.as_str());
    if tt < 1 || tt > 50 {
        return Err(ErrorKind::BadRequest);
    }
    let mn = crate::strutil::str_blen(req.model_name.as_str());
    if mn < 1 || mn > 200 {
        return Err(ErrorKind::BadRequest);
    }
    let ind = crate::strutil::str_blen(req.input_data.as_str());
    if ind < 1 || ind > 50000 {
        return Err(ErrorKind::BadRequest);
    }
    Ok(())
}

/// Validates a registration: username 3–50 bytes, password at least 8.
pub fn validate_create_user_request(req: &CreateUserRequest) -> (r: Result<(), ErrorKind>)
    ensures
        r is Ok <==> 3 <= blen(req.username@) <= 50 && blen(req.password@) >= 8,
        r is Err ==> r->Err_0 == ErrorKind::BadRequest,
{
    let ul = crate::strutil::str_blen(req.username.as_str());
    if ul < 3 || ul > 50 {
        return Err(ErrorKind::BadRequest);
    }
    if crate::strutil::str_blen(req.password.as_str()) < 8 {
        return Err(ErrorKind::BadRequest);
    }
    Ok(())
}

/// Validates an API-key creation request: name 1–100 bytes.
pub fn validate_create_api_key_request(req: &CreateApiKeyRequest) -> (r: Result<(), ErrorKind>)
    ensures
        r is Ok <==> 1 <= blen(req.name@) <= 100,
        r is Err ==> r->Err_0 == ErrorKind::BadRequest,
{
    let nl = crate::strutil::str_blen(req.name.as_str());
    if nl < 1 || nl > 100 {
        return Err(ErrorKind::BadRequest);
    }
    Ok(())
}

/// The public shape of one mirrored task.
pub struct TaskResponse {
    pub id: u128,
    pub task_type: String,
    pub model_name: String,
    pub status: TaskStatus,
    pub priority: i32,
    pub estimated_cost: String,
    pub actual_cost: Option<String>,
    pub assigned_node_id: Option<String>,
    pub created_at: u64,
    pub started_at: Option<u64>,
    pub completed_at: Option<u64>,
    pub expires_at: u64,
}

/// The public response shape of `task`.
pub fn task_response(task: &Task) -> (r: TaskResponse)
    ensures
        r.id == task.id,
        r.task_type@ == task.task_type@,
        r.model_name@ == task.model_name@,
        r.status == task.status,
        r.priority == task.priority,
        r.estimated_cost@ == task.estimated_cost@,
        crate::types::opt_view(r.actual_cost) == crate::types::opt_view(task.actual_cost),
        crate::types::opt_view(r.assigned_node_id) == crate::types::opt_view(
            task.assigned_node_id,
        ),
        r.created_at == task.created_at,
        r.started_at == task.started_at,
        r.completed_at == task.completed_at,
        r.expires_at == task.expires_at,
{
    TaskResponse {
        id: task.id,
        task_type: task.task_type.clone(),
        model_name: task.model_name.clone(),
        status: task.status,
        priority: task.priority,
        estimated_cost: task.estimated_cost.clone(),
        actual_cost: copy_opt_string(&task.actual_cost),
        assigned_node_id: copy_opt_string(&task.assigned_node_id),
        created_at: task.created_at,
        started_at: task.started_at,
        completed_at: task.completed_at,
        expires_at: task.expires_at,
    }
}

/// The gateway's public view of one operator node.
pub struct NodeInfo {
    pub account_id: String,
    pub public_ip: String,
    pub gpu_specs: String,
    pub cpu_specs: String,
    pub api_endpoint: String,
    pub is_active: bool,
    pub last_heartbeat: u64,
    pub total_tasks_completed: u64,
    pub reputation_score: u32,
    pub stake_amount: String,
}

/// Aggregated usage of one user.
pub struct UserUsageStats {
    pub user_id: u128,
    pub total_tasks: i64,
    pub completed_tasks: i64,
    pub failed_tasks: i64,
    pub total_cost: String,
    pub current_month_tasks: i64,
    pub current_month_cost: String,
}

/// The base price of one task type, in smallest token units.
pub open spec fn spec_base_cost(task_type: Seq<char>) -> u128 {
    if task_type == "inference"@ {
        10_000_000_000_000_000_000_000u128
    } else if task_type == "text_generation"@ {
        50_000_000_000_000_000_000_000u128
    } else if task_type == "classification"@ {
        20_000_000_000_000_000_000_000u128
    } else if task_type == "embedding"@ {
        15_000_000_000_000_000_000_000u128
    } else {
        25_000_000_000_000_000_000_000u128
    }
}

/// The estimated cost of a task: the type's base price, scaled up
/// proportionally once the input exceeds a kilobyte.
pub open spec fn spec_estimate_cost(task_type: Seq<char>, input_len: nat) -> int {
    if input_len <= 1000 {
        spec_base_cost(task_type) as int
    } else {
        spec_base_cost(task_type) * input_len / 1000
    }
}

/// Estimates what a submission will cost, from its task type and input
/// size. The input must already have passed validation (at most 50000
/// bytes), which keeps the scaled price within range.
pub fn estimate_task_cost(request: &SubmitTaskRequest) -> (r: u128)
    requires
        blen(request.input_data@) <= 50000,
    ensures
        r == spec_estimate_cost(request.task_type@, blen(request.input_data@)),
        r > 0,
{
    let base: u128 = if crate::strutil::str_eq(request.task_type.as_str(), "inference") {
        10_000_000_000_000_000_000_000
    } else if crate::strutil::str_eq(request.task_type.as_str(), "text_generation") {
        50_000_000_000_000_000_000_000
    } else if crate::strutil::str_eq(request.task_type.as_str(), "classification") {
        20_000_000_000_000_000_000_000
    } else if crate::strutil::str_eq(request.task_type.as_str(), "embedding") {
        15_000_000_000_000_000_000_000
    } else {
        25_000_000_000_000_000_000_000
    };
    let len = crate::strutil::str_blen(request.input_data.as_str());
    if len <= 1000 {
        base
    } else {
        proof {
            vstd::arithmetic::mul::lemma_mul_upper_bound(
                base as int,
                50_000_000_000_000_000_000_000int,
                len as int,
                50000int,
            );
            vstd::arithmetic::div_mod::lemma_div_is_ordered(
                1000int,
                base * len as int,
                1000int,
            );
        }
        base * (len as u128) / 1000
    }
}

/// The result payload for a finished task.
pub struct TaskResultResponse {
    pub task_id: u128,
    pub status: TaskStatus,
    pub result_data: Option<String>,
    pub proof_hash: Option<String>,
    pub error_message: Option<String>,
    pub execution_time_ms: Option<i64>,
    pub completed_at: Option<u64>,
}

/// A structured error payload.
pub struct ErrorResponse {
    pub error: String,
    pub message: String,
    pub code: Option<String>,
    pub details: Option<String>,
}

/// Client-supplied pagination parameters.
pub struct PaginationQuery {
    pub page: Option<u32>,
    pub limit: Option<u32>,
    pub sort_by: Option<String>,
    pub sort_order: Option<String>,
}

/// Pagination metadata of one response page.
#[derive(Clone, Copy, Debug, PartialEq, Eq, Structural)]
pub struct PaginationInfo {
    pub page: u32,
    pub limit: u32,
    pub total: u64,
    pub total_pages: u32,
    pub has_next: bool,
    pub has_prev: bool,
}

/// One page of results.
pub struct PaginatedResponse<T> {
    pub data: Vec<T>,
    pub pagination: PaginationInfo,
}

/// The normalized page: at least 1, defaulting to 1.
pub open spec fn spec_norm_page(page: Option<u32>) -> u32 {
    match page {
        Some(p) => if p < 1 {
            1u32
        } else {
            p
        },
        None => 1u32,
    }
}

/// The normalized page size: clamped to `[1, 100]`, defaulting to 20.
pub open spec fn spec_norm_limit(limit: Option<u32>) -> u32 {
    match limit {
        Some(l) => if l < 1 {
            1u32
        } else if l > 100 {
            100u32
        } else {
            l
        },
        None => 20u32,
    }
}

/// How many pages `total` records fill at `limit` per page, capped at
/// `u32::MAX`.
pub open spec fn spec_total_pages(total: u64, limit: u32) -> u32
    recommends
        limit >= 1,
{
    let pages = total / (limit as u64) + if total % (limit as u64) == 0 {
        0int
    } else {
        1int
    };
    if pages > u32::MAX {
        u32::MAX
    } else {
        pages as u32
    }
}

impl PaginationQuery {
    /// The effective page and page size: page at least 1, size in
    /// `[1, 100]` with default 20.
    pub fn normalize(&self) -> (r: (u32, u32))
        ensures
            r.0 == spec_norm_page(self.page),
            r.1 == spec_norm_limit(self.limit),
    {
        let page = match self.page {
            Some(p) => if p < 1 {
                1
            } else {
                p
            },
            None => 1,
        };
        let limit = match self.limit {
            Some(l) => if l < 1 {
                1
            } else if l > 100 {
                100
            } else {
                l
            },
            None => 20,
        };
        (page, limit)
    }

    /// The record offset of the normalized page, saturating at `u32::MAX`.
    pub fn offset(&self) -> (r: u32)
        ensures
            r == vstd::math::min(
                (spec_norm_page(self.page) - 1) * spec_norm_limit(self.limit),
                u32::MAX as int,
            ),
    {
        let (page, limit) = self.normalize();
        proof {
            assert(page >= 1);
            vstd::arithmetic::mul::lemma_mul_upper_bound(
                (page - 1) as int,
                0xffff_ffffint,
                limit as int,
                0xffff_ffffint,
            );
        }
        let wide = ((page - 1) as u64) * (limit as u64);
        if wide > u32::MAX as u64 {
            u32::MAX
        } else {
            wide as u32
        }
    }
}

impl<T> PaginatedResponse<T> {
    /// Packs one page with its metadata: the page count is the ceiling of
    /// `total / limit`, and the next/previous flags follow from the page
    /// number.
    pub fn new(data: Vec<T>, page: u32, limit: u32, total: u64) -> (r: PaginatedResponse<T>)
        requires
            limit >= 1,
        ensures
            r.data == data,
            r.pagination == (PaginationInfo {
                page: page,
                limit: limit,
                total: total,
                total_pages: spec_total_pages(total, limit),
                has_next: page < spec_total_pages(total, limit),
                has_prev: page > 1,
            }),
    {
        let full = total / (limit as u64);
        let pages64 = if total % (limit as u64) == 0 {
            full
        } else if full == u64::MAX {
            u64::MAX
        } else {
            full + 1
        };
        let total_pages = if pages64 > u32::MAX as u64 {
            u32::MAX
        } else {
            pages64 as u32
        };
        PaginatedResponse {
            data,
            pagination: PaginationInfo {
                page,
                limit,
                total,
                total_pages,
                has_next: page < total_pages,
                has_prev: page > 1,
            },
        }
    }
}

} // verus!
