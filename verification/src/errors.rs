//! The typed errors every fallible operation of the library returns.
//!
//! The kinds are transport-independent: the coordinator, the token ledger,
//! the gateway middleware and the node agent all report failures through
//! this one enum, and a failed operation leaves state unchanged.

use vstd::prelude::*;

verus! {

/// A machine-readable error kind.
#[derive(Clone, Copy, Debug, PartialEq, Eq, Structural)]
pub enum ErrorKind {
    /// Input failed validation (empty, too long, malformed, out of range).
    BadRequest,
    /// Missing, invalid or expired credential.
    Unauthorized,
    /// Caller is inactive or lacks the privilege for this operation.
    Forbidden,
    /// The addressed record does not exist.
    NotFound,
    /// A uniqueness rule was broken (username, public IP, account).
    Conflict,
    /// The caller went over its rate limit.
    TooManyRequests,
    /// The coordinator is paused and refuses mutating operations.
    Paused,
    /// The attached stake is below the configured minimum.
    InsufficientStake,
    /// The attached payment or safety deposit is too small or not exact.
    InsufficientDeposit,
    /// The task exists but is not assigned to the caller.
    NotAssigned,
    /// The task is not in a state this operation accepts.
    TaskNotActive,
    /// The task's deadline has passed.
    TaskTimedOut,
    /// A token balance would underflow.
    InsufficientBalance,
    /// The account is not registered with the token ledger.
    NotRegistered,
    /// An unexpected failure in an outside component.
    Internal,
}

impl ErrorKind {
    /// A stable machine-readable code for this kind, as surfaced to clients.
    pub fn code(&self) -> (r: &'static str)
        ensures
            r@ == self.spec_code(),
    {
        match self {
            ErrorKind::BadRequest => "bad_request",
            ErrorKind::Unauthorized => "unauthorized",
            ErrorKind::Forbidden => "forbidden",
            ErrorKind::NotFound => "not_found",
            ErrorKind::Conflict => "conflict",
            ErrorKind::TooManyRequests => "too_many_requests",
            ErrorKind::Paused => "paused",
            ErrorKind::InsufficientStake => "insufficient_stake",
            ErrorKind::InsufficientDeposit => "insufficient_deposit",
            ErrorKind::NotAssigned => "not_assigned",
            ErrorKind::TaskNotActive => "task_not_active",
            ErrorKind::TaskTimedOut => "task_timed_out",
            ErrorKind::InsufficientBalance => "insufficient_balance",
            ErrorKind::NotRegistered => "not_registered",
            ErrorKind::Internal => "internal",
        }
    }

    /// What `code` returns for each kind.
    pub open spec fn spec_code(self) -> Seq<char> {
        match self {
            ErrorKind::BadRequest => "bad_request"@,
            ErrorKind::Unauthorized => "unauthorized"@,
            ErrorKind::Forbidden => "forbidden"@,
            ErrorKind::NotFound => "not_found"@,
            ErrorKind::Conflict => "conflict"@,
            ErrorKind::TooManyRequests => "too_many_requests"@,
            ErrorKind::Paused => "paused"@,
            ErrorKind::InsufficientStake => "insufficient_stake"@,
            ErrorKind::InsufficientDeposit => "insufficient_deposit"@,
            ErrorKind::NotAssigned => "not_assigned"@,
            ErrorKind::TaskNotActive => "task_not_active"@,
            ErrorKind::TaskTimedOut => "task_timed_out"@,
            ErrorKind::InsufficientBalance => "insufficient_balance"@,
            ErrorKind::NotRegistered => "not_registered"@,
            ErrorKind::Internal => "internal"@,
        }
    }

    /// The HTTP status the gateway maps this kind to.
    pub fn http_status(&self) -> (r: u16)
        ensures
            r == self.spec_http_status(),
    {
        match self {
            ErrorKind::BadRequest => 400,
            ErrorKind::Unauthorized => 401,
            ErrorKind::Forbidden => 403,
            ErrorKind::NotFound => 404,
            ErrorKind::Conflict => 409,
            ErrorKind::TooManyRequests => 429,
            ErrorKind::Paused => 503,
            ErrorKind::InsufficientStake => 400,
            ErrorKind::InsufficientDeposit => 400,
            ErrorKind::NotAssigned => 403,
            ErrorKind::TaskNotActive => 400,
            ErrorKind::TaskTimedOut => 400,
            ErrorKind::InsufficientBalance => 400,
            ErrorKind::NotRegistered => 404,
            ErrorKind::Internal => 500,
        }
    }

    /// What `http_status` returns for each kind.
    pub open spec fn spec_http_status(self) -> u16 {
        match self {
            ErrorKind::BadRequest => 400u16,
            ErrorKind::Unauthorized => 401u16,
            ErrorKind::Forbidden => 403u16,
            ErrorKind::NotFound => 404u16,
            ErrorKind::Conflict => 409u16,
            ErrorKind::TooManyRequests => 429u16,
            ErrorKind::Paused => 503u16,
            ErrorKind::InsufficientStake => 400u16,
            ErrorKind::InsufficientDeposit => 400u16,
            ErrorKind::NotAssigned => 403u16,
            ErrorKind::TaskNotActive => 400u16,
            ErrorKind::TaskTimedOut => 400u16,
            ErrorKind::InsufficientBalance => 400u16,
            ErrorKind::NotRegistered => 404u16,
            ErrorKind::Internal => 500u16,
        }
    }
}

} // verus!
