//! Gateway configuration: the settings the service runs with, and the
//! validation rules they must satisfy. Loading from the environment is the
//! host program's job; this module owns the shape and the checks.

use vstd::prelude::*;

use crate::errors::ErrorKind;
use crate::strutil::blen;

verus! {

/// Connection details for the coordinator chain.
pub struct NearConfig {
    pub network_id: String,
    pub contract_account_id: String,
    pub rpc_url: String,
    pub wallet_url: String,
    pub explorer_url: String,
}

/// Gateway-level throttling knobs.
#[derive(Clone, Copy, Debug, PartialEq, Eq, Structural)]
pub struct RateLimitConfig {
    pub requests_per_minute: u32,
    pub requests_per_hour: u32,
    pub max_concurrent_tasks: u32,
    pub task_submission_cooldown_seconds: u64,
}

/// Administrative settings.
pub struct AdminConfig {
    pub admin_accounts: Vec<String>,
    pub metrics_retention_days: u32,
}

/// The gateway's full configuration.
pub struct AppConfig {
    pub port: u16,
    pub database_url: String,
    pub redis_url: String,
    pub jwt_secret: String,
    pub near: NearConfig,
    pub rate_limits: RateLimitConfig,
    pub admin: AdminConfig,
}

/// Some configured admin account equals `id`.
pub open spec fn spec_is_admin_account(accounts: Seq<String>, id: Seq<char>) -> bool {
    exists|i: int| 0 <= i < accounts.len() && #[trigger] accounts[i]@ == id
}

impl AppConfig {
    /// The configuration is usable: the signing secret has at least 32
    /// bytes, a coordinator account is named, and the per-minute rate
    /// limit is positive.
    pub fn validate(&self) -> (r: Result<(), ErrorKind>)
        ensures
            r is Ok <==> blen(self.jwt_secret@) >= 32 && self.near.contract_account_id@.len() > 0
                && self.rate_limits.requests_per_minute > 0,
            r is Err ==> r->Err_0 == ErrorKind::BadRequest,
    {
        if crate::strutil::str_blen(self.jwt_secret.as_str()) < 32 {
            return Err(ErrorKind::BadRequest);
        }
        if self.near.contract_account_id.as_str().is_empty() {
            return Err(ErrorKind::BadRequest);
        }
        if self.rate_limits.requests_per_minute == 0 {
            return Err(ErrorKind::BadRequest);
        }
        Ok(())
    }

    /// Whether `account_id` is one of the configured admin accounts.
    pub fn is_admin_account(&self, account_id: &str) -> (r: bool)
        ensures
            r == spec_is_admin_account(self.admin.admin_accounts@, account_id@),
    {
        let n = self.admin.admin_accounts.len();
        let mut k: usize = 0;
        while k < n
            invariant
                n == self.admin.admin_accounts@.len(),
                0 <= k <= n,
                forall|j: int|
                    0 <= j < k ==> #[trigger] self.admin.admin_accounts@[j]@ != account_id@,
            decreases n - k,
        {
            if crate::strutil::str_eq(self.admin.admin_accounts[k].as_str(), account_id) {
                proof {
                    assert(self.admin.admin_accounts@[k as int]@ == account_id@);
                }
                return true;
            }
            k = k + 1;
        }
        false
    }
}

} // verus!
