//! Tests of the gateway pieces: rate limiting, routing, access control,
//! configuration and pagination.

use compute_deai::config::{AdminConfig, AppConfig, NearConfig, RateLimitConfig as GwRateLimits};
use compute_deai::errors::ErrorKind;
use compute_deai::gateway::{
    bearer_token, check_task_quota, check_user_access, is_public_route, require_admin,
    AuthenticatedUser,
};
use compute_deai::models::{
    estimate_task_cost, ApiKey, PaginatedResponse, PaginationQuery, SubmitTaskRequest, TaskStatus,
    User,
};
use compute_deai::rate_limit::{
    allowed_info, burst_check, window_check, RateLimitConfig, RateLimitInfo, RateLimiter, UserTier,
};

fn test_user(id: u128, admin: bool) -> User {
    User {
        id,
        near_account_id: None,
        email: None,
        username: format!("user{}", id),
        password_hash: None,
        is_active: true,
        is_admin: admin,
        created_at: 0,
        updated_at: 0,
        last_login_at: None,
    }
}

#[test]
fn test_tier_configs() {
    assert_eq!(UserTier::free().rate_limit.requests_per_minute, 30);
    assert_eq!(UserTier::free().rate_limit.requests_per_day, 2000);
    assert_eq!(UserTier::pro().rate_limit.requests_per_hour, 5000);
    assert_eq!(UserTier::enterprise().rate_limit.burst_limit, 50);

    let limiter = RateLimiter::new();
    assert_eq!(limiter.get_user_tier_config("free").requests_per_minute, 30);
    assert_eq!(limiter.get_user_tier_config("pro").requests_per_minute, 120);
    assert_eq!(
        limiter.get_user_tier_config("enterprise").requests_per_minute,
        600
    );
    assert_eq!(
        limiter.get_user_tier_config("unknown").requests_per_minute,
        60
    );
    assert_eq!(limiter.get_ip_rate_limit_config().requests_per_minute, 100);
}

#[test]
fn test_window_and_burst_checks() {
    // under the limit: allowed; over it: denied with the bucket's reset
    assert!(window_check(60, 60, 60, 130).is_none());
    let denied = window_check(61, 60, 60, 130).unwrap();
    assert_eq!(denied.remaining, 0);
    assert_eq!(denied.reset_time, 180);
    assert_eq!(denied.retry_after, Some(50));

    assert!(burst_check(10, 10, 0).is_none());
    let denied = burst_check(11, 10, 100).unwrap();
    assert_eq!(denied.reset_time, 160);
    assert_eq!(denied.retry_after, Some(60));
}

#[test]
fn test_allowed_info_remaining_monotone() {
    // successive calls within one bucket only shrink the remaining count
    let cfg = RateLimitConfig {
        requests_per_minute: 10,
        requests_per_hour: 100,
        requests_per_day: 1000,
        burst_limit: 5,
    };
    let first = allowed_info(&cfg, 1, 1, 1, 0);
    let second = allowed_info(&cfg, 2, 2, 2, 0);
    assert_eq!(first.remaining, 9);
    assert_eq!(second.remaining, 8);
    assert!(second.remaining <= first.remaining);
}

#[test]
fn test_ip_tier_101st_request_denied() {
    // an unauthenticated caller from one IP makes 101 requests within one
    // 60-second window under the `ip` tier: the 101st is denied, with a
    // retry hint of at most a minute
    let mut limiter = RateLimiter::new();
    let cfg = limiter.get_ip_rate_limit_config();
    let id = "ip:1.2.3.4";

    for _ in 0..100 {
        let info = limiter.check_memory_rate_limit(id, &cfg, 1000);
        assert!(info.retry_after.is_none());
    }
    let info = limiter.check_memory_rate_limit(id, &cfg, 1000);
    assert_eq!(info.remaining, 0);
    let retry = info.retry_after.unwrap();
    assert!(retry <= 60);
}

#[test]
fn test_memory_fallback_hour_window() {
    let mut limiter = RateLimiter::new();
    let cfg = RateLimitConfig {
        requests_per_minute: 1000,
        requests_per_hour: 3,
        requests_per_day: 10,
        burst_limit: 10,
    };
    // three quick requests pass; the fourth trips the hour window
    assert!(limiter.check_memory_rate_limit("u", &cfg, 0).retry_after.is_none());
    assert!(limiter.check_memory_rate_limit("u", &cfg, 61).retry_after.is_none());
    assert!(limiter.check_memory_rate_limit("u", &cfg, 122).retry_after.is_none());
    let denied = limiter.check_memory_rate_limit("u", &cfg, 183);
    assert_eq!(denied.retry_after, Some(3600));
    // an hour later the old entries have aged out
    let ok = limiter.check_memory_rate_limit("u", &cfg, 4000);
    assert!(ok.retry_after.is_none());
}

#[test]
fn test_is_public_route() {
    assert!(is_public_route("/health"));
    assert!(is_public_route("/api/v1/auth/register"));
    assert!(is_public_route("/api/v1/auth/login"));
    assert!(is_public_route("/api/v1/auth/near-login"));
    assert!(is_public_route("/api/v1/network/stats"));
    assert!(is_public_route("/api/v1/nodes"));
    assert!(is_public_route("/api/v1/nodes/alice.testnet"));
    assert!(!is_public_route("/api/v1/nodes/x/admin/stats"));
    assert!(!is_public_route("/api/v1/tasks"));
    assert!(!is_public_route("/api/v1/user/profile"));
    assert!(!is_public_route("/"));
}

#[test]
fn test_bearer_token() {
    assert_eq!(bearer_token("Bearer abc.def.ghi"), Some("abc.def.ghi"));
    assert_eq!(bearer_token("Basic abc"), None);
    assert_eq!(bearer_token("bearer abc"), None);
    assert_eq!(bearer_token(""), None);
}

#[test]
fn test_access_control() {
    let admin = AuthenticatedUser {
        user: test_user(1, true),
        is_api_key: false,
    };
    let plain = AuthenticatedUser {
        user: test_user(2, false),
        is_api_key: false,
    };

    assert!(require_admin(&admin).is_ok());
    assert_eq!(require_admin(&plain), Err(ErrorKind::Forbidden));

    assert!(check_user_access(&plain, 2).is_ok());
    assert_eq!(check_user_access(&plain, 3), Err(ErrorKind::Forbidden));
    assert!(check_user_access(&admin, 3).is_ok());
}

#[test]
fn test_cancellable_statuses() {
    assert!(TaskStatus::Pending.is_cancellable());
    assert!(TaskStatus::Assigned.is_cancellable());
    assert!(TaskStatus::InProgress.is_cancellable());
    assert!(!TaskStatus::Completed.is_cancellable());
    assert!(!TaskStatus::Failed.is_cancellable());
    assert!(!TaskStatus::Cancelled.is_cancellable());
}

#[test]
fn test_api_key_expiry_boundary() {
    // a key exactly at its expiry is invalid; one second earlier it is
    // still good
    let key = ApiKey {
        id: 1,
        user_id: 1,
        name: "k".to_string(),
        key_hash: "h".to_string(),
        prefix: "p".to_string(),
        is_active: true,
        rate_limit_override: None,
        created_at: 0,
        last_used_at: None,
        expires_at: Some(1000),
    };
    assert!(key.is_valid_at(999));
    assert!(!key.is_valid_at(1000));
    assert!(!key.is_valid_at(1001));

    let inactive = ApiKey {
        is_active: false,
        ..key
    };
    assert!(!inactive.is_valid_at(0));
}

#[test]
fn test_app_config_validation() {
    let config = AppConfig {
        port: 3000,
        database_url: "sqlite:deai_gateway.db".to_string(),
        redis_url: "redis://localhost:6379".to_string(),
        jwt_secret: "0123456789abcdef0123456789abcdef".to_string(),
        near: NearConfig {
            network_id: "testnet".to_string(),
            contract_account_id: "deai-compute.testnet".to_string(),
            rpc_url: "https://rpc.testnet.near.org".to_string(),
            wallet_url: "https://testnet.mynearwallet.com".to_string(),
            explorer_url: "https://testnet.nearblocks.io".to_string(),
        },
        rate_limits: GwRateLimits {
            requests_per_minute: 60,
            requests_per_hour: 1000,
            max_concurrent_tasks: 10,
            task_submission_cooldown_seconds: 5,
        },
        admin: AdminConfig {
            admin_accounts: vec!["admin.testnet".to_string()],
            metrics_retention_days: 30,
        },
    };
    assert!(config.validate().is_ok());
    assert!(config.is_admin_account("admin.testnet"));
    assert!(!config.is_admin_account("someone.testnet"));

    let mut short_secret = config;
    short_secret.jwt_secret = "too-short".to_string();
    assert_eq!(short_secret.validate(), Err(ErrorKind::BadRequest));
}

#[test]
fn test_pagination() {
    let q = PaginationQuery {
        page: None,
        limit: None,
        sort_by: None,
        sort_order: None,
    };
    assert_eq!(q.normalize(), (1, 20));
    assert_eq!(q.offset(), 0);

    let q = PaginationQuery {
        page: Some(3),
        limit: Some(250),
        sort_by: None,
        sort_order: None,
    };
    assert_eq!(q.normalize(), (3, 100));
    assert_eq!(q.offset(), 200);

    let q = PaginationQuery {
        page: Some(0),
        limit: Some(0),
        sort_by: None,
        sort_order: None,
    };
    assert_eq!(q.normalize(), (1, 1));

    let page: PaginatedResponse<u32> = PaginatedResponse::new(vec![1, 2, 3], 1, 20, 41);
    assert_eq!(page.pagination.total_pages, 3);
    assert!(page.pagination.has_next);
    assert!(!page.pagination.has_prev);

    let page: PaginatedResponse<u32> = PaginatedResponse::new(vec![], 3, 20, 41);
    assert_eq!(page.pagination.total_pages, 3);
    assert!(!page.pagination.has_next);
    assert!(page.pagination.has_prev);
}

#[test]
fn test_check_rate_limit_prefers_primary() {
    let mut limiter = RateLimiter::new();
    let cfg = limiter.get_ip_rate_limit_config();
    let primary = RateLimitInfo {
        limit: 100,
        remaining: 7,
        reset_time: 60,
        retry_after: None,
    };
    // a primary outcome is passed through untouched
    let out = limiter.check_rate_limit("ip:1.2.3.4", &cfg, Some(primary), 0);
    assert_eq!(out, primary);
    // without one, the fallback records and decides
    let out = limiter.check_rate_limit("ip:1.2.3.4", &cfg, None, 0);
    assert_eq!(out.limit, 100);
    assert_eq!(out.remaining, 99);
}

fn cost_request(task_type: &str, input: String) -> SubmitTaskRequest {
    SubmitTaskRequest {
        task_type: task_type.to_string(),
        model_name: "m".to_string(),
        input_data: input,
        parameters: None,
        priority: None,
        max_cost: None,
    }
}

#[test]
fn test_estimate_task_cost() {
    let base: u128 = 10_000_000_000_000_000_000_000;
    assert_eq!(estimate_task_cost(&cost_request("inference", "hi".to_string())), base);
    assert_eq!(
        estimate_task_cost(&cost_request("text_generation", "hi".to_string())),
        50_000_000_000_000_000_000_000
    );
    assert_eq!(
        estimate_task_cost(&cost_request("classification", "hi".to_string())),
        20_000_000_000_000_000_000_000
    );
    assert_eq!(
        estimate_task_cost(&cost_request("embedding", "hi".to_string())),
        15_000_000_000_000_000_000_000
    );
    assert_eq!(
        estimate_task_cost(&cost_request("something", "hi".to_string())),
        25_000_000_000_000_000_000_000
    );
    // the price scales with inputs beyond a kilobyte
    assert_eq!(estimate_task_cost(&cost_request("inference", "x".repeat(1000))), base);
    assert_eq!(
        estimate_task_cost(&cost_request("inference", "x".repeat(2000))),
        2 * base
    );
}

#[test]
fn test_task_quota() {
    assert!(check_task_quota(9, 10).is_ok());
    assert!(matches!(
        check_task_quota(10, 10),
        Err(ErrorKind::TooManyRequests)
    ));
}
