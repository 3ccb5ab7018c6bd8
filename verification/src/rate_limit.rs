//! Multi-horizon rate limiting: the decision logic of the primary
//! (shared-counter) path, and the complete in-process fallback limiter.
//!
//! The primary path keeps one atomic counter per principal, horizon
//! (minute, hour, day) and epoch bucket, plus a sliding burst window; the
//! caller increments those counters in the shared store and feeds the
//! values back into [`window_check`], [`burst_check`] and [`allowed_info`],
//! in that order. The fallback limiter holds per-principal timestamp lists
//! in process memory and deliberately enforces only the minute and hour
//! horizons.

use vstd::prelude::*;

use crate::strutil::str_eq;

verus! {

/// Request limits per horizon and burst window.
#[derive(Clone, Copy, Debug, PartialEq, Eq, Structural)]
pub struct RateLimitConfig {
    pub requests_per_minute: u32,
    pub requests_per_hour: u32,
    pub requests_per_day: u32,
    pub burst_limit: u32,
}

impl Default for RateLimitConfig {
    /// The default tier: 60/minute, 1000/hour, 10000/day, burst 10.
    fn default() -> (r: Self)
        ensures
            r == (RateLimitConfig {
                requests_per_minute: 60u32,
                requests_per_hour: 1000u32,
                requests_per_day: 10000u32,
                burst_limit: 10u32,
            }),
    {
        RateLimitConfig {
            requests_per_minute: 60,
            requests_per_hour: 1000,
            requests_per_day: 10000,
            burst_limit: 10,
        }
    }
}

/// A named rate-limit class.
pub struct UserTier {
    pub name: String,
    pub rate_limit: RateLimitConfig,
}

impl UserTier {
    /// The `free` tier: 30/minute, 500/hour, 2000/day, burst 5.
    pub fn free() -> (r: Self)
        ensures
            r.name@ == "free"@,
            r.rate_limit == (RateLimitConfig {
                requests_per_minute: 30u32,
                requests_per_hour: 500u32,
                requests_per_day: 2000u32,
                burst_limit: 5u32,
            }),
    {
        UserTier {
            name: "free".to_owned(),
            rate_limit: RateLimitConfig {
                requests_per_minute: 30,
                requests_per_hour: 500,
                requests_per_day: 2000,
                burst_limit: 5,
            },
        }
    }

    /// The `pro` tier: 120/minute, 5000/hour, 50000/day, burst 20.
    pub fn pro() -> (r: Self)
        ensures
            r.name@ == "pro"@,
            r.rate_limit == (RateLimitConfig {
                requests_per_minute: 120u32,
                requests_per_hour: 5000u32,
                requests_per_day: 50000u32,
                burst_limit: 20u32,
            }),
    {
        UserTier {
            name: "pro".to_owned(),
            rate_limit: RateLimitConfig {
                requests_per_minute: 120,
                requests_per_hour: 5000,
                requests_per_day: 50000,
                burst_limit: 20,
            },
        }
    }

    /// The `enterprise` tier: 600/minute, 20000/hour, 200000/day, burst 50.
    pub fn enterprise() -> (r: Self)
        ensures
            r.name@ == "enterprise"@,
            r.rate_limit == (RateLimitConfig {
                requests_per_minute: 600u32,
                requests_per_hour: 20000u32,
                requests_per_day: 200000u32,
                burst_limit: 50u32,
            }),
    {
        UserTier {
            name: "enterprise".to_owned(),
            rate_limit: RateLimitConfig {
                requests_per_minute: 600,
                requests_per_hour: 20000,
                requests_per_day: 200000,
                burst_limit: 50,
            },
        }
    }
}

/// The outcome of one rate-limit check, as surfaced in response headers.
#[derive(Clone, Copy, Debug, PartialEq, Eq, Structural)]
pub struct RateLimitInfo {
    pub limit: u32,
    pub remaining: u32,
    pub reset_time: u64,
    pub retry_after: Option<u64>,
}

/// One fixed-window decision: with `count` requests recorded in the current
/// bucket of length `horizon` seconds, either `None` (under the limit) or
/// the denial with the bucket's reset time and the seconds left in it.
pub fn window_check(count: u32, limit: u32, horizon: u64, now: u64) -> (r: Option<RateLimitInfo>)
    requires
        horizon > 0,
        now + horizon <= u64::MAX,
    ensures
        r is Some <==> count > limit,
        r is Some ==> r->0 == (RateLimitInfo {
            limit: limit,
            remaining: 0u32,
            reset_time: (now - now % horizon + horizon) as u64,
            retry_after: Some((horizon - now % horizon) as u64),
        }),
{
    if count <= limit {
        return None;
    }
    proof {
        vstd::arithmetic::div_mod::lemma_fundamental_div_mod(now as int, horizon as int);
        assert((now as int / horizon as int) * (horizon as int) >= 0) by (nonlinear_arith)
            requires
                now as int / horizon as int >= 0,
                horizon as int > 0,
        ;
    }
    let rem = now % horizon;
    Some(
        RateLimitInfo {
            limit: limit,
            remaining: 0,
            reset_time: now - rem + horizon,
            retry_after: Some(horizon - rem),
        },
    )
}

/// The burst decision: with `burst_count` timestamps in the sliding
/// 60-second set, either `None` or the denial.
pub fn burst_check(burst_count: u32, burst_limit: u32, now: u64) -> (r: Option<RateLimitInfo>)
    requires
        now + 60 <= u64::MAX,
    ensures
        r is Some <==> burst_count > burst_limit,
        r is Some ==> r->0 == (RateLimitInfo {
            limit: burst_limit,
            remaining: 0u32,
            reset_time: (now + 60) as u64,
            retry_after: Some(60u64),
        }),
{
    if burst_count <= burst_limit {
        return None;
    }
    Some(
        RateLimitInfo {
            limit: burst_limit,
            remaining: 0,
            reset_time: now + 60,
            retry_after: Some(60),
        },
    )
}

/// What is left of the tightest horizon once every window admitted the
/// request.
pub open spec fn spec_remaining(config: RateLimitConfig, m: u32, h: u32, d: u32) -> int {
    vstd::math::min(
        config.requests_per_minute - m,
        vstd::math::min(config.requests_per_hour - h, config.requests_per_day - d),
    )
}

/// The decision when every window admitted the request: allowed, with the
/// minute limit, the smallest remaining allowance over the three horizons,
/// and the next minute boundary as reset.
pub fn allowed_info(config: &RateLimitConfig, minute_count: u32, hour_count: u32, day_count: u32, now: u64) -> (r:
    RateLimitInfo)
    requires
        minute_count <= config.requests_per_minute,
        hour_count <= config.requests_per_hour,
        day_count <= config.requests_per_day,
        now + 60 <= u64::MAX,
    ensures
        r.limit == config.requests_per_minute,
        r.remaining == spec_remaining(*config, minute_count, hour_count, day_count),
        r.reset_time == now - now % 60 + 60,
        r.retry_after is None,
{
    proof {
        vstd::arithmetic::div_mod::lemma_fundamental_div_mod(now as int, 60);
        assert((now as int / 60) * 60 >= 0) by (nonlinear_arith)
            requires
                now as int / 60 >= 0,
        ;
    }
    let a = config.requests_per_minute - minute_count;
    let b = config.requests_per_hour - hour_count;
    let c = config.requests_per_day - day_count;
    let mut remaining = a;
    if b < remaining {
        remaining = b;
    }
    if c < remaining {
        remaining = c;
    }
    RateLimitInfo {
        limit: config.requests_per_minute,
        remaining,
        reset_time: now - now % 60 + 60,
        retry_after: None,
    }
}

/// Rate-limit monotonicity: within one epoch bucket the shared counters
/// only grow (each check increments them atomically), so the `remaining`
/// allowance reported to a principal never increases between successive
/// allowed calls.
pub proof fn lemma_remaining_monotone(
    config: RateLimitConfig,
    m1: u32,
    h1: u32,
    d1: u32,
    m2: u32,
    h2: u32,
    d2: u32,
)
    requires
        m1 <= m2 <= config.requests_per_minute,
        h1 <= h2 <= config.requests_per_hour,
        d1 <= d2 <= config.requests_per_day,
    ensures
        spec_remaining(config, m2, h2, d2) <= spec_remaining(config, m1, h1, d1),
{
}

/// One principal's recorded request timestamps in the fallback store.
pub struct MemoryEntry {
    pub id: String,
    pub stamps: Vec<u64>,
}

/// `t` is within the last `window` seconds of `now` (timestamps at or
/// beyond `now` count as current).
pub open spec fn recent(t: u64, now: u64, window: u64) -> bool {
    now - t < window
}

/// The timestamps of `stamps` still within `window` of `now`, in order.
pub open spec fn keep_recent(stamps: Seq<u64>, now: u64, window: u64) -> Seq<u64>
    decreases stamps.len(),
{
    if stamps.len() == 0 {
        Seq::empty()
    } else if recent(stamps.last(), now, window) {
        keep_recent(stamps.drop_last(), now, window).push(stamps.last())
    } else {
        keep_recent(stamps.drop_last(), now, window)
    }
}

/// How many timestamps of `stamps` are within `window` of `now`.
pub open spec fn count_recent(stamps: Seq<u64>, now: u64, window: u64) -> int {
    keep_recent(stamps, now, window).len() as int
}

/// Some entry of `entries` belongs to `id`.
pub open spec fn mem_has(entries: Seq<MemoryEntry>, id: Seq<char>) -> bool {
    exists|i: int| 0 <= i < entries.len() && #[trigger] entries[i].id@ == id
}

/// The index of `id`'s entry (meaningful under unique ids).
pub open spec fn mem_at(entries: Seq<MemoryEntry>, id: Seq<char>) -> int {
    choose|i: int| 0 <= i < entries.len() && #[trigger] entries[i].id@ == id
}

/// The timestamps recorded for `id`, empty when absent.
pub open spec fn mem_stamps(entries: Seq<MemoryEntry>, id: Seq<char>) -> Seq<u64> {
    if mem_has(entries, id) {
        entries[mem_at(entries, id)].stamps@
    } else {
        Seq::empty()
    }
}

/// What one fallback check does to the store and decides: old timestamps
/// (an hour or more) are dropped and `now` is appended for `id` (other
/// principals untouched); the request is denied exactly when the minute or
/// hour count exceeds its limit, and otherwise the remaining allowance is
/// the tighter of the two horizons. Because old timestamps age out of the
/// sliding windows, `remaining` may grow again between calls: the fallback
/// is deliberately weaker than the primary store's fixed epoch buckets.
pub open spec fn spec_memory_check(
    old_entries: Seq<MemoryEntry>,
    new_entries: Seq<MemoryEntry>,
    id: Seq<char>,
    config: RateLimitConfig,
    now: u64,
    r: RateLimitInfo,
) -> bool {
    &&& mem_stamps(new_entries, id) == keep_recent(mem_stamps(old_entries, id), now, 3600).push(
        now,
    )
    &&& forall|a: Seq<char>|
        a != id ==> mem_stamps(new_entries, a) == mem_stamps(old_entries, a)
    &&& ({
        let stamps = keep_recent(mem_stamps(old_entries, id), now, 3600).push(now);
        let minute = count_recent(stamps, now, 60);
        let hour = stamps.len() as int;
        if minute > config.requests_per_minute {
            r == (RateLimitInfo {
                limit: config.requests_per_minute,
                remaining: 0u32,
                reset_time: (now + 60) as u64,
                retry_after: Some(60u64),
            })
        } else if hour > config.requests_per_hour {
            r == (RateLimitInfo {
                limit: config.requests_per_hour,
                remaining: 0u32,
                reset_time: (now + 3600) as u64,
                retry_after: Some(3600u64),
            })
        } else {
            r == (RateLimitInfo {
                limit: config.requests_per_minute,
                remaining: vstd::math::min(
                    config.requests_per_minute - minute,
                    config.requests_per_hour - hour,
                ) as u32,
                reset_time: (now + 60) as u64,
                retry_after: None::<u64>,
            })
        }
    })
}

/// The in-process fallback limiter: per-principal timestamp lists, retained
/// for one hour. It enforces the minute and hour horizons only; the day
/// and burst windows are deliberately skipped while degraded.
pub struct MemoryRateLimiter {
    pub entries: Vec<MemoryEntry>,
}

impl MemoryRateLimiter {
    /// The ids of the store are pairwise distinct.
    pub open spec fn wf(self) -> bool {
        forall|i: int, j: int|
            0 <= i < j < self.entries@.len() ==> self.entries@[i].id@ != self.entries@[j].id@
    }

    /// An empty fallback store.
    pub fn new() -> (r: Self)
        ensures
            r.wf(),
            r.entries@.len() == 0,
    {
        MemoryRateLimiter { entries: Vec::new() }
    }

    /// Records a request for `identifier` at `now` and decides it: old
    /// timestamps (an hour or more) are dropped, `now` is appended, and the
    /// request is denied when the minute or hour count exceeds the limit.
    pub fn check_memory_rate_limit(
        &mut self,
        identifier: &str,
        config: &RateLimitConfig,
        now: u64,
    ) -> (r: RateLimitInfo)
        requires
            old(self).wf(),
            now + 3600 <= u64::MAX,
        ensures
            final(self).wf(),
            spec_memory_check(
                old(self).entries@,
                final(self).entries@,
                identifier@,
                *config,
                now,
                r,
            ),
    {
        let idx = self.find_or_insert(identifier);
        let ghost entries1 = self.entries@;
        let old_len = self.entries[idx].stamps.len();
        // keep only the last hour, then record this request
        let mut kept: Vec<u64> = Vec::new();
        let mut k: usize = 0;
        while k < old_len
            invariant
                self.entries@ == entries1,
                0 <= idx < self.entries@.len(),
                old_len == self.entries@[idx as int].stamps@.len(),
                0 <= k <= old_len,
                kept@ == keep_recent(self.entries@[idx as int].stamps@.subrange(0, k as int), now, 3600),
            decreases old_len - k,
        {
            let t = self.entries[idx].stamps[k];
            if t >= now || now - t < 3600 {
                kept.push(t);
            }
            proof {
                let s = self.entries@[idx as int].stamps@;
                assert(s.subrange(0, k + 1).drop_last() =~= s.subrange(0, k as int));
                assert(s.subrange(0, k + 1).last() == s[k as int]);
            }
            k = k + 1;
        }
        proof {
            let s = self.entries@[idx as int].stamps@;
            assert(s.subrange(0, old_len as int) =~= s);
        }
        kept.push(now);
        // count the last minute
        let new_len = kept.len();
        let mut minute: usize = 0;
        let mut j: usize = 0;
        while j < new_len
            invariant
                new_len == kept@.len(),
                0 <= j <= new_len,
                minute == count_recent(kept@.subrange(0, j as int), now, 60),
                minute <= j,
            decreases new_len - j,
        {
            let t = kept[j];
            if t >= now || now - t < 60 {
                minute = minute + 1;
            }
            proof {
                assert(kept@.subrange(0, j + 1).drop_last() =~= kept@.subrange(0, j as int));
                assert(kept@.subrange(0, j + 1).last() == kept@[j as int]);
            }
            j = j + 1;
        }
        proof {
            assert(kept@.subrange(0, new_len as int) =~= kept@);
            lemma_count_recent_le_len(kept@, now, 60);
        }
        let hour = new_len;
        let ghost kept_v = kept@;
        let id_string = self.entries[idx].id.clone();
        self.entries.set(idx, MemoryEntry { id: id_string, stamps: kept });
        proof {
            assert(forall|j: int|
                0 <= j < entries1.len() && j != idx ==> self.entries@[j] == entries1[j]);
            lemma_mem_update(entries1, self.entries@, idx as int, identifier@, kept_v);
        }
        if minute > config.requests_per_minute as usize {
            return RateLimitInfo {
                limit: config.requests_per_minute,
                remaining: 0,
                reset_time: now + 60,
                retry_after: Some(60),
            };
        }
        if hour > config.requests_per_hour as usize {
            return RateLimitInfo {
                limit: config.requests_per_hour,
                remaining: 0,
                reset_time: now + 3600,
                retry_after: Some(3600),
            };
        }
        let a = config.requests_per_minute - minute as u32;
        let b = config.requests_per_hour - hour as u32;
        RateLimitInfo {
            limit: config.requests_per_minute,
            remaining: if a < b {
                a
            } else {
                b
            },
            reset_time: now + 60,
            retry_after: None,
        }
    }

    /// The index of `identifier`'s entry, creating an empty one if absent.
    fn find_or_insert(&mut self, identifier: &str) -> (r: usize)
        requires
            old(self).wf(),
        ensures
            final(self).wf(),
            0 <= r < final(self).entries@.len(),
            final(self).entries@[r as int].id@ == identifier@,
            mem_at(final(self).entries@, identifier@) == r as int,
            mem_has(final(self).entries@, identifier@),
            final(self).entries@[r as int].stamps@ == mem_stamps(old(self).entries@, identifier@),
            forall|a: Seq<char>|
                a != identifier@ ==> mem_stamps(final(self).entries@, a) == mem_stamps(
                    old(self).entries@,
                    a,
                ),
    {
        let n = self.entries.len();
        let mut k: usize = 0;
        while k < n
            invariant
                old(self).wf(),
                n == self.entries@.len(),
                0 <= k <= n,
                forall|j: int| 0 <= j < k ==> #[trigger] self.entries@[j].id@ != identifier@,
                self.entries@ == old(self).entries@,
            decreases n - k,
        {
            if str_eq(self.entries[k].id.as_str(), identifier) {
                proof {
                    lemma_mem_at_index(self.entries@, k as int, identifier@);
                }
                return k;
            }
            k = k + 1;
        }
        proof {
            assert(!mem_has(self.entries@, identifier@));
        }
        self.entries.push(MemoryEntry { id: identifier.to_owned(), stamps: Vec::new() });
        proof {
            let e0 = old(self).entries@;
            let e1 = self.entries@;
            assert(e1[n as int].id@ == identifier@);
            assert(forall|j: int| 0 <= j < n ==> e1[j] == e0[j]);
            lemma_mem_at_index(e1, n as int, identifier@);
            assert(self.entries@[n as int].stamps@ =~= mem_stamps(e0, identifier@));
            assert forall|a: Seq<char>| a != identifier@ implies mem_stamps(e1, a) == mem_stamps(
                e0,
                a,
            ) by {
                if mem_has(e0, a) {
                    let w = choose|w: int| 0 <= w < e0.len() && #[trigger] e0[w].id@ == a;
                    assert(e1[w].id@ == a);
                    lemma_mem_at_index(e0, w, a);
                    lemma_mem_at_index(e1, w, a);
                } else {
                    if mem_has(e1, a) {
                        let w = choose|w: int| 0 <= w < e1.len() && #[trigger] e1[w].id@ == a;
                        assert(w == n);
                    }
                }
            }
        }
        n
    }
}

/// Under unique ids, the entry found at `i` is the one the lookups speak of.
proof fn lemma_mem_at_index(entries: Seq<MemoryEntry>, i: int, id: Seq<char>)
    requires
        forall|x: int, y: int| 0 <= x < y < entries.len() ==> entries[x].id@ != entries[y].id@,
        0 <= i < entries.len(),
        entries[i].id@ == id,
    ensures
        mem_has(entries, id),
        mem_at(entries, id) == i,
        mem_stamps(entries, id) == entries[i].stamps@,
{
    assert(mem_has(entries, id)) by {
        assert(entries[i].id@ == id);
    }
    let w = mem_at(entries, id);
    if w != i {
        assert(entries[w].id@ == entries[i].id@);
    }
}

/// Replacing the entry at `i` (same id) changes only that principal's
/// recorded timestamps.
proof fn lemma_mem_update(
    e0: Seq<MemoryEntry>,
    e1: Seq<MemoryEntry>,
    i: int,
    id: Seq<char>,
    stamps: Seq<u64>,
)
    requires
        forall|x: int, y: int| 0 <= x < y < e0.len() ==> e0[x].id@ != e0[y].id@,
        0 <= i < e0.len(),
        e0[i].id@ == id,
        e1.len() == e0.len(),
        e1[i].id@ == id,
        e1[i].stamps@ == stamps,
        forall|j: int| 0 <= j < e0.len() && j != i ==> e1[j] == e0[j],
    ensures
        forall|x: int, y: int| 0 <= x < y < e1.len() ==> e1[x].id@ != e1[y].id@,
        mem_stamps(e1, id) == stamps,
        forall|a: Seq<char>| a != id ==> mem_stamps(e1, a) == mem_stamps(e0, a),
{
    assert forall|x: int, y: int| 0 <= x < y < e1.len() implies e1[x].id@ != e1[y].id@ by {
        assert(e0[x].id@ != e0[y].id@);
        assert(e1[x].id@ == e0[x].id@ && e1[y].id@ == e0[y].id@);
    }
    lemma_mem_at_index(e1, i, id);
    assert forall|a: Seq<char>| a != id implies mem_stamps(e1, a) == mem_stamps(e0, a) by {
        if mem_has(e0, a) {
            let w = choose|w: int| 0 <= w < e0.len() && #[trigger] e0[w].id@ == a;
            assert(w != i);
            assert(e1[w].id@ == a);
            lemma_mem_at_index(e0, w, a);
            lemma_mem_at_index(e1, w, a);
        } else {
            if mem_has(e1, a) {
                let w = choose|w: int| 0 <= w < e1.len() && #[trigger] e1[w].id@ == a;
                assert(e0[w].id@ == a);
            }
        }
    }
}

/// The recent count is bounded by the number of timestamps.
pub proof fn lemma_count_recent_le_len(stamps: Seq<u64>, now: u64, window: u64)
    ensures
        0 <= count_recent(stamps, now, window) <= stamps.len(),
    decreases stamps.len(),
{
    if stamps.len() > 0 {
        lemma_count_recent_le_len(stamps.drop_last(), now, window);
    }
}

/// The named tier's limits: `free`, `pro` or `enterprise`, anything else
/// getting the default configuration.
pub open spec fn spec_tier_config(default: RateLimitConfig, tier: Seq<char>) -> RateLimitConfig {
    if tier == "free"@ {
        RateLimitConfig {
            requests_per_minute: 30u32,
            requests_per_hour: 500u32,
            requests_per_day: 2000u32,
            burst_limit: 5u32,
        }
    } else if tier == "pro"@ {
        RateLimitConfig {
            requests_per_minute: 120u32,
            requests_per_hour: 5000u32,
            requests_per_day: 50000u32,
            burst_limit: 20u32,
        }
    } else if tier == "enterprise"@ {
        RateLimitConfig {
            requests_per_minute: 600u32,
            requests_per_hour: 20000u32,
            requests_per_day: 200000u32,
            burst_limit: 50u32,
        }
    } else {
        default
    }
}

/// The rate limiter's pure state: the default configuration and the
/// in-process fallback store. (The shared primary store lives outside; its
/// counter values are fed into the check functions above.)
pub struct RateLimiter {
    pub default_config: RateLimitConfig,
    pub memory: MemoryRateLimiter,
}

impl RateLimiter {
    /// A limiter with the default configuration and an empty fallback store.
    pub fn new() -> (r: Self)
        ensures
            r.memory.wf(),
            r.default_config == (RateLimitConfig {
                requests_per_minute: 60u32,
                requests_per_hour: 1000u32,
                requests_per_day: 10000u32,
                burst_limit: 10u32,
            }),
    {
        RateLimiter { default_config: RateLimitConfig::default(), memory: MemoryRateLimiter::new() }
    }

    /// The limits for a named tier, the default for an unknown name.
    pub fn get_user_tier_config(&self, tier: &str) -> (r: RateLimitConfig)
        ensures
            r == spec_tier_config(self.default_config, tier@),
    {
        if str_eq(tier, "free") {
            UserTier::free().rate_limit
        } else if str_eq(tier, "pro") {
            UserTier::pro().rate_limit
        } else if str_eq(tier, "enterprise") {
            UserTier::enterprise().rate_limit
        } else {
            self.default_config
        }
    }

    /// The limits applied to unauthenticated callers, keyed by IP.
    pub fn get_ip_rate_limit_config(&self) -> (r: RateLimitConfig)
        ensures
            r == (RateLimitConfig {
                requests_per_minute: 100u32,
                requests_per_hour: 2000u32,
                requests_per_day: 20000u32,
                burst_limit: 20u32,
            }),
    {
        RateLimitConfig {
            requests_per_minute: 100,
            requests_per_hour: 2000,
            requests_per_day: 20000,
            burst_limit: 20,
        }
    }

    /// One rate-limit decision: the primary store's outcome when it was
    /// reachable (its counters already incremented and judged by the window
    /// checks), passed through untouched; otherwise the in-process fallback
    /// records the request and decides it.
    pub fn check_rate_limit(
        &mut self,
        identifier: &str,
        config: &RateLimitConfig,
        primary: Option<RateLimitInfo>,
        now: u64,
    ) -> (r: RateLimitInfo)
        requires
            old(self).memory.wf(),
            now + 3600 <= u64::MAX,
        ensures
            final(self).memory.wf(),
            final(self).default_config == old(self).default_config,
            primary matches Some(info) ==> r == info && final(self).memory == old(self).memory,
            primary is None ==> spec_memory_check(
                old(self).memory.entries@,
                final(self).memory.entries@,
                identifier@,
                *config,
                now,
                r,
            ),
    {
        match primary {
            Some(info) => info,
            None => self.memory.check_memory_rate_limit(identifier, config, now),
        }
    }

    /// The fallback decision when the primary store is unreachable: the
    /// request is recorded for `identifier` and judged by the minute and
    /// hour windows, exactly as [`MemoryRateLimiter::check_memory_rate_limit`]
    /// specifies.
    pub fn check_memory_rate_limit(
        &mut self,
        identifier: &str,
        config: &RateLimitConfig,
        now: u64,
    ) -> (r: RateLimitInfo)
        requires
            old(self).memory.wf(),
            now + 3600 <= u64::MAX,
        ensures
            final(self).memory.wf(),
            final(self).default_config == old(self).default_config,
            spec_memory_check(
                old(self).memory.entries@,
                final(self).memory.entries@,
                identifier@,
                *config,
                now,
                r,
            ),
    {
        self.memory.check_memory_rate_limit(identifier, config, now)
    }
}

} // verus!
