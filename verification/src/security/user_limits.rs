//! Per-user call limits: concurrent calls, counted by the caller from the
//! live calls, and call attempts in a sliding window of sixty seconds.

use dashmap::DashMap;
use std::collections::VecDeque;
use crate::security::tables::{overrides_get, overrides_insert, overrides_new, overrides_pairs, overrides_remove, windows_insert, windows_new, windows_remove};
use crate::security::tables;
use crate::security::window::prune_window;
use crate::security::window;
use vstd::prelude::*;

verus! {

#[derive(Debug)]
pub struct UserLimitsConfig {
    pub enabled: bool,
    /// 0 = unlimited.
    pub default_max_concurrent_calls: u32,
    /// Call attempts per minute; 0 = unlimited.
    pub default_max_calls_per_minute: u32,
    pub overrides: Vec<UserLimitOverride>,
}

/// Four calls at a time and ten a minute for everyone.
pub open spec fn default_limits(c: UserLimitsConfig) -> bool {
    &&& c.enabled
    &&& c.default_max_concurrent_calls == 4
    &&& c.default_max_calls_per_minute == 10
    &&& c.overrides@.len() == 0
}

impl Default for UserLimitsConfig {
    fn default() -> (r: Self)
        ensures
            default_limits(r),
    {
        UserLimitsConfig {
            enabled: true,
            default_max_concurrent_calls: 4,
            default_max_calls_per_minute: 10,
            overrides: Vec::new(),
        }
    }
}

#[derive(Debug)]
pub struct UserLimitOverride {
    pub user: String,
    pub max_concurrent_calls: Option<u32>,
    pub max_calls_per_minute: Option<u32>,
}

#[derive(Debug, Clone, Copy, Default)]
pub struct UserLimits {
    pub max_concurrent_calls: Option<u32>,
    pub max_calls_per_minute: Option<u32>,
}

#[derive(Debug, Clone, PartialEq)]
pub enum LimitDecision {
    Allowed,
    ConcurrentExceeded { current: u32, limit: u32 },
    RateExceeded { current: u32, limit: u32, retry_after_secs: u64 },
}

pub struct UserLimitsManager {
    enabled: bool,
    /// Concurrent calls and calls per minute; 0 = unlimited.
    defaults: (u32, u32),
    overrides: DashMap<String, UserLimits>,
    rate_windows: DashMap<String, VecDeque<u64>>,
}

/// What the manager holds.
#[verifier::ext_equal]
pub struct LimitsView {
    pub enabled: bool,
    pub defaults: (u32, u32),
    pub overrides: Map<Seq<char>, UserLimits>,
    pub windows: Map<Seq<char>, Seq<u64>>,
}

impl View for UserLimitsManager {
    type V = LimitsView;

    closed spec fn view(&self) -> LimitsView {
        LimitsView {
            enabled: self.enabled,
            defaults: self.defaults,
            overrides: tables::overrides(self.overrides),
            windows: tables::windows(self.rate_windows),
        }
    }
}

/// The overrides of a configuration; of two for one user the later holds.
pub open spec fn configured_overrides(v: Seq<UserLimitOverride>) -> Map<Seq<char>, UserLimits>
    decreases v.len(),
{
    if v.len() == 0 {
        Map::empty()
    } else {
        configured_overrides(v.drop_last()).insert(
            v.last().user@,
            UserLimits {
                max_concurrent_calls: v.last().max_concurrent_calls,
                max_calls_per_minute: v.last().max_calls_per_minute,
            },
        )
    }
}

pub open spec fn or_default(v: Option<u32>, d: u32) -> u32 {
    match v {
        Some(x) => x,
        None => d,
    }
}

/// The limits that hold for a user: the user's own where set, else the
/// defaults.
pub open spec fn effective_limits(s: LimitsView, user: Seq<char>) -> (u32, u32) {
    if s.overrides.contains_key(user) {
        let o = s.overrides[user];
        (
            or_default(o.max_concurrent_calls, s.defaults.0),
            or_default(o.max_calls_per_minute, s.defaults.1),
        )
    } else {
        s.defaults
    }
}

pub open spec fn window_of(m: Map<Seq<char>, Seq<u64>>, key: Seq<char>) -> Seq<u64> {
    if m.contains_key(key) {
        m[key]
    } else {
        Seq::empty()
    }
}

/// Whole seconds until the oldest attempt leaves the window, at least one.
pub open spec fn retry_after(front: u64, now: u64) -> u64 {
    let age = if now > front {
        (now - front) as int / 1000
    } else {
        0
    };
    if age >= 60 {
        1
    } else {
        (60 - age) as u64
    }
}

/// What becomes of an attempt of `user` who has `current` calls: the decision
/// and the state after it.
pub open spec fn limit_outcome(s: LimitsView, user: Seq<char>, current: u32, now: u64) -> (
    LimitDecision,
    LimitsView,
) {
    let (max_concurrent, max_cpm) = effective_limits(s, user);
    let recent = window::drop_older(window_of(s.windows, user), now, 60);
    if !s.enabled {
        (LimitDecision::Allowed, s)
    } else if max_concurrent > 0 && current >= max_concurrent {
        (LimitDecision::ConcurrentExceeded { current, limit: max_concurrent }, s)
    } else if max_cpm == 0 {
        (LimitDecision::Allowed, s)
    } else if recent.len() as u32 >= max_cpm {
        (
            LimitDecision::RateExceeded {
                current: recent.len() as u32,
                limit: max_cpm,
                retry_after_secs: if recent.len() > 0 {
                    retry_after(recent[0], now)
                } else {
                    60
                },
            },
            LimitsView { windows: s.windows.insert(user, recent), ..s },
        )
    } else {
        (
            LimitDecision::Allowed,
            LimitsView { windows: s.windows.insert(user, recent.push(now)), ..s },
        )
    }
}

impl UserLimitsManager {
    pub fn new(config: UserLimitsConfig) -> (r: Self)
        ensures
            r@ == (LimitsView {
                enabled: config.enabled,
                defaults: (
                    config.default_max_concurrent_calls,
                    config.default_max_calls_per_minute,
                ),
                overrides: configured_overrides(config.overrides@),
                windows: Map::empty(),
            }),
    {
        let mut table = overrides_new();
        let mut i: usize = 0;
        let ghost all = config.overrides@;
        assert(all.take(0) =~= Seq::empty());
        while i < config.overrides.len()
            invariant
                i <= config.overrides@.len(),
                all == config.overrides@,
                tables::overrides(table) == configured_overrides(all.take(i as int)),
            decreases config.overrides@.len() - i,
        {
            let o = &config.overrides[i];
            assert(all.take(i + 1).drop_last() =~= all.take(i as int));
            overrides_insert(
                &mut table,
                o.user.as_str(),
                UserLimits {
                    max_concurrent_calls: o.max_concurrent_calls,
                    max_calls_per_minute: o.max_calls_per_minute,
                },
            );
            i = i + 1;
        }
        assert(all.take(all.len() as int) =~= all);
        UserLimitsManager {
            enabled: config.enabled,
            defaults: (config.default_max_concurrent_calls, config.default_max_calls_per_minute),
            overrides: table,
            rate_windows: windows_new(),
        }
    }

    /// Whether the limits are in force.
    pub fn is_enabled(&self) -> (r: bool)
        ensures
            r == self@.enabled,
    {
        self.enabled
    }

    /// Put the limits in or out of force; what was counted stays.
    pub fn set_enabled(&mut self, enabled: bool)
        ensures
            final(self)@ == (LimitsView { enabled, ..old(self)@ }),
    {
        self.enabled = enabled;
    }

    /// Concurrent calls and calls per minute that hold for a user.
    pub fn limits_for(&self, user: &str) -> (r: (u32, u32))
        ensures
            r == effective_limits(self@, user@),
    {
        match overrides_get(&self.overrides, user) {
            Some(o) => (
                o.max_concurrent_calls.unwrap_or(self.defaults.0),
                o.max_calls_per_minute.unwrap_or(self.defaults.1),
            ),
            None => self.defaults,
        }
    }

    pub fn set_override(&mut self, user: &str, limits: UserLimits)
        ensures
            final(self)@ == (LimitsView {
                overrides: old(self)@.overrides.insert(user@, limits),
                ..old(self)@
            }),
    {
        overrides_insert(&mut self.overrides, user, limits);
    }

    /// Tells whether the user had an override.
    pub fn remove_override(&mut self, user: &str) -> (r: bool)
        ensures
            final(self)@ == (LimitsView {
                overrides: old(self)@.overrides.remove(user@),
                ..old(self)@
            }),
            r == old(self)@.overrides.contains_key(user@),
    {
        overrides_remove(&mut self.overrides, user)
    }

    pub fn set_defaults(&mut self, max_concurrent: u32, max_cpm: u32)
        ensures
            final(self)@ == (LimitsView { defaults: (max_concurrent, max_cpm), ..old(self)@ }),
    {
        self.defaults = (max_concurrent, max_cpm);
    }

    pub fn defaults(&self) -> (r: (u32, u32))
        ensures
            r == self@.defaults,
    {
        self.defaults
    }

    /// Every override, in no particular order.
    pub fn overrides(&self) -> (r: Vec<(String, UserLimits)>)
        ensures
            tables::lists_overrides(r@, self@.overrides),
    {
        overrides_pairs(&self.overrides)
    }

    /// Check the limits for a new call attempt of `user` and record the
    /// attempt in the rate window when it is allowed. `now` is a monotonic
    /// clock in milliseconds.
    pub fn check_and_record(&mut self, user: &str, current_concurrent: u32, now: u64) -> (r:
        LimitDecision)
        ensures
            (r, final(self)@) == limit_outcome(old(self)@, user@, current_concurrent, now),
    {
        if !self.enabled {
            return LimitDecision::Allowed;
        }
        let (max_concurrent, max_cpm) = self.limits_for(user);
        if max_concurrent > 0 && current_concurrent >= max_concurrent {
            return LimitDecision::ConcurrentExceeded {
                current: current_concurrent,
                limit: max_concurrent,
            };
        }
        if max_cpm == 0 {
            return LimitDecision::Allowed;
        }
        let ghost table = tables::windows(self.rate_windows);
        let mut attempts: VecDeque<u64> = match windows_remove(&mut self.rate_windows, user) {
            Some(w) => w,
            None => VecDeque::new(),
        };
        assert(attempts@ =~= window_of(table, user@));
        prune_window(&mut attempts, now, 60);
        let ghost recent = attempts@;
        let count: u32 = attempts.len() as u32;
        let r;
        if count >= max_cpm {
            let wait: u64 = if attempts.len() > 0 {
                let front: u64 = attempts[0];
                let age: u64 = if now > front {
                    (now - front) / 1000
                } else {
                    0
                };
                if age >= 60 {
                    1
                } else {
                    60 - age
                }
            } else {
                60
            };
            r = LimitDecision::RateExceeded {
                current: count,
                limit: max_cpm,
                retry_after_secs: wait,
            };
        } else {
            attempts.push_back(now);
            r = LimitDecision::Allowed;
        }
        windows_insert(&mut self.rate_windows, user, attempts);
        assert(table.remove(user@).insert(user@, attempts@) =~= table.insert(user@, attempts@));
        r
    }
}

// ── Laws ────────────────────────────────────────────────────────────────

/// An attempt of one user changes nothing for another.
pub proof fn law_limits_are_per_user(
    s: LimitsView,
    user: Seq<char>,
    other: Seq<char>,
    current: u32,
    other_current: u32,
    now: u64,
    later: u64,
)
    requires
        user != other,
    ensures
        limit_outcome(limit_outcome(s, user, current, now).1, other, other_current, later).0
            == limit_outcome(s, other, other_current, later).0,
{
    let t = limit_outcome(s, user, current, now).1;
    assert(window_of(t.windows, other) == window_of(s.windows, other));
}

/// A user without limits is always allowed, and so is everyone while the
/// limits are disabled.
pub proof fn law_zero_means_unlimited(s: LimitsView, user: Seq<char>, current: u32, now: u64)
    requires
        !s.enabled || effective_limits(s, user) == (0u32, 0u32),
    ensures
        limit_outcome(s, user, current, now) == (LimitDecision::Allowed, s),
{
}

/// A user's override takes precedence over the defaults, whatever they become.
pub proof fn law_override_beats_defaults(
    s: LimitsView,
    user: Seq<char>,
    concurrent: u32,
    cpm: u32,
    defaults: (u32, u32),
)
    ensures
        effective_limits(
            (LimitsView {
                overrides: s.overrides.insert(
                    user,
                    UserLimits {
                        max_concurrent_calls: Some(concurrent),
                        max_calls_per_minute: Some(cpm),
                    },
                ),
                defaults,
                ..s
            }),
            user,
        ) == (concurrent, cpm),
{
}

/// No more attempts are allowed within sixty seconds than the limit says: the
/// window never grows past it.
pub proof fn law_window_stays_within_limit(s: LimitsView, user: Seq<char>, current: u32, now: u64)
    requires
        s.enabled,
        effective_limits(s, user).1 > 0,
        window_of(s.windows, user).len() <= effective_limits(s, user).1,
    ensures
        window_of(limit_outcome(s, user, current, now).1.windows, user).len()
            <= effective_limits(s, user).1,
{
    lemma_drop_older_shrinks(window_of(s.windows, user), now, 60);
}

proof fn lemma_drop_older_shrinks(w: Seq<u64>, now: u64, span: u64)
    ensures
        window::drop_older(w, now, span).len() <= w.len(),
    decreases w.len(),
{
    if w.len() > 0 && window::is_older(w[0], now, span) {
        lemma_drop_older_shrinks(w.skip(1), now, span);
    }
}

/// The wait that a refused caller is told is between one and sixty seconds.
pub proof fn law_retry_after_is_bounded(s: LimitsView, user: Seq<char>, current: u32, now: u64)
    ensures
        limit_outcome(s, user, current, now).0 matches LimitDecision::RateExceeded {
            retry_after_secs,
            ..
        } ==> 1 <= retry_after_secs <= 60,
{
}

/// Limits that are out of force hold no one back and count nothing.
pub proof fn law_limits_out_of_force_allow(s: LimitsView, user: Seq<char>, current: u32, now: u64)
    requires
        !s.enabled,
    ensures
        limit_outcome(s, user, current, now) == (LimitDecision::Allowed, s),
{
}

} // verus!
