//! The policies together, and the record of what they enforced.


use std::collections::VecDeque;
use crate::identity::Mismatch;
use crate::identity;
use crate::security::ban::{BanConfig, BanEntry, BanManager, BanView, BansView};
use crate::security::ban;
use crate::security::destination::{DestinationPolicy, DestinationsConfig, PolicyView};
use crate::security::destination;
use crate::security::user_limits::{LimitsView, UserLimitsConfig, UserLimitsManager};
use crate::security::user_limits;
use crate::security::window::Moment;
use crate::text::clone_opt;
use crate::text;
use vstd::prelude::*;

verus! {

#[derive(Debug)]
pub struct SecurityFeaturesConfig {
    pub ban: BanConfig,
    pub destinations: DestinationsConfig,
    pub user_limits: UserLimitsConfig,
}

impl Default for SecurityFeaturesConfig {
    fn default() -> (r: Self)
        ensures
            r.ban@ == ban::default_ban(),
            destination::default_destinations(r.destinations),
            user_limits::default_limits(r.user_limits),
    {
        SecurityFeaturesConfig {
            ban: BanConfig::default(),
            destinations: DestinationsConfig::default(),
            user_limits: UserLimitsConfig::default(),
        }
    }
}

/// A security enforcement event, kept in a ring buffer and published as an
/// alert.
#[derive(Debug)]
pub enum SecurityEvent {
    BanIssued {
        ip: String,
        reason: String,
        duration_secs: u64,
        failures: u32,
        manual: bool,
        ts: u64,
    },
    BanLifted { ip: String, manual: bool, ts: u64 },
    AuthFailure { ip: String, username: Option<String>, method: String, ts: u64 },
    DestinationBlocked { user: Option<String>, destination: String, rule: String, ts: u64 },
    /// `kind` is "concurrent" or "rate".
    UserLimitHit { user: String, kind: String, current: u32, limit: u32, ts: u64 },
    /// `user` acted under an identity that is another's.
    IdentityMismatch { ip: String, user: String, claimed: String, method: String, ts: u64 },
}

/// What an event holds.
pub enum EventView {
    BanIssued {
        ip: Seq<char>,
        reason: Seq<char>,
        duration_secs: u64,
        failures: u32,
        manual: bool,
        ts: u64,
    },
    BanLifted { ip: Seq<char>, manual: bool, ts: u64 },
    AuthFailure { ip: Seq<char>, username: Option<Seq<char>>, method: Seq<char>, ts: u64 },
    DestinationBlocked {
        user: Option<Seq<char>>,
        destination: Seq<char>,
        rule: Seq<char>,
        ts: u64,
    },
    UserLimitHit { user: Seq<char>, kind: Seq<char>, current: u32, limit: u32, ts: u64 },
    IdentityMismatch {
        ip: Seq<char>,
        user: Seq<char>,
        claimed: Seq<char>,
        method: Seq<char>,
        ts: u64,
    },
}

impl View for SecurityEvent {
    type V = EventView;

    open spec fn view(&self) -> EventView {
        match *self {
            SecurityEvent::BanIssued { ip, reason, duration_secs, failures, manual, ts } => {
                EventView::BanIssued {
                    ip: ip@,
                    reason: reason@,
                    duration_secs,
                    failures,
                    manual,
                    ts,
                }
            },
            SecurityEvent::BanLifted { ip, manual, ts } => EventView::BanLifted {
                ip: ip@,
                manual,
                ts,
            },
            SecurityEvent::AuthFailure { ip, username, method, ts } => EventView::AuthFailure {
                ip: ip@,
                username: text::opt_string(username),
                method: method@,
                ts,
            },
            SecurityEvent::DestinationBlocked { user, destination, rule, ts } => {
                EventView::DestinationBlocked {
                    user: text::opt_string(user),
                    destination: destination@,
                    rule: rule@,
                    ts,
                }
            },
            SecurityEvent::UserLimitHit { user, kind, current, limit, ts } => {
                EventView::UserLimitHit { user: user@, kind: kind@, current, limit, ts }
            },
            SecurityEvent::IdentityMismatch { ip, user, claimed, method, ts } => {
                EventView::IdentityMismatch {
                    ip: ip@,
                    user: user@,
                    claimed: claimed@,
                    method: method@,
                    ts,
                }
            },
        }
    }
}

impl Clone for SecurityEvent {
    fn clone(&self) -> (r: Self)
        ensures
            r@ == self@,
    {
        match self {
            SecurityEvent::BanIssued { ip, reason, duration_secs, failures, manual, ts } => {
                SecurityEvent::BanIssued {
                    ip: ip.clone(),
                    reason: reason.clone(),
                    duration_secs: *duration_secs,
                    failures: *failures,
                    manual: *manual,
                    ts: *ts,
                }
            },
            SecurityEvent::BanLifted { ip, manual, ts } => SecurityEvent::BanLifted {
                ip: ip.clone(),
                manual: *manual,
                ts: *ts,
            },
            SecurityEvent::AuthFailure { ip, username, method, ts } => SecurityEvent::AuthFailure {
                ip: ip.clone(),
                username: clone_opt(username),
                method: method.clone(),
                ts: *ts,
            },
            SecurityEvent::DestinationBlocked { user, destination, rule, ts } => {
                SecurityEvent::DestinationBlocked {
                    user: clone_opt(user),
                    destination: destination.clone(),
                    rule: rule.clone(),
                    ts: *ts,
                }
            },
            SecurityEvent::UserLimitHit { user, kind, current, limit, ts } => {
                SecurityEvent::UserLimitHit {
                    user: user.clone(),
                    kind: kind.clone(),
                    current: *current,
                    limit: *limit,
                    ts: *ts,
                }
            },
            SecurityEvent::IdentityMismatch { ip, user, claimed, method, ts } => {
                SecurityEvent::IdentityMismatch {
                    ip: ip.clone(),
                    user: user.clone(),
                    claimed: claimed.clone(),
                    method: method.clone(),
                    ts: *ts,
                }
            },
        }
    }
}

/// A warning for the event bus.
#[derive(Debug)]
pub struct SecurityAlert {
    pub kind: String,
    pub detail: String,
}

/// Kind and detail of the alert for an event.
pub open spec fn alert_view(e: EventView) -> (Seq<char>, Seq<char>) {
    match e {
        EventView::BanIssued { ip, reason, .. } => ("ban_issued"@, ip + " ("@ + reason + ")"@),
        EventView::BanLifted { ip, .. } => ("ban_lifted"@, ip),
        EventView::AuthFailure { ip, .. } => ("auth_failure"@, ip),
        EventView::DestinationBlocked { destination, rule, .. } => (
            "destination_blocked"@,
            destination + " (rule "@ + rule + ")"@,
        ),
        EventView::UserLimitHit { user, kind, .. } => ("user_limit"@, user + " ("@ + kind + ")"@),
        EventView::IdentityMismatch { user, claimed, .. } => (
            "identity_mismatch"@,
            user + " (as "@ + claimed + ")"@,
        ),
    }
}

fn detail_with(a: &str, open: &str, b: &str) -> (r: String)
    ensures
        r@ == a@ + open@ + b@ + ")"@,
{
    let mut out = a.to_string();
    out.push_str(open);
    out.push_str(b);
    out.push_str(")");
    out
}

/// The alert for an event.
pub fn alert_for(event: &SecurityEvent) -> (r: SecurityAlert)
    ensures
        (r.kind@, r.detail@) == alert_view(event@),
{
    match event {
        SecurityEvent::BanIssued { ip, reason, .. } => SecurityAlert {
            kind: "ban_issued".to_string(),
            detail: detail_with(ip.as_str(), " (", reason.as_str()),
        },
        SecurityEvent::BanLifted { ip, .. } => SecurityAlert {
            kind: "ban_lifted".to_string(),
            detail: ip.clone(),
        },
        SecurityEvent::AuthFailure { ip, .. } => SecurityAlert {
            kind: "auth_failure".to_string(),
            detail: ip.clone(),
        },
        SecurityEvent::DestinationBlocked { destination, rule, .. } => SecurityAlert {
            kind: "destination_blocked".to_string(),
            detail: detail_with(destination.as_str(), " (rule ", rule.as_str()),
        },
        SecurityEvent::UserLimitHit { user, kind, .. } => SecurityAlert {
            kind: "user_limit".to_string(),
            detail: detail_with(user.as_str(), " (", kind.as_str()),
        },
        SecurityEvent::IdentityMismatch { user, claimed, .. } => SecurityAlert {
            kind: "identity_mismatch".to_string(),
            detail: detail_with(user.as_str(), " (as ", claimed.as_str()),
        },
    }
}

pub struct SecurityManager {
    pub bans: BanManager,
    pub destinations: DestinationPolicy,
    pub user_limits: UserLimitsManager,
    pub log: EventLog,
}

/// The last enforcement events, and the alerts for the event bus.
pub struct EventLog {
    /// Oldest first.
    recent_events: VecDeque<SecurityEvent>,
    /// Whether an event bus takes alerts.
    bus_wired: bool,
    /// Alerts that the bus has not taken yet.
    outbox: Vec<SecurityAlert>,
}

impl EventLog {
    pub closed spec fn events(self) -> Seq<EventView> {
        event_views(self.recent_events@)
    }

    pub closed spec fn wired(self) -> bool {
        self.bus_wired
    }

    pub closed spec fn waiting(self) -> Seq<(Seq<char>, Seq<char>)> {
        alert_views(self.outbox@)
    }
}

pub open spec fn event_views(v: Seq<SecurityEvent>) -> Seq<EventView> {
    v.map_values(|e: SecurityEvent| e@)
}

pub open spec fn alert_views(v: Seq<SecurityAlert>) -> Seq<(Seq<char>, Seq<char>)> {
    v.map_values(|a: SecurityAlert| (a.kind@, a.detail@))
}

/// The ring after one more event: never more than a hundred, the oldest go.
pub open spec fn ring_push(ring: Seq<EventView>, e: EventView) -> Seq<EventView> {
    if ring.len() >= 100 {
        ring.skip(1).push(e)
    } else {
        ring.push(e)
    }
}

/// The alerts waiting after one more event.
pub open spec fn outbox_push(
    outbox: Seq<(Seq<char>, Seq<char>)>,
    wired: bool,
    e: EventView,
) -> Seq<(Seq<char>, Seq<char>)> {
    if wired {
        outbox.push(alert_view(e))
    } else {
        outbox
    }
}

/// The event of a failed authentication.
pub open spec fn auth_failure_event(
    ip: Seq<char>,
    username: Option<Seq<char>>,
    method: Seq<char>,
    ts: u64,
) -> EventView {
    EventView::AuthFailure { ip, username, method, ts }
}

/// The event of a ban that a failed authentication triggered.
pub open spec fn ban_issued_event(b: BanView, wall_ms: u64, ts: u64) -> EventView {
    EventView::BanIssued {
        ip: b.ip,
        reason: b.reason,
        duration_secs: ban::at_most(ban::seconds_left(b, wall_ms), u64::MAX as int) as u64,
        failures: b.failures,
        manual: false,
        ts,
    }
}

/// What is reported of a user that acts under another's identity.
pub open spec fn mismatch_report(
    ip: Seq<char>,
    m: Option<(Seq<char>, Seq<char>, Seq<char>)>,
    ts: u64,
) -> Option<EventView> {
    match m {
        Some((user, claimed, method)) => Some(
            EventView::IdentityMismatch { ip, user, claimed, method, ts },
        ),
        None => None,
    }
}

pub open spec fn opt_event(e: Option<SecurityEvent>) -> Option<EventView> {
    match e {
        Some(v) => Some(v@),
        None => None,
    }
}

/// The event of a user that acts under another's identity.
pub fn mismatch_event(ip: &str, m: &Option<Mismatch>, ts: u64) -> (r: Option<SecurityEvent>)
    ensures
        opt_event(r) == mismatch_report(ip@, identity::opt_mismatch(*m), ts),
{
    match m {
        Some(m) => Some(
            SecurityEvent::IdentityMismatch {
                ip: ip.to_string(),
                user: m.user.clone(),
                claimed: m.claimed.clone(),
                method: m.method.clone(),
                ts,
            },
        ),
        None => None,
    }
}

impl SecurityManager {
    /// The recent events, oldest first.
    pub open spec fn events(self) -> Seq<EventView> {
        self.log.events()
    }

    pub open spec fn wired(self) -> bool {
        self.log.wired()
    }

    /// Kind and detail of the alerts that wait for the bus.
    pub open spec fn waiting(self) -> Seq<(Seq<char>, Seq<char>)> {
        self.log.waiting()
    }

    pub open spec fn wf(self) -> bool {
        self.events().len() <= 100
    }

    pub fn new(config: SecurityFeaturesConfig) -> (r: Self)
        ensures
            r.wf(),
            r.events().len() == 0,
            !r.wired(),
            r.waiting().len() == 0,
            r.bans@ == (BansView {
                config: config.ban@,
                failures: Map::empty(),
                bans: Map::empty(),
                offenses: Map::empty(),
            }),
            r.destinations@ == (PolicyView {
                rules: destination::initial_rules(
                    config.destinations.rules@,
                    config.destinations.seed_irsf_rules,
                ),
                default_deny: text::same_text(config.destinations.default_action@, "deny"@),
                default_cc: config.destinations.default_country_code@,
                enabled: config.destinations.enabled,
                blocked_total: 0,
            }),
            r.user_limits@ == (LimitsView {
                enabled: config.user_limits.enabled,
                defaults: (
                    config.user_limits.default_max_concurrent_calls,
                    config.user_limits.default_max_calls_per_minute,
                ),
                overrides: user_limits::configured_overrides(config.user_limits.overrides@),
                windows: Map::empty(),
            }),
    {
        SecurityManager {
            bans: BanManager::new(config.ban),
            destinations: DestinationPolicy::new(config.destinations),
            user_limits: UserLimitsManager::new(config.user_limits),
            log: EventLog {
                recent_events: VecDeque::new(),
                bus_wired: false,
                outbox: Vec::new(),
            },
        }
    }

    /// From now on events are announced as alerts.
    pub fn set_event_bus(&mut self)
        requires
            old(self).wf(),
        ensures
            final(self).wf(),
            final(self).wired(),
            final(self).events() == old(self).events(),
            final(self).waiting() == old(self).waiting(),
            final(self).bans == old(self).bans,
            final(self).destinations == old(self).destinations,
            final(self).user_limits == old(self).user_limits,
    {
        self.log.bus_wired = true;
    }

    /// Hands the waiting alerts over, oldest first.
    pub fn take_alerts(&mut self) -> (r: Vec<SecurityAlert>)
        requires
            old(self).wf(),
        ensures
            final(self).wf(),
            alert_views(r@) == old(self).waiting(),
            final(self).waiting().len() == 0,
            final(self).wired() == old(self).wired(),
            final(self).events() == old(self).events(),
            final(self).bans == old(self).bans,
            final(self).destinations == old(self).destinations,
            final(self).user_limits == old(self).user_limits,
    {
        let mut out: Vec<SecurityAlert> = Vec::new();
        std::mem::swap(&mut out, &mut self.log.outbox);
        out
    }

    /// Keep an event, and announce it where a bus is wired.
    pub fn emit(&mut self, event: SecurityEvent)
        requires
            old(self).wf(),
        ensures
            final(self).wf(),
            final(self).events() == ring_push(old(self).events(), event@),
            final(self).waiting() == outbox_push(
                old(self).waiting(),
                old(self).wired(),
                event@,
            ),
            final(self).wired() == old(self).wired(),
            final(self).bans == old(self).bans,
            final(self).destinations == old(self).destinations,
            final(self).user_limits == old(self).user_limits,
    {
        if self.log.bus_wired {
            let alert = alert_for(&event);
            let ghost before = self.log.outbox@;
            self.log.outbox.push(alert);
            assert(alert_views(self.log.outbox@) =~= alert_views(before).push(alert_view(event@)));
        }
        let ghost ring = self.log.recent_events@;
        let ghost ev = event@;
        if self.log.recent_events.len() >= 100 {
            let _ = self.log.recent_events.pop_front();
        }
        self.log.recent_events.push_back(event);
        assert(event_views(self.log.recent_events@) =~= ring_push(event_views(ring), ev));
    }

    /// Record a real authentication failure (a stale nonce is none). Returns
    /// the ban entry when this failure triggered one.
    pub fn record_auth_failure(
        &mut self,
        ip: &str,
        username: Option<&str>,
        method: &str,
        at: Moment,
        ts: u64,
    ) -> (r: Option<BanEntry>)
        requires
            old(self).wf(),
            ban::offenses_of(old(self).bans@, ip@) < u32::MAX,
        ensures
            final(self).wf(),
            (ban::entry_view(r), final(self).bans@) == ban::failure_outcome(
                old(self).bans@,
                ip@,
                method@ + " auth failures"@,
                at,
            ),
            final(self).events() == ({
                let first = ring_push(
                    old(self).events(),
                    auth_failure_event(ip@, text::opt_str(username), method@, ts),
                );
                match r {
                    Some(b) => ring_push(first, ban_issued_event(b@, at.wall_ms, ts)),
                    None => first,
                }
            }),
            final(self).waiting() == ({
                let first = outbox_push(
                    old(self).waiting(),
                    old(self).wired(),
                    auth_failure_event(ip@, text::opt_str(username), method@, ts),
                );
                match r {
                    Some(b) => outbox_push(
                        first,
                        old(self).wired(),
                        ban_issued_event(b@, at.wall_ms, ts),
                    ),
                    None => first,
                }
            }),
            final(self).wired() == old(self).wired(),
            final(self).destinations == old(self).destinations,
            final(self).user_limits == old(self).user_limits,
    {
        let name: Option<String> = match username {
            Some(u) => Some(u.to_string()),
            None => None,
        };
        self.emit(
            SecurityEvent::AuthFailure {
                ip: ip.to_string(),
                username: name,
                method: method.to_string(),
                ts,
            },
        );
        let mut reason = method.to_string();
        reason.push_str(" auth failures");
        let banned = self.bans.record_failure(ip, reason.as_str(), at);
        if let Some(entry) = &banned {
            self.emit(
                SecurityEvent::BanIssued {
                    ip: entry.ip.clone(),
                    reason: entry.reason.clone(),
                    duration_secs: entry.remaining_secs(at.wall_ms),
                    failures: entry.failures,
                    manual: false,
                    ts,
                },
            );
        }
        banned
    }

    /// The recent events, oldest first.
    pub fn recent_events(&self) -> (r: Vec<SecurityEvent>)
        ensures
            event_views(r@) == self.events(),
    {
        let mut out: Vec<SecurityEvent> = Vec::new();
        let mut i: usize = 0;
        let ghost all = event_views(self.log.recent_events@);
        while i < self.log.recent_events.len()
            invariant
                i <= self.log.recent_events@.len(),
                all == event_views(self.log.recent_events@),
                event_views(out@) == all.take(i as int),
            decreases self.log.recent_events@.len() - i,
        {
            let ghost before = out@;
            out.push(self.log.recent_events[i].clone());
            assert(event_views(out@) =~= event_views(before).push(all[i as int]));
            assert(all.take(i + 1) =~= all.take(i as int).push(all[i as int]));
            i = i + 1;
        }
        assert(all.take(all.len() as int) =~= all);
        out
    }
}

/// The ring never holds more than a hundred events, and the newest is last.
pub proof fn law_ring_is_bounded(ring: Seq<EventView>, e: EventView)
    requires
        ring.len() <= 100,
    ensures
        ring_push(ring, e).len() <= 100,
        ring_push(ring, e).last() == e,
{
}

} // verus!
