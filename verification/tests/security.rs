use sbc_core::security::ban::{BanConfig, BanEntry, BanManager};
use sbc_core::security::destination::{
    DestinationDecision, DestinationPolicy, DestinationRule, DestinationRuleToml,
    DestinationsConfig,
};
use sbc_core::security::manager::{SecurityEvent, SecurityFeaturesConfig, SecurityManager};
use sbc_core::security::user_limits::{
    LimitDecision, UserLimitOverride, UserLimits, UserLimitsConfig, UserLimitsManager,
};
use sbc_core::security::window::Moment;

const NOW: u64 = 1_700_000_000_000;

fn at(mono_ms: u64) -> Moment {
    Moment { mono_ms, wall_ms: NOW + mono_ms }
}

// ── Bans ────────────────────────────────────────────────────────────────

fn ban_manager(max_failures: u32, window: u64) -> BanManager {
    BanManager::new(BanConfig {
        max_failures,
        window_secs: window,
        ban_duration_secs: 3600,
        ..Default::default()
    })
}

fn ip(last: u8) -> String {
    format!("198.51.100.{}", last)
}

#[test]
fn bans_after_threshold_within_window() {
    let mut mgr = ban_manager(3, 60);
    assert!(mgr.record_failure(&ip(1), "auth", at(0)).is_none());
    assert!(mgr.record_failure(&ip(1), "auth", at(1)).is_none());
    let ban = mgr.record_failure(&ip(1), "auth", at(2));
    assert!(ban.is_some());
    assert!(mgr.is_banned(&ip(1), NOW + 2));
    assert!(!mgr.is_banned(&ip(2), NOW + 2));
}

#[test]
fn a_new_manager_follows_its_settings() {
    let m = SecurityManager::new(SecurityFeaturesConfig {
        ban: BanConfig { max_failures: 4, ..Default::default() },
        destinations: DestinationsConfig {
            default_action: "Deny".to_string(),
            default_country_code: "44".to_string(),
            seed_irsf_rules: false,
            ..Default::default()
        },
        user_limits: UserLimitsConfig {
            enabled: true,
            default_max_concurrent_calls: 3,
            default_max_calls_per_minute: 30,
            overrides: vec![UserLimitOverride {
                user: "alice".to_string(),
                max_concurrent_calls: Some(9),
                max_calls_per_minute: None,
            }],
        },
    });
    assert_eq!(m.bans.config().max_failures, 4);
    assert_eq!(m.bans.offense_count(&ip(1)), 0);
    let mut destinations = m.destinations;
    assert_eq!(destinations.blocked_total(), 0);
    assert!(matches!(
        destinations.check("+33612345678", None),
        DestinationDecision::Blocked { .. }
    ));
    assert_eq!(destinations.blocked_total(), 1);
    let mut limits = m.user_limits;
    assert!(matches!(limits.check_and_record("alice", 8, 0), LimitDecision::Allowed));
    assert!(matches!(
        limits.check_and_record("bob", 3, 0),
        LimitDecision::ConcurrentExceeded { current: 3, limit: 3 }
    ));
}

#[test]
fn offenses_are_counted_per_address() {
    assert_eq!(BanEntry::ts_rfc_secs(1_700_000_000_999), 1_700_000_000);
    let mut mgr = ban_manager(1, 60);
    assert_eq!(mgr.offense_count(&ip(1)), 0);
    assert!(mgr.record_failure(&ip(1), "auth", at(0)).is_some());
    assert_eq!(mgr.offense_count(&ip(1)), 1);
    assert_eq!(mgr.offense_count(&ip(2)), 0);
}

#[test]
fn failures_outside_the_window_do_not_add_up() {
    let mut mgr = ban_manager(2, 60);
    assert!(mgr.record_failure(&ip(1), "auth", at(0)).is_none());
    assert!(mgr.record_failure(&ip(1), "auth", at(60_001)).is_none());
    let ban = mgr.record_failure(&ip(1), "auth", at(60_002)).unwrap();
    assert_eq!(ban.failures, 2);
    assert_eq!(ban.expires_at - ban.banned_at, 3_600_000);
}

#[test]
fn loopback_and_whitelist_never_banned() {
    let mut mgr = BanManager::new(BanConfig {
        max_failures: 1,
        whitelist: vec!["10.0.0.0/8".to_string()],
        ..Default::default()
    });
    assert!(mgr.record_failure("127.0.0.1", "x", at(0)).is_none());
    assert!(mgr.record_failure("10.1.2.3", "x", at(0)).is_none());
    assert!(mgr.record_failure(&ip(9), "x", at(0)).is_some());
    assert!(mgr.is_whitelisted("10.255.0.1"));
    assert!(!mgr.is_whitelisted("11.0.0.1"));
}

#[test]
fn repeat_offender_escalates() {
    let mut mgr = ban_manager(1, 60);
    let first = mgr.record_failure(&ip(3), "auth", at(0)).unwrap();
    mgr.unban(&ip(3));
    let second = mgr.record_failure(&ip(3), "auth", at(0)).unwrap();
    assert_eq!(second.offense_count, 2);
    assert!(second.remaining_secs(NOW) > first.remaining_secs(NOW));
    assert_eq!(first.remaining_secs(NOW), 3_600);
    assert_eq!(second.remaining_secs(NOW), 14_400);
    // A day is the longest.
    mgr.unban(&ip(3));
    mgr.record_failure(&ip(3), "auth", at(0)).unwrap();
    mgr.unban(&ip(3));
    let fourth = mgr.record_failure(&ip(3), "auth", at(0)).unwrap();
    assert_eq!(fourth.remaining_secs(NOW), 86_400);
}

#[test]
fn manual_ban_unban_and_list() {
    let mut mgr = ban_manager(5, 60);
    mgr.ban(&ip(4), 600_000, "manual", NOW);
    assert!(mgr.is_banned(&ip(4), NOW));
    assert_eq!(mgr.list(NOW).len(), 1);
    assert!(mgr.unban(&ip(4)));
    assert!(!mgr.is_banned(&ip(4), NOW));
    assert!(!mgr.unban(&ip(4)));
}

#[test]
fn expired_ban_auto_clears() {
    let mut mgr = ban_manager(1, 60);
    let entry = mgr.record_failure(&ip(5), "auth", at(0)).unwrap();
    let later = entry.expires_at as u64 + 1_000;
    assert!(!mgr.is_banned(&ip(5), later));
    assert_eq!(mgr.cleanup_expired(later), 0); // already removed by is_banned
    mgr.ban(&ip(6), 10, "short", NOW);
    mgr.ban(&ip(7), 100_000, "long", NOW);
    assert_eq!(mgr.cleanup_expired(NOW + 1_000), 1);
    assert!(mgr.is_banned(&ip(7), NOW + 1_000));
}

#[test]
fn restore_skips_expired() {
    let mut mgr = ban_manager(5, 60);
    mgr.restore(
        BanEntry {
            ip: ip(6),
            reason: "old".into(),
            banned_at: (NOW - 7_200_000) as u128,
            expires_at: (NOW - 3_600_000) as u128,
            failures: 5,
            manual: false,
            offense_count: 1,
        },
        NOW,
    );
    assert!(!mgr.is_banned(&ip(6), NOW));
    mgr.restore(
        BanEntry {
            ip: ip(7),
            reason: "active".into(),
            banned_at: NOW as u128,
            expires_at: (NOW + 3_600_000) as u128,
            failures: 5,
            manual: false,
            offense_count: 2,
        },
        NOW,
    );
    assert!(mgr.is_banned(&ip(7), NOW));
    assert_eq!(mgr.list(NOW)[0].offense_count, 2);
}

#[test]
fn new_settings_of_bans_apply_at_once() {
    let mut mgr = ban_manager(5, 60);
    let mut c = mgr.config();
    assert_eq!(c.max_failures, 5);
    assert!(mgr.silent_drop());
    c.max_failures = 1;
    c.silent_drop = false;
    mgr.set_config(c);
    assert!(!mgr.silent_drop());
    assert!(mgr.record_failure(&ip(8), "x", at(0)).is_some());
}

// ── Destinations ────────────────────────────────────────────────────────

fn policy() -> DestinationPolicy {
    DestinationPolicy::new(DestinationsConfig::default())
}

fn rule(id: &str, prefix: &str, deny: bool, user: Option<&str>, enabled: bool) -> DestinationRule {
    DestinationRule {
        id: id.into(),
        prefix: prefix.into(),
        deny,
        user: user.map(|u| u.to_string()),
        description: "test".into(),
        enabled,
    }
}

#[test]
fn canonicalization_table() {
    let p = policy();
    assert_eq!(p.canonicalize("+33612345678"), "+33612345678");
    assert_eq!(p.canonicalize("0612345678"), "+33612345678");
    assert_eq!(p.canonicalize("0088216311111"), "+88216311111");
    assert_eq!(p.canonicalize("06 12-34.56 78"), "+33612345678");
    assert_eq!(p.canonicalize("alice"), "alice");
}

#[test]
fn irsf_seed_blocks_satellite_ranges() {
    let mut p = policy();
    assert!(matches!(
        p.check("0088216311111", None),
        DestinationDecision::Blocked { .. }
    ));
    assert!(matches!(
        p.check("+97912345", None),
        DestinationDecision::Blocked { .. }
    ));
    assert_eq!(p.check("0612345678", None), DestinationDecision::Allowed);
    assert_eq!(p.blocked_total(), 2);
}

#[test]
fn longest_prefix_and_user_scope_win() {
    let mut p = policy();
    // Global deny on +33899 premium, but allow a longer carve-out prefix
    p.add_rule(DestinationRule {
        id: "deny899".into(), prefix: "+33899".into(), deny: true,
        user: None, description: "premium".into(), enabled: true,
    });
    p.add_rule(DestinationRule {
        id: "allow8991".into(), prefix: "+338991".into(), deny: false,
        user: None, description: "carve-out".into(), enabled: true,
    });
    assert!(matches!(p.check("0899000000", None), DestinationDecision::Blocked { .. }));
    assert_eq!(p.check("0899100000", None), DestinationDecision::Allowed);

    // Per-user deny beats global allow
    p.add_rule(DestinationRule {
        id: "alice-no-intl".into(), prefix: "+1".into(), deny: true,
        user: Some("alice".into()), description: "no US for alice".into(), enabled: true,
    });
    assert!(matches!(
        p.check("+12125551234", Some("alice")),
        DestinationDecision::Blocked { .. }
    ));
    assert_eq!(p.check("+12125551234", Some("bob")), DestinationDecision::Allowed);
}

#[test]
fn default_deny_mode() {
    let mut p = policy();
    p.set_default_action(true);
    p.add_rule(DestinationRule {
        id: "fr".into(), prefix: "+33".into(), deny: false,
        user: None, description: "France ok".into(), enabled: true,
    });
    assert_eq!(p.check("0612345678", None), DestinationDecision::Allowed);
    assert!(matches!(p.check("+4912345", None), DestinationDecision::Blocked { .. }));
    assert!(p.default_action_deny());
}

#[test]
fn disabled_rule_ignored() {
    let mut p = policy();
    p.add_rule(DestinationRule {
        id: "off".into(), prefix: "+33".into(), deny: true,
        user: None, description: "disabled".into(), enabled: false,
    });
    assert_eq!(p.check("0612345678", None), DestinationDecision::Allowed);
}

#[test]
fn a_tie_denies_and_a_removed_rule_is_gone() {
    let mut p = policy();
    p.add_rule(rule("a", "+44", false, None, true));
    p.add_rule(rule("b", "+44", true, None, true));
    assert!(matches!(p.check("+441", None), DestinationDecision::Blocked { rule_id, .. } if rule_id == "b"));
    assert!(p.remove_rule("b"));
    assert!(!p.remove_rule("b"));
    assert_eq!(p.check("+441", None), DestinationDecision::Allowed);
    assert!(p.list_rules().iter().all(|r| r.id != "b"));
}

#[test]
fn configured_deny_rules_replace_the_seed() {
    let mut p = DestinationPolicy::new(DestinationsConfig {
        rules: vec![DestinationRuleToml {
            prefix: "+44".into(),
            action: "deny".into(),
            user: None,
            description: "no UK".into(),
        }],
        ..Default::default()
    });
    assert!(matches!(p.check("+4412", None), DestinationDecision::Blocked { .. }));
    assert_eq!(p.check("+88216311111", None), DestinationDecision::Allowed);
}

// ── Limits ──────────────────────────────────────────────────────────────

fn limits(concurrent: u32, cpm: u32) -> UserLimitsManager {
    UserLimitsManager::new(UserLimitsConfig {
        enabled: true,
        default_max_concurrent_calls: concurrent,
        default_max_calls_per_minute: cpm,
        overrides: vec![],
    })
}

#[test]
fn concurrent_cap() {
    let mut mgr = limits(2, 0);
    assert_eq!(mgr.check_and_record("alice", 0, 0), LimitDecision::Allowed);
    assert_eq!(mgr.check_and_record("alice", 1, 0), LimitDecision::Allowed);
    assert!(matches!(
        mgr.check_and_record("alice", 2, 0),
        LimitDecision::ConcurrentExceeded { current: 2, limit: 2 }
    ));
}

#[test]
fn rate_window() {
    let mut mgr = limits(0, 3);
    for _ in 0..3 {
        assert_eq!(mgr.check_and_record("bob", 0, 1_000), LimitDecision::Allowed);
    }
    match mgr.check_and_record("bob", 0, 1_000) {
        LimitDecision::RateExceeded { current, limit, retry_after_secs } => {
            assert_eq!((current, limit), (3, 3));
            assert!(retry_after_secs >= 1 && retry_after_secs <= 60);
        }
        other => panic!("expected RateExceeded, got {:?}", other),
    }
    // Other users unaffected
    assert_eq!(mgr.check_and_record("carol", 0, 1_000), LimitDecision::Allowed);
    // A minute later the window is empty again.
    assert_eq!(mgr.check_and_record("bob", 0, 61_001), LimitDecision::Allowed);
}

#[test]
fn zero_means_unlimited_and_overrides_beat_defaults() {
    let mut mgr = limits(1, 1);
    mgr.set_override("pbx", UserLimits {
        max_concurrent_calls: Some(0),
        max_calls_per_minute: Some(0),
    });
    for _ in 0..10 {
        assert_eq!(mgr.check_and_record("pbx", 100, 0), LimitDecision::Allowed);
    }
    assert!(matches!(
        mgr.check_and_record("normal", 1, 0),
        LimitDecision::ConcurrentExceeded { .. }
    ));
    assert!(mgr.remove_override("pbx"));
    assert!(!mgr.remove_override("pbx"));
    assert_eq!(mgr.limits_for("pbx"), (1, 1));
}

#[test]
fn disabled_allows_everything() {
    let mut mgr = UserLimitsManager::new(UserLimitsConfig {
        enabled: false,
        default_max_concurrent_calls: 1,
        default_max_calls_per_minute: 1,
        overrides: vec![],
    });
    for _ in 0..5 {
        assert_eq!(mgr.check_and_record("x", 99, 0), LimitDecision::Allowed);
    }
}

#[test]
fn defaults_and_configured_overrides() {
    let mut mgr = UserLimitsManager::new(UserLimitsConfig {
        enabled: true,
        default_max_concurrent_calls: 4,
        default_max_calls_per_minute: 10,
        overrides: vec![UserLimitOverride {
            user: "pbx".into(),
            max_concurrent_calls: Some(30),
            max_calls_per_minute: None,
        }],
    });
    assert_eq!(mgr.limits_for("pbx"), (30, 10));
    mgr.set_defaults(2, 3);
    assert_eq!(mgr.defaults(), (2, 3));
    assert_eq!(mgr.limits_for("alice"), (2, 3));
    assert_eq!(mgr.limits_for("pbx"), (30, 3));
    assert_eq!(mgr.overrides().len(), 1);
    assert_eq!(mgr.overrides()[0].0, "pbx");
}

// ── Together ────────────────────────────────────────────────────────────

#[test]
fn failed_logins_are_recorded_and_lead_to_a_ban() {
    let mut features = SecurityFeaturesConfig::default();
    features.ban.max_failures = 2;
    let mut m = SecurityManager::new(features);
    m.set_event_bus();
    assert!(m
        .record_auth_failure("198.51.100.1", Some("alice"), "REGISTER", at(0), 7)
        .is_none());
    let ban = m
        .record_auth_failure("198.51.100.1", None, "REGISTER", at(1), 8)
        .unwrap();
    assert_eq!(ban.failures, 2);
    let events = m.recent_events();
    assert_eq!(events.len(), 3);
    assert!(matches!(&events[2], SecurityEvent::BanIssued { duration_secs: 3600, manual: false, .. }));
    let alerts = m.take_alerts();
    assert!(!alerts.is_empty());
    assert!(m.take_alerts().is_empty());
}
