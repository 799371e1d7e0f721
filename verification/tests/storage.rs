use sbc_core::backup::{
    next_run_after, run_backup, spawn_backup_timer, BackupError, BackupInfo, BackupPolicy,
    RUN_FLOOR,
};
use sbc_core::ban_store::{ban_row_to_entry, persist_ban, restore_bans, BanRow};
use sbc_core::hydrate::{
    apply_acl, apply_dids, apply_trunks_and_routes, apply_users, refresh_trunk_ips,
    register_trunk_tls_configs, trunk_row_to_config, AclAction, AclRuleRow, DidRow, Direction,
    NumberFormat, RouteRow, TransportType, TrunkRow, UserRow,
};
use sbc_core::import::{
    add_file_trunks, first_boot_import, import_stamp, reload_users, trunk_from_file, trunk_row, SeedUser, Seeds,
    TrunkToml,
};
use sbc_core::invite_handler::DidMapping;
use sbc_core::rfc3339::{parse_timestamp, systemtime_rfc3339};
use sbc_core::security::ban::{BanConfig, BanEntry, BanManager};

const SECOND: u128 = 1_000_000_000;

// ── Backups ─────────────────────────────────────────────────────────────

#[test]
fn next_run_waits_for_the_remaining_interval() {
    let now: u128 = 1_700_000_000 * SECOND;
    let day: u128 = 86400 * SECOND;
    let d = next_run_after(Some(now - 3600 * SECOND), now, day);
    assert!(
        d > 82000 * SECOND && d <= 82800 * SECOND,
        "{:?}",
        d
    );
}

#[test]
fn next_run_is_soon_when_stale_or_missing() {
    let now: u128 = 1_700_000_000 * SECOND;
    let day: u128 = 86400 * SECOND;
    assert_eq!(next_run_after(None, now, day), 60 * SECOND);
    assert_eq!(
        next_run_after(Some(now - 3 * 86400 * SECOND), now, day),
        60 * SECOND
    );
}

#[test]
fn a_clock_that_went_back_waits_a_whole_interval() {
    assert_eq!(next_run_after(Some(100 * SECOND), 50 * SECOND, 86400 * SECOND), 86400 * SECOND);
    assert_eq!(next_run_after(Some(100 * SECOND), 50 * SECOND, 5 * SECOND), RUN_FLOOR);
}

#[test]
fn the_timer_seeds_the_gauge_even_when_off() {
    let off = BackupPolicy { dir: "data/backups".to_string(), interval: None, keep: 7 };
    let t = spawn_backup_timer(&off, Some((5 * SECOND + 7, 42)), 9 * SECOND);
    assert_eq!(t.last_success, Some((5, 42)));
    assert_eq!(t.delays, None);
    let on = BackupPolicy { interval: Some(86400 * SECOND), ..off };
    let t = spawn_backup_timer(&on, None, 9 * SECOND);
    assert_eq!(t.last_success, None);
    assert_eq!(t.delays, Some((60 * SECOND, 86400 * SECOND)));
}

fn info() -> BackupInfo {
    BackupInfo { path: "b-2".to_string(), bytes: 4096, took_ms: 3 }
}

#[test]
fn backup_outcomes() {
    let (r, effects) = run_backup(None, Ok(vec![]));
    assert!(matches!(r, Err(BackupError::Busy)));
    assert!(effects.recorded.is_none() && !effects.failure_counted && effects.alert.is_none());
    let (r, effects) = run_backup(Some(Ok(info())), Ok(vec!["b-1".to_string()]));
    assert_eq!(r.unwrap().pruned, vec!["b-1".to_string()]);
    assert_eq!(effects.recorded, Some(4096));
    let (r, _) = run_backup(Some(Ok(info())), Err("gone".to_string()));
    assert!(r.unwrap().pruned.is_empty(), "a failed prune does not fail the backup");
    let (r, effects) = run_backup(Some(Err("disk full".to_string())), Ok(vec![]));
    assert!(matches!(r, Err(BackupError::Failed(why)) if why == "disk full"));
    assert!(effects.failure_counted);
    assert_eq!(
        effects.alert,
        Some(("warning".to_string(), "backup_failed".to_string(), "disk full".to_string()))
    );
}

// ── Hydration ───────────────────────────────────────────────────────────

fn user_row(name: &str, enabled: bool) -> UserRow {
    UserRow {
        username: name.to_string(),
        ha1: format!("{:0>32}", name.len()),
        realm: "sip.example.com".to_string(),
        display_name: None,
        enabled,
        max_concurrent_calls: None,
        max_calls_per_minute: None,
    }
}

fn stored_trunk(name: &str) -> TrunkRow {
    TrunkRow {
        name: name.to_string(),
        enabled: true,
        host: "192.0.2.10".to_string(),
        port: 5060,
        transport: "UDP".to_string(),
        auth_required: false,
        username: None,
        password: None,
        realm: None,
        register_with_trunk: false,
        registration_interval: 300,
        prefix_patterns: r#"["+33"]"#.to_string(),
        priority: 100,
        weight: 100,
        cost_per_minute: 0,
        number_format: "e164".to_string(),
        country_code: None,
        national_prefix: None,
        caller_number_format: None,
        caller_number_override: None,
        caller_display_name: None,
        allowed_codecs: r#"["PCMU"]"#.to_string(),
        max_concurrent_calls: 100,
        tls_sni: None,
        tls_ca_cert: None,
        tls_verify: true,
        tls_client_cert: None,
        tls_client_key: None,
    }
}

fn route(prefix: &str, trunk: &str, enabled: bool) -> RouteRow {
    RouteRow { prefix: prefix.to_string(), trunk_name: trunk.to_string(), enabled }
}

#[test]
fn users_hydrate_excludes_disabled() {
    let users = apply_users(&vec![user_row("alice", true), user_row("mallory", false)]);
    assert_eq!(users.len(), 1);
    assert_eq!(users[0].0, "alice");
    assert_eq!(users[0].1, format!("{:0>32}", 5));
}

#[test]
fn dids_hydrate_replaces_vector() {
    let rows = vec![
        DidRow {
            number: "+33123".to_string(),
            sip_user: "alice".to_string(),
            display_name: Some("Alice".to_string()),
            enabled: true,
        },
        DidRow {
            number: "+33999".to_string(),
            sip_user: "off".to_string(),
            display_name: None,
            enabled: false,
        },
    ];
    let v = apply_dids(&rows);
    assert_eq!(v.len(), 1);
    assert_eq!(v[0].number, "+33123");
    assert_eq!(v[0].display_name.as_deref(), Some("Alice"));
}

#[test]
fn trunks_hydrate_upserts_and_disables() {
    let rows = vec![stored_trunk("pstn-1")];
    let routes = vec![route("+1", "pstn-1", true), route("+44", "pstn-1", false), route("+1", "pstn-1", true)];
    // A trunk that is not stored must get disabled
    let mut trunks = vec![trunk_row_to_config(&stored_trunk("stale"), &vec![])];

    assert_eq!(apply_trunks_and_routes(&mut trunks, &rows, &routes), (1, 0, 1));
    let t = trunks.iter().find(|t| t.name == "pstn-1").unwrap();
    assert_eq!(t.prefix_patterns, vec!["+33".to_string(), "+1".to_string()]);
    assert_eq!(t.allowed_codecs, vec!["PCMU".to_string()]);
    assert!(!trunks.iter().find(|t| t.name == "stale").unwrap().enabled);

    // Second run: update, id preserved
    let id_before = t.id.clone();
    let (added2, updated2, disabled2) = apply_trunks_and_routes(&mut trunks, &rows, &routes);
    assert_eq!((added2, updated2, disabled2), (0, 1, 0));
    assert_eq!(trunks.iter().find(|t| t.name == "pstn-1").unwrap().id, id_before);
    assert_eq!(trunks.len(), 2);
}

#[test]
fn a_trunk_row_is_read_field_by_field() {
    let mut row = stored_trunk("t");
    row.transport = "wss".to_string();
    row.number_format = "National".to_string();
    row.caller_number_format = Some("LOCAL".to_string());
    row.registration_interval = -5;
    row.port = 70000;
    row.prefix_patterns = "not a list".to_string();
    let t = trunk_row_to_config(&row, &vec!["+1".to_string()]);
    assert_eq!(t.transport, TransportType::Wss);
    assert_eq!(t.number_format, NumberFormat::National);
    assert_eq!(t.caller_number_format, Some(NumberFormat::Local));
    assert_eq!(t.registration_interval, 0);
    assert_eq!(t.port, 70000i64 as u16);
    assert_eq!(t.prefix_patterns, vec!["+1".to_string()]);
    assert_eq!(t.calls_per_second, 10);
    assert_eq!(t.id.len(), 36);
    assert_ne!(t.id, trunk_row_to_config(&row, &vec![]).id);
    row.transport = "carrier pigeon".to_string();
    row.number_format = "anything".to_string();
    let t = trunk_row_to_config(&row, &vec![]);
    assert_eq!(t.transport, TransportType::Udp);
    assert_eq!(t.number_format, NumberFormat::E164);
}

#[test]
fn acl_hydrate_loads_rules_and_default() {
    let row = |id: &str, cidr: &str| AclRuleRow {
        id: id.to_string(),
        cidr: cidr.to_string(),
        action: "deny".to_string(),
        direction: "inbound".to_string(),
        priority: 10,
        enabled: true,
        comment: Some("scanner".to_string()),
    };
    let rows = vec![row("bad", "nonsense"), row("block-scanner", "198.51.100.0/24")];
    let rules = apply_acl(&rows, &vec![false, true]);
    assert_eq!(rules.len(), 1);
    assert_eq!(rules[0].id, "block-scanner");
    assert_eq!(rules[0].action, AclAction::Deny);
    assert_eq!(rules[0].direction, Direction::Inbound);
    assert_eq!(rules[0].priority, 10);
}

#[test]
fn trunk_sources_and_tls_destinations() {
    let mut a = trunk_row_to_config(&stored_trunk("a"), &vec![]);
    a.resolved_addr = Some(("203.0.113.5".to_string(), 5061));
    a.transport = TransportType::Tls;
    let mut b = trunk_row_to_config(&stored_trunk("b"), &vec![]);
    b.transport = TransportType::Tls;
    let mut c = trunk_row_to_config(&stored_trunk("c"), &vec![]);
    c.resolved_addr = Some(("203.0.113.7".to_string(), 5060));
    let trunks = vec![a, b, c];
    assert_eq!(
        refresh_trunk_ips(&trunks),
        vec!["203.0.113.5", "192.0.2.10", "192.0.2.10", "203.0.113.7", "192.0.2.10"]
    );
    let tls = register_trunk_tls_configs(&trunks);
    assert_eq!(tls.len(), 1);
    assert_eq!(tls[0].0, ("203.0.113.5".to_string(), 5061));
    assert_eq!(tls[0].1.sni, "192.0.2.10", "the host where no name is set");
}

// ── Import ──────────────────────────────────────────────────────────────

fn file_trunk(name: &str) -> TrunkToml {
    TrunkToml {
        name: name.to_string(),
        enabled: true,
        transport: "tls".to_string(),
        host: "trunk.example.com".to_string(),
        port: 5061,
        auth_required: true,
        username: Some("u".to_string()),
        password: Some("p".to_string()),
        realm: None,
        allowed_codecs: vec!["PCMA".to_string()],
        max_concurrent_calls: 20,
        register_with_trunk: true,
        registration_interval: 300,
        cost_per_minute: 2,
        priority: 10,
        weight: 50,
        prefix_patterns: vec!["+33".to_string(), "\"quoted\"".to_string()],
        number_format: "national".to_string(),
        country_code: Some("33".to_string()),
        national_prefix: Some("0".to_string()),
        caller_number_format: None,
        caller_number_override: None,
        caller_display_name: None,
    }
}

fn seeds() -> Seeds {
    Seeds {
        realm: "sip.example.com".to_string(),
        users: vec![SeedUser { username: "alice".to_string(), ha1: "f".repeat(32) }],
        dids: vec![DidMapping {
            number: "+33123456789".to_string(),
            user: "alice".to_string(),
            display_name: None,
        }],
        trunks: vec![],
    }
}

#[test]
fn users_of_the_file_replace_those_in_force() {
    let mut users = vec![("bob".to_string(), "b".repeat(32))];
    assert!(!reload_users(&mut users, &vec![]), "a file without users changes nothing");
    assert_eq!(users, vec![("bob".to_string(), "b".repeat(32))]);
    assert!(reload_users(&mut users, &seeds().users));
    assert_eq!(users, vec![("alice".to_string(), "f".repeat(32))]);
}

#[test]
fn import_seeds_empty_store() {
    let plan = first_boot_import(&seeds(), Some(true), Some(true), Some(true));
    assert_eq!((plan.users.len(), plan.dids.len(), plan.trunks.len()), (1, 1, 0));
    assert_eq!(plan.users[0].ha1, "f".repeat(32));
    assert_eq!(plan.users[0].realm, "sip.example.com");
    assert!(plan.users[0].enabled);
    assert_eq!(plan.dids[0].number, "+33123456789");
    assert!(import_stamp((1, 1, 0), 1_700_000_000).is_some());
    assert_eq!(import_stamp((0, 0, 0), 1_700_000_000), None);
}

#[test]
fn import_is_idempotent() {
    let plan = first_boot_import(&seeds(), Some(false), Some(true), None);
    assert_eq!(plan.users.len(), 0, "non-empty table must not be re-seeded");
    assert_eq!(plan.dids.len(), 1);
    assert_eq!(plan.trunks.len(), 0);
}

#[test]
fn an_imported_trunk_runs_as_the_file_describes_it() {
    let tc = file_trunk("pstn");
    let row = trunk_row(&tc);
    assert_eq!(row.prefix_patterns, r#"["+33","\"quoted\""]"#);
    assert_eq!(row.allowed_codecs, r#"["PCMA"]"#);
    let stored = trunk_row_to_config(&row, &vec![]);
    let direct = trunk_from_file(&tc, &stored.id);
    assert_eq!(stored.prefix_patterns, direct.prefix_patterns);
    assert_eq!(stored.allowed_codecs, direct.allowed_codecs);
    assert_eq!(stored.transport, direct.transport);
    assert_eq!(stored.port, direct.port);
    assert_eq!(stored.priority, direct.priority);
    assert_eq!(stored.number_format, direct.number_format);
    assert_eq!(stored.registration_interval, direct.registration_interval);
    assert_eq!(stored.password, direct.password);
}

#[test]
fn file_trunks_are_added_once_on_reload() {
    let mut off = file_trunk("off");
    off.enabled = false;
    let file = vec![file_trunk("a"), off, file_trunk("b")];
    let mut table = vec![];
    assert_eq!(add_file_trunks(&mut table, &file, false), 2);
    assert_eq!(add_file_trunks(&mut table, &file, true), 0);
    assert_eq!(table.len(), 2);
    assert_ne!(table[0].id, table[1].id);
}

// ── Time and bans ───────────────────────────────────────────────────────

#[test]
fn rfc3339_shape() {
    let secs = std::time::SystemTime::now()
        .duration_since(std::time::UNIX_EPOCH)
        .unwrap()
        .as_secs();
    let s = systemtime_rfc3339(secs);
    assert_eq!(s.len(), 20);
    assert!(s.ends_with('Z'));
    assert!(s.starts_with("20"));
}

#[test]
fn timestamps_read_back() {
    for (secs, text) in [
        (0u64, "1970-01-01T00:00:00Z"),
        (951_782_400, "2000-02-29T00:00:00Z"),
        (1_700_000_000, "2023-11-14T22:13:20Z"),
        (4_102_444_799, "2099-12-31T23:59:59Z"),
    ] {
        assert_eq!(systemtime_rfc3339(secs), text);
        assert_eq!(parse_timestamp(text), Some(secs as u128));
    }
    assert_eq!(parse_timestamp("2023-11-14T22:13:20.9Z"), Some(1_700_000_000));
    assert_eq!(parse_timestamp("2023-11-14"), None);
    assert_eq!(parse_timestamp("2023-11-14T22:13"), None);
    assert_eq!(parse_timestamp("x-11-14T22:13:20Z"), None);
}

fn ban() -> BanEntry {
    BanEntry {
        ip: "198.51.100.7".to_string(),
        reason: "REGISTER auth failures".to_string(),
        banned_at: 1_700_000_000_500,
        expires_at: 1_700_003_600_500,
        failures: 5,
        manual: false,
        offense_count: 2,
    }
}

#[test]
fn a_stored_ban_survives_a_restart() {
    let row = persist_ban(&ban());
    assert_eq!(row.banned_at, "2023-11-14T22:13:20Z");
    let back = ban_row_to_entry(&row).unwrap();
    assert_eq!(back.ip, "198.51.100.7");
    assert_eq!(back.expires_at, 1_700_003_600_000);
    assert_eq!((back.failures, back.offense_count), (5, 2));
    let mut mgr = BanManager::new(BanConfig::default());
    let broken = BanRow { ip: "not an address".to_string(), ..persist_ban(&ban()) };
    assert!(ban_row_to_entry(&broken).is_none());
    restore_bans(&mut mgr, &vec![broken, row], 1_700_000_001_000);
    assert!(mgr.is_banned("198.51.100.7", 1_700_000_001_000));
    assert_eq!(mgr.list(1_700_000_001_000).len(), 1);
    // The text of an address is brought to one form.
    let odd = BanRow { ip: "2001:DB8:0::1".to_string(), ..persist_ban(&ban()) };
    assert_eq!(ban_row_to_entry(&odd).unwrap().ip, "2001:db8::1");
}
