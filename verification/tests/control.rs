use sbc_core::config::{apply_security, runtime_settings, SbcConfig};
use sbc_core::engine::{
    apply_outbound_topology, boot_trunk_ips, handle_request, media_address, method_not_allowed, method_not_allowed_with,
    open_store, receive, run, sbc_addr, store_readiness, topology_identity, Handler, LoopAction, LoopEvent,
    Received, Screening, SourceFacts, StoreState, ALLOWED_METHODS,
};
use sbc_core::identity::{
    authorize_aor, brackets_ordered, enforces, extract_uri_user, normalize_aor, served_domains, uri_host, uri_user,
    AorRejection, IdentityPolicy, Mismatch, Readiness,
};
use sbc_core::message::SipRequest;
use sbc_core::net::{is_private_ip, Address};
use sbc_core::raw_message::RawSipMessage;
use sbc_core::register::{
    build_register_200_with, build_register_401, build_register_401_with, build_register_423_with,
    contact_expires, handle_register, keeps_connection, register_aor, RegisterAuth, RegisterPlan, RegisterPolicy,
};
use sbc_core::client_tx::Transport;
use sbc_core::runtime_config::{reload_action, ReloadReport, ReloadSource, RuntimeConfig};
use sbc_core::sdp::{extract_sdp_rtp_addr, rtp_endpoint};
use sbc_core::security::manager::{
    alert_for, mismatch_event, SecurityEvent, SecurityFeaturesConfig, SecurityManager,
};
use sbc_core::security::user_limits::UserLimits;

// ── Configuration ───────────────────────────────────────────────────────

#[test]
fn record_reload_updates_effective_and_bumps_generation() {
    let mut rc = RuntimeConfig::new(SbcConfig::default(), None, 1);
    assert_eq!(rc.generation(), 0);
    let mut loaded = SbcConfig::default();
    loaded.security.rtp_timeout = 45;
    loaded.management.api_port = 1;
    rc.record_reload(
        ReloadReport {
            ts: 10,
            source: ReloadSource::Api,
            ok: true,
            error: None,
            applied: vec!["security.rtp_timeout".into()],
            restart_required: vec!["management.api_port".into()],
            hydrated: true,
        },
        Some(loaded),
    );
    assert_eq!(rc.generation(), 1);
    let s = rc.snapshot();
    assert_eq!(s.effective.security.rtp_timeout, 45);
    assert_eq!(
        s.effective.management.api_port,
        SbcConfig::default().management.api_port,
        "restart keys keep the boot value"
    );
    assert_eq!(s.last_loaded.management.api_port, 1);
    assert_eq!(s.source, ReloadSource::Api);
    assert_eq!(s.loaded_at, 10);

    rc.record_reload(
        ReloadReport {
            ts: 11,
            source: ReloadSource::Sighup,
            ok: false,
            error: Some("parse".into()),
            applied: vec![],
            restart_required: vec![],
            hydrated: false,
        },
        None,
    );
    assert_eq!(rc.generation(), 2);
    let s = rc.snapshot();
    assert_eq!(s.effective.security.rtp_timeout, 45, "unchanged on failure");
    assert_eq!(s.source, ReloadSource::Api);
    assert_eq!(s.last_reload.unwrap().error.as_deref(), Some("parse"));
}

#[test]
fn max_call_duration_zero_means_unlimited() {
    let mut cfg = SbcConfig::default();
    cfg.security.max_call_duration = 0;
    assert_eq!(runtime_settings(&cfg, (None, None)).max_call_duration, None);
    // A 30 s value is still floored at 60 s (a typo must not cut calls).
    cfg.security.max_call_duration = 30;
    assert_eq!(runtime_settings(&cfg, (None, None)).max_call_duration, Some(60));
}

#[test]
fn reload_applies_every_reload_class_key_from_the_toml() {
    let mut rc = RuntimeConfig::new(SbcConfig::default(), Some("sbc.toml".to_string()), 0);
    let mut cfg = SbcConfig::default();
    cfg.security.rate_limit_per_ip = 7;
    cfg.security.rtp_timeout = 45;
    cfg.security.invite_timeout = 9;
    cfg.security.max_call_duration = 600;
    cfg.security.call_setup_timeout = 30;
    cfg.security.session_timer_enabled = true;
    cfg.security.session_expires = 14400;
    cfg.security.min_se = 90;
    cfg.security.trunk_local_from = "reject".into();
    cfg.security.features.ban.max_failures = 2;
    cfg.security.features.destinations.default_action = "deny".into();
    cfg.security.features.user_limits.enabled = false;
    cfg.security.features.user_limits.default_max_concurrent_calls = 2;
    cfg.security.features.user_limits.default_max_calls_per_minute = 3;
    let report = rc
        .reload_config(ReloadSource::Api, 5, Ok(cfg.clone()), None, (None, None))
        .unwrap();
    assert!(report.ok && !report.hydrated);
    assert!(report.restart_required.is_empty(), "{:?}", report);
    assert_eq!(
        report.applied,
        vec![
            "security.rate_limit_per_ip",
            "security.rtp_timeout",
            "security.invite_timeout",
            "security.max_call_duration",
            "security.call_setup_timeout",
            "security.session_timer",
            "security.identity",
            "security.ban",
            "security.destinations",
            "security.user_limits",
        ]
    );
    let now = runtime_settings(&rc.effective(), (None, None));
    assert_eq!(now.requests_per_second, 7);
    assert_eq!(now.burst_size, 14);
    assert_eq!(now.rtp_timeout, 45);
    assert_eq!(now.invite_timeout, 9);
    assert_eq!(now.max_call_duration, Some(600));
    assert_eq!(now.call_setup_timeout, 30);
    assert_eq!(now.session_timer, Some((14400, 90)));
    assert!(now.identity_policy.reject_trunk_local_from);
    assert_eq!(now.ban.max_failures, 2);
    assert!(!now.user_limits.enabled);
    assert_eq!(now.destinations.default_action, "deny");
    assert_eq!(now.user_limits.default_max_concurrent_calls, 2);
    assert_eq!(now.user_limits.default_max_calls_per_minute, 3);
    let mut sec = SecurityManager::new(SecurityFeaturesConfig::default());
    sec.user_limits.set_override(
        "bob",
        UserLimits { max_concurrent_calls: Some(9), max_calls_per_minute: None },
    );
    assert!(sec.user_limits.is_enabled());
    apply_security(&mut sec, &now);
    assert_eq!(sec.bans.config().max_failures, 2);
    assert!(sec.destinations.default_action_deny());
    assert!(!sec.user_limits.is_enabled());
    assert_eq!(sec.user_limits.defaults(), (2, 3));
    assert_eq!(sec.user_limits.limits_for("bob"), (9, 3), "an override stays");

    // A second reload of the same file applies nothing new.
    let again = rc
        .reload_config(ReloadSource::Sighup, 6, Ok(cfg), None, (None, None))
        .unwrap();
    assert!(again.applied.is_empty(), "{:?}", again.applied);
}

#[test]
fn reload_reports_restart_required_and_a_broken_file_changes_nothing() {
    let mut rc = RuntimeConfig::new(SbcConfig::default(), Some("sbc.toml".to_string()), 0);
    let mut cfg = SbcConfig::default();
    cfg.security.sip_realm = "other.example".into();
    cfg.management.api_port += 1;
    let report = rc
        .reload_config(ReloadSource::Api, 5, Ok(cfg), None, (None, None))
        .unwrap();
    assert_eq!(
        report.restart_required,
        vec!["management.api_port", "security.sip_realm"]
    );
    assert_eq!(
        rc.effective().security.sip_realm,
        SbcConfig::default().security.sip_realm,
        "restart keys keep the boot value"
    );
    let before = runtime_settings(&rc.effective(), (None, None)).max_call_duration;
    let err = rc
        .reload_config(ReloadSource::Sighup, 6, Err("parse: bad value".to_string()), None, (None, None))
        .unwrap_err();
    assert!(err.contains("parse"), "{}", err);
    assert_eq!(runtime_settings(&rc.effective(), (None, None)).max_call_duration, before);
    let last = rc.last_reload().unwrap();
    assert!(!last.ok && last.error.is_some());
    assert_eq!(reload_action(last.ok), "reload_failed");
    assert_eq!(reload_action(true), "reloaded");
    let err = rc
        .reload_config(
            ReloadSource::Api, 7, Ok(SbcConfig::default()), Some(Err("store gone".to_string())), (None, None),
        )
        .unwrap_err();
    assert_eq!(err, "store gone");
    assert_eq!(rc.generation(), 3);
}

#[test]
fn reload_keeps_api_set_user_limit_defaults_over_the_toml() {
    let mut rc = RuntimeConfig::new(SbcConfig::default(), Some("sbc.toml".to_string()), 0);
    let mut cfg = SbcConfig::default();
    cfg.security.features.user_limits.default_max_concurrent_calls = 4;
    cfg.security.features.user_limits.default_max_calls_per_minute = 10;
    let stored = (Some(9), Some(99));
    let report = rc
        .reload_config(ReloadSource::Api, 5, Ok(cfg), Some(Ok(())), stored)
        .unwrap();
    assert!(report.hydrated);
    let now = runtime_settings(&rc.effective(), stored).user_limits;
    assert_eq!(
        (now.default_max_concurrent_calls, now.default_max_calls_per_minute),
        (9, 99),
        "the store wins"
    );
    assert!(!report.applied.iter().any(|k| k == "security.user_limits"));
}

#[test]
fn a_reload_needs_a_path() {
    let mut rc = RuntimeConfig::new(SbcConfig::default(), None, 0);
    let err = rc
        .reload_config(ReloadSource::Api, 5, Ok(SbcConfig::default()), None, (None, None))
        .unwrap_err();
    assert_eq!(err, "No config path set for reload");
    assert_eq!(rc.generation(), 0);
    rc.set_path("x.toml");
    assert_eq!(rc.config_path().as_deref(), Some("x.toml"));
    assert_eq!(rc.boot().management.api_port, 8080);
}

// ── Identity ────────────────────────────────────────────────────────────

#[test]
fn uri_parts() {
    assert_eq!(
        uri_user("sip:alice@sip.example.com").as_deref(),
        Some("alice")
    );
    assert_eq!(
        uri_user("\"Bob\" <sip:bob@sip.example.com>;tag=1").as_deref(),
        Some("bob"),
        "display names are not the user"
    );
    assert_eq!(
        uri_host("\"x@evil.example\" <sip:alice@sip.example.com>;tag=1").as_deref(),
        Some("sip.example.com"),
        "an @ in the display name does not fool the host"
    );
    assert_eq!(
        uri_host("\"<x>\" <sip:alice@h>").as_deref(),
        Some("h"),
        "a < inside the display name: the last <…> wins"
    );
    assert_eq!(uri_user("<sip:alice@h>").as_deref(), Some("alice"));
    assert_eq!(
        uri_user("<sips:Alice@h:5061;transport=tls>").as_deref(),
        Some("Alice")
    );
    assert_eq!(uri_user("sip:sip.example.com"), None);
    assert_eq!(
        uri_host("sip:alice@Sip.Example.COM:5060;x=1").as_deref(),
        Some("sip.example.com")
    );
    assert_eq!(
        uri_host("sip:alice@[2001:db8::1]:5060").as_deref(),
        Some("2001:db8::1")
    );
    assert_eq!(uri_host("sip:203.0.113.1").as_deref(), Some("203.0.113.1"));
    assert_eq!(normalize_aor("Display Name <sip:user@domain>"), "sip:user@domain");
    assert_eq!(extract_uri_user("sip:alice@h").as_deref(), Some("alice"));
    assert_eq!(extract_uri_user("alice@h"), None);
}

#[test]
fn aor_authorization() {
    let served = vec!["sip.example.com".to_string(), "203.0.113.1".to_string()];
    assert!(authorize_aor("alice", "sip:alice@sip.example.com", &served).is_ok());
    assert!(authorize_aor("alice", "sip:alice@203.0.113.1:5060", &served).is_ok());
    assert_eq!(
        authorize_aor("alice", "sip:bob@sip.example.com", &served),
        Err(AorRejection::User("bob".into()))
    );
    assert_eq!(
        authorize_aor("alice", "sip:Alice@sip.example.com", &served),
        Err(AorRejection::User("Alice".into())),
        "user part is case-sensitive (RFC 3261 §19.1.4)"
    );
    assert_eq!(
        authorize_aor("alice", "sip:alice@evil.example", &served),
        Err(AorRejection::Domain("evil.example".into()))
    );
    assert!(
        authorize_aor("alice", "sip:alice@anything", &vec![]).is_ok(),
        "no served domain known: only the user part is checked"
    );
}

#[test]
fn served_domains_and_enforcement() {
    let own = vec!["Extra.example ".to_string(), "localhost".to_string()];
    let served = served_domains(Some("sip.example.com"), Some(("sip.example.com", "203.0.113.1")), &own);
    assert_eq!(
        served,
        vec!["sip.example.com", "203.0.113.1", "127.0.0.1", "localhost", "extra.example"]
    );
    let policy = IdentityPolicy::default();
    assert!(enforces(&policy, &AorRejection::User("bob".into())));
    assert!(!enforces(&policy, &AorRejection::Domain("d".into())), "no domains are listed");
    let listed = IdentityPolicy::from_config("LOG", &own, "Reject");
    assert!(!enforces(&listed, &AorRejection::User("bob".into())));
    assert!(listed.reject_trunk_local_from);
    assert_eq!(listed.served_domains, vec!["extra.example", "localhost"]);
    assert!(AorRejection::User("bob".into()).describe().contains("bob"));
}

// ── Engine ──────────────────────────────────────────────────────────────

fn facts(banned: bool, silent_drop: bool, acl_allowed: bool, rate_allowed: bool) -> SourceFacts {
    SourceFacts { banned, silent_drop, acl_allowed, rate_allowed }
}

const OPTIONS: &str = "OPTIONS sip:127.0.0.1:5060 SIP/2.0\r\nVia: SIP/2.0/UDP 10.0.0.9;branch=z9hG4bKo\r\nFrom: <sip:a@b>;tag=1\r\nTo: <sip:c@d>\r\nCall-ID: o1\r\nCSeq: 1 OPTIONS\r\nContent-Length: 0\r\n\r\n";

fn req(raw: &str) -> SipRequest {
    match receive(raw.as_bytes(), &facts(false, true, true, true)) {
        Received::Request { request, .. } => request,
        other => panic!("not a request: {:?}", other),
    }
}

#[test]
fn messages_are_screened_in_order() {
    let b = OPTIONS.as_bytes();
    assert!(matches!(
        receive(b, &facts(false, true, true, true)),
        Received::Request { handler: Handler::Options, .. }
    ));
    assert!(matches!(
        receive(b, &facts(true, true, true, true)),
        Received::Refused { screening: Screening::Banned, answer: None }
    ));
    match receive(b, &facts(true, false, false, false)) {
        Received::Refused { screening: Screening::Banned, answer: Some(a) } => {
            assert!(a.starts_with("SIP/2.0 403 Forbidden\r\n"));
            assert!(a.contains("Call-ID: o1\r\n"));
        }
        other => panic!("{:?}", other),
    }
    assert!(matches!(
        receive(b, &facts(false, true, false, false)),
        Received::Refused { screening: Screening::Denied, answer: None }
    ));
    match receive(b, &facts(false, true, true, false)) {
        Received::Refused { screening: Screening::Limited, answer: Some(a) } => {
            assert!(a.starts_with("SIP/2.0 503 Service Unavailable\r\n"));
        }
        other => panic!("{:?}", other),
    }
    assert!(matches!(receive(b"\x00\x01", &facts(false, true, true, true)), Received::Unreadable));
}

#[test]
fn unsupported_method_is_answered_405_with_allow() {
    let q = req(&OPTIONS.replace("OPTIONS", "PUBLISH"));
    assert_eq!(handle_request(&q), Handler::Unsupported);
    let out = method_not_allowed_with(&q, "0a1b2c3d");
    assert!(out.starts_with("SIP/2.0 405 Method Not Allowed\r\n"), "{}", out);
    assert!(out.contains(&format!("Allow: {}\r\n", ALLOWED_METHODS)), "{}", out);
    assert!(out.contains("To: <sip:c@d>;tag=0a1b2c3d\r\n"));
    assert_ne!(method_not_allowed(&q), method_not_allowed(&q));
    for (m, h) in [
        ("REGISTER", Handler::Register), ("INVITE", Handler::Invite), ("ACK", Handler::Ack),
        ("BYE", Handler::Bye), ("CANCEL", Handler::Cancel), ("REFER", Handler::Refer),
        ("INFO", Handler::Info),
    ] {
        assert_eq!(handle_request(&req(&OPTIONS.replace("OPTIONS", m))), h);
        assert!(ALLOWED_METHODS.contains(m));
    }
}

#[test]
fn store_open_failure_is_fatal_by_default_and_tolerated_when_allowed() {
    let err = open_store(Err("not a directory".to_string()), Ok(()), false, "x/sbc.db").unwrap_err();
    assert!(err.contains("refusing to start"), "{}", err);
    assert!(err.contains("allow_missing_store"), "{}", err);
    let state = open_store(Err("no".to_string()), Ok(()), true, "x/sbc.db").unwrap();
    assert_eq!(state, StoreState::Missing);
    let ready = store_readiness(state);
    assert!(!ready.store_open() && !ready.is_ready());
    let err = open_store(Ok(()), Err("bad row".to_string()), false, "x/sbc.db").unwrap_err();
    assert!(err.starts_with("config store x/sbc.db: hydration failed: bad row "), "{}", err);
    assert_eq!(open_store(Ok(()), Err("bad row".to_string()), true, "x"), Ok(StoreState::Unread));
    let mut ready = store_readiness(open_store(Ok(()), Ok(()), false, "x").unwrap());
    assert!(ready.store_open() && ready.hydrated());
    assert!(!ready.listening(), "not before start()");
    assert!(!ready.is_ready());
    ready.set_listening();
    assert!(ready.is_ready());
    assert!(!Readiness::new().is_ready());
}

#[test]
fn identity_and_media_of_a_start() {
    let id = topology_identity(Some("203.0.113.1"), "sip.example.com").unwrap();
    assert_eq!(id.sip_domain, "sip.example.com");
    assert_eq!(topology_identity(Some("203.0.113.1"), "sbc.local").unwrap().sip_domain, "203.0.113.1");
    assert_eq!(topology_identity(Some("203.0.113.1"), "").unwrap().sip_domain, "203.0.113.1");
    assert!(topology_identity(None, "x").is_none());
    assert_eq!(sbc_addr(Some(&id)), ("203.0.113.1".to_string(), 5060));
    assert_eq!(sbc_addr(None), ("127.0.0.1".to_string(), 5060));
    let (out, word) = apply_outbound_topology(Some(&id), Transport::Wss).unwrap();
    assert_eq!((word, out.sip_port, out.tls), ("WSS", 5061, true));
    assert_eq!(out.sip_domain, "sip.example.com");
    let (out, word) = apply_outbound_topology(Some(&id), Transport::Udp).unwrap();
    assert_eq!((word, out.sip_port, out.tls), ("UDP", 5060, false));
    assert!(apply_outbound_topology(None, Transport::Udp).is_none());
    let v4 = Address { octets: vec![203, 0, 113, 1], text: "203.0.113.1".to_string() };
    let v6 = Address { octets: vec![0; 16], text: "::".to_string() };
    assert_eq!(media_address(Some(&v4)).as_deref(), Some("203.0.113.1"));
    assert_eq!(media_address(Some(&v6)).as_deref(), Some("0.0.0.0"));
    assert!(boot_trunk_ips(&vec![], &vec![]).is_empty());
}

#[test]
fn the_loop_acts_on_each_event() {
    assert_eq!(run(LoopEvent::Message), vec![LoopAction::HandleMessage]);
    assert_eq!(
        run(LoopEvent::CallTick),
        vec![LoopAction::CheckCallTimeouts, LoopAction::RefreshSessions, LoopAction::PruneTransactions]
    );
    assert_eq!(run(LoopEvent::Terminate), vec![LoopAction::ShutDown, LoopAction::Stop]);
    assert_eq!(run(LoopEvent::Hangup), vec![LoopAction::Reload(ReloadSource::Sighup)]);
}

// ── Registration ────────────────────────────────────────────────────────

fn contact(value: &str) -> Vec<String> {
    vec![format!("Contact: {}", value), "Expires: 600".to_string()]
}

fn policy() -> RegisterPolicy {
    RegisterPolicy { min_expires: 60, max_expires: 7200 }
}

fn register(auth: RegisterAuth, aor: &str, headers: &Vec<String>) -> (RegisterPlan, Option<Mismatch>) {
    let served = vec!["h".to_string()];
    handle_register(&auth, aor, headers, &served, &IdentityPolicy::default(), &policy())
}

#[test]
fn contact_lifetimes() {
    assert_eq!(contact_expires("<sip:a@1.2.3.4>;expires=0"), Some(0));
    assert_eq!(contact_expires("<sip:a@1.2.3.4;Expires=30>"), Some(30));
    assert_eq!(contact_expires("<sip:a@1.2.3.4>"), None);
}

#[test]
fn registration_verdicts() {
    let alice = || RegisterAuth::Valid { user: "alice".to_string() };
    let c = contact("<sip:alice@10.0.0.9>");
    match register(alice(), "sip:alice@h", &c) {
        (RegisterPlan::Bind { bindings }, flagged) => {
            assert_eq!(bindings.len(), 1);
            assert_eq!(bindings[0].1, 600);
            assert!(flagged.is_none());
        }
        (other, _) => panic!("{:?}", other),
    }
    assert!(matches!(register(RegisterAuth::Missing, "sip:alice@h", &c).0, RegisterPlan::Challenge { stale: false }));
    assert!(matches!(register(RegisterAuth::Stale, "sip:alice@h", &c).0, RegisterPlan::Challenge { stale: true }));
    assert!(matches!(register(RegisterAuth::Replay, "sip:alice@h", &c).0, RegisterPlan::Challenge { stale: true }));
    assert!(matches!(register(RegisterAuth::Malformed, "sip:alice@h", &c).0, RegisterPlan::BadRequest));
    assert!(matches!(register(RegisterAuth::Failed { user: None }, "sip:alice@h", &c).0, RegisterPlan::Forbidden { strike: true, user: None }));
    let wrong = RegisterAuth::Failed { user: Some("mallory".to_string()) };
    assert!(matches!(
        register(wrong, "sip:alice@h", &c).0,
        RegisterPlan::Forbidden { strike: true, user: Some(u) } if u == "mallory"
    ));
    let (plan, flagged) = register(alice(), "sip:bob@h", &c);
    assert!(matches!(plan, RegisterPlan::Forbidden { strike: false, user: None }) && flagged.is_some());
    let brief = contact("<sip:alice@10.0.0.9>;expires=30");
    assert!(matches!(register(alice(), "sip:alice@h", &brief).0, RegisterPlan::TooBrief { min_expires: 60 }));
    let long = contact("<sip:alice@10.0.0.9>;expires=99999");
    assert!(matches!(
        register(alice(), "sip:alice@h", &long).0,
        RegisterPlan::Bind { bindings } if bindings[0].1 == 7200
    ));
    assert!(matches!(register(alice(), "sip:alice@h", &vec![]).0, RegisterPlan::Query));
    let all = vec!["Contact: *".to_string(), "Expires: 0".to_string()];
    assert!(matches!(register(alice(), "sip:alice@h", &all).0, RegisterPlan::RemoveAll));
    let bad = vec!["Contact: *".to_string(), "Expires: 60".to_string()];
    assert!(matches!(register(alice(), "sip:alice@h", &bad).0, RegisterPlan::BadRequest));
    assert!(keeps_connection(Transport::Wss) && !keeps_connection(Transport::Udp));
}

#[test]
fn register_for_another_users_aor_is_forbidden() {
    let served = vec!["sip.example.com".to_string()];
    let alice = RegisterAuth::Valid { user: "alice".to_string() };
    let c = contact("<sip:alice@10.0.0.9>");
    let event = |m: &Option<Mismatch>| match mismatch_event("10.0.0.9", m, 7) {
        Some(SecurityEvent::IdentityMismatch { ip, user, claimed, method, ts: 7 }) => {
            assert_eq!(ip, "10.0.0.9");
            Some((user, claimed, method))
        }
        Some(other) => panic!("{:?}", other),
        None => None,
    };
    let expected = |aor: &str| Some(("alice".to_string(), aor.to_string(), "REGISTER".to_string()));
    let strict = IdentityPolicy::default();
    let bob = "sip:bob@sip.example.com";
    let (plan, m) = handle_register(&alice, bob, &c, &served, &strict, &policy());
    assert!(matches!(plan, RegisterPlan::Forbidden { strike: false, user: None }));
    assert_eq!(event(&m), expected(bob));
    let alert = alert_for(&mismatch_event("10.0.0.9", &m, 7).unwrap());
    assert_eq!(alert.kind, "identity_mismatch");
    assert_eq!(alert.detail, "alice (as sip:bob@sip.example.com)");
    // A foreign host is reported; it is refused once domains are configured.
    let evil = "sip:alice@evil.example";
    let (plan, m) = handle_register(&alice, evil, &c, &served, &strict, &policy());
    assert!(matches!(plan, RegisterPlan::Bind { .. }));
    assert_eq!(event(&m), expected(evil));
    let closed = IdentityPolicy { served_domains: served.clone(), ..IdentityPolicy::default() };
    let (plan, m) = handle_register(&alice, evil, &c, &served, &closed, &policy());
    assert!(matches!(plan, RegisterPlan::Forbidden { strike: false, user: None }));
    assert!(m.is_some());
    // Where the check only logs: reported, allowed.
    let lenient = IdentityPolicy { enforce_register_aor: false, ..IdentityPolicy::default() };
    let (plan, m) = handle_register(&alice, bob, &c, &served, &lenient, &policy());
    assert!(matches!(plan, RegisterPlan::Bind { .. }));
    assert_eq!(event(&m), expected(bob));
    let own = "sip:alice@sip.example.com";
    let (_, m) = handle_register(&alice, own, &c, &served, &strict, &policy());
    assert!(event(&m).is_none());
    let (_, m) = handle_register(&RegisterAuth::Failed { user: None }, bob, &c, &served, &strict, &policy());
    assert!(event(&m).is_none(), "nobody was authenticated");
}

#[test]
fn the_address_of_a_register_is_its_to() {
    let to = |v: &str| register_aor(&vec![format!("To: {}", v)]);
    assert_eq!(to("\"Al > ice\" <sip:alice@h>").as_deref(), Some("sip:alice@h"));
    assert_eq!(to("sip:alice@h> <").as_deref(), None, "out of order");
    assert_eq!(to("\"Alice\" <sip:alice@h>;x=<y>").as_deref(), Some("sip:alice@h>;x=<y"));
    assert_eq!(to("<sip:alice@h>").as_deref(), Some("sip:alice@h"));
    assert_eq!(to("sip:alice@h").as_deref(), Some("sip:alice@h"));
    assert_eq!(register_aor(&vec!["From: <sip:alice@h>".to_string()]), None);
    assert!(brackets_ordered("a < b > c") && brackets_ordered(">") && !brackets_ordered("> <"));
}

#[test]
fn registration_answers() {
    let q = req(&OPTIONS.replace("OPTIONS", "REGISTER"));
    let c = build_register_401_with(&q, "Digest realm=\"r\"", "0a1b2c3d").unwrap();
    assert!(c.starts_with("SIP/2.0 401 Unauthorized\r\n"));
    assert!(c.contains("WWW-Authenticate: Digest realm=\"r\"\r\n"));
    assert_ne!(build_register_401(&q, "x"), build_register_401(&q, "x"));
    let ok = build_register_200_with(&q, &vec![("sip:a@1".to_string(), 60)], false, "0a1b2c3d").unwrap();
    assert!(ok.starts_with("SIP/2.0 200 OK\r\n"));
    assert!(ok.contains("<sip:a@1>;expires=60"), "{}", ok);
    let brief = build_register_423_with(&q, 60, "0a1b2c3d").unwrap();
    assert!(brief.starts_with("SIP/2.0 423 Interval Too Brief\r\n"));
    assert!(brief.contains("Min-Expires: 60\r\n"));
}

// ── Media and raw messages ──────────────────────────────────────────────

#[test]
fn private_media_addresses_are_replaced() {
    let sdp = "v=0\r\no=- 1 1 IN IP4 10.0.0.5\r\nc=IN IP4 10.0.0.5\r\nm=audio 4000 RTP/AVP 0\r\n";
    let (ip, port) = extract_sdp_rtp_addr(sdp).unwrap();
    assert_eq!((ip.text.as_str(), port), ("10.0.0.5", 4000));
    assert!(is_private_ip(&ip));
    let public = Some("203.0.113.1".to_string());
    assert_eq!(
        rtp_endpoint(false, &Some(sdp.to_string()), &public),
        Some(("203.0.113.1".to_string(), 4000))
    );
    let (ip, _) = extract_sdp_rtp_addr(&sdp.replace("10.0.0.5", "8.8.8.8")).unwrap();
    assert!(!is_private_ip(&ip));
    let six = extract_sdp_rtp_addr(&sdp.replace("10.0.0.5", "::1")).unwrap();
    assert!(is_private_ip(&six.0));
    assert!(extract_sdp_rtp_addr("v=0\r\nc=IN IP4 nowhere\r\nm=audio 4000 RTP/AVP 0\r\n").is_none());
}

#[test]
fn raw_messages_read_back() {
    let raw = "BYE sip:x SIP/2.0\r\nVia: a\r\nX-A: 1\r\nvia: b\r\n\r\nbody";
    let mut m = RawSipMessage::parse(raw).unwrap();
    assert_eq!(m.write(), raw);
    m.remove_header("VIA");
    assert_eq!(m.write(), "BYE sip:x SIP/2.0\r\nX-A: 1\r\n\r\nbody");
    m.set_header("x-a", "2");
    m.set_header("Allow", "ACK");
    assert_eq!(m.header_value("X-A").as_deref(), Some("2"));
    m.prepend_header("Via: c".to_string());
    m.append_header("Z: 1".to_string());
    assert_eq!(m.write(), "BYE sip:x SIP/2.0\r\nVia: c\r\nx-a: 2\r\nAllow: ACK\r\nZ: 1\r\n\r\nbody");
    assert!(RawSipMessage::parse("\r\n\r\n").is_none());
}
