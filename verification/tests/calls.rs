use sbc_core::call_handler::{
    ack_call, ack_cseq_for_callee, bye_for_leg, bye_for_leg_with, handle_ack, handle_bye, handle_bye_with, handle_cancel, handle_info,
    handle_info_with, handle_refer, handle_refer_with, handle_reinvite_with, handle_transport_event, lost_bindings, lost_leg,
    refer_status, reinvite_sdp_of, relay_ack_with, relayed_bye, AckFacts, Binding, ByePlan,
    CallMatch, CancelFacts, Leg, ReferPlan,
};
use sbc_core::cdr::{
    call_record, callee_target, check_call_timeouts, check_media_timeouts, check_setup_timeouts,
    graceful_shutdown, hangup_both_legs_with, media_flags, process_admin_kicks,
    source_is_trunk_related, CallAge, CallOutcome, CallSnapshot, CallState, CallTable, MediaCounts,
};
use sbc_core::client_tx::Transport;
use sbc_core::engine::{receive, Received, SourceFacts};
use sbc_core::identity::AdminKicks;
use sbc_core::invite_flow::refused_route;
use sbc_core::invite_handler::InviteRoute;
use sbc_core::leg_requests::{build_bye_for_other_leg, build_bye_for_other_leg_with,
    build_cancel_for_callee, build_cancel_for_callee_with};
use sbc_core::message::{header_value, status_code_of, SipRequest};
use sbc_core::response_handler::teardown_lost_dialog;
use sbc_core::sip_builder::DialogInfo;
use sbc_core::trunk_state::move_label;

fn req(raw: &str) -> SipRequest {
    let open = SourceFacts {
        banned: false,
        silent_drop: false,
        acl_allowed: true,
        rate_allowed: true,
    };
    match receive(raw.as_bytes(), &open) {
        Received::Request { request, .. } => request,
        other => panic!("not a request: {:?}", other),
    }
}

fn in_dialog(method: &str) -> String {
    format!(
        "{m} sip:bob@198.51.100.1 SIP/2.0\r\nVia: SIP/2.0/UDP 10.0.0.9:5060;branch=z9hG4bKc\r\nFrom: <sip:alice@a.example.com>;tag=al-1\r\nTo: <sip:bob@b.example.com>;tag=bo-1\r\nCall-ID: call-1\r\nCSeq: 3 {m}\r\nContent-Length: 0\r\n\r\n",
        m = method
    )
}

const INVITE: &str = "INVITE sip:bob@203.0.113.9:5060 SIP/2.0\r\n\
Via: SIP/2.0/UDP 198.51.100.1:5060;branch=z9hG4bKlive;rport\r\n\
From: <sip:alice@a.example.com>;tag=al-1\r\n\
To: <sip:bob@b.example.com>\r\n\
Call-ID: call-1\r\n\
CSeq: 4 INVITE\r\n\
Content-Length: 0\r\n\r\n";

fn dialog() -> DialogInfo {
    DialogInfo {
        call_id: "call-1".to_string(),
        from_raw: "<sip:bob@b.example.com>;tag=bo-1".to_string(),
        to_raw: "<sip:alice@a.example.com>;tag=al-1".to_string(),
        request_uri: "sip:alice@10.0.0.9:5060".to_string(),
        cseq: 7,
        local_ip: "198.51.100.1".to_string(),
        local_port: 5060,
        transport: "UDP".to_string(),
    }
}

// ── Records ─────────────────────────────────────────────────────────────

#[test]
fn a_lost_dialog_ends_the_call() {
    let (bye, outcome) = teardown_lost_dialog(Some(dialog()), 481);
    let bye = bye.unwrap();
    assert!(bye.starts_with("BYE sip:alice@10.0.0.9:5060 SIP/2.0\r\n"), "{}", bye);
    assert!(bye.contains("CSeq: 7 BYE\r\n"), "{}", bye);
    assert!(bye.contains("Reason: "), "{}", bye);
    assert!(matches!(outcome, CallOutcome::DialogLost { status: 481 }));
    assert!(teardown_lost_dialog(None, 408).0.is_none());
}

#[test]
fn outcome_vocabulary() {
    assert_eq!(
        CallOutcome::Rejected { code: 486 }.disconnect_reason(),
        "rejected-486"
    );
    assert_eq!(CallOutcome::Cancelled.sip_code(false), Some(487));
    assert_eq!(CallOutcome::Cancelled.sip_code(true), Some(200));
    assert_eq!(
        CallOutcome::WsClosed { callee_died: false }.sip_code(false),
        None
    );
    assert_eq!(
        CallOutcome::WsClosed { callee_died: true }.sip_code(false),
        Some(480)
    );
    assert_eq!(CallOutcome::Refused { code: 404 }.hangup_by(), "sbc");
    assert_eq!(CallOutcome::Rejected { code: 486 }.hangup_by(), "callee");
    assert_eq!(
        CallOutcome::Refused { code: 404 }.disconnect_reason(),
        "rejected-404"
    );
    assert_eq!(CallOutcome::Shutdown.pending_caller_code(), 503);
    assert_eq!(
        CallOutcome::NormalClearing { by_caller: false }.hangup_by(),
        "callee"
    );
    assert_eq!(CallOutcome::Cancelled.hangup_by(), "caller");
    assert_eq!(CallOutcome::RtpTimeout.hangup_by(), "sbc");
    assert_eq!(CallOutcome::SetupTimeout.sip_code(false), Some(408));
    assert!(CallOutcome::MaxDuration
        .reason_header()
        .unwrap()
        .contains("cause=16"));
}

#[test]
fn status_and_header_helpers() {
    assert_eq!(status_code_of("SIP/2.0 486 Busy Here\r\n"), Some(486));
    assert_eq!(status_code_of("garbage"), None);
    let raw = "BYE sip:a@b SIP/2.0\r\nVia: SIP/2.0/UDP h;branch=z9hG4bKx\r\nFrom: <sip:a@b>;tag=1\r\nTo: <sip:c@d>;tag=2\r\nCall-ID: x\r\nCSeq: 2 BYE\r\nReason: Q.850;cause=16;text=\"Normal call clearing\"\r\nContent-Length: 0\r\n\r\n";
    let req = req(raw);
    assert_eq!(
        header_value(&req, "Reason").as_deref(),
        Some("Q.850;cause=16;text=\"Normal call clearing\"")
    );
    assert_eq!(header_value(&req, "X-Nope"), None);
}

fn snapshot(uuid: &str, answered_at: Option<u64>) -> CallSnapshot {
    CallSnapshot {
        uuid: uuid.to_string(),
        call_id: format!("cid-{}", uuid),
        caller_number: Some("alice".to_string()),
        callee_number: None,
        outbound_call_id: None,
        started_wall: 1_000,
        answered_at,
        is_webrtc: false,
        codec: None,
        trunk_name: Some("pstn".to_string()),
        direction: "outbound".to_string(),
        source_ip: "10.0.0.9".to_string(),
        peer_reason: None,
        trunk_counted: None,
        media: None,
    }
}

#[test]
fn an_answered_call_is_recorded_as_200() {
    let r = call_record(
        snapshot("u1", Some(2_000)),
        CallOutcome::NormalClearing { by_caller: true },
        9_000,
    );
    assert_eq!(r.sip_code, Some(200));
    assert_eq!(r.hangup_by, "caller");
    assert_eq!(r.caller, "alice");
    assert_eq!((r.started, r.answered, r.ended), (1_000, Some(2_000), 9_000));
    let pending = call_record(snapshot("u2", None), CallOutcome::Rejected { code: 486 }, 9_000);
    assert_eq!(pending.sip_code, Some(486));
    assert_eq!(pending.disconnect_reason, "rejected-486");
}

#[test]
fn the_one_way_flag_names_the_silent_leg() {
    assert_eq!(media_flags(None), "no-relay");
    let both = media_flags(Some(MediaCounts { rx_caller: 1, rx_callee: 1, tx_caller: 1, tx_callee: 1 }));
    assert_eq!(both, "");
    let caller = media_flags(Some(MediaCounts { rx_caller: 0, rx_callee: 5, tx_caller: 5, tx_callee: 0 }));
    let callee = media_flags(Some(MediaCounts { rx_caller: 5, rx_callee: 0, tx_caller: 0, tx_callee: 5 }));
    assert_ne!(caller, callee);
    assert!(!caller.is_empty() && !callee.is_empty());
}

#[test]
fn a_call_ends_once() {
    let mut t = CallTable::new();
    assert!(t.open(snapshot("u1", None)));
    assert!(!t.open(snapshot("u1", None)), "in use");
    assert!(t.open(snapshot("u2", None)));
    let r = t.finish_call("u1", CallOutcome::Cancelled, 5).unwrap();
    assert_eq!(r.record.uuid, "u1");
    assert!(t.finish_call("u1", CallOutcome::Cancelled, 6).is_none());
    assert_eq!(t.calls.len(), 1);
}

#[test]
fn the_end_of_a_call_releases_its_trunk_and_labels_it() {
    let mut t = CallTable::new();
    t.add_trunk("pstn");
    t.add_trunk("backup");
    t.add_trunk("pstn");
    assert_eq!(t.trunks.len(), 2);
    assert!(t.open(snapshot("u1", Some(2))));
    assert!(t.open(snapshot("u2", None)));
    assert_eq!(t.active_calls("pstn"), Some(2));
    assert_eq!(t.active_calls("unknown"), None);

    // The BYE of an answered call.
    let e = t.finish_call("u1", CallOutcome::NormalClearing { by_caller: true }, 9).unwrap();
    assert_eq!(e.label, Some("answered"));
    assert_eq!(e.left.as_deref(), Some("pstn"));
    assert_eq!(t.active_calls("pstn"), Some(1));
    assert!(t.finish_call("u1", CallOutcome::Shutdown, 9).is_none());
    assert_eq!(t.active_calls("pstn"), Some(1), "once");

    // A failover takes the call to the backup.
    let m = t.move_to_trunk("u2", "backup").unwrap();
    assert_eq!(m.left.as_deref(), Some("pstn"));
    assert_eq!(move_label(&m), Some("failover"));
    assert_eq!((t.active_calls("pstn"), t.active_calls("backup")), (Some(0), Some(1)));
    assert!(t.move_to_trunk("u2", "backup").is_none(), "it is there");
    assert!(t.move_to_trunk("gone", "backup").is_none());
    let e = t.finish_call("u2", CallOutcome::Rejected { code: 503 }, 9).unwrap();
    assert_eq!(e.record.trunk_id.as_deref(), Some("backup"));
    assert_eq!(e.label, Some("failed"));
    assert_eq!(t.active_calls("backup"), Some(0));

    // A cancelled call, and one that is on no trunk.
    t.open(snapshot("u3", None));
    assert_eq!(t.finish_call("u3", CallOutcome::Cancelled, 9).unwrap().label, Some("cancelled"));
    let mut local = snapshot("u4", None);
    local.trunk_name = None;
    t.open(local);
    let e = t.finish_call("u4", CallOutcome::Cancelled, 9).unwrap();
    assert_eq!((e.label, e.left), (None, None));
}

#[test]
fn the_counter_of_a_trunk_follows_its_calls() {
    let mut t = CallTable::new();
    t.open(snapshot("u1", None));
    t.add_trunk("pstn");
    assert_eq!(t.active_calls("pstn"), Some(1), "a trunk that is added late counts what is on it");
    let m = t.count_call_on_trunk("u1", None).unwrap();
    assert_eq!(m.left.as_deref(), Some("pstn"));
    assert_eq!(move_label(&m), None);
    assert_eq!(t.active_calls("pstn"), Some(0));
    assert!(t.count_call_on_trunk("u1", None).is_none());
}

#[test]
fn a_refused_route_is_billed_and_charged_to_its_trunk() {
    let mut t = CallTable::new();
    t.add_trunk("pstn");
    let mut call = snapshot("u1", None);
    call.direction = "inbound".to_string();
    t.open(call);
    let outcome = refused_route(&InviteRoute::Refused { status: 404 }).unwrap();
    let e = t.finish_call("u1", outcome, 9).unwrap();
    assert_eq!(e.record.disconnect_reason, "rejected-404");
    assert_eq!(e.record.sip_code, Some(404));
    assert_eq!(e.record.hangup_by, "sbc");
    assert_eq!(e.record.direction, "inbound");
    assert_eq!(e.record.trunk_id.as_deref(), Some("pstn"));
    assert_eq!(e.record.answered, None);
    assert_eq!(e.label, Some("failed"));
    assert_eq!(t.active_calls("pstn"), Some(0), "charged to the source trunk, released");
    assert_eq!(refused_route(&InviteRoute::Trunk), None);
}

#[test]
fn what_a_pending_caller_is_sent_is_what_is_recorded() {
    for o in [
        CallOutcome::SetupTimeout,
        CallOutcome::Shutdown,
        CallOutcome::MaxDuration,
        CallOutcome::AdminKick,
        CallOutcome::WsClosed { callee_died: true },
    ] {
        assert_eq!(o.sip_code(false), Some(o.pending_caller_code()), "{:?}", o);
    }
}

#[test]
fn the_reason_of_a_peer_is_recorded() {
    let mut t = CallTable::new();
    assert!(t.open(snapshot("u1", Some(2))));
    assert!(t.open(snapshot("u2", Some(2))));
    t.set_peer_reason("u1", Some("Q.850;cause=16".to_string()));
    t.set_peer_reason("u1", None);
    t.set_peer_reason("u3", Some("x".to_string()));
    let r = t.finish_call("u1", CallOutcome::MaxDuration, 5).unwrap();
    assert_eq!(r.record.reason.as_deref(), Some("Q.850;cause=16"));
    let r = t.finish_call("u2", CallOutcome::MaxDuration, 5).unwrap();
    assert_eq!(r.record.reason.as_deref(), Some("Q.850;cause=16;text=\"Call duration exceeded\""));
}

#[test]
fn shutdown_and_kicks_end_calls() {
    let mut t = CallTable::new();
    t.add_trunk("pstn");
    t.open(snapshot("u1", Some(2)));
    t.open(snapshot("u2", None));
    t.open(snapshot("u3", None));
    let mut kicks = AdminKicks::new();
    kicks.request("u2".to_string());
    kicks.request("u2".to_string());
    kicks.request("gone".to_string());
    assert_eq!(kicks.pending(), vec!["u2".to_string(), "gone".to_string()]);
    let kicked = process_admin_kicks(&mut t, &mut kicks, 50);
    assert_eq!(kicked.len(), 1);
    assert_eq!(kicked[0].left.as_deref(), Some("pstn"));
    assert_eq!(t.active_calls("pstn"), Some(2));
    assert_eq!(kicked[0].record.disconnect_reason, CallOutcome::AdminKick.disconnect_reason());
    assert!(kicks.pending().is_empty());
    let ended = graceful_shutdown(&mut t, 60);
    assert_eq!(ended.len(), 2);
    assert_eq!(ended[0].record.uuid, "u1");
    assert_eq!(ended[1].record.sip_code, Some(503));
    assert!(t.calls.is_empty());
    assert_eq!(t.active_calls("pstn"), Some(0), "released");
}

#[test]
fn teardown_byes_what_is_up_and_cancels_what_is_pending() {
    let up = hangup_both_legs_with(
        &CallOutcome::MaxDuration,
        Some(dialog()),
        None,
        Some("BYE sip:bob SIP/2.0\r\n\r\n".to_string()),
        Some(INVITE.to_string()),
        "z9hG4bKh",
    );
    let (is_bye, text) = up.toward_caller.unwrap();
    assert!(is_bye);
    assert!(text.starts_with("BYE sip:alice@10.0.0.9:5060 SIP/2.0\r\n"));
    assert!(text.contains("branch=z9hG4bKh"));
    assert!(text.contains("Reason: "));
    assert_eq!(up.toward_callee, Some((true, "BYE sip:bob SIP/2.0\r\n\r\n".to_string())));

    let pending = hangup_both_legs_with(
        &CallOutcome::Shutdown,
        None,
        Some("SIP/2.0 503 Service Unavailable\r\n\r\n".to_string()),
        None,
        Some(INVITE.to_string()),
        "z9hG4bKh",
    );
    assert_eq!(
        pending.toward_caller,
        Some((false, "SIP/2.0 503 Service Unavailable\r\n\r\n".to_string()))
    );
    let (is_bye, text) = pending.toward_callee.unwrap();
    assert!(!is_bye);
    assert!(text.starts_with("CANCEL sip:bob@203.0.113.9:5060 SIP/2.0\r\n"));
    assert!(text.contains("CSeq: 4 CANCEL\r\n"));
    assert_eq!(
        callee_target(Some("live".to_string()), Some("other".to_string())).as_deref(),
        Some("live")
    );
    assert_eq!(callee_target(None, Some("other".to_string())).as_deref(), Some("other"));
}

fn age(uuid: &str, state: CallState, started_at: u64) -> CallAge {
    CallAge {
        uuid: uuid.to_string(),
        state,
        started_at,
        answered: state == CallState::Connected,
        alerting_at: None,
        media_session_id: Some(format!("m-{}", uuid)),
        direction: "outbound".to_string(),
        trunk_name: Some("pstn".to_string()),
        callee_responded: uuid == "heard",
    }
}

#[test]
fn timeouts_find_their_calls() {
    let calls = vec![
        age("new", CallState::Proceeding, 90_000),
        age("old", CallState::Proceeding, 10_000),
        age("up", CallState::Connected, 10_000),
        age("heard", CallState::Proceeding, 10_000),
    ];
    let stale = check_setup_timeouts(&calls, 60_000, 100_000);
    assert_eq!(stale.len(), 2);
    assert_eq!((stale[0].uuid.as_str(), stale[0].strike.as_deref()), ("old", Some("pstn")));
    assert_eq!(
        (stale[1].uuid.as_str(), stale[1].strike.as_deref()),
        ("heard", None),
        "a trunk that answered anything is not struck"
    );
    assert_eq!(
        check_call_timeouts(&calls, Some(60_000), 100_000),
        vec!["old".to_string(), "up".to_string(), "heard".to_string()]
    );
    assert!(check_call_timeouts(&calls, None, 100_000).is_empty(), "unlimited");
    assert_eq!(
        check_media_timeouts(&calls, &vec!["m-up".to_string(), "m-gone".to_string()]),
        vec!["up".to_string()]
    );
}

#[test]
fn a_host_of_the_trunk_subnet_counts_as_the_trunk() {
    let ips = vec!["203.0.113.9".to_string(), "sip.trunk.example".to_string()];
    assert!(source_is_trunk_related(&ips, "203.0.113.9"));
    assert!(source_is_trunk_related(&ips, "203.0.113.77"));
    assert!(!source_is_trunk_related(&ips, "203.0.114.9"));
}

// ── In-dialog requests ──────────────────────────────────────────────────

#[test]
fn ack_cseq_prefers_callee_leg_invite_cseq() {
    assert_eq!(ack_cseq_for_callee("1 ACK", Some(4)), "4 ACK");
    assert_eq!(ack_cseq_for_callee("17 ACK", Some(17)), "17 ACK");
    assert_eq!(ack_cseq_for_callee("1 ACK", None), "1 ACK");
}

fn ack_facts() -> AckFacts {
    AckFacts {
        callee_ip: "203.0.113.9".to_string(),
        callee_port: 5060,
        callee_transport: Transport::Udp,
        outbound_invite_cseq: Some(4),
        callee_contact_uri: None,
        inbound_call_id: None,
        public_ip: Some("198.51.100.1".to_string()),
    }
}

#[test]
fn the_ack_is_relayed_in_the_dialog_of_the_callee() {
    let ack = req(&in_dialog("ACK"));
    assert_eq!(
        relay_ack_with(&ack, &ack_facts(), &[0xde, 0xad, 0xbe, 0xef]),
        "ACK sip:203.0.113.9:5060 SIP/2.0\r\n\
         Via: SIP/2.0/UDP 198.51.100.1:5060;branch=z9hG4bKdeadbeef;rport\r\n\
         Max-Forwards: 70\r\n\
         From: <sip:alice@a.example.com>;tag=al-1\r\n\
         To: <sip:bob@b.example.com>;tag=bo-1\r\n\
         Call-ID: call-1\r\n\
         CSeq: 4 ACK\r\n\
         Content-Length: 0\r\n\r\n"
    );
    // Two branches of 32 random bits.
    let branches: Vec<String> = (0..4).map(|_| handle_ack(&ack, &ack_facts())).collect();
    assert!(branches.iter().any(|b| b != &branches[0]));
    assert_eq!(
        ack_call(None, Some("by-suffix".to_string()), Some("outbound".to_string())).as_deref(),
        Some("by-suffix")
    );
}

#[test]
fn a_bye_ends_the_call_and_goes_to_the_other_leg() {
    let m = |from| Some(CallMatch { uuid: "u1".to_string(), from });
    let bye = req(&in_dialog("BYE").replace("Content-Length", "Reason: Q.850;cause=16\r\nContent-Length"));
    match handle_bye(&bye, m(Leg::Caller), false, None, false).plan {
        ByePlan::End { uuid, relay_to, outcome, reason } => {
            assert_eq!(uuid, "u1");
            assert_eq!(relay_to, Leg::Callee);
            assert_eq!(outcome, CallOutcome::NormalClearing { by_caller: true });
            assert_eq!(reason.as_deref(), Some("Q.850;cause=16"));
        }
        _ => panic!(),
    }
    assert!(matches!(handle_bye(&bye, None, false, None, true).plan, ByePlan::Late));
    assert!(
        matches!(handle_bye(&bye, None, false, m(Leg::Callee), false).plan, ByePlan::Stray),
        "not from a trunk"
    );
    assert!(matches!(
        handle_bye(&req(&in_dialog("BYE")), None, true, m(Leg::Callee), false).plan,
        ByePlan::End { relay_to: Leg::Caller, reason: None, .. }
    ));
    let (own, relayed) = bye_for_leg_with(
        Some(dialog()), Some("Q.850;cause=16"), "x", "1", None, "z9hG4bKdeadbeef",
    );
    assert!(!relayed);
    assert!(own.starts_with("BYE sip:alice@10.0.0.9:5060 SIP/2.0\r\n"), "{}", own);
    assert!(own.contains("branch=z9hG4bKdeadbeef"), "{}", own);
    assert!(own.contains("Reason: Q.850;cause=16\r\n"), "{}", own);
    assert_eq!(bye_for_leg(None, None, "x", "1", None), ("x".to_string(), true));
    assert_eq!(
        relayed_bye(None, "BYE x\r\nCall-ID: 1\r\n\r\n", "1", Some("abc-1")),
        ("BYE x\r\nCall-ID: abc-1\r\n\r\n".to_string(), true)
    );
    assert_eq!(
        relayed_bye(Some("fresh".to_string()), "x", "1", None),
        ("fresh".to_string(), false)
    );
}

fn cancel_facts() -> CancelFacts {
    CancelFacts {
        exact: Some("u1".to_string()),
        suffix: None,
        trunk_related: false,
        outbound_established: false,
        state: CallState::Proceeding,
        attempt: Some(INVITE.to_string()),
        callee_known: true,
        caller_invite_cseq: Some(3),
    }
}

#[test]
fn cancel_targets_the_live_attempt() {
    let q = req(&in_dialog("CANCEL"));
    let plan = handle_cancel(&q, cancel_facts());
    assert_eq!(plan.status, 200);
    assert!(plan.answer.starts_with("SIP/2.0 200 OK\r\n"));
    assert_eq!(plan.end.as_deref(), Some("u1"));
    assert!(plan
        .toward_callee
        .unwrap()
        .starts_with("CANCEL sip:bob@203.0.113.9:5060 SIP/2.0\r\n"));
    let terminated = plan.terminated.unwrap();
    assert!(terminated.starts_with("SIP/2.0 487 Request Terminated\r\n"));
    assert!(terminated.contains("CSeq: 3 INVITE\r\n"));
}

#[test]
fn cancel_after_the_answer_leaves_the_call() {
    let q = req(&in_dialog("CANCEL"));
    let mut f = cancel_facts();
    f.state = CallState::Connected;
    f.outbound_established = true;
    let plan = handle_cancel(&q, f);
    assert_eq!(plan.status, 200);
    assert!(plan.end.is_none() && plan.toward_callee.is_none());
}

#[test]
fn cancel_of_an_unknown_call_gets_481() {
    let q = req(&in_dialog("CANCEL"));
    let mut f = cancel_facts();
    f.exact = None;
    f.suffix = Some("u9".to_string());
    let plan = handle_cancel(&q, f);
    assert_eq!(plan.status, 481);
    assert!(plan.answer.starts_with("SIP/2.0 481"));
    assert!(plan.end.is_none());
    let mut f = cancel_facts();
    f.exact = None;
    f.suffix = Some("u9".to_string());
    f.trunk_related = true;
    assert_eq!(handle_cancel(&q, f).end.as_deref(), Some("u9"), "a trunk may truncate");
}

#[test]
fn a_closed_connection_drops_its_bindings_and_its_leg() {
    let b = |port, transport: &str| Binding {
        aor: "sip:alice@h".to_string(),
        contact: format!("sip:alice@10.0.0.9:{}", port),
        received_ip: "10.0.0.9".to_string(),
        received_port: port,
        transport: transport.to_string(),
    };
    let lost = lost_bindings(&vec![b(1, "WSS"), b(2, "WSS")], "10.0.0.9", 2);
    assert_eq!(
        lost,
        vec![("sip:alice@h".to_string(), "sip:alice@10.0.0.9:2".to_string())]
    );
    assert_eq!(lost_leg(true, Transport::Wss, false, Transport::Udp), Some(Leg::Caller));
    assert_eq!(lost_leg(false, Transport::Udp, true, Transport::Wss), Some(Leg::Callee));
    assert_eq!(lost_leg(false, Transport::Udp, false, Transport::Udp), None);
    let (msg, outcome) = handle_transport_event(
        Leg::Callee,
        None,
        Some("SIP/2.0 480 Temporarily Unavailable\r\n\r\n".to_string()),
        None,
        None,
    );
    assert_eq!(outcome, CallOutcome::WsClosed { callee_died: true });
    assert!(msg.unwrap().starts_with("SIP/2.0 480"));
}

#[test]
fn a_reinvite_is_answered_with_the_last_sdp() {
    let q = req(&in_dialog("INVITE"));
    let sdp = reinvite_sdp_of(Leg::Caller, Some("v=0\r\n".to_string()), None, b"");
    assert_eq!(sdp.as_deref(), Some("v=0\r\n"));
    let answer = handle_reinvite_with(&q, "198.51.100.1", 5060, Some(1800), sdp, "abcd1234").unwrap();
    assert!(answer.starts_with("SIP/2.0 200 OK\r\n"));
    assert!(answer.contains("CSeq: 3 INVITE\r\n"));
    assert!(answer.contains("Content-Length: 5\r\n"));
    assert!(answer.ends_with("\r\n\r\nv=0\r\n"));
    // The body of the request stands in where nothing was sent before.
    assert_eq!(reinvite_sdp_of(Leg::Caller, None, None, b"v=1\r\n").as_deref(), Some("v=1\r\n"));
}

#[test]
fn a_bye_is_answered_with_its_own_via_and_cseq() {
    let m = || Some(CallMatch { uuid: "u1".to_string(), from: Leg::Caller });
    let bye = req(&in_dialog("BYE"));
    let expected = "SIP/2.0 200 OK\r\n\
         Via: SIP/2.0/UDP 10.0.0.9:5060;branch=z9hG4bKc\r\n\
         From: <sip:alice@a.example.com>;tag=al-1\r\n\
         To: <sip:bob@b.example.com>;tag=bo-1\r\n\
         Call-ID: call-1\r\n\
         CSeq: 3 BYE\r\n\
         Content-Length: 0\r\n\r\n";
    assert_eq!(handle_bye_with(&bye, m(), false, None, false, "0a1b2c3d").answer, expected);
    assert_eq!(handle_bye(&bye, m(), false, None, false).answer, expected);
    assert_eq!(handle_bye(&bye, None, false, None, true).answer, expected, "a late one");
    assert_eq!(handle_bye(&bye, None, false, None, false).answer, expected, "one for no call");
}

#[test]
fn info_and_refer_go_to_the_other_leg() {
    let info = req(&in_dialog("INFO"));
    let done = handle_info_with(&info, Some(Leg::Caller), true, true, "0a1b2c3d");
    assert_eq!((done.relay_to, done.cseq), (Some(Leg::Callee), Some(3)));
    assert!(done.answer.starts_with("SIP/2.0 200 OK\r\n"), "{}", done.answer);
    assert!(done.answer.contains("Via: SIP/2.0/UDP 10.0.0.9:5060;branch=z9hG4bKc\r\n"), "{}", done.answer);
    assert!(done.answer.contains("CSeq: 3 INFO\r\n"), "{}", done.answer);
    assert_eq!(handle_info(&info, Some(Leg::Callee), false, true).relay_to, None);
    let stray = handle_info(&info, None, true, true);
    assert_eq!((stray.relay_to, stray.cseq), (None, None));
    assert!(stray.answer.starts_with("SIP/2.0 200 OK\r\n"));
    let plain = req(&in_dialog("REFER"));
    let plan = handle_refer(&plain, Some(Leg::Caller), true, true).plan;
    assert!(matches!(plan, ReferPlan::NoTarget));
    assert_eq!(refer_status(&plan), 400);
    let to = req(&in_dialog("REFER").replace("Content-Length", "Refer-To: <sip:carol@c>\r\nContent-Length"));
    let refer = handle_refer_with(&to, Some(Leg::Caller), true, true, "0a1b2c3d");
    assert!(matches!(refer.plan, ReferPlan::Accepted { relay_to: Some(Leg::Callee) }));
    assert_eq!(refer_status(&refer.plan), 202);
    assert_eq!(refer.cseq, Some(3));
    let answer = refer.answer.unwrap();
    assert!(answer.starts_with("SIP/2.0 202 Accepted\r\n"), "{}", answer);
    assert!(answer.contains("CSeq: 3 REFER\r\n"), "{}", answer);
    let refer = handle_refer(&to, None, true, true);
    assert_eq!(refer_status(&refer.plan), 481);
    assert!(refer.answer.unwrap().starts_with("SIP/2.0 481 Call/Transaction Does Not Exist\r\n"));
    assert_eq!(refer.cseq, None);
    // Without the headers that an answer echoes there is none.
    let bare = SipRequest {
        method: "REFER".to_string(),
        uri: "sip:b@h".to_string(),
        headers: vec!["Refer-To: <sip:c@h>".to_string()],
        body: vec![],
    };
    let refer = handle_refer(&bare, Some(Leg::Caller), true, true);
    assert!(refer.answer.is_none());
    assert!(matches!(refer.plan, ReferPlan::Accepted { relay_to: None }));
}

#[test]
fn requests_for_the_other_leg_are_exact() {
    let bye = req(&in_dialog("BYE"));
    assert_eq!(
        build_bye_for_other_leg_with(&bye, "fresh-id", "0a1b2c3d"),
        "BYE sip:bob@b.example.com SIP/2.0\r\n\
         Via: SIP/2.0/UDP sbc.local:5060;branch=z9hG4bK-bye-0a1b2c3d\r\n\
         From: <sip:alice@a.example.com>;tag=al-1\r\n\
         To: <sip:bob@b.example.com>;tag=bo-1\r\n\
         Call-ID: call-1\r\n\
         CSeq: 2 BYE\r\n\
         Content-Length: 0\r\n\r\n"
    );
    assert_ne!(build_bye_for_other_leg(&bye), build_bye_for_other_leg(&bye));
    let cancel = req(&in_dialog("CANCEL"));
    let out = build_cancel_for_callee_with(&cancel, "out-1", "0a1b2c3d");
    assert!(out.starts_with("CANCEL sip:bob@b.example.com SIP/2.0\r\n"));
    assert!(out.contains("Call-ID: out-1\r\nCSeq: 3 CANCEL\r\n"));
    assert!(build_cancel_for_callee(&cancel, "out-1").contains("branch=z9hG4bK-cancel-"));
}
