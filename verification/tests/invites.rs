use sbc_core::client_tx::Transport;
use sbc_core::engine::{receive, Received, SourceFacts};
use sbc_core::invite_flow::{
    answer_start, answer_start_with, blocked_event, call_parties, call_parties_with, handle_invite, identity_event, invite_account, limit_event,
    offer_session_timer, route_call, route_dialed, setup_failure, setup_strike, InviteStart, Setup,
};
use sbc_core::invite_handler::{
    admit_invite, build_invite_407, build_invite_407_with, caller_user, caller_vias, check_identity,
    check_invite_failover, extract_callee_aor, extract_contact_uri,
    extract_request_uri_from_raw, failover_to_next_trunk, failover_to_next_trunk_with,
    forward_headers, handle_407_auth_retry, identity_claim, inject_session_timer_headers, invite_claims, invite_source, latest_contact,
    limit_refusal, map_did, next_failover_trunk, outbound_transport, plan_invite_sdp, read_claims,
    refusal, refusal_with, registered_transport, retarget_invite_for_trunk, retarget_invite_for_trunk_with,
    retarget_number, route_invite, unsupported_extensions, Admission, Candidate, ContactFacts,
    DidMapping, InviteClaims, InviteFacts, InviteRoute, InviteSource, Proof, RetryPlan, RouteFacts, SdpPlan,
    SlowAttempt, TrunkAuth,
};
use sbc_core::invite_tx::InviteTxCache;
use sbc_core::message::{parse_min_se, parse_session_expires, response_cseq, NameAddr, SipRequest, SipResponse};
use sbc_core::response_handler::{
    ack_and_bye_answered_dialog, ack_callee_final, callee_tag, error_class,
    handle_422_session_interval_retry, handle_422_session_interval_retry_with,
    handle_answer, handle_refresh_response, handle_response, handle_stale_invite_response,
    negotiate_session_timer, relay_error_and_terminate, relay_provisional, InviteAttempt,
    AnswerFacts, Handled, RefreshPlan, RelayState, ResponseFacts, ResponsePlan, StalePlan,
};
use sbc_core::register::{build_register_423, build_register_423_with};
use sbc_core::responses::{
    build_plain_response, build_plain_response_for_request, build_trying, inject_proxy_auth_into_invite,
    inject_proxy_auth_into_invite_with, response_for_request, rewrite_response_for_caller,
    strip_sdp_body, unavailable_from_challenge, update_content_length_request,
    update_content_length_response, SbcUris,
};
use sbc_core::cdr::CallOutcome;
use sbc_core::call_handler::Binding;
use sbc_core::security::destination::{
    DestinationDecision, DestinationPolicy, DestinationRule, DestinationsConfig,
};
use sbc_core::security::manager::SecurityEvent;
use sbc_core::security::user_limits::{LimitDecision, UserLimitsConfig, UserLimitsManager};
use sbc_core::trunk_state::{
    failure_step, is_trunk_strike_code, note_trunk_failure, note_trunk_success, outbound_trunk_of,
    retry_after_secs, silent_outbound_trunk_of, trunk_outcome_label, TrunkStep,
};

fn open() -> SourceFacts {
    SourceFacts { banned: false, silent_drop: false, acl_allowed: true, rate_allowed: true }
}

fn req(raw: &str) -> SipRequest {
    match receive(raw.as_bytes(), &open()) {
        Received::Request { request, .. } => request,
        other => panic!("not a request: {:?}", other),
    }
}

fn resp(raw: &str) -> SipResponse {
    match receive(raw.as_bytes(), &open()) {
        Received::Response { response } => response,
        other => panic!("not a response: {:?}", other),
    }
}

fn parses(raw: &str) {
    rsip::SipMessage::try_from(raw.as_bytes().to_vec()).expect("parses");
}

const INVITE: &str = "INVITE sip:0612345678@10.0.0.1:5060 SIP/2.0\r\n\
Via: SIP/2.0/UDP 198.51.100.1:5060;branch=z9hG4bKoldbranch;rport\r\n\
Max-Forwards: 70\r\n\
From: <sip:alice@a.example.com>;tag=al-1\r\n\
To: <sip:0612345678@pstn>\r\n\
Call-ID: xyz@host\r\n\
CSeq: 3 INVITE\r\n\
Content-Length: 0\r\n\r\n";

// ── Retargeting ─────────────────────────────────────────────────────────

#[test]
fn retarget_rewrites_uri_and_branch() {
    assert_eq!(retarget_number(INVITE).as_deref(), Some("0612345678"));
    let out = retarget_invite_for_trunk(INVITE, "+33612345678", "203.0.113.9", 5080).expect("retarget");
    assert!(out.starts_with("INVITE sip:+33612345678@203.0.113.9:5080 SIP/2.0\r\n"), "{}", out);
    assert!(!out.contains("z9hG4bKoldbranch"), "branch must be fresh");
    assert!(out.contains("branch=z9hG4bK"));
    assert!(out.contains("Call-ID: xyz@host\r\n"), "dialog identity preserved");
    rsip::SipMessage::try_from(out.as_bytes().to_vec()).expect("retargeted INVITE parses");
}

#[test]
fn retarget_rejects_non_invite() {
    assert!(retarget_invite_for_trunk("BYE sip:x SIP/2.0\r\n\r\n", "x", "203.0.113.9", 5060).is_none());
}

#[test]
fn retarget_under_a_given_branch_is_exact() {
    assert_eq!(
        retarget_invite_for_trunk_with(INVITE, "+336", "trunk.example", 5080, "z9hG4bKnew").unwrap(),
        INVITE
            .replace("sip:0612345678@10.0.0.1:5060", "sip:+336@trunk.example:5080")
            .replace("z9hG4bKoldbranch", "z9hG4bKnew")
    );
}

#[test]
fn a_failover_cancels_and_turns_the_invite() {
    let f = failover_to_next_trunk_with(
        Some(INVITE.to_string()), true, "+336", "trunk.example", 5080, "z9hG4bKnew",
    )
    .unwrap();
    assert!(f.cancel.unwrap().starts_with("CANCEL sip:0612345678@10.0.0.1:5060 SIP/2.0\r\n"));
    assert!(f.invite.unwrap().starts_with("INVITE sip:+336@trunk.example:5080 SIP/2.0\r\n"));
    let f = failover_to_next_trunk(Some(INVITE.to_string()), false, "+336", "h", 1).unwrap();
    assert!(f.cancel.is_none(), "nowhere to send it");
    assert!(failover_to_next_trunk(Some(String::new()), true, "1", "h", 1).is_none());
    assert!(failover_to_next_trunk(None, true, "1", "h", 1).is_none());
    let c = |known, has_address| Candidate { known, has_address };
    assert_eq!(
        next_failover_trunk(&vec![c(false, true), c(true, false), c(true, true)]),
        Some(2)
    );
    assert_eq!(next_failover_trunk(&vec![c(false, true)]), None);
    let slow = |uuid: &str, has_next, callee_responded| SlowAttempt {
        uuid: uuid.to_string(),
        has_next,
        direction: "outbound".to_string(),
        trunk_name: Some("pstn".to_string()),
        callee_responded,
    };
    let moved = check_invite_failover(&vec![
        slow("a", false, false),
        slow("b", true, false),
        slow("c", true, true),
    ]);
    assert_eq!(moved.len(), 2);
    assert_eq!((moved[0].uuid.as_str(), moved[0].strike.as_deref()), ("b", Some("pstn")));
    assert_eq!((moved[1].uuid.as_str(), moved[1].strike.as_deref()), ("c", None));
}

#[test]
fn inject_session_timer_headers_before_content_length() {
    let raw = "INVITE sip:x@y SIP/2.0\r\nVia: SIP/2.0/UDP h;branch=z9hG4bKx\r\nContent-Length: 0\r\n\r\n";
    let out = inject_session_timer_headers(raw, 1800, 90);
    assert!(out.contains("Supported: timer\r\nSession-Expires: 1800\r\nMin-SE: 90\r\nContent-Length: 0"));
    rsip::SipMessage::try_from(out.as_bytes().to_vec()).unwrap();
}

#[test]
fn extract_contact_uri_variants() {
    assert_eq!(
        extract_contact_uri("\"Bob\" <sip:b@1.2.3.4:5060;transport=tcp>;expires=60"),
        "sip:b@1.2.3.4:5060;transport=tcp"
    );
    assert_eq!(extract_contact_uri("sip:b@1.2.3.4"), "sip:b@1.2.3.4");
}

// ── Admission ───────────────────────────────────────────────────────────

const TRUNK: &str = "203.0.113.9";
const PHONE: &str = "10.0.0.9";
const STRANGER: &str = "198.51.100.7";

fn bound(aor: &str, ip: &str) -> Binding {
    Binding {
        aor: aor.to_string(),
        contact: "sip:c".to_string(),
        received_ip: ip.to_string(),
        received_port: 5060,
        transport: "UDP".to_string(),
    }
}

/// Alice and Bob are users of a.example.com; Alice is registered at the phone.
fn facts(source_ip: &str) -> InviteFacts {
    InviteFacts {
        call_known: false,
        source_ip: source_ip.to_string(),
        trunk_ips: vec![TRUNK.to_string()],
        bindings: vec![bound("sip:alice@a.example.com", PHONE)],
        users: vec!["alice".to_string(), "bob".to_string()],
        served: vec!["a.example.com".to_string()],
        proof: Proof::Missing,
        reject_trunk_local_from: false,
    }
}

fn from_bob(raw: &str) -> String {
    raw.replace("From: <sip:alice@", "From: <sip:bob@")
}

/// Who, what is claimed, and the method of an identity mismatch.
fn identity(e: Option<SecurityEvent>) -> Option<(String, String, String)> {
    match e {
        Some(SecurityEvent::IdentityMismatch { user, claimed, method, .. }) => {
            Some((user, claimed, method))
        }
        Some(other) => panic!("{:?}", other),
        None => None,
    }
}

fn triple(user: &str, claimed: &str) -> Option<(String, String, String)> {
    Some((user.to_string(), claimed.to_string(), "INVITE".to_string()))
}

#[test]
fn invite_with_exhausted_hops_is_483() {
    let q = req(&INVITE.replace("Max-Forwards: 70", "Max-Forwards: 0"));
    assert!(matches!(
        admit_invite(&q, &facts(TRUNK)),
        Admission::Refused { status: 483, flag: false, strike: false }
    ));
}

#[test]
fn invite_requiring_an_extension_is_420() {
    let q = req(&INVITE.replace("Max-Forwards: 70", "Require: 100rel, timer\r\nRequire: x"));
    assert_eq!(unsupported_extensions(&q.headers), vec!["100rel".to_string(), "x".to_string()]);
    assert!(matches!(
        admit_invite(&q, &facts(TRUNK)),
        Admission::BadExtension { unsupported } if unsupported == "100rel, x"
    ));
    let raw = refusal_with(&q, 420, "Unsupported", "100rel, x", "abcd1234").unwrap();
    assert!(raw.starts_with("SIP/2.0 420 Bad Extension\r\n"));
    assert!(raw.contains("Unsupported: 100rel, x\r\n"));
}

#[test]
fn identity_rules_of_an_invite() {
    let q = req(INVITE);
    let unknown = || facts(STRANGER);
    assert!(matches!(admit_invite(&q, &unknown()), Admission::Challenged));
    let challenge = "Digest realm=\"sbc.local\", nonce=\"n1\", algorithm=MD5, qop=\"auth\"";
    let asked = build_invite_407_with(&q, challenge, "0a1b2c3d").unwrap();
    assert!(asked.starts_with("SIP/2.0 407 Proxy Authentication Required\r\n"), "{}", asked);
    assert!(asked.contains(&format!("Proxy-Authenticate: {}\r\n", challenge)), "{}", asked);
    assert!(asked.contains("To: <sip:0612345678@pstn>;tag=0a1b2c3d\r\n"), "{}", asked);
    assert!(asked.contains("CSeq: 3 INVITE\r\n"), "{}", asked);
    assert!(!asked.contains("WWW-Authenticate"), "{}", asked);
    parses(&asked);
    assert!(build_invite_407(&q, challenge).unwrap().contains("Proxy-Authenticate: Digest "));
    let mut f = unknown();
    f.proof = Proof::Valid { user: "alice".to_string() };
    assert!(matches!(
        admit_invite(&q, &f),
        Admission::Admitted { user: Some(u), flag: false } if u == "alice"
    ));
    let mut f = unknown();
    f.proof = Proof::Valid { user: "bob".to_string() };
    assert!(matches!(
        admit_invite(&q, &f),
        Admission::Refused { status: 403, flag: true, strike: false }
    ));
    let mut f = unknown();
    f.proof = Proof::Wrong;
    assert!(matches!(
        admit_invite(&q, &f),
        Admission::Refused { status: 403, flag: false, strike: true }
    ));
    let mut f = unknown();
    f.served = vec!["b.example.com".to_string()];
    assert!(matches!(
        admit_invite(&q, &f),
        Admission::Refused { status: 403, flag: false, strike: true }
    ));
    assert!(matches!(
        admit_invite(&req(&from_bob(INVITE)), &facts(PHONE)),
        Admission::Refused { status: 403, flag: true, strike: false }
    ));
    assert!(matches!(
        admit_invite(&q, &facts(TRUNK)),
        Admission::Admitted { user: None, flag: true }
    ));
    let mut f = facts(TRUNK);
    f.reject_trunk_local_from = true;
    assert!(matches!(
        admit_invite(&q, &f),
        Admission::Refused { status: 403, flag: true, strike: false }
    ));
    let mut f = unknown();
    f.call_known = true;
    assert!(matches!(admit_invite(&q, &f), Admission::Challenged), "its To has no tag");
    let tagged = req(&INVITE.replace("To: <sip:0612345678@pstn>", "To: <sip:0612345678@pstn>;tag=bo-1"));
    assert!(matches!(admit_invite(&tagged, &f), Admission::Reinvite));
    assert!(matches!(admit_invite(&tagged, &unknown()), Admission::Challenged), "no such call");
}

#[test]
fn limits_refuse_an_invite() {
    assert_eq!(limit_refusal(&LimitDecision::Allowed), None);
    assert_eq!(
        limit_refusal(&LimitDecision::ConcurrentExceeded { current: 2, limit: 2 }),
        Some((403, None))
    );
    assert_eq!(
        limit_refusal(&LimitDecision::RateExceeded { current: 3, limit: 3, retry_after_secs: 7 }),
        Some((503, Some(7)))
    );
}

fn did(number: &str, user: &str) -> DidMapping {
    DidMapping { number: number.to_string(), user: user.to_string(), display_name: None }
}

#[test]
fn numbers_map_in_every_form() {
    let dids = vec![did("0123456789", "user1")];
    for aor in ["sip:0123456789@h", "sip:123456789@h", "sip:+33123456789@h", "0123456789"] {
        assert_eq!(
            map_did(&dids, aor, Some("sip.example.com")).as_deref(),
            Some("sip:user1@sip.example.com"),
            "{}",
            aor
        );
    }
    assert_eq!(map_did(&dids, "sip:0999@h", None), None);
    assert_eq!(map_did(&dids, "sip:0123456789@h", None).as_deref(), Some("sip:user1@sip.nixi.tel"));
    assert_eq!(extract_callee_aor(&req(INVITE)).as_deref(), Some("sip:0612345678@10.0.0.1:5060"));
    assert_eq!(
        extract_request_uri_from_raw(INVITE).as_deref(),
        Some("sip:0612345678@10.0.0.1:5060")
    );
}

fn limits() -> UserLimitsManager {
    UserLimitsManager::new(UserLimitsConfig {
        enabled: true,
        default_max_concurrent_calls: 1,
        default_max_calls_per_minute: 1,
        overrides: vec![],
    })
}

#[test]
fn an_invite_starts_once_and_within_its_limits() {
    let mut cache = InviteTxCache::new();
    let mut l = limits();
    let dids = vec![did("0612345678", "bob")];
    let q = req(INVITE);
    let reg = facts(PHONE);
    assert_eq!(invite_account(&q, &reg).as_deref(), Some("alice"));
    assert_eq!(invite_account(&q, &facts(TRUNK)), None, "a trunk is on no account");
    assert_eq!(invite_account(&q, &facts(STRANGER)), None, "not let in");
    let first = handle_invite(&mut cache, &q, &reg, &dids, Some("h"), &mut l, 0, 1_000);
    assert!(matches!(
        first,
        InviteStart::Started { user: Some(u), flag: false, callee: Some(c), did_mapped: true }
            if u == "alice" && c == "sip:bob@h"
    ));
    // A retransmission is absorbed and costs nothing.
    let again = handle_invite(&mut cache, &q, &reg, &dids, Some("h"), &mut l, 0, 1_001);
    assert!(matches!(again, InviteStart::Absorbed));
    // The next call of the same minute is over the rate.
    let next = req(&INVITE.replace("z9hG4bKoldbranch", "z9hG4bKnext"));
    assert!(matches!(
        handle_invite(&mut cache, &next, &reg, &dids, Some("h"), &mut l, 0, 1_002),
        InviteStart::Limited {
            status: 503,
            retry_after: Some(60),
            user,
            decision: LimitDecision::RateExceeded { current: 1, limit: 1, .. },
        } if user == "alice"
    ));
    let third = req(&INVITE.replace("z9hG4bKoldbranch", "z9hG4bKthird"));
    assert!(matches!(
        handle_invite(&mut cache, &third, &reg, &dids, Some("h"), &mut l, 1, 1_003),
        InviteStart::Limited {
            status: 403,
            retry_after: None,
            decision: LimitDecision::ConcurrentExceeded { current: 1, limit: 1 },
            ..
        }
    ));
    // Calls of a trunk are not limited.
    let fourth = req(&INVITE.replace("z9hG4bKoldbranch", "z9hG4bKfourth"));
    assert!(matches!(
        handle_invite(&mut cache, &fourth, &facts(TRUNK), &vec![], None, &mut l, 9, 1_004),
        InviteStart::Started { user: None, flag: true, did_mapped: false, .. }
    ));
    assert_eq!(cache.len(), 4);
}

// ── Routing ─────────────────────────────────────────────────────────────

fn route() -> RouteFacts {
    RouteFacts {
        contact: None,
        did_mapped: false,
        from_trunk: false,
        blocked: false,
        candidates: 2,
        first_has_address: true,
    }
}

#[test]
fn routes_of_an_invite() {
    let dead = Some(ContactFacts { transport: Transport::Wss, alive: false });
    let live = Some(ContactFacts { transport: Transport::Udp, alive: false });
    assert_eq!(route_invite(&route()), InviteRoute::Trunk);
    assert_eq!(route_invite(&RouteFacts { contact: live, ..route() }), InviteRoute::Contact);
    assert_eq!(
        route_invite(&RouteFacts { contact: dead, ..route() }),
        InviteRoute::Refused { status: 480 }
    );
    assert_eq!(
        route_invite(&RouteFacts { did_mapped: true, ..route() }),
        InviteRoute::Refused { status: 480 }
    );
    assert_eq!(
        route_invite(&RouteFacts { from_trunk: true, ..route() }),
        InviteRoute::Refused { status: 404 },
        "a trunk's call is not routed out again"
    );
    assert_eq!(
        route_invite(&RouteFacts { blocked: true, ..route() }),
        InviteRoute::Refused { status: 403 }
    );
    assert_eq!(
        route_invite(&RouteFacts { candidates: 0, ..route() }),
        InviteRoute::Refused { status: 503 }
    );
}

#[test]
fn blocked_destinations_reach_no_trunk() {
    let mut p = DestinationPolicy::new(DestinationsConfig::default());
    let premium = req(&INVITE.replace("sip:0612345678@10.0.0.1:5060", "sip:+88216311111:pw@10.0.0.1;user=phone"));
    let (r, d) = route_call(&mut p, &premium, route());
    assert_eq!(r, InviteRoute::Refused { status: 403 });
    assert!(matches!(d, DestinationDecision::Blocked { .. }));
    assert_eq!(p.blocked_total(), 1);
    assert!(matches!(
        blocked_event(&premium, &d, 7),
        Some(SecurityEvent::DestinationBlocked { user: Some(u), destination, ts: 7, .. })
            if u == "alice" && destination == "+88216311111"
    ));
    let mapped = RouteFacts { did_mapped: true, ..route() };
    let (r, d) = route_call(&mut p, &premium, mapped);
    assert_eq!(r, InviteRoute::Refused { status: 480 });
    assert_eq!(d, DestinationDecision::Allowed);
    assert!(blocked_event(&premium, &d, 7).is_none());
    assert_eq!(p.blocked_total(), 1, "only calls that leave are held against it");
    let (r, _) = route_call(&mut p, &req(INVITE), route());
    assert_eq!(r, InviteRoute::Trunk);
    // A rule for one user holds for the user of the From.
    p.add_rule(DestinationRule {
        id: "mobile".to_string(),
        prefix: "+336".to_string(),
        deny: true,
        user: Some("alice".to_string()),
        description: "mobile".to_string(),
        enabled: true,
    });
    assert_eq!(caller_user(&req(INVITE)).as_deref(), Some("alice"));
    let (r, _) = route_call(&mut p, &req(INVITE), route());
    assert_eq!(r, InviteRoute::Refused { status: 403 });
    let (r, _) = route_call(&mut p, &req(&INVITE.replace("sip:alice@", "sip:carol@")), route());
    assert_eq!(r, InviteRoute::Trunk);
    let (r, _) = route_dialed(&mut p, None, Some("alice"), route());
    assert_eq!(r, InviteRoute::Trunk);
}

#[test]
fn transports_and_contacts() {
    assert_eq!(latest_contact(&vec![3, 9, 9, 4]), Some(2));
    assert_eq!(latest_contact(&vec![]), None);
    assert_eq!(registered_transport("WSS"), Transport::Wss);
    assert_eq!(registered_transport("odd"), Transport::Udp);
    assert_eq!(outbound_transport(Transport::Tls), ("TLS", 5061));
    assert_eq!(outbound_transport(Transport::Ws), ("WS", 5060));
    assert_eq!(outbound_transport(Transport::Sctp), ("UDP", 5060));
    assert_eq!(
        caller_vias(&req(INVITE).headers),
        vec!["Via: SIP/2.0/UDP 198.51.100.1:5060;branch=z9hG4bKoldbranch;rport".to_string()]
    );
    assert_eq!(plan_invite_sdp(true, false, Some((10, Some(20)))), SdpPlan::Offer { port: 20 });
    assert_eq!(plan_invite_sdp(false, true, Some((10, None))), SdpPlan::Plain { port: 10 });
    assert_eq!(plan_invite_sdp(false, false, Some((10, Some(20)))), SdpPlan::Relay { port: 20 });
    assert_eq!(plan_invite_sdp(false, false, None), SdpPlan::AddressOnly);
}

#[test]
fn forwarded_headers_keep_private_identity_here() {
    let lines = vec![
        "Via: SIP/2.0/UDP h".to_string(),
        "Max-Forwards: 70".to_string(),
        "P-Asserted-Identity: <sip:boss@h>".to_string(),
        "Supported: 100rel, timer, replaces".to_string(),
        "Subject: x".to_string(),
    ];
    let out = forward_headers(&lines);
    assert!(out.contains(&"Max-Forwards: 69".to_string()), "{:?}", out);
    assert!(out.iter().all(|l| !l.starts_with("P-Asserted-Identity")));
    assert!(out.contains(&"Subject: x".to_string()));
}

#[test]
fn a_challenge_is_met_once() {
    let headers = vec!["Proxy-Authenticate: Digest realm=\"t\"".to_string()];
    let auth = || Some(TrunkAuth {
        auth_required: true,
        username: Some("u".to_string()),
        password: Some("p".to_string()),
    });
    match handle_407_auth_retry(Some((INVITE.to_string(), 0)), auth(), &headers) {
        RetryPlan::Answer { username, password, challenge, uri } => {
            assert_eq!((username.as_str(), password.as_str()), ("u", "p"));
            assert_eq!(challenge, "Digest realm=\"t\"");
            assert_eq!(uri, "sip:0612345678@10.0.0.1:5060");
        }
        RetryPlan::GiveUp => panic!(),
    }
    assert!(matches!(
        handle_407_auth_retry(Some((INVITE.to_string(), 1)), auth(), &headers),
        RetryPlan::GiveUp
    ));
    assert!(matches!(
        handle_407_auth_retry(Some((INVITE.to_string(), 0)), auth(), &vec![]),
        RetryPlan::GiveUp
    ));
}

// ── Responses to the caller ─────────────────────────────────────────────

const RESP_200: &str = "SIP/2.0 200 OK\r\n\
    Via: SIP/2.0/UDP 1.2.3.4;branch=z9hG4bKsbc\r\n\
    From: <sip:a@b>;tag=1\r\n\
    To: <sip:c@d>;tag=2\r\n\
    Call-ID: x\r\n\
    CSeq: 4 INVITE\r\n\
    Content-Length: 0\r\n\r\n";

#[test]
fn rewrite_response_restores_caller_invite_cseq() {
    let vias = vec!["Via: SIP/2.0/UDP 10.0.0.9;branch=z9hG4bKcaller".to_string()];
    let out = rewrite_response_for_caller(RESP_200, &vias, None, Some(3));
    assert!(out.contains("CSeq: 3 INVITE\r\n"), "{}", out);
    assert!(out.contains("branch=z9hG4bKcaller"));
    assert!(!out.contains("z9hG4bKsbc"));
    rsip::SipMessage::try_from(out.as_bytes().to_vec()).unwrap();

    // Same number: no-op
    let same = rewrite_response_for_caller(RESP_200, &vias, None, Some(4));
    assert!(same.contains("CSeq: 4 INVITE\r\n"));
    // Unknown caller CSeq: untouched
    let none = rewrite_response_for_caller(RESP_200, &vias, None, None);
    assert!(none.contains("CSeq: 4 INVITE\r\n"));
    // Other methods are never rewritten
    let bye = RESP_200.replace("4 INVITE", "4 BYE");
    assert!(rewrite_response_for_caller(&bye, &vias, None, Some(3)).contains("CSeq: 4 BYE\r\n"));
    // A header-less 503 must not gain a CSeq
    let plain = build_plain_response(503, "Service Unavailable");
    assert!(!rewrite_response_for_caller(&plain, &vias, None, Some(3)).contains("CSeq:"));
}

#[test]
fn the_contact_of_the_callee_is_hidden() {
    let vias = vec!["Via: SIP/2.0/UDP 10.0.0.9;branch=z9hG4bKcaller".to_string()];
    let uris = SbcUris {
        contact_uri: "<sip:198.51.100.1:5060>".to_string(),
        record_route: "<sip:198.51.100.1:5060;lr>".to_string(),
    };
    let raw = RESP_200.replace("Content-Length", "Contact: <sip:bob@10.9.8.7>\r\nContent-Length");
    let out = rewrite_response_for_caller(&raw, &vias, Some(&uris), None);
    assert!(!out.contains("10.9.8.7"), "{}", out);
    assert!(out.contains("198.51.100.1:5060"));
}

#[test]
fn inject_proxy_auth_renews_transaction_dedupes_and_keeps_body() {
    let invite = "INVITE sip:x@y SIP/2.0\r\n\
        Via: SIP/2.0/UDP h;branch=z9hG4bKold;rport\r\n\
        Proxy-Authorization: Digest stale\r\n\
        From: <sip:a@b>;tag=1\r\n\
        To: <sip:x@y>\r\n\
        Call-ID: c\r\n\
        CSeq: 3 INVITE\r\n\
        Content-Type: application/sdp\r\n\
        Content-Length: 5\r\n\r\n\
        v=0\r\n";
    let out = inject_proxy_auth_into_invite(invite, "Digest fresh");
    assert_eq!(out.matches("Proxy-Authorization:").count(), 1, "{}", out);
    assert!(out.contains("Proxy-Authorization: Digest fresh\r\n"));
    assert!(out.contains("CSeq: 4 INVITE\r\n"));
    assert!(!out.contains("z9hG4bKold"));
    assert!(out.contains("branch=z9hG4bK"));
    assert!(
        out.ends_with("Content-Length: 5\r\n\r\nv=0\r\n"),
        "body and its CRLF preserved: {:?}",
        out
    );
    let lines: Vec<&str> = out.split("\r\n").collect();
    assert!(lines[1].starts_with("Via:"));
    assert!(
        lines[2].starts_with("Proxy-Authorization:"),
        "inserted right after the top Via"
    );
    rsip::SipMessage::try_from(out.as_bytes().to_vec()).unwrap();
    assert!(inject_proxy_auth_into_invite_with(invite, "d", "z9hG4bKb").contains("branch=z9hG4bKb;rport"));
}

#[test]
fn responses_of_our_own() {
    let q = req(INVITE);
    let trying = build_trying(&q).unwrap();
    assert!(trying.starts_with("SIP/2.0 100 Trying\r\nVia: SIP/2.0/UDP 198.51.100.1:5060;branch=z9hG4bKoldbranch;rport\r\n"));
    assert!(trying.contains("To: <sip:0612345678@pstn>\r\n"), "no tag on a 100");
    let busy = response_for_request(&q, 486, "Busy Here");
    assert!(busy.starts_with("SIP/2.0 486 Busy Here\r\n"));
    assert!(busy.contains("To: <sip:0612345678@pstn>;tag="), "{}", busy);
    assert_ne!(busy, response_for_request(&q, 486, "Busy Here"), "tags are fresh");
    parses(&busy);
    let no = unavailable_from_challenge("SIP/2.0 407 Proxy Authentication Required\r\nProxy-Authenticate: x\r\n\r\n");
    assert!(no.starts_with("SIP/2.0 503 Service Unavailable\r\n"), "{}", no);
    let bare = strip_sdp_body(&RESP_200.replace("Content-Length: 0\r\n\r\n", "Content-Type: application/sdp\r\nContent-Length: 5\r\n\r\nv=0\r\n"));
    assert!(bare.ends_with("\r\n\r\n") && !bare.contains("v=0"));
    let mut q = req(INVITE);
    q.body = b"v=0\r\n".to_vec();
    update_content_length_request(&mut q);
    assert!(q.headers.iter().any(|h| h == "Content-Length: 5"), "{:?}", q.headers);
    let mut r = resp(RESP_200);
    r.body = b"v=0\r\n".to_vec();
    update_content_length_response(&mut r);
    assert!(r.headers.iter().any(|h| h == "Content-Length: 5"), "{:?}", r.headers);
    let plain = build_plain_response_for_request(&req(INVITE), 480).unwrap();
    assert!(plain.starts_with("SIP/2.0 480 Temporarily Unavailable\r\n"), "{}", plain);
    let bare_request = SipRequest { headers: Vec::new(), ..req(INVITE) };
    assert_eq!(build_plain_response_for_request(&bare_request, 480), None);
}

// ── Responses of the callee ─────────────────────────────────────────────

#[test]
fn parse_session_expires_forms() {
    let raw = "SIP/2.0 200 OK\r\nSession-Expires: 14400;refresher=uac\r\n\r\n";
    assert_eq!(parse_session_expires(raw), Some(14400));
    let bare = "SIP/2.0 200 OK\r\nSession-Expires: 1800\r\n\r\n";
    assert_eq!(parse_session_expires(bare), Some(1800));
    let none = "SIP/2.0 200 OK\r\nContact: <sip:x@y>\r\n\r\n";
    assert_eq!(parse_session_expires(none), None);
    let compact = "INVITE sip:x SIP/2.0\r\nx: 600\r\n\r\n";
    assert_eq!(parse_session_expires(compact), Some(600));
    let in_body_only = "SIP/2.0 200 OK\r\n\r\nSession-Expires: 5\r\n";
    assert_eq!(
        parse_session_expires(in_body_only),
        None,
        "headers end at the blank line"
    );
}

#[test]
fn parse_min_se_forms() {
    assert_eq!(
        parse_min_se("SIP/2.0 422 Session Interval Too Small\r\nMin-SE: 14400\r\n\r\n"),
        Some(14400)
    );
    assert_eq!(
        parse_min_se("SIP/2.0 422 x\r\nmin-se:  90;foo=bar\r\n\r\n"),
        Some(90)
    );
    assert_eq!(
        parse_min_se("SIP/2.0 422 x\r\nMin-SE: abc\r\n\r\n"),
        None
    );
    assert_eq!(
        parse_min_se("SIP/2.0 422 x\r\nMin-Expires: 3600\r\n\r\n"),
        None,
        "Min-Expires is not Min-SE"
    );
    assert_eq!(parse_min_se("SIP/2.0 422 x\r\n\r\n"), None);
}

#[test]
fn response_cseq_number_and_method() {
    let raw = "SIP/2.0 481 Call/Transaction Does Not Exist\r\nCSeq: 3 CANCEL\r\nContent-Length: 0\r\n\r\n";
    assert_eq!(response_cseq(&resp(raw)), Some((3, "CANCEL".to_string())));
}

fn answer(status: &str, cseq: &str, extra: &str) -> String {
    format!(
        "SIP/2.0 {}\r\nVia: SIP/2.0/UDP 198.51.100.1:5060;branch=z9hG4bKaaa\r\nFrom: <sip:alice@a.example.com>;tag=al-1\r\nTo: <sip:bob@b.example.com>;tag=trunk-1\r\nCall-ID: call-1\r\nCSeq: {}\r\n{}Content-Length: 0\r\n\r\n",
        status, cseq, extra
    )
}

fn known() -> ResponseFacts {
    ResponseFacts {
        call_known: true,
        pending_refresh: false,
        refresh_duplicate: false,
        stale: false,
        ended_attempt_cseq: None,
        direction: "outbound".to_string(),
        trunk_name: Some("pstn".to_string()),
    }
}

fn handled(raw: &str, facts: &ResponseFacts) -> Handled {
    handle_response(&resp(raw), raw, facts)
}

#[test]
fn what_a_response_leads_to() {
    let plan = |status: &str, cseq: &str| handled(&answer(status, cseq, ""), &known()).plan;
    assert_eq!(plan("100 Trying", "3 INVITE"), ResponsePlan::Provisional { alerting: false });
    assert_eq!(plan("183 Session Progress", "3 INVITE"), ResponsePlan::Provisional { alerting: true });
    assert_eq!(plan("200 OK", "3 INVITE"), ResponsePlan::Answered);
    assert_eq!(plan("487 Request Terminated", "3 INVITE"), ResponsePlan::Failed { ack: true, try_next: false });
    assert_eq!(plan("503 Service Unavailable", "3 INVITE"), ResponsePlan::Failed { ack: true, try_next: true });
    assert_eq!(plan("407 Proxy Authentication Required", "3 INVITE"), ResponsePlan::Challenged { ack: true });
    assert_eq!(plan("422 Session Interval Too Small", "3 INVITE"), ResponsePlan::IntervalTooSmall { ack: true });
    assert_eq!(plan("200 OK", "4 BYE"), ResponsePlan::Dropped);
    assert_eq!(plan("481 Call/Transaction Does Not Exist", "3 CANCEL"), ResponsePlan::Dropped);
    let gone = ResponseFacts { call_known: false, ended_attempt_cseq: Some(3), ..known() };
    assert_eq!(handled(&answer("200 OK", "3 INVITE", ""), &gone).plan, ResponsePlan::OrphanAnswered);
    assert_eq!(handled(&answer("486 Busy Here", "3 INVITE", ""), &gone).plan, ResponsePlan::OrphanRefused);
    assert_eq!(handled(&answer("200 OK", "9 INVITE", ""), &gone).plan, ResponsePlan::Stray);
    let stale = ResponseFacts { stale: true, ..known() };
    assert_eq!(handled(&answer("200 OK", "3 INVITE", ""), &stale).plan, ResponsePlan::Stale);
    let task = answer("200 OK", "3 REGISTER", "").replace("call-1", "reg-1");
    assert_eq!(handled(&task, &known()).plan, ResponsePlan::ToTask);
}

#[test]
fn finals_tell_of_the_trunk() {
    let step = |status: &str, extra: &str, facts: &ResponseFacts| {
        handled(&answer(status, "3 INVITE", extra), facts).trunk.map(|e| (e.trunk, e.step))
    };
    let on = |s: TrunkStep| Some(("pstn".to_string(), s));
    assert_eq!(step("200 OK", "", &known()), on(TrunkStep::Up), "200 OK resets failures");
    for status in ["408 Request Timeout", "500 Server Internal Error", "502 Bad Gateway", "504 Server Time-out"] {
        assert_eq!(step(status, "Retry-After: 120\r\n", &known()), on(TrunkStep::Strike), "{}", status);
    }
    assert_eq!(step("503 Service Unavailable", "", &known()), on(TrunkStep::Strike));
    assert_eq!(
        step("503 Service Unavailable", "Retry-After: 120\r\n", &known()),
        on(TrunkStep::Park { secs: 120 })
    );
    assert_eq!(step("486 Busy Here", "", &known()), None, "the callee's answer");
    assert_eq!(step("603 Decline", "", &known()), None);
    assert_eq!(step("180 Ringing", "", &known()), None);
    let inbound = ResponseFacts { direction: "inbound".to_string(), ..known() };
    assert_eq!(step("503 Service Unavailable", "", &inbound), None, "the user's answer, not a trunk's");
    let stale = ResponseFacts { stale: true, ..known() };
    assert_eq!(step("503 Service Unavailable", "", &stale), None);
    let local = ResponseFacts { trunk_name: None, ..known() };
    assert_eq!(step("503 Service Unavailable", "", &local), None);
    assert_eq!(failure_step(None), TrunkStep::Strike);
    assert_eq!(failure_step(Some(30)), TrunkStep::Park { secs: 30 });
    let unsent = setup_strike(Setup::Unsent, "outbound", &Some("pstn".to_string())).unwrap();
    assert_eq!((unsent.trunk.as_str(), unsent.step), ("pstn", TrunkStep::Strike));
    assert!(setup_strike(Setup::Sent, "outbound", &Some("pstn".to_string())).is_none());
    assert!(setup_strike(Setup::Unsent, "inbound", &Some("pstn".to_string())).is_none());
}

const LIVE: &str = "INVITE sip:bob@203.0.113.9:5060 SIP/2.0\r\n\
Via: SIP/2.0/UDP 198.51.100.1:5060;branch=z9hG4bKaaa;rport\r\n\
From: <sip:alice@a.example.com>;tag=al-1\r\n\
To: <sip:bob@b.example.com>\r\n\
Call-ID: call-1\r\n\
CSeq: 3 INVITE\r\n\
Supported: timer\r\n\
Session-Expires: 1800\r\n\
Min-SE: 90\r\n\
Content-Type: application/sdp\r\n\
Content-Length: 5\r\n\r\n\
v=0\r\n";

#[test]
fn finals_are_acknowledged_and_relayed() {
    let raw = answer("487 Request Terminated", "3 INVITE", "");
    let ack = ack_callee_final(LIVE, &resp(&raw)).unwrap();
    assert!(ack.starts_with("ACK sip:bob@203.0.113.9:5060 SIP/2.0\r\n"));
    assert!(ack.contains("branch=z9hG4bKaaa"));
    assert!(ack.contains("To: <sip:bob@b.example.com>;tag=trunk-1\r\n"));
    let vias = vec!["Via: SIP/2.0/UDP 10.0.0.9;branch=z9hG4bKcaller".to_string()];
    let (out, outcome) = relay_error_and_terminate(&raw, &vias, None, Some(8));
    assert!(out.starts_with("SIP/2.0 487"));
    assert!(out.contains("branch=z9hG4bKcaller") && out.contains("CSeq: 8 INVITE\r\n"));
    assert_eq!(outcome, CallOutcome::Rejected { code: 487 });
    let ringing = relay_provisional(&answer("180 Ringing", "3 INVITE", ""), 180, false, &vias, None, Some(8));
    assert!(ringing.starts_with("SIP/2.0 180 Ringing\r\nVia: SIP/2.0/UDP 10.0.0.9;branch=z9hG4bKcaller\r\n"));
    assert_eq!(callee_tag(&resp(&raw)), "trunk-1");
    assert_eq!(error_class(486), Some(false));
    assert_eq!(error_class(503), Some(true));
}

#[test]
fn a_stale_answer_is_ended_without_the_caller() {
    let attempt = InviteAttempt {
        raw: LIVE.to_string(),
        dest: "203.0.113.9:5060".to_string(),
        transport: "UDP".to_string(),
        cseq: 3,
    };
    let r = resp(&answer("200 OK", "3 INVITE", "Contact: <sip:bob@203.0.113.9:5060>\r\n"));
    let (ack, bye) = ack_and_bye_answered_dialog(
        &attempt, &r, 3, "198.51.100.1", 5060, "Q.850;cause=31;text=\"superseded\"",
    );
    assert!(ack.starts_with("ACK sip:bob@203.0.113.9:5060 SIP/2.0\r\n"));
    assert!(ack.contains("CSeq: 3 ACK\r\n"));
    assert!(bye.contains("CSeq: 4 BYE\r\n"));
    assert!(bye.contains("To: <sip:bob@b.example.com>;tag=trunk-1\r\n"));
    assert!(bye.contains("Reason: Q.850;cause=31"));
    assert_eq!(handle_stale_invite_response(200, true, true), StalePlan::AckAndBye { reuse_connection: true });
    assert_eq!(handle_stale_invite_response(486, true, false), StalePlan::Ack { reuse_connection: false });
    assert_eq!(handle_stale_invite_response(180, true, true), StalePlan::Dropped);
}

#[test]
fn a_longer_interval_is_offered_once() {
    let raw = answer("422 Session Interval Too Small", "3 INVITE", "Min-SE: 14400\r\n");
    let retry = handle_422_session_interval_retry_with(
        Some(LIVE.to_string()), &raw, Some((1800, 90)), 0, "z9hG4bKnew",
    )
    .unwrap();
    assert!(retry.starts_with("INVITE sip:bob@203.0.113.9:5060 SIP/2.0\r\n"));
    assert!(retry.contains("CSeq: 4 INVITE\r\n"));
    assert!(!retry.contains("z9hG4bKaaa") && retry.contains("branch=z9hG4bKnew"));
    assert_eq!(retry.matches("Session-Expires:").count(), 1);
    assert_eq!(retry.matches("Min-SE:").count(), 1);
    assert!(retry.contains("Session-Expires: 14400\r\nMin-SE: 14400\r\n"), "{}", retry);
    assert_eq!(retry.matches("Supported: timer").count(), 1);
    assert!(retry.ends_with("\r\n\r\nv=0\r\n"), "body intact");
    parses(&retry);
    let live = || Some(LIVE.to_string());
    assert!(handle_422_session_interval_retry(live(), &raw, Some((1800, 90)), 1).is_none());
    assert!(handle_422_session_interval_retry(live(), &raw, None, 0).is_none(), "timers off");
    let no_floor = answer("422 Session Interval Too Small", "3 INVITE", "");
    assert!(handle_422_session_interval_retry(live(), &no_floor, Some((1800, 90)), 0).is_none());
    assert!(handle_422_session_interval_retry(None, &raw, Some((1800, 90)), 0).is_none());
    let higher = handle_422_session_interval_retry(live(), &raw, Some((20000, 90)), 0).unwrap();
    assert!(higher.contains("Session-Expires: 20000\r\nMin-SE: 14400\r\n"));
}

#[test]
fn session_timers_are_negotiated_above_the_floor() {
    let (interval, floor) = negotiate_session_timer(
        1800, 90, None, "SIP/2.0 200 OK\r\nSession-Expires: 3600;refresher=uac\r\n\r\n",
    );
    assert!(interval >= floor);
    assert_eq!(interval, 3600);
    assert_eq!(
        handle_refresh_response(200, "SIP/2.0 200 OK\r\n\r\n"),
        RefreshPlan::Refreshed
    );
    assert_eq!(
        handle_refresh_response(422, "SIP/2.0 422 x\r\nMin-SE: 7200\r\n\r\n"),
        RefreshPlan::Refused { min_se: Some(7200) }
    );
    assert_eq!(handle_refresh_response(100, "SIP/2.0 100 Trying\r\n\r\n"), RefreshPlan::Ignored);
}

// ── Trunks ──────────────────────────────────────────────────────────────

#[test]
fn retry_after_is_parsed_and_bounded() {
    let raw = "SIP/2.0 503 Service Unavailable\r\nRetry-After: 120 (maintenance);duration=3600\r\nContent-Length: 0\r\n\r\n";
    assert_eq!(retry_after_secs(raw), Some(120));
    assert_eq!(
        retry_after_secs("SIP/2.0 503 X\r\nretry-after: 0\r\n\r\n"),
        None,
        "0 is not a park"
    );
    assert_eq!(
        retry_after_secs("SIP/2.0 503 X\r\nRetry-After: 999999\r\n\r\n"),
        None,
        "a day-long park is refused"
    );
    assert_eq!(
        retry_after_secs("SIP/2.0 503 X\r\n\r\nRetry-After: 5"),
        None
    );
}

#[test]
fn strike_set_is_the_trunk_failure_codes_only() {
    for code in [408, 500, 502, 503, 504] {
        assert!(is_trunk_strike_code(code), "{}", code);
    }
    for code in [404, 486, 487, 501, 505, 600, 603, 604, 606] {
        assert!(!is_trunk_strike_code(code), "{}", code);
    }
    assert_eq!(
        trunk_outcome_label(&CallOutcome::Rejected { code: 486 }, false),
        "rejected"
    );
    assert_eq!(
        trunk_outcome_label(&CallOutcome::Rejected { code: 503 }, false),
        "failed"
    );
    assert_eq!(
        trunk_outcome_label(&CallOutcome::Refused { code: 404 }, false),
        "failed"
    );
    assert_eq!(
        trunk_outcome_label(&CallOutcome::Rejected { code: 486 }, true),
        "answered"
    );
}

#[test]
fn what_an_invite_is_answered_at_once() {
    let q = req(INVITE);
    let say = |start: InviteStart| answer_start_with(&q, &start, "Digest realm=\"r\"", "0a1b2c3d");
    let refused = say(InviteStart::Refused { status: 403, flag: false, strike: true }).unwrap();
    assert!(refused.starts_with("SIP/2.0 403 Forbidden\r\n"), "{}", refused);
    let asked = say(InviteStart::Challenged).unwrap();
    assert!(asked.starts_with("SIP/2.0 407 Proxy Authentication Required\r\n"), "{}", asked);
    assert!(asked.contains("Proxy-Authenticate: Digest realm=\"r\"\r\n"), "{}", asked);
    let ext = say(InviteStart::BadExtension { unsupported: "100rel".to_string() }).unwrap();
    assert!(ext.starts_with("SIP/2.0 420 Bad Extension\r\n") && ext.contains("Unsupported: 100rel\r\n"));
    let rate = LimitDecision::RateExceeded { current: 1, limit: 1, retry_after_secs: 30 };
    let limited = |status, retry_after| InviteStart::Limited {
        status,
        retry_after,
        user: "alice".to_string(),
        decision: rate.clone(),
    };
    let wait = say(limited(503, Some(30))).unwrap();
    assert!(wait.starts_with("SIP/2.0 503 ") && wait.contains("Retry-After: 30\r\n"), "{}", wait);
    let full = say(limited(403, None)).unwrap();
    assert!(full.starts_with("SIP/2.0 403 ") && !full.contains("Retry-After"), "{}", full);
    let started =
        InviteStart::Started { user: None, flag: false, callee: None, did_mapped: false };
    assert!(say(started).unwrap().starts_with("SIP/2.0 100 Trying\r\n"));
    assert_eq!(say(InviteStart::Absorbed), None);
    assert_eq!(say(InviteStart::Reinvite), None);
    // Each answer is found under the transaction of its INVITE.
    let key = InviteTxCache::key_of_request(&q).unwrap();
    for text in [&refused, &asked, &ext, &wait, &full] {
        assert_eq!(InviteTxCache::key_of_response(text), Some((key.clone(), true)));
        parses(text);
    }
    // A request without the headers that a response echoes gets its status.
    let bare = SipRequest {
        method: "INVITE".to_string(),
        uri: "sip:b@h".to_string(),
        headers: vec![],
        body: vec![],
    };
    let text = answer_start(&bare, &InviteStart::Challenged, "Digest").unwrap();
    assert!(text.starts_with("SIP/2.0 407 Proxy Authentication Required\r\n"), "{}", text);
}

#[test]
fn where_an_invite_comes_from() {
    let trunks = vec!["203.0.113.9".to_string()];
    let bindings = vec![
        bound("sip:alice@h", "198.51.100.7"),
        bound("sip:bob@h", "198.51.100.7"),
        bound("sip:eve@h", "203.0.113.20"),
    ];
    let from = |ip: &str, user: &str| {
        invite_source(ip, &trunks, &bindings, &Some(user.to_string()))
    };
    assert!(matches!(from("127.0.0.1", "bob"), InviteSource::Local));
    assert!(matches!(from("::1", "bob"), InviteSource::Local));
    assert!(matches!(from("203.0.113.9", "bob"), InviteSource::Trunk));
    assert!(matches!(from("203.0.113.20", "eve"), InviteSource::Trunk), "a sibling host of the trunk");
    assert!(matches!(from("198.51.100.7", "alice"), InviteSource::Registered { user } if user == "alice"));
    assert!(matches!(from("198.51.100.7", "bob"), InviteSource::Registered { user } if user == "bob"));
    assert!(
        matches!(from("198.51.100.7", "eve"), InviteSource::Registered { user } if user == "alice"),
        "eve is not registered from there"
    );
    assert!(matches!(
        invite_source("198.51.100.7", &trunks, &bindings, &None),
        InviteSource::Registered { user } if user == "alice"
    ));
    assert!(matches!(from("192.0.2.1", "alice"), InviteSource::Unknown));
}

#[test]
fn two_users_behind_one_address_call_as_themselves() {
    let mut f = facts(PHONE);
    f.bindings.push(bound("sip:bob@a.example.com", PHONE));
    assert!(matches!(
        admit_invite(&req(INVITE), &f),
        Admission::Admitted { user: Some(u), flag: false } if u == "alice"
    ));
    assert!(matches!(
        admit_invite(&req(&from_bob(INVITE)), &f),
        Admission::Admitted { user: Some(u), flag: false } if u == "bob"
    ));
    assert_eq!(invite_account(&req(&from_bob(INVITE)), &f).as_deref(), Some("bob"));
    let eve = req(&INVITE.replace("From: <sip:alice@", "From: <sip:eve@"));
    assert!(matches!(
        admit_invite(&eve, &f),
        Admission::Refused { status: 403, flag: true, strike: false }
    ));
}

#[test]
fn claims_of_an_invite() {
    let users = vec!["alice".to_string()];
    let served = vec!["a.example.com".to_string()];
    let claims = |raw: &str, known| invite_claims(&req(raw), &users, &served, known);
    let c = claims(INVITE, false);
    assert_eq!(c.from_user.as_deref(), Some("alice"));
    assert!(c.from_is_local && !c.in_dialog);
    assert!(!claims(INVITE, true).in_dialog, "its To has no tag");
    let tagged = INVITE.replace("@pstn>", "@pstn>;tag=t1");
    assert!(claims(&tagged, true).in_dialog);
    assert!(!claims(&tagged, false).in_dialog);
    let upper = INVITE.replace("sip:alice@a.example.com", "sip:alice@A.Example.COM:5061;lr");
    assert!(claims(&upper, false).from_is_local, "hosts have no case, and the port does not matter");
    let bob = claims(&from_bob(INVITE), false);
    assert_eq!(bob.from_user.as_deref(), Some("bob"));
    assert!(!bob.from_is_local, "no user of this system");
    let elsewhere = INVITE.replace("alice@a.example.com", "alice@elsewhere");
    assert!(!claims(&elsewhere, false).from_is_local, "not on a domain served here");
    let nobody = INVITE.replace("alice@a.example.com", "a.example.com");
    let c = claims(&nobody, false);
    assert!(c.from_user.is_none() && !c.from_is_local);
    let named = |user: &str| {
        Some(NameAddr {
            text: String::new(),
            user: Some(user.to_string()),
            tag: Some("t1".to_string()),
        })
    };
    let c = read_claims(named("alice"), "sip:x@a.example.com", named("bob"), &users, &served, true);
    assert!(c.from_is_local && c.in_dialog);
    let c = read_claims(named("alice"), "sip:x@b", None, &users, &served, true);
    assert!(!c.from_is_local && !c.in_dialog);
    let c = read_claims(None, "sip:x@a.example.com", named("bob"), &users, &served, false);
    assert!(c.from_user.is_none() && !c.from_is_local && !c.in_dialog);
    let claim = |local| InviteClaims {
        from_user: Some("alice".to_string()),
        from_is_local: local,
        in_dialog: false,
    };
    assert!(matches!(
        check_identity(claim(true), InviteSource::Unknown, &Proof::Missing, false),
        Admission::Challenged
    ));
    assert!(matches!(
        check_identity(claim(false), InviteSource::Unknown, &Proof::Missing, false),
        Admission::Refused { status: 403, flag: false, strike: true }
    ));
    assert!(matches!(
        check_identity(claim(true), InviteSource::Local, &Proof::Missing, true),
        Admission::Admitted { user: Some(u), flag: false } if u == "alice"
    ));
}

fn start(raw: &str, f: &InviteFacts) -> (InviteStart, Option<SecurityEvent>) {
    let q = req(raw);
    let s = handle_invite(&mut InviteTxCache::new(), &q, f, &vec![], None, &mut limits(), 0, 1_000);
    let e = identity_event(&q, f, &s, 7);
    (s, e)
}

#[test]
fn invite_from_a_registered_source_must_carry_its_own_from() {
    let (s, e) = start(&from_bob(INVITE), &facts(PHONE));
    assert!(matches!(s, InviteStart::Refused { status: 403, flag: true, strike: false }));
    assert!(matches!(&e, Some(SecurityEvent::IdentityMismatch { ip, ts: 7, .. }) if ip == PHONE));
    assert_eq!(identity(e), triple("alice", "bob"));
    let (s, e) = start(INVITE, &facts(PHONE));
    assert!(matches!(s, InviteStart::Started { user: Some(u), flag: false, .. } if u == "alice"));
    assert!(e.is_none());
}

#[test]
fn trunk_invite_presenting_a_local_user_is_flagged() {
    let (s, e) = start(INVITE, &facts(TRUNK));
    assert!(matches!(s, InviteStart::Started { user: None, flag: true, .. }));
    assert_eq!(identity(e), triple("trunk", "sip:alice@a.example.com"));
    let mut strict = facts(TRUNK);
    strict.reject_trunk_local_from = true;
    let (s, e) = start(INVITE, &strict);
    assert!(matches!(s, InviteStart::Refused { status: 403, flag: true, strike: false }));
    assert_eq!(identity(e), triple("trunk", "sip:alice@a.example.com"));
    let pstn = INVITE.replace("sip:alice@a.example.com", "sip:+33612345678@203.0.113.9");
    let (s, e) = start(&pstn, &strict);
    assert!(matches!(s, InviteStart::Started { user: None, flag: false, .. }));
    assert!(e.is_none());
}

#[test]
fn proving_to_be_another_than_presented_is_reported() {
    let mut f = facts(STRANGER);
    f.proof = Proof::Valid { user: "bob".to_string() };
    let (s, e) = start(INVITE, &f);
    assert!(matches!(s, InviteStart::Refused { status: 403, flag: true, strike: false }));
    assert_eq!(identity(e), triple("bob", "alice"));
    f.proof = Proof::Wrong;
    let (s, e) = start(INVITE, &f);
    assert!(matches!(s, InviteStart::Refused { status: 403, flag: false, strike: true }));
    assert!(e.is_none(), "wrong credentials are a failed authentication");
    let m = identity_claim(
        Some("x".to_string()),
        "\"Al\" <sip:alice@h;lr>;tag=1",
        InviteSource::Trunk,
        &Proof::Missing,
    );
    assert_eq!((m.user.as_str(), m.claimed.as_str(), m.method.as_str()), ("trunk", "sip:alice@h;lr", "INVITE"));
}

#[test]
fn limits_are_reported_with_what_was_reached() {
    let rate = LimitDecision::RateExceeded { current: 11, limit: 10, retry_after_secs: 60 };
    assert!(matches!(
        limit_event("alice", &rate, 5),
        Some(SecurityEvent::UserLimitHit { user, kind, current: 11, limit: 10, ts: 5 })
            if user == "alice" && kind == "rate"
    ));
    let full = LimitDecision::ConcurrentExceeded { current: 4, limit: 4 };
    assert!(matches!(
        limit_event("alice", &full, 5),
        Some(SecurityEvent::UserLimitHit { kind, current: 4, limit: 4, .. }) if kind == "concurrent"
    ));
    assert!(limit_event("alice", &LimitDecision::Allowed, 5).is_none());
}

#[test]
fn trunk_health_is_announced_when_it_changes() {
    let name = Some("a".to_string());
    assert_eq!(outbound_trunk_of("outbound", &name).as_deref(), Some("a"));
    assert_eq!(outbound_trunk_of("inbound", &name), None);
    assert_eq!(silent_outbound_trunk_of("outbound", &name, true), None);
    assert_eq!(silent_outbound_trunk_of("outbound", &name, false).as_deref(), Some("a"));
    let down = note_trunk_failure("a", Some(false), Some(("cooling".to_string(), 3)));
    assert_eq!(down.unwrap().consecutive_failures, 3);
    assert!(note_trunk_failure("a", Some(true), Some(("cooling".to_string(), 4))).is_none());
    assert!(note_trunk_success("a", true, false).is_some());
    assert!(note_trunk_success("a", false, false).is_none());
}

#[test]
fn refusals_name_what_is_wanted() {
    let q = req(INVITE);
    let text = refusal_with(&q, 503, "Retry-After", "30", "0a1b2c3d").unwrap();
    assert!(text.starts_with("SIP/2.0 503 Service Unavailable\r\n"), "{}", text);
    assert!(text.contains("Retry-After: 30\r\n"), "{}", text);
    assert!(text.contains("To: <sip:0612345678@pstn>;tag=0a1b2c3d\r\n"), "{}", text);
    parses(&text);
    assert_ne!(refusal(&q, 503, "Retry-After", "30"), refusal(&q, 503, "Retry-After", "30"));
    let r = req(&INVITE.replace("INVITE", "REGISTER"));
    let brief = build_register_423_with(&r, 60, "0a1b2c3d").unwrap();
    assert!(brief.starts_with("SIP/2.0 423 "), "{}", brief);
    assert!(brief.contains("Min-Expires: 60\r\n"), "{}", brief);
    assert!(build_register_423(&r, 60).unwrap().contains("Min-Expires: 60\r\n"));
}

#[test]
fn parties_of_a_call() {
    let p = call_parties_with(&req(INVITE), Some("sip:0612345678@10.0.0.1:5060"), None, Some("t1".to_string()), "0a1b2c3d");
    assert_eq!(p.caller_tag, "al-1");
    assert_eq!(p.caller_number.as_deref(), Some("alice"));
    assert_eq!(p.callee_number.as_deref(), Some("0612345678"));
    assert_eq!(p.trunk_name.as_deref(), Some("t1"));
    assert_eq!(p.sdp, None);
    let raw = INVITE
        .replace("<sip:alice@a.example.com>;tag=al-1", "<sip:a.example.com>")
        .replace("Content-Length: 0\r\n\r\n", "Content-Length: 5\r\n\r\nv=0\r\n");
    let p = call_parties_with(&req(&raw), Some("tel:1"), Some("t2".to_string()), Some("t1".to_string()), "0a1b2c3d");
    assert_eq!(p.caller_tag, "0a1b2c3d");
    assert_eq!(p.caller_number.as_deref(), Some("unknown"));
    assert_eq!(p.callee_number, None);
    assert_eq!(p.trunk_name.as_deref(), Some("t2"));
    assert_eq!(p.sdp.as_deref(), Some("v=0\r\n"));
    assert_eq!(call_parties(&req(&raw), None, None, None).caller_tag.len(), 8);
}

#[test]
fn a_failed_setup_is_answered_503() {
    assert_eq!(setup_failure(Setup::Sent), None);
    assert_eq!(setup_failure(Setup::NoMedia), Some((503, None)));
    assert_eq!(setup_failure(Setup::Unsent), Some((503, Some(CallOutcome::Refused { code: 503 }))));
}

#[test]
fn timers_are_offered_to_trunks_only() {
    let out = offer_session_timer(INVITE, Some((1800, 90)), true);
    assert!(out.contains("Session-Expires: 1800"), "{}", out);
    assert_eq!(offer_session_timer(INVITE, Some((1800, 90)), false), INVITE);
    assert_eq!(offer_session_timer(INVITE, None, true), INVITE);
}

#[test]
fn an_answer_without_a_relay_ends_its_call() {
    let raw = "SIP/2.0 200 OK\r\nVia: SIP/2.0/UDP 198.51.100.1;branch=z9hG4bKx\r\n\
From: <sip:a@b>;tag=1\r\nTo: <sip:c@d>;tag=callee-1\r\nCall-ID: x\r\nCSeq: 3 INVITE\r\n\
Contact: <sip:c@10.0.0.7:5060>\r\nSession-Expires: 14400;refresher=uac\r\n\
Content-Length: 5\r\n\r\nv=0\r\n";
    let facts = |relay: RelayState| AnswerFacts {
        timer: Some((1800, 90)),
        toward_trunk: true,
        offered_invite: None,
        relay,
        caller_webrtc: false,
        webrtc_answer: false,
        callee_webrtc: false,
        leg_a: Some(21000),
    };
    let plan = handle_answer(&resp(raw), raw, &facts(RelayState::Started));
    assert_eq!(plan.callee_tag, "callee-1");
    let d = plan.dialog.unwrap();
    assert_eq!(d.to_raw, "<sip:c@d>;tag=callee-1");
    assert_eq!(d.contact.as_deref(), Some("sip:c@10.0.0.7:5060"));
    assert_eq!(plan.timer, Some((14400, 90)));
    assert_eq!(plan.sdp, SdpPlan::Relay { port: 21000 });
    assert!(plan.connected);
    assert_eq!(plan.end, None);
    let plan = handle_answer(&resp(raw), raw, &facts(RelayState::Failed));
    assert_eq!(plan.end, Some(CallOutcome::MediaUnavailable));
    assert!(!handle_answer(&resp(raw), raw, &facts(RelayState::Running)).connected);
    let mut local = facts(RelayState::Absent);
    local.toward_trunk = false;
    assert_eq!(handle_answer(&resp(raw), raw, &local).timer, None);
}
