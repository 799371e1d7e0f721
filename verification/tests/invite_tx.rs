use sbc_core::engine::{receive, receive_ack, send_sip, Received, SourceFacts};
use sbc_core::invite_tx::{InviteTxCache, FINAL_ABSORB, MAX_ENTRIES, PENDING_ABSORB};
use sbc_core::message::SipRequest;

const INVITE: &str = "INVITE sip:b@h SIP/2.0\r\nVia: SIP/2.0/UDP 10.0.0.9:5060;branch=z9hG4bKabc;rport\r\nFrom: <sip:a@h>;tag=t1\r\nTo: <sip:b@h>\r\nCall-ID: c1\r\nCSeq: 7 INVITE\r\nContent-Length: 0\r\n\r\n";
const RESP: &str = "SIP/2.0 486 Busy Here\r\nVia: SIP/2.0/UDP 10.0.0.9:5060;branch=z9hG4bKabc;rport\r\nFrom: <sip:a@h>;tag=t1\r\nTo: <sip:b@h>;tag=x\r\nCall-ID: c1\r\nCSeq: 7 INVITE\r\nContent-Length: 0\r\n\r\n";

fn req(raw: &str) -> SipRequest {
    let open = SourceFacts {
        banned: false,
        silent_drop: false,
        acl_allowed: true,
        rate_allowed: true,
    };
    match receive(raw.as_bytes(), &open) {
        Received::Request { request, .. } => request,
        _ => panic!(),
    }
}

#[test]
fn request_and_response_share_the_transaction_key() {
    let k = InviteTxCache::key_of_request(&req(INVITE)).unwrap();
    let (rk, is_final) = InviteTxCache::key_of_response(RESP).unwrap();
    assert_eq!(k, rk);
    assert!(is_final);
    assert_eq!(k, "z9hG4bKabc|c1|t1|7");
    let (_, provisional) =
        InviteTxCache::key_of_response(&RESP.replace("486 Busy Here", "100 Trying")).unwrap();
    assert!(!provisional);
    assert!(
        InviteTxCache::key_of_response(&RESP.replace("7 INVITE", "7 BYE")).is_none(),
        "only INVITE responses are remembered"
    );
}

#[test]
fn retransmissions_replay_the_last_response_then_expire() {
    let mut cache = InviteTxCache::new();
    let now: u64 = 50_000;
    let k = InviteTxCache::key_of_request(&req(INVITE)).unwrap();
    assert!(cache.begin(&k, now).is_ok(), "first copy is new");
    assert_eq!(
        cache.begin(&k, now),
        Err(None),
        "retransmitted before any response"
    );
    cache.record(&k, b"SIP/2.0 100 Trying\r\n\r\n", false, now);
    assert_eq!(
        cache.begin(&k, now),
        Err(Some(b"SIP/2.0 100 Trying\r\n\r\n".to_vec()))
    );
    cache.record(&k, RESP.as_bytes(), true, now);
    assert_eq!(cache.begin(&k, now), Err(Some(RESP.as_bytes().to_vec())));
    assert_eq!(cache.prune_at(now + 10_000), 0);
    assert_eq!(cache.prune_at(now + FINAL_ABSORB + 1_000), 1);
    assert!(
        cache.begin(&k, now).is_ok(),
        "same key after expiry is a new transaction"
    );
    assert_eq!(cache.len(), 1);
}

#[test]
fn pending_transactions_expire_later_and_the_cache_is_capped() {
    let mut cache = InviteTxCache::new();
    cache.begin("pending", 0).unwrap();
    assert_eq!(cache.prune_at(FINAL_ABSORB + 1_000), 0);
    assert_eq!(cache.prune_at(PENDING_ABSORB + 1_000), 1);
    for n in 0..MAX_ENTRIES + 5 {
        cache.begin(&format!("k{}", n), n as u64).unwrap();
    }
    assert_eq!(cache.len(), MAX_ENTRIES);
}

#[test]
fn a_sent_response_is_replayed_to_a_retransmission() {
    let mut cache = InviteTxCache::new();
    let k = InviteTxCache::key_of_request(&req(INVITE)).unwrap();
    assert!(cache.begin(&k, 0).is_ok());
    send_sip(&mut cache, RESP.as_bytes(), false, 5);
    assert_eq!(cache.begin(&k, 6), Err(Some(RESP.as_bytes().to_vec())));
    // Requests, and bytes that are no text, are not remembered.
    send_sip(&mut cache, INVITE.as_bytes(), true, 7);
    send_sip(&mut cache, b"SIP/2.0 \xff", true, 8);
    assert_eq!(cache.begin(&k, 9), Err(Some(RESP.as_bytes().to_vec())));
    assert_eq!(cache.len(), 1);
    assert!(cache.knows(&k) && !cache.knows("other"));
}

#[test]
fn a_refusal_over_udp_is_sent_again_until_its_ack() {
    let mut cache = InviteTxCache::new();
    let k = InviteTxCache::key_of_request(&req(INVITE)).unwrap();
    assert!(cache.begin(&k, 0).is_ok());
    let busy = RESP.replace(RESP.lines().next().unwrap(), "SIP/2.0 486 Busy Here");
    let trying = RESP.replace(RESP.lines().next().unwrap(), "SIP/2.0 100 Trying");
    send_sip(&mut cache, trying.as_bytes(), true, 1_000);
    assert_eq!(cache.pending_retransmissions(), 0, "only finals wait for an ACK");
    send_sip(&mut cache, busy.as_bytes(), true, 1_000);
    assert_eq!(cache.pending_retransmissions(), 1);
    assert!(cache.due_finals(1_499).is_empty());
    assert_eq!(cache.due_finals(1_500), vec![busy.as_bytes().to_vec()]);
    assert!(cache.due_finals(2_499).is_empty(), "the pause doubles");
    assert_eq!(cache.due_finals(2_500).len(), 1);
    assert_eq!(cache.due_finals(4_500).len(), 1);
    assert_eq!(cache.due_finals(8_500).len(), 1);
    assert!(cache.due_finals(12_499).is_empty(), "and stays at four seconds");
    assert_eq!(cache.due_finals(12_500).len(), 1);
    receive_ack(&mut cache, &req(&INVITE.replace("INVITE", "ACK")));
    assert_eq!(cache.pending_retransmissions(), 0, "ACKed");
    assert!(cache.due_finals(30_000).is_empty());
    assert_eq!(cache.begin(&k, 30_000), Err(Some(busy.as_bytes().to_vec())), "still replayed");
}

#[test]
fn a_refusal_that_is_never_acknowledged_is_given_up() {
    let mut cache = InviteTxCache::new();
    let k = InviteTxCache::key_of_request(&req(INVITE)).unwrap();
    cache.begin(&k, 0).unwrap();
    let busy = RESP.replace(RESP.lines().next().unwrap(), "SIP/2.0 486 Busy Here");
    send_sip(&mut cache, busy.as_bytes(), false, 0);
    assert_eq!(cache.pending_retransmissions(), 0, "a reliable transport delivers it");
    send_sip(&mut cache, busy.as_bytes(), true, 0);
    assert!(cache.due_finals(FINAL_ABSORB).is_empty(), "its window has passed");
    cache.acked("unknown");
    assert_eq!(cache.pending_retransmissions(), 1);
}
