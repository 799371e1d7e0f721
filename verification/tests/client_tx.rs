use sbc_core::client_tx::{branch_param, ClientTxCache, Transport, MAX_ENTRIES};
use sbc_core::engine::{receive, Received, SourceFacts};
use sbc_core::message::{cseq_of, value_of, SipResponse};
use sbc_core::sip_builder::top_via_branch;

const ADDR: &str = "203.0.113.9:5060";

fn invite(branch: &str) -> String {
    format!(
        "INVITE sip:bob@203.0.113.9 SIP/2.0\r\n\
         Via: SIP/2.0/UDP 198.51.100.1:5060;branch={};rport\r\n\
         From: <sip:a@x>;tag=1\r\nTo: <sip:b@y>\r\n\
         Call-ID: c1\r\nCSeq: 2 INVITE\r\nContent-Length: 0\r\n\r\n",
        branch
    )
}

fn bye(branch: &str) -> String {
    format!(
        "BYE sip:bob@203.0.113.9 SIP/2.0\r\n\
         Via: SIP/2.0/UDP 198.51.100.1:5060;branch={}\r\n\
         From: <sip:a@x>;tag=1\r\nTo: <sip:b@y>;tag=2\r\n\
         Call-ID: c1\r\nCSeq: 5 BYE\r\nContent-Length: 0\r\n\r\n",
        branch
    )
}

fn response(branch: &str, status: &str, method: &str) -> String {
    format!(
        "SIP/2.0 {}\r\nVia: SIP/2.0/UDP 198.51.100.1:5060;branch={}\r\n\
         From: <sip:a@x>;tag=1\r\nTo: <sip:b@y>;tag=2\r\n\
         Call-ID: c1\r\nCSeq: 2 {}\r\nContent-Length: 0\r\n\r\n",
        status, branch, method
    )
}

fn send(cache: &mut ClientTxCache, what: &str, raw: &[u8], t: Transport, now: u64) -> bool {
    cache.record_sent(what, raw, ADDR, t, None, now).is_some()
}

#[test]
fn an_invite_is_retransmitted_with_a_doubling_interval() {
    let mut cache = ClientTxCache::new();
    let raw = invite("z9hG4bK1");
    let start: u64 = 1_000;
    assert!(send(&mut cache, "INVITE → trunk", raw.as_bytes(), Transport::Udp, start));

    // Nothing is due before T1.
    assert!(cache.due(start).0.is_empty());
    // 500 ms, then 1 s, 2 s, 4 s, 8 s — no cap for an INVITE.
    for (i, expected) in [500u64, 1500, 3500, 7500, 15500].iter().enumerate() {
        let (due, expired) = cache.due(start + *expected);
        assert_eq!(due.len(), 1, "retransmission {}", i + 1);
        assert_eq!(due[0].attempt, i as u32 + 1, "attempt counter");
        assert_eq!(due[0].raw, raw.as_bytes(), "byte-identical retransmission");
        assert!(expired.is_empty());
    }
    // Timer B: given up at 32 s, reported once.
    let (due, expired) = cache.due(start + 33_000);
    assert!(due.is_empty());
    assert_eq!(expired.len(), 1, "{:?}", expired);
    assert_eq!(cache.len(), 0);
}

#[test]
fn a_non_invite_interval_is_capped_at_t2() {
    let mut cache = ClientTxCache::new();
    let start: u64 = 7;
    assert!(send(
        &mut cache,
        "BYE → trunk",
        bye("z9hG4bKb").as_bytes(),
        Transport::Udp,
        start
    ));
    // 0.5, 1, 2, 4, 4, 4 …
    let mut elapsed = 0u64;
    let mut intervals = Vec::new();
    for _ in 0..6 {
        // Step to just past the next fire time by walking in 100 ms steps.
        for _ in 0..100 {
            elapsed += 100;
            let (due, _) = cache.due(start + elapsed);
            if !due.is_empty() {
                intervals.push(elapsed);
                break;
            }
        }
    }
    let gaps: Vec<u64> = intervals.windows(2).map(|w| w[1] - w[0]).collect();
    assert_eq!(
        gaps,
        vec![1000, 2000, 4000, 4000, 4000],
        "doubling then capped at T2: {:?}",
        intervals
    );
}

fn read_response(raw: &str) -> SipResponse {
    let open = SourceFacts {
        banned: false,
        silent_drop: false,
        acl_allowed: true,
        rate_allowed: true,
    };
    match receive(raw.as_bytes(), &open) {
        Received::Response { response } => response,
        _ => panic!("not a response"),
    }
}

/// Read the top Via's branch and the CSeq method, then stop that timer.
fn answer_with(cache: &mut ClientTxCache, raw: &str) -> bool {
    let r = read_response(raw);
    let via = value_of(&r.headers, "via:", "v:").expect("Via");
    let (_, method) = cseq_of(&r.headers).expect("CSeq");
    let branch = branch_param(&via).expect("branch");
    cache.answered_parts(&branch, &method.to_ascii_uppercase())
}

#[test]
fn any_response_stops_the_retransmissions() {
    let mut cache = ClientTxCache::new();
    let raw = invite("z9hG4bK2");
    assert!(send(&mut cache, "INVITE → trunk", raw.as_bytes(), Transport::Udp, 0));
    // A 100 Trying is enough (RFC 3261 §17.1.1.2: Timer A stops).
    assert!(answer_with(
        &mut cache,
        &response("z9hG4bK2", "100 Trying", "INVITE")
    ));
    assert_eq!(cache.len(), 0);
    assert!(cache.due(1_000).0.is_empty());

    // A response for another branch or another method changes nothing.
    let raw = invite("z9hG4bK3");
    assert!(send(&mut cache, "INVITE → trunk", raw.as_bytes(), Transport::Udp, 0));
    assert!(!answer_with(&mut cache, &response("other", "200 OK", "INVITE")));
    assert!(!answer_with(&mut cache, &response("z9hG4bK3", "200 OK", "BYE")));
    assert_eq!(cache.len(), 1);
}

#[test]
fn the_two_via_readings_agree() {
    // A request is keyed from its raw text, a response read from its
    // parsed headers: the two must extract the same branch, including
    // through a comma-folded Via where the top value comes first.
    let raw = invite("z9hG4bKtop");
    assert_eq!(top_via_branch(&raw).as_deref(), Some("z9hG4bKtop"));
    assert_eq!(
        branch_param("SIP/2.0/UDP 198.51.100.1:5060;branch=z9hG4bKtop;rport"),
        Some("z9hG4bKtop".to_string())
    );
    assert_eq!(
        branch_param("SIP/2.0/UDP a:5060;branch=z9hG4bKtop,SIP/2.0/UDP b:5060;branch=z9hG4bKdown"),
        Some("z9hG4bKtop".to_string()),
        "the top Via is the first value of a folded header"
    );
    assert_eq!(branch_param("SIP/2.0/UDP a:5060"), None);
    assert_eq!(branch_param("SIP/2.0/UDP a:5060;branch="), None);
}

#[test]
fn cancelling_an_attempt_stops_its_invite() {
    let mut cache = ClientTxCache::new();
    let raw = invite("z9hG4bK4");
    assert!(send(&mut cache, "INVITE → trunk", raw.as_bytes(), Transport::Udp, 0));
    let cancel = invite("z9hG4bK4")
        .replace("INVITE sip", "CANCEL sip")
        .replace("CSeq: 2 INVITE", "CSeq: 2 CANCEL");
    assert!(
        send(&mut cache, "CANCEL → trunk", cancel.as_bytes(), Transport::Udp, 0),
        "the CANCEL itself is tracked"
    );
    // The INVITE is gone, the CANCEL remains.
    let (due, _) = cache.due(600);
    assert_eq!(due.len(), 1);
    assert!(
        due[0].raw.starts_with(b"CANCEL "),
        "only the CANCEL is resent"
    );
}

#[test]
fn reliable_transports_and_acks_are_not_tracked() {
    let mut cache = ClientTxCache::new();
    let raw = invite("z9hG4bK5");
    assert!(!send(&mut cache, "INVITE → trunk", raw.as_bytes(), Transport::Tcp, 0));
    let raw = invite("z9hG4bK6");
    assert!(!send(&mut cache, "INVITE → trunk", raw.as_bytes(), Transport::Tls, 0));
    let ack = invite("z9hG4bK7")
        .replace("INVITE sip", "ACK sip")
        .replace("CSeq: 2 INVITE", "CSeq: 2 ACK");
    assert!(!send(&mut cache, "ACK → trunk", ack.as_bytes(), Transport::Udp, 0));
    // A response is not a request.
    let raw = response("z9hG4bK8", "200 OK", "INVITE");
    assert!(!send(&mut cache, "200 → caller", raw.as_bytes(), Transport::Udp, 0));
    assert_eq!(cache.len(), 0);
}

#[test]
fn the_table_is_bounded() {
    let mut cache = ClientTxCache::new();
    for i in 0..(MAX_ENTRIES + 50) {
        cache.record_sent(
            "INVITE → trunk",
            invite(&format!("z9hG4bK{}", i)).as_bytes(),
            ADDR,
            Transport::Udp,
            None,
            0,
        );
    }
    assert!(cache.len() <= MAX_ENTRIES, "tracked {}", cache.len());
}

#[test]
fn a_branchless_or_malformed_message_is_ignored() {
    let mut cache = ClientTxCache::new();
    assert!(!send(
        &mut cache,
        "x",
        b"INVITE sip:b SIP/2.0\r\nCSeq: 1 INVITE\r\n\r\n",
        Transport::Udp,
        0
    ));
    assert!(!send(&mut cache, "x", b"", Transport::Udp, 0));
    assert!(!send(&mut cache, "x", b"\xff\xfe", Transport::Udp, 0), "no text");
    assert!(!cache.answered_parts("", "INVITE"), "no branch, no match");
    assert!(cache.is_empty());
}

#[test]
fn a_branch_is_read_whatever_the_case_of_its_name() {
    for via_text in [
        "SIP/2.0/UDP h:5060;BRANCH=z9hG4bKup;rport",
        "SIP/2.0/UDP h:5060;Branch=z9hG4bKmix",
        "SIP/2.0/UDP h:5060;branch=z9hG4bKlow  ",
        "SIP/2.0/UDP h:5060;rport",
        "SIP/2.0/UDP h:5060;branch=;rport",
    ] {
        let raw = format!(
            "INVITE sip:bob@h SIP/2.0\r\nVia: {}\r\nCSeq: 2 INVITE\r\nContent-Length: 0\r\n\r\n",
            via_text
        );
        assert_eq!(branch_param(via_text), top_via_branch(&raw), "{}", via_text);
    }
    // A request that is tracked under such a branch is stopped by its answer.
    let mut cache = ClientTxCache::new();
    let raw = invite("z9hG4bKup").replace(";branch=", ";BRANCH=");
    assert!(send(&mut cache, "INVITE", raw.as_bytes(), Transport::Udp, 0));
    assert!(answer_with(&mut cache, &response("z9hG4bKup", "180 Ringing", "INVITE")));
    assert!(cache.is_empty());
}
