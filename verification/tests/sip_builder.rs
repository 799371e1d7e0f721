use sbc_core::sip_builder::{
    build_ack_for_2xx, build_ack_for_non_2xx, build_bye, build_bye_with, build_cancel,
    build_reinvite, new_branch, parse_invite_identity, renew_invite_transaction,
    renew_invite_transaction_with, top_via_branch, DialogInfo,
};

fn dialog() -> DialogInfo {
    DialogInfo {
        call_id: "abc123@host".to_string(),
        from_raw: "<sip:sbc@sip.example.com>;tag=sbc-tag-1".to_string(),
        to_raw: "\"Alice\" <sip:alice@peer.example.com>;tag=peer-tag-9".to_string(),
        request_uri: "sip:alice@203.0.113.5:5060".to_string(),
        cseq: 42,
        local_ip: "198.51.100.1".to_string(),
        local_port: 5060,
        transport: "UDP".to_string(),
    }
}

fn parse(raw: &str) -> rsip::SipMessage {
    rsip::SipMessage::try_from(raw.as_bytes().to_vec()).expect("builder output must parse")
}

#[test]
fn branch_has_magic_cookie_and_is_unique() {
    let b1 = new_branch();
    let b2 = new_branch();
    assert!(b1.starts_with("z9hG4bK"));
    assert_ne!(b1, b2);
}

#[test]
fn bye_parses_and_has_dialog_identity() {
    let raw = build_bye(&dialog(), Some("Q.850;cause=16;text=\"timeout\""));
    let msg = parse(&raw);
    let req = match msg {
        rsip::SipMessage::Request(r) => r,
        _ => panic!("expected request"),
    };
    assert_eq!(req.method, rsip::Method::Bye);
    assert!(raw.contains("From: <sip:sbc@sip.example.com>;tag=sbc-tag-1\r\n"));
    assert!(raw.contains("To: \"Alice\" <sip:alice@peer.example.com>;tag=peer-tag-9\r\n"));
    assert!(raw.contains("Call-ID: abc123@host\r\n"));
    assert!(raw.contains("CSeq: 42 BYE\r\n"));
    assert!(raw.contains("Reason: Q.850"));
    assert!(raw.contains("Content-Length: 0\r\n"));
}

#[test]
fn header_order_via_first_content_length_last() {
    let raw = build_bye(&dialog(), None);
    let headers: Vec<&str> = raw
        .split("\r\n")
        .skip(1)
        .take_while(|l| !l.is_empty())
        .collect();
    assert!(headers[0].starts_with("Via:"));
    assert!(headers[1].starts_with("Max-Forwards:"));
    assert!(headers[2].starts_with("From:"));
    assert!(headers[3].starts_with("To:"));
    assert!(headers[4].starts_with("Call-ID:"));
    assert!(headers[5].starts_with("CSeq:"));
    assert!(headers.last().unwrap().starts_with("Content-Length:"));
}

#[test]
fn ack_uses_invite_cseq_number() {
    let raw = build_ack_for_2xx(&dialog(), 7);
    parse(&raw);
    assert!(raw.contains("CSeq: 7 ACK\r\n"));
}

#[test]
fn reinvite_carries_sdp_and_session_expires() {
    let sdp = "v=0\r\no=- 1 1 IN IP4 198.51.100.1\r\ns=-\r\nc=IN IP4 198.51.100.1\r\nt=0 0\r\nm=audio 10000 RTP/AVP 0\r\n";
    let raw = build_reinvite(
        &dialog(),
        sdp,
        "<sip:sbc@198.51.100.1:5060>",
        Some((1800, "uac")),
        Some(90),
    );
    let msg = parse(&raw);
    let req = match msg {
        rsip::SipMessage::Request(r) => r,
        _ => panic!(),
    };
    assert_eq!(req.method, rsip::Method::Invite);
    assert!(raw.contains("Session-Expires: 1800;refresher=uac\r\n"));
    assert!(raw.contains("Min-SE: 90\r\n"));
    assert!(raw.contains(&format!("Content-Length: {}\r\n", sdp.len())));
    assert!(raw.ends_with(sdp));
}

#[test]
fn reinvite_without_min_se_omits_header() {
    let raw = build_reinvite(
        &dialog(),
        "v=0\r\n",
        "<sip:sbc@1.2.3.4>",
        Some((1800, "uac")),
        None,
    );
    parse(&raw);
    assert!(!raw.contains("Min-SE:"));
}

const INVITE_WITH_BODY: &str = "INVITE sip:bob@203.0.113.9:5060 SIP/2.0\r\n\
     Via: SIP/2.0/UDP 198.51.100.1:5060;branch=z9hG4bKdeadbeef;rport\r\n\
     Max-Forwards: 70\r\n\
     Route: <sip:proxy.example.com;lr>\r\n\
     From: <sip:alice@a.example.com>;tag=al-1\r\n\
     To: <sip:bob@b.example.com>\r\n\
     Call-ID: xyz@host\r\n\
     CSeq: 3 INVITE\r\n\
     Proxy-Authorization: Digest username=\"u\", nonce=\"n\"\r\n\
     Content-Type: application/sdp\r\n\
     Content-Length: 22\r\n\r\n\
     v=0\r\nm=audio 1 RTP/AVP 0\r\n";

#[test]
fn ack_for_non_2xx_copies_invite_identity_and_response_to() {
    let raw = build_ack_for_non_2xx(INVITE_WITH_BODY, "<sip:bob@b.example.com>;tag=gen-42")
        .expect("ack built");
    parse(&raw);
    assert!(raw.starts_with("ACK sip:bob@203.0.113.9:5060 SIP/2.0\r\n"));
    assert!(
        raw.contains("Via: SIP/2.0/UDP 198.51.100.1:5060;branch=z9hG4bKdeadbeef;rport\r\n"),
        "ACK must reuse the INVITE's top Via verbatim: {}",
        raw
    );
    assert!(raw.contains("Route: <sip:proxy.example.com;lr>\r\n"));
    assert!(raw.contains("From: <sip:alice@a.example.com>;tag=al-1\r\n"));
    assert!(raw.contains("To: <sip:bob@b.example.com>;tag=gen-42\r\n"));
    assert!(raw.contains("Call-ID: xyz@host\r\n"));
    assert!(raw.contains("CSeq: 3 ACK\r\n"));
    assert!(raw.ends_with("Content-Length: 0\r\n\r\n"));
}

#[test]
fn ack_for_non_2xx_rejects_non_invite() {
    assert!(build_ack_for_non_2xx("BYE sip:x SIP/2.0\r\nCall-ID: 1\r\n\r\n", "<sip:x>").is_none());
}

#[test]
fn top_via_branch_variants() {
    assert_eq!(
        top_via_branch(INVITE_WITH_BODY).as_deref(),
        Some("z9hG4bKdeadbeef")
    );
    let resp = "SIP/2.0 422 Session Interval Too Small\r\n\
                v: SIP/2.0/UDP 198.51.100.1:5060;rport=5060;received=1.2.3.4;branch=z9hG4bKabc\r\n\
                Via: SIP/2.0/UDP other;branch=z9hG4bKnot-top\r\n\r\n";
    assert_eq!(top_via_branch(resp).as_deref(), Some("z9hG4bKabc"));
    let no_branch = "INVITE sip:x SIP/2.0\r\nVia: SIP/2.0/UDP h;rport\r\n\r\n";
    assert_eq!(top_via_branch(no_branch), None);
    assert_eq!(top_via_branch("INVITE sip:x SIP/2.0\r\n\r\n"), None);
}

#[test]
fn renew_invite_transaction_bumps_cseq_fresh_branch_and_keeps_body() {
    let out = renew_invite_transaction(INVITE_WITH_BODY);
    parse(&out);
    assert!(out.contains("CSeq: 4 INVITE\r\n"), "{}", out);
    assert!(!out.contains("z9hG4bKdeadbeef"), "branch must be fresh");
    assert!(out.contains("branch=z9hG4bK"));
    assert!(
        out.contains(";rport\r\n"),
        "Via params after the branch survive"
    );
    assert!(
        out.ends_with("Content-Length: 22\r\n\r\nv=0\r\nm=audio 1 RTP/AVP 0\r\n"),
        "body must be byte-identical: {}",
        out
    );
    assert!(
        out.contains("Proxy-Authorization: Digest"),
        "other headers untouched"
    );
    assert_eq!(
        out.len(),
        INVITE_WITH_BODY.len() + (new_branch().len() - "z9hG4bKdeadbeef".len())
    );
}

#[test]
fn renew_invite_transaction_without_body() {
    let invite = "INVITE sip:x@y SIP/2.0\r\nVia: SIP/2.0/UDP h;branch=z9hG4bKold\r\nCSeq: 7 INVITE\r\nContent-Length: 0\r\n\r\n";
    let out = renew_invite_transaction(invite);
    assert!(out.ends_with("Content-Length: 0\r\n\r\n"));
    assert!(out.contains("CSeq: 8 INVITE\r\n"));
    assert!(!out.contains("z9hG4bKold"));
}

#[test]
fn renewal_under_a_given_branch_is_exact() {
    let invite = "INVITE sip:x@y SIP/2.0\r\nVia: SIP/2.0/UDP h;branch=z9hG4bKold;rport\r\nCSeq: 7 INVITE\r\n\r\nv=0\r\n";
    assert_eq!(
        renew_invite_transaction_with(invite, "z9hG4bKnew"),
        "INVITE sip:x@y SIP/2.0\r\nVia: SIP/2.0/UDP h;branch=z9hG4bKnew;rport\r\nCSeq: 8 INVITE\r\n\r\nv=0\r\n"
    );
}

#[test]
fn invite_identity_parses_compact_and_routes() {
    let invite = "INVITE sip:x@y SIP/2.0\r\nv: SIP/2.0/UDP h;branch=z9hG4bK1\r\nf: <sip:a@b>;tag=1\r\n\
                  t: <sip:x@y>\r\ni: cid-1\r\nCSeq: 12 INVITE\r\nRoute: <sip:r1;lr>\r\nRoute: <sip:r2;lr>\r\n\r\n";
    let id = parse_invite_identity(invite).unwrap();
    assert_eq!(id.top_via, "SIP/2.0/UDP h;branch=z9hG4bK1");
    assert_eq!(id.cseq, 12);
    assert_eq!(id.routes, vec!["<sip:r1;lr>", "<sip:r2;lr>"]);
    assert!(
        parse_invite_identity("INVITE sip:x SIP/2.0\r\nVia: x\r\n\r\n").is_none(),
        "missing From/To/Call-ID"
    );
}

#[test]
fn cancel_copies_invite_identity() {
    let invite = "INVITE sip:bob@203.0.113.9:5060 SIP/2.0\r\n\
         Via: SIP/2.0/UDP 198.51.100.1:5060;branch=z9hG4bKdeadbeef;rport\r\n\
         Max-Forwards: 70\r\n\
         From: <sip:alice@a.example.com>;tag=al-1\r\n\
         To: <sip:bob@b.example.com>\r\n\
         Call-ID: xyz@host\r\n\
         CSeq: 3 INVITE\r\n\
         Content-Type: application/sdp\r\n\
         Content-Length: 0\r\n\r\n";
    let raw = build_cancel(invite).expect("cancel built");
    parse(&raw);
    assert!(raw.starts_with("CANCEL sip:bob@203.0.113.9:5060 SIP/2.0\r\n"));
    assert!(
        raw.contains("branch=z9hG4bKdeadbeef"),
        "CANCEL must reuse the INVITE branch"
    );
    assert!(raw.contains("CSeq: 3 CANCEL\r\n"));
    assert!(raw.contains("From: <sip:alice@a.example.com>;tag=al-1\r\n"));
    assert!(raw.contains("To: <sip:bob@b.example.com>\r\n"));
}

#[test]
fn cancel_rejects_non_invite() {
    assert!(build_cancel("BYE sip:x SIP/2.0\r\nCall-ID: 1\r\n\r\n").is_none());
}

#[test]
fn bye_under_a_given_branch_is_exact() {
    let mut d = dialog();
    d.transport = "tcp".to_string();
    assert_eq!(
        build_bye_with(&d, None, "z9hG4bKb"),
        "BYE sip:alice@203.0.113.5:5060 SIP/2.0\r\n\
         Via: SIP/2.0/TCP 198.51.100.1:5060;branch=z9hG4bKb;rport\r\n\
         Max-Forwards: 70\r\n\
         From: <sip:sbc@sip.example.com>;tag=sbc-tag-1\r\n\
         To: \"Alice\" <sip:alice@peer.example.com>;tag=peer-tag-9\r\n\
         Call-ID: abc123@host\r\n\
         CSeq: 42 BYE\r\n\
         Content-Length: 0\r\n\r\n"
    );
}

#[test]
fn uppercase_of_a_transport_reaches_the_via() {
    let mut d = dialog();
    d.transport = "ud\u{e9}".to_string();
    assert!(build_bye_with(&d, None, "z9hG4bKb").contains("Via: SIP/2.0/UD\u{c9} "));
}

#[test]
fn a_refresh_presents_the_dialog() {
    let d = dialog();
    let raw = build_reinvite(&d, "v=0\r\n", "<sip:sbc@198.51.100.1>", Some((1800, "uac")), Some(90));
    let id = parse_invite_identity(&raw).unwrap();
    assert_eq!(id.request_uri, d.request_uri);
    assert_eq!((id.from, id.to, id.call_id), (d.from_raw, d.to_raw, d.call_id));
    assert_eq!(id.cseq, d.cseq);
    assert!(id.routes.is_empty());
    let branch = top_via_branch(&raw).unwrap();
    assert_eq!(
        id.top_via,
        format!("SIP/2.0/{} {}:{};branch={};rport", d.transport.to_uppercase(), d.local_ip, d.local_port, branch)
    );
}

#[test]
fn a_renewal_presents_the_same_call() {
    let with_body = "INVITE sip:b@h SIP/2.0\r\nv: SIP/2.0/UDP h;BRANCH=z9hG4bKold\r\nVia: SIP/2.0/UDP g;branch=z9hG4bKdeep\r\nf: <sip:a@h>;tag=1\r\nt: <sip:b@h>\r\ni: c1\r\nRoute: <sip:p1>\r\nRoute: <sip:p2>\r\ncseq:  7   INVITE\r\n\r\nbody";
    let headless = with_body.strip_suffix("\r\n\r\nbody").unwrap();
    let ended = format!("{}\r\n", headless);
    let branchless = with_body.replace(";BRANCH=z9hG4bKold", "");
    for raw in [with_body, headless, ended.as_str(), branchless.as_str()] {
        let id = parse_invite_identity(raw).unwrap();
        let new = renew_invite_transaction_with(raw, "z9hG4bKnew");
        let id2 = parse_invite_identity(&new).unwrap();
        assert_eq!(id2.cseq, id.cseq + 1);
        assert_eq!(
            (id2.request_uri, id2.from, id2.to, id2.call_id, id2.routes),
            (id.request_uri, id.from, id.to, id.call_id, id.routes)
        );
        assert_eq!(top_via_branch(&new).as_deref(), Some("z9hG4bKnew"));
        assert!(new.contains("z9hG4bKdeep"), "only the first Via changes");
    }
}
