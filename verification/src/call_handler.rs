//! Requests within a call: what ACK, BYE, CANCEL, re-INVITE, INFO and REFER
//! cause, and what a closed connection ends.

use crate::cdr::{CallOutcome, CallState, hangup_both_legs_with};
use crate::cdr;
use crate::client_tx::{Transport, utf8_text};
use crate::headers::{MessageWriter, cseq_number_of};
use crate::headers;
use crate::identity::text_or_empty;
use crate::identity;
use crate::message::{SipRequest, call_id_of, cseq_of, from_of, to_of, value_of};
use crate::message;
use crate::raw_message::{RawSipMessage, RawView, body_text};
use crate::raw_message;
use crate::responses::{build_plain_response, build_plain_response_for_request_with, new_tag, response_to_of, vias_of, write_pairs, write_status_line};
use crate::responses;
use crate::sip_builder::{DialogInfo, build_bye_with, build_cancel, hex_char, new_branch, write_request_line};
use crate::sip_builder;
use crate::text::{chars_of, decimal_of, has_prefix, has_suffix, parse_u32, position_of_str, same_str, split_on, string_of, trimmed};
use crate::text;
use vstd::prelude::*;
use vstd::slice::slice_subrange;

verus! {

/// A leg of a call.
#[derive(Debug, Clone, Copy, PartialEq, Eq, Structural)]
pub enum Leg {
    Caller,
    Callee,
}

/// The leg that a message from this one is relayed to.
pub open spec fn opposite(l: Leg) -> Leg {
    match l {
        Leg::Caller => Leg::Callee,
        Leg::Callee => Leg::Caller,
    }
}

pub fn other_leg(l: Leg) -> (r: Leg)
    ensures
        r == opposite(l),
{
    match l {
        Leg::Caller => Leg::Callee,
        Leg::Callee => Leg::Caller,
    }
}

/// A call that a request belongs to, and the leg that sent it.
#[derive(Debug)]
pub struct CallMatch {
    pub uuid: String,
    pub from: Leg,
}

pub open spec fn opt_match(m: Option<CallMatch>) -> Option<(Seq<char>, Leg)> {
    match m {
        Some(c) => Some((c.uuid@, c.from)),
        None => None,
    }
}

// ── ACK ─────────────────────────────────────────────────────────────────

/// CSeq of the ACK that is relayed to the callee.
pub open spec fn callee_ack_cseq(caller_cseq: Seq<char>, invite_cseq: Option<u32>) -> Seq<char> {
    match invite_cseq {
        Some(n) => text::decimal(n as nat) + " ACK"@,
        None => caller_cseq,
    }
}

/// CSeq value for the ACK relayed to the callee: the number of the callee
/// leg's INVITE where it is known, else the caller's own value.
pub fn ack_cseq_for_callee(caller_cseq_header: &str, outbound_invite_cseq: Option<u32>) -> (r:
    String)
    ensures
        r@ == callee_ack_cseq(caller_cseq_header@, outbound_invite_cseq),
{
    match outbound_invite_cseq {
        Some(n) => {
            let mut s = decimal_of(n as u64);
            s.push_str(" ACK");
            s
        },
        None => caller_cseq_header.to_string(),
    }
}

/// What the relayed ACK needs of the call.
pub struct AckFacts {
    pub callee_ip: String,
    pub callee_port: u16,
    pub callee_transport: Transport,
    pub outbound_invite_cseq: Option<u32>,
    /// Contact of the callee's answer.
    pub callee_contact_uri: Option<String>,
    /// Call-ID of the call as the callee knows it.
    pub inbound_call_id: Option<String>,
    pub public_ip: Option<String>,
}

/// The URI that the ACK goes to.
pub open spec fn ack_uri(f: AckFacts) -> Seq<char> {
    match f.callee_contact_uri {
        Some(u) => u@,
        None => "sip:"@ + f.callee_ip@ + ":"@ + text::decimal(f.callee_port as nat),
    }
}

/// Via of the relayed ACK; `bytes` are the four bytes of its branch.
pub open spec fn ack_via(f: AckFacts, bytes: Seq<u8>) -> Seq<char> {
    "SIP/2.0/"@ + (if f.callee_transport == Transport::Tcp {
        "TCP"@
    } else {
        "UDP"@
    }) + " "@ + (match f.public_ip {
        Some(ip) => ip@,
        None => "203.0.113.1"@,
    }) + ":"@ + (if f.callee_transport == Transport::Udp {
        "5060"@
    } else {
        "5061"@
    }) + ";branch=z9hG4bK"@ + sip_builder::hex(bytes) + ";rport"@
}

/// The headers of the relayed ACK.
pub open spec fn ack_relay_pairs(hs: Seq<Seq<char>>, f: AckFacts, bytes: Seq<u8>) -> Seq<
    (Seq<char>, Seq<char>),
> {
    seq![
        ("Via"@, ack_via(f, bytes)),
        ("Max-Forwards"@, "70"@),
        ("From"@, identity::or_empty(message::from_value(hs))),
        ("To"@, identity::or_empty(message::to_value(hs))),
        (
            "Call-ID"@,
            match f.inbound_call_id {
                Some(c) => c@,
                None => identity::or_empty(message::call_id_value(hs)),
            },
        ),
        (
            "CSeq"@,
            callee_ack_cseq(
                match message::cseq_value(hs) {
                    Some(c) => c,
                    None => "1 ACK"@,
                },
                f.outbound_invite_cseq,
            ),
        ),
        ("Content-Length"@, "0"@),
    ]
}

/// The ACK that is relayed to the callee.
pub open spec fn ack_relay_text(hs: Seq<Seq<char>>, f: AckFacts, bytes: Seq<u8>) -> Seq<char> {
    headers::message_text(
        sip_builder::request_line("ACK"@, ack_uri(f)),
        ack_relay_pairs(hs, f, bytes),
        Seq::empty(),
    )
}

/// Calls `rand::random` for a 32-bit number: its four bytes, of which nothing
/// is known.
#[verifier::external_body]
fn random_word() -> (r: [u8; 4]) {
    rand::random::<u32>().to_be_bytes()
}

/// Two hexadecimal digits for each byte.
pub fn hex_of(bytes: &[u8]) -> (r: String)
    ensures
        r@ == sip_builder::hex(bytes@),
{
    let mut out = String::new();
    let mut i: usize = 0;
    assert(out@ =~= sip_builder::hex(bytes@.take(0)));
    while i < bytes.len()
        invariant
            i <= bytes@.len(),
            out@ == sip_builder::hex(bytes@.take(i as int)),
        decreases bytes@.len() - i,
    {
        let b: u8 = bytes[i];
        assert(bytes@.take(i + 1).drop_last() =~= bytes@.take(i as int));
        out.push(hex_char(b / 16));
        out.push(hex_char(b % 16));
        i = i + 1;
    }
    assert(bytes@.take(bytes@.len() as int) =~= bytes@);
    out
}

/// The ACK for the callee under a branch of given bytes.
pub fn relay_ack_with(request: &SipRequest, f: &AckFacts, bytes: &[u8; 4]) -> (r: String)
    ensures
        r@ == ack_relay_text(request@.headers, *f, bytes@),
{
    let hs = &request.headers;
    let uri = match &f.callee_contact_uri {
        Some(u) => u.clone(),
        None => {
            let mut s = "sip:".to_string();
            s.push_str(f.callee_ip.as_str());
            s.push_str(":");
            s.push_str(decimal_of(f.callee_port as u64).as_str());
            s
        },
    };
    let mut via_text = "SIP/2.0/".to_string();
    match f.callee_transport {
        Transport::Tcp => {
            via_text.push_str("TCP");
        },
        _ => {
            via_text.push_str("UDP");
        },
    }
    via_text.push_str(" ");
    match &f.public_ip {
        Some(ip) => {
            via_text.push_str(ip.as_str());
        },
        None => {
            via_text.push_str("203.0.113.1");
        },
    }
    via_text.push_str(":");
    match f.callee_transport {
        Transport::Udp => {
            via_text.push_str("5060");
        },
        _ => {
            via_text.push_str("5061");
        },
    }
    via_text.push_str(";branch=z9hG4bK");
    via_text.push_str(hex_of(bytes).as_str());
    via_text.push_str(";rport");
    assert(via_text@ =~= ack_via(*f, bytes@));
    let from = text_or_empty(from_of(hs));
    let to = text_or_empty(to_of(hs));
    let caller_cseq = match value_of(hs, "cseq:", "cseq:") {
        Some(c) => c,
        None => "1 ACK".to_string(),
    };
    let cseq = ack_cseq_for_callee(caller_cseq.as_str(), f.outbound_invite_cseq);
    let call_id = match &f.inbound_call_id {
        Some(c) => c.clone(),
        None => text_or_empty(call_id_of(&request.headers)),
    };
    let mut w = MessageWriter::new(write_request_line("ACK", uri.as_str()));
    w.header("Via", via_text.as_str());
    w.header("Max-Forwards", "70");
    w.header("From", from.as_str());
    w.header("To", to.as_str());
    w.header("Call-ID", call_id.as_str());
    w.header("CSeq", cseq.as_str());
    w.header("Content-Length", "0");
    proof {
        reveal_strlit("");
        assert(""@ =~= Seq::empty());
        assert(w.pairs() =~= ack_relay_pairs(request@.headers, *f, bytes@));
    }
    w.finish("")
}

/// The ACK for the callee, so that its INVITE transaction completes, under a
/// fresh branch.
pub fn handle_ack(request: &SipRequest, f: &AckFacts) -> (r: String)
    ensures
        exists|bytes: Seq<u8>|
            bytes.len() == 4 && r@ == #[trigger] ack_relay_text(request@.headers, *f, bytes),
{
    let bytes = random_word();
    relay_ack_with(request, f, &bytes)
}

/// The call of an ACK: by its Call-ID, else by a Call-ID that ends in it,
/// else by the Call-ID of the outbound leg.
pub fn ack_call(exact: Option<String>, suffix: Option<String>, outbound: Option<String>) -> (r:
    Option<String>)
    ensures
        text::opt_string(r) == cdr::or_else_text(
            text::opt_string(exact),
            cdr::or_else_text(text::opt_string(suffix), text::opt_string(outbound)),
        ),
{
    match exact {
        Some(u) => Some(u),
        None => match suffix {
            Some(u) => Some(u),
            None => outbound,
        },
    }
}

// ── BYE ─────────────────────────────────────────────────────────────────

/// The call of a BYE: found by Call-ID and source; where none is, a trunk
/// (or a host beside one) may also be matched by Call-ID alone.
pub open spec fn bye_match(
    exact: Option<(Seq<char>, Leg)>,
    trunk_related: bool,
    loose: Option<(Seq<char>, Leg)>,
) -> Option<(Seq<char>, Leg)> {
    match exact {
        Some(m) => Some(m),
        None => if trunk_related {
            loose
        } else {
            None
        },
    }
}

/// The Reason that the peer gives for the end of a call.
pub open spec fn peer_reason(hs: Seq<Seq<char>>) -> Option<Seq<char>> {
    message::first_value(hs, "reason:"@, "reason:"@)
}

/// What a BYE causes.
#[derive(Debug)]
pub enum ByePlan {
    /// End the call and relay the BYE to the other leg. The Reason of the
    /// peer goes on the relayed BYE and into the record.
    End { uuid: String, relay_to: Leg, outcome: CallOutcome, reason: Option<String> },
    /// A late BYE for a call that has ended already.
    Late,
    /// No such call.
    Stray,
}

/// A BYE and its answer: the 200 that its sender gets whether a call is found
/// or not, and what else it causes.
#[derive(Debug)]
pub struct Bye {
    pub answer: String,
    pub plan: ByePlan,
}

/// What a BYE causes, given the call that it finds.
pub open spec fn bye_causes(
    p: ByePlan,
    hs: Seq<Seq<char>>,
    found: Option<(Seq<char>, Leg)>,
    recently_terminated: bool,
) -> bool {
    match found {
        Some((uuid, from)) => {
            p matches ByePlan::End { uuid: u, relay_to, outcome, reason } && u@ == uuid && relay_to
                == opposite(from) && outcome == (CallOutcome::NormalClearing {
                by_caller: from == Leg::Caller,
            }) && text::opt_string(reason) == peer_reason(hs)
        },
        None => if recently_terminated {
            p is Late
        } else {
            p is Stray
        },
    }
}

/// What a BYE causes, its answer under a given tag.
pub fn handle_bye_with(
    request: &SipRequest,
    exact: Option<CallMatch>,
    trunk_related: bool,
    loose: Option<CallMatch>,
    recently_terminated: bool,
    tag: &str,
) -> (r: Bye)
    ensures
        r.answer@ == responses::response_or_bare(request@.headers, 200, "OK"@, tag@),
        bye_causes(
            r.plan,
            request@.headers,
            bye_match(opt_match(exact), trunk_related, opt_match(loose)),
            recently_terminated,
        ),
{
    let answer = answer_with(request, 200, "OK", tag);
    let found = match exact {
        Some(m) => Some(m),
        None => if trunk_related {
            loose
        } else {
            None
        },
    };
    let plan = match found {
        Some(m) => {
            let by_caller = match m.from {
                Leg::Caller => true,
                Leg::Callee => false,
            };
            ByePlan::End {
                uuid: m.uuid,
                relay_to: other_leg(m.from),
                outcome: CallOutcome::NormalClearing { by_caller },
                reason: value_of(&request.headers, "reason:", "reason:"),
            }
        },
        None => if recently_terminated {
            ByePlan::Late
        } else {
            ByePlan::Stray
        },
    };
    Bye { answer, plan }
}

/// What a BYE causes: in any case a 200 for its sender, with the Via and the
/// CSeq of the BYE.
pub fn handle_bye(
    request: &SipRequest,
    exact: Option<CallMatch>,
    trunk_related: bool,
    loose: Option<CallMatch>,
    recently_terminated: bool,
) -> (r: Bye)
    ensures
        responses::answers_request(r.answer@, request@.headers, 200, "OK"@),
        bye_causes(
            r.plan,
            request@.headers,
            bye_match(opt_match(exact), trunk_related, opt_match(loose)),
            recently_terminated,
        ),
{
    let tag = new_tag();
    handle_bye_with(request, exact, trunk_related, loose, recently_terminated, tag.as_str())
}

/// Every occurrence of a text replaced, from left to right.
pub open spec fn replace_all(s: Seq<char>, from: Seq<char>, to: Seq<char>) -> Seq<char>
    decreases s.len(),
{
    let i = text::find_str(s, from, 0);
    if from.len() == 0 || i < 0 || i + from.len() > s.len() {
        s
    } else {
        s.take(i) + to + replace_all(s.skip((i + from.len()) as int), from, to)
    }
}

/// Every occurrence of a text that is not empty replaced.
pub fn replaced(s: &[char], from: &[char], to: &str) -> (r: String)
    requires
        from@.len() > 0,
    ensures
        r@ == replace_all(s@, from@, to@),
{
    let mut out = String::new();
    let mut at: usize = 0;
    let ghost goal = replace_all(s@, from@, to@);
    assert(s@.skip(0) =~= s@);
    assert(out@ + replace_all(s@.skip(0), from@, to@) =~= goal);
    loop
        invariant
            at <= s@.len(),
            from@.len() > 0,
            out@ + replace_all(s@.skip(at as int), from@, to@) == goal,
            goal == replace_all(s@, from@, to@),
        decreases s@.len() - at,
    {
        let rest = slice_subrange(s, at, s.len());
        assert(rest@ =~= s@.skip(at as int));
        let i: usize = position_of_str(rest, from, 0);
        if i == rest.len() {
            let ghost before = out@;
            out.push_str(string_of(rest).as_str());
            assert(replace_all(rest@, from@, to@) == rest@) by {
                assert(i + from@.len() > rest@.len());
            }
            assert(out@ =~= goal);
            return out;
        }
        let ghost before = out@;
        out.push_str(string_of(slice_subrange(rest, 0, i)).as_str());
        out.push_str(to);
        assert(rest@.subrange(0, i as int) =~= rest@.take(i as int));
        assert(rest@.skip((i + from@.len()) as int) =~= s@.skip((at + i + from@.len()) as int));
        assert(out@ + replace_all(rest@.skip((i + from@.len()) as int), from@, to@) =~= before
            + replace_all(rest@, from@, to@));
        at = at + i + from.len();
    }
}

/// The Call-ID under which the other leg knows a call whose request carried
/// a truncated one.
pub open spec fn full_call_id(call_id: Seq<char>, stored: Option<Seq<char>>) -> Option<Seq<char>> {
    match stored {
        Some(s) => if s != call_id && text::ends_with(s, call_id) {
            Some(s)
        } else {
            None
        },
        None => None,
    }
}

/// A relayed request with the Call-ID that the other leg knows.
pub open spec fn relayed_request(raw: Seq<char>, call_id: Seq<char>, stored: Option<Seq<char>>) -> Seq<
    char,
> {
    match full_call_id(call_id, stored) {
        Some(full) => replace_all(raw, "Call-ID: "@ + call_id, "Call-ID: "@ + full),
        None => raw,
    }
}

/// The BYE for the other leg: the one built for its dialog, else the one
/// that came in with the Call-ID that this leg knows. The second part says
/// that it still has to be hidden behind this side's identity.
pub fn relayed_bye(fresh: Option<String>, raw: &str, call_id: &str, stored: Option<&str>) -> (r: (
    String,
    bool,
))
    ensures
        match fresh {
            Some(f) => r.0@ == f@ && !r.1,
            None => r.0@ == relayed_request(raw@, call_id@, text::opt_str(stored)) && r.1,
        },
{
    if let Some(f) = fresh {
        return (f, false);
    }
    if let Some(s) = stored {
        let sc = chars_of(s);
        let cc = chars_of(call_id);
        if !same_str(s, call_id) && has_suffix(sc.as_slice(), cc.as_slice()) {
            let mut from = "Call-ID: ".to_string();
            from.push_str(call_id);
            let mut to = "Call-ID: ".to_string();
            to.push_str(s);
            let fc = chars_of(from.as_str());
            proof {
                reveal_strlit("Call-ID: ");
            }
            let rc = chars_of(raw);
            return (replaced(rc.as_slice(), fc.as_slice(), to.as_str()), true);
        }
    }
    (raw.to_string(), true)
}

/// The BYE for the other leg: one of its own dialog with the peer's Reason,
/// where the dialog is known; else the BYE as it came, under the Call-ID that
/// the leg knows.
pub open spec fn leg_bye(
    dialog: Option<DialogInfo>,
    reason: Option<Seq<char>>,
    raw: Seq<char>,
    call_id: Seq<char>,
    stored: Option<Seq<char>>,
    branch: Seq<char>,
) -> (Seq<char>, bool) {
    match dialog {
        Some(d) => (
            sip_builder::request_text("BYE"@, d, d.cseq as nat, branch, sip_builder::reason_extras(reason), Seq::empty()),
            false,
        ),
        None => (relayed_request(raw, call_id, stored), true),
    }
}

/// The BYE for the other leg, its own under the given branch, and whether its
/// topology is still to be hidden.
pub fn bye_for_leg_with(
    dialog: Option<DialogInfo>,
    reason: Option<&str>,
    raw: &str,
    call_id: &str,
    stored: Option<&str>,
    branch: &str,
) -> (r: (String, bool))
    ensures
        (r.0@, r.1) == leg_bye(dialog, text::opt_str(reason), raw@, call_id@, text::opt_str(stored), branch@),
{
    let fresh = match &dialog {
        Some(d) => Some(build_bye_with(d, reason, branch)),
        None => None,
    };
    relayed_bye(fresh, raw, call_id, stored)
}

/// The BYE for the other leg, and whether its topology is still to be hidden.
pub fn bye_for_leg(
    dialog: Option<DialogInfo>,
    reason: Option<&str>,
    raw: &str,
    call_id: &str,
    stored: Option<&str>,
) -> (r: (String, bool))
    ensures
        exists|b: Seq<char>|
            sip_builder::is_fresh_branch(b) && (r.0@, r.1) == #[trigger] leg_bye(
                dialog,
                text::opt_str(reason),
                raw@,
                call_id@,
                text::opt_str(stored),
                b,
            ),
{
    let branch = new_branch();
    bye_for_leg_with(dialog, reason, raw, call_id, stored, branch.as_str())
}

// ── CANCEL ──────────────────────────────────────────────────────────────

/// What a CANCEL finds of the call.
pub struct CancelFacts {
    /// The call with the Call-ID of the CANCEL.
    pub exact: Option<String>,
    /// The call whose Call-ID ends in it.
    pub suffix: Option<String>,
    /// Whether the source is a trunk or a host beside one.
    pub trunk_related: bool,
    pub outbound_established: bool,
    pub state: CallState,
    /// The INVITE that is live towards the callee.
    pub attempt: Option<String>,
    /// Whether the callee can be reached without such an INVITE.
    pub callee_known: bool,
    pub caller_invite_cseq: Option<u32>,
}

/// The call of a CANCEL.
pub open spec fn cancel_call(f: CancelFacts) -> Option<Seq<char>> {
    match f.exact {
        Some(u) => Some(u@),
        None => if f.trunk_related {
            text::opt_string(f.suffix)
        } else {
            None
        },
    }
}

/// The INVITE has its final answer.
pub open spec fn invite_answered(f: CancelFacts) -> bool {
    f.outbound_established || f.state == CallState::Connected || f.state == CallState::Terminating
        || f.state == CallState::Terminated
}

/// CSeq number of the caller's INVITE.
pub open spec fn cancelled_cseq(hs: Seq<Seq<char>>, known: Option<u32>) -> Option<nat> {
    match known {
        Some(n) => Some(n as nat),
        None => match message::cseq_value(hs) {
            Some(v) => headers::cseq_number(v),
            None => None,
        },
    }
}

/// The 487 for the INVITE that a CANCEL ends: the headers of the CANCEL,
/// which are those of the INVITE, with the CSeq of the INVITE.
pub open spec fn terminated_text(hs: Seq<Seq<char>>, cseq: Option<nat>, tag: Seq<char>) -> Option<
    Seq<char>,
> {
    match responses::plain_response(hs, 487, tag) {
        Some(raw) => match cseq {
            Some(n) => if headers::start_line(raw).len() > 0 {
                let m = raw_message::raw_parts(raw);
                Some(
                    raw_message::raw_text(
                        RawView {
                            headers: raw_message::with_header(m.headers, "CSeq"@, text::decimal(n) + " INVITE"@),
                            ..m
                        },
                    ),
                )
            } else {
                Some(raw)
            },
            None => Some(raw),
        },
        None => None,
    }
}

/// The CANCEL for the callee.
pub open spec fn callee_cancel(attempt: Option<Seq<char>>) -> Option<Seq<char>> {
    match attempt {
        Some(raw) => match sip_builder::invite_identity(raw) {
            Some(id) => Some(sip_builder::cancel_text(id)),
            None => None,
        },
        None => None,
    }
}

/// What a CANCEL causes.
#[derive(Debug)]
pub struct CancelPlan {
    /// Answer to the CANCEL itself.
    pub answer: String,
    /// Its status.
    pub status: u16,
    /// The call to end, where its INVITE is still pending.
    pub end: Option<String>,
    /// CANCEL of the live INVITE.
    pub toward_callee: Option<String>,
    /// Whether the CANCEL is passed on as it came, for want of such an
    /// INVITE.
    pub relay: bool,
    /// Final of the caller's INVITE.
    pub terminated: Option<String>,
    /// The Reason of the caller, for the record.
    pub reason: Option<String>,
}

/// What a CANCEL of these headers causes, with the tags of its two answers.
pub open spec fn cancel_outcome(p: CancelPlan, hs: Seq<Seq<char>>, f: CancelFacts, t1: Seq<char>, t2: Seq<char>) -> bool {
    match cancel_call(f) {
        None => {
            &&& p.status == 481
            &&& p.answer@ == responses::response_or_bare(hs, 481, "Call/Transaction Does Not Exist"@, t1)
            &&& p.end is None && p.toward_callee is None && !p.relay && p.terminated is None
        },
        Some(uuid) => {
            &&& p.status == 200
            &&& p.answer@ == responses::response_or_bare(hs, 200, "OK"@, t1)
            &&& if invite_answered(f) {
                p.end is None && p.toward_callee is None && !p.relay && p.terminated is None
            } else {
                &&& text::opt_string(p.end) == Some(uuid)
                &&& text::opt_string(p.toward_callee) == callee_cancel(text::opt_string(f.attempt))
                &&& p.relay == (f.attempt is None && f.callee_known)
                &&& text::opt_string(p.reason) == peer_reason(hs)
                &&& text::opt_string(p.terminated) == terminated_text(
                    hs,
                    cancelled_cseq(hs, f.caller_invite_cseq),
                    t2,
                )
            }
        },
    }
}

fn answer_with(request: &SipRequest, status: u16, reason: &str, tag: &str) -> (r: String)
    ensures
        r@ == responses::response_or_bare(request@.headers, status, reason@, tag@),
{
    match build_plain_response_for_request_with(request, status, tag) {
        Some(t) => t,
        None => build_plain_response(status, reason),
    }
}

/// The final of an INVITE that a CANCEL ends.
pub fn terminated_response_with(request: &SipRequest, cseq: Option<u32>, tag: &str) -> (r: Option<
    String,
>)
    ensures
        text::opt_string(r) == terminated_text(
            request@.headers,
            cancelled_cseq(request@.headers, cseq),
            tag@,
        ),
{
    let n: Option<u32> = match cseq {
        Some(n) => Some(n),
        None => match value_of(&request.headers, "cseq:", "cseq:") {
            Some(v) => {
                let c = chars_of(v.as_str());
                cseq_number_of(c.as_slice())
            },
            None => None,
        },
    };
    let raw = match build_plain_response_for_request_with(request, 487, tag) {
        Some(t) => t,
        None => {
            return None;
        },
    };
    match n {
        Some(k) => match RawSipMessage::parse(raw.as_str()) {
            Some(m) => {
                let mut msg = m;
                let mut value = decimal_of(k as u64);
                value.push_str(" INVITE");
                msg.set_header("CSeq", value.as_str());
                Some(msg.write())
            },
            None => Some(raw),
        },
        None => Some(raw),
    }
}

/// What a CANCEL causes (RFC 3261 section 9.2): 481 where there is no
/// INVITE to cancel; 200 alone where the INVITE is answered; else 200, a
/// CANCEL of the live INVITE and a 487 for the caller's INVITE.
pub fn handle_cancel_with(
    request: &SipRequest,
    facts: CancelFacts,
    answer_tag: &str,
    final_tag: &str,
) -> (r: CancelPlan)
    ensures
        cancel_outcome(r, request@.headers, facts, answer_tag@, final_tag@),
{
    let found = match facts.exact {
        Some(u) => Some(u),
        None => if facts.trunk_related {
            facts.suffix
        } else {
            None
        },
    };
    let uuid = match found {
        Some(u) => u,
        None => {
            return CancelPlan {
                answer: answer_with(request, 481, "Call/Transaction Does Not Exist", answer_tag),
                status: 481,
                end: None,
                toward_callee: None,
                relay: false,
                terminated: None,
                reason: None,
            };
        },
    };
    let answer = answer_with(request, 200, "OK", answer_tag);
    let past = match facts.state {
        CallState::Connected => true,
        CallState::Terminating => true,
        CallState::Terminated => true,
        _ => false,
    };
    if facts.outbound_established || past {
        return CancelPlan {
            answer,
            status: 200,
            end: None,
            toward_callee: None,
            relay: false,
            terminated: None,
            reason: None,
        };
    }
    let relay = facts.attempt.is_none() && facts.callee_known;
    let toward_callee = match &facts.attempt {
        Some(raw) => build_cancel(raw.as_str()),
        None => None,
    };
    CancelPlan {
        answer,
        status: 200,
        end: Some(uuid),
        toward_callee,
        relay,
        terminated: terminated_response_with(request, facts.caller_invite_cseq, final_tag),
        reason: value_of(&request.headers, "reason:", "reason:"),
    }
}

/// What a CANCEL causes, under fresh tags.
pub fn handle_cancel(request: &SipRequest, facts: CancelFacts) -> (r: CancelPlan)
    ensures
        exists|t1: Seq<char>, t2: Seq<char>|
            responses::is_tag(t1) && responses::is_tag(t2) && #[trigger] cancel_outcome(
                r,
                request@.headers,
                facts,
                t1,
                t2,
            ),
{
    let t1 = new_tag();
    let t2 = new_tag();
    handle_cancel_with(request, facts, t1.as_str(), t2.as_str())
}

// ── A closed connection ─────────────────────────────────────────────────

/// A binding, as far as its connection matters.
pub struct Binding {
    pub aor: String,
    pub contact: String,
    pub received_ip: String,
    pub received_port: u16,
    pub transport: String,
}

/// The binding lives on the WebSocket connection from this peer.
pub open spec fn bound_to(b: Binding, ip: Seq<char>, port: u16) -> bool {
    b.received_ip@ == ip && b.received_port == port && (b.transport@ == "WS"@ || b.transport@
        == "WSS"@)
}

pub open spec fn bindings_on(s: Seq<Binding>, ip: Seq<char>, port: u16) -> Seq<
    (Seq<char>, Seq<char>),
>
    decreases s.len(),
{
    if s.len() == 0 {
        Seq::empty()
    } else if bound_to(s.last(), ip, port) {
        bindings_on(s.drop_last(), ip, port).push((s.last().aor@, s.last().contact@))
    } else {
        bindings_on(s.drop_last(), ip, port)
    }
}

/// The bindings that end with a connection: address of record and contact.
pub fn lost_bindings(bindings: &Vec<Binding>, ip: &str, port: u16) -> (r: Vec<(String, String)>)
    ensures
        responses::text_pairs(r@) == bindings_on(bindings@, ip@, port),
{
    let mut out: Vec<(String, String)> = Vec::new();
    let mut i: usize = 0;
    assert(responses::text_pairs(out@) =~= bindings_on(bindings@.take(0), ip@, port));
    while i < bindings.len()
        invariant
            i <= bindings@.len(),
            responses::text_pairs(out@) == bindings_on(bindings@.take(i as int), ip@, port),
        decreases bindings@.len() - i,
    {
        assert(bindings@.take(i + 1).drop_last() =~= bindings@.take(i as int));
        let b = &bindings[i];
        if same_str(b.received_ip.as_str(), ip) && b.received_port == port && (same_str(
            b.transport.as_str(),
            "WS",
        ) || same_str(b.transport.as_str(), "WSS")) {
            let ghost before = out@;
            let a = b.aor.clone();
            let c = b.contact.clone();
            out.push((a, c));
            assert(responses::text_pairs(out@) =~= responses::text_pairs(before).push((a@, c@)));
        }
        i = i + 1;
    }
    assert(bindings@.take(bindings@.len() as int) =~= bindings@);
    out
}

/// A connection that carries WebSocket frames.
pub open spec fn is_websocket(t: Transport) -> bool {
    t == Transport::Ws || t == Transport::Wss
}

/// How a closed connection ends a call: `caller_died` where it was the
/// caller's. None where the call does not use it.
pub open spec fn closed_leg(
    caller_here: bool,
    caller_transport: Transport,
    callee_here: bool,
    callee_transport: Transport,
) -> Option<Leg> {
    if (caller_here && is_websocket(caller_transport)) || (callee_here && is_websocket(
        callee_transport,
    )) {
        Some(
            if caller_here {
                Leg::Caller
            } else {
                Leg::Callee
            },
        )
    } else {
        None
    }
}

/// What a closed connection means for a call whose legs are at the peer or
/// not: the leg that is gone.
pub fn lost_leg(
    caller_here: bool,
    caller_transport: Transport,
    callee_here: bool,
    callee_transport: Transport,
) -> (r: Option<Leg>)
    ensures
        r == closed_leg(caller_here, caller_transport, callee_here, callee_transport),
{
    let caller_ws = match caller_transport {
        Transport::Ws => true,
        Transport::Wss => true,
        _ => false,
    };
    let callee_ws = match callee_transport {
        Transport::Ws => true,
        Transport::Wss => true,
        _ => false,
    };
    if (caller_here && caller_ws) || (callee_here && callee_ws) {
        if caller_here {
            Some(Leg::Caller)
        } else {
            Some(Leg::Callee)
        }
    } else {
        None
    }
}

/// What the surviving leg is sent when a connection closes: without the
/// caller a BYE or a CANCEL to the callee; without the callee a BYE to the
/// caller, or a final for its INVITE.
pub open spec fn survivor_message(
    gone: Leg,
    caller: Option<(bool, Seq<char>)>,
    callee: Option<(bool, Seq<char>)>,
) -> Option<Seq<char>> {
    match (match gone {
        Leg::Caller => callee,
        Leg::Callee => caller,
    }) {
        Some((_, m)) => Some(m),
        None => None,
    }
}

/// The message for the surviving leg, and the outcome of the call.
pub fn handle_transport_event_with(
    gone: Leg,
    caller_dialog: Option<DialogInfo>,
    caller_final: Option<String>,
    callee_bye: Option<String>,
    last_invite: Option<String>,
    branch: &str,
) -> (r: (Option<String>, CallOutcome))
    ensures
        r.1 == (CallOutcome::WsClosed { callee_died: gone == Leg::Callee }),
        text::opt_string(r.0) == survivor_message(
            gone,
            cdr::caller_hangup(
                caller_dialog,
                text::opt_string(caller_final),
                cdr::reason_text(CallOutcome::WsClosed { callee_died: gone == Leg::Callee }),
                branch@,
            ),
            cdr::callee_hangup(text::opt_string(callee_bye), text::opt_string(last_invite)),
        ),
{
    let callee_died = match gone {
        Leg::Callee => true,
        Leg::Caller => false,
    };
    let outcome = CallOutcome::WsClosed { callee_died };
    let h = hangup_both_legs_with(
        &outcome,
        caller_dialog,
        caller_final,
        callee_bye,
        last_invite,
        branch,
    );
    let m = match gone {
        Leg::Caller => h.toward_callee,
        Leg::Callee => h.toward_caller,
    };
    let text = match m {
        Some((_, s)) => Some(s),
        None => None,
    };
    (text, outcome)
}

/// The message for the surviving leg, its BYE under a fresh branch.
pub fn handle_transport_event(
    gone: Leg,
    caller_dialog: Option<DialogInfo>,
    caller_final: Option<String>,
    callee_bye: Option<String>,
    last_invite: Option<String>,
) -> (r: (Option<String>, CallOutcome))
    ensures
        r.1 == (CallOutcome::WsClosed { callee_died: gone == Leg::Callee }),
        exists|b: Seq<char>| #[trigger]
            sip_builder::is_fresh_branch(b) && text::opt_string(r.0) == survivor_message(
                gone,
                cdr::caller_hangup(
                    caller_dialog,
                    text::opt_string(caller_final),
                    cdr::reason_text(CallOutcome::WsClosed { callee_died: gone == Leg::Callee }),
                    b,
                ),
                cdr::callee_hangup(text::opt_string(callee_bye), text::opt_string(last_invite)),
            ),
{
    let branch = new_branch();
    assert(sip_builder::is_fresh_branch(branch@));
    handle_transport_event_with(
        gone,
        caller_dialog,
        caller_final,
        callee_bye,
        last_invite,
        branch.as_str(),
    )
}

// ── Re-INVITE ───────────────────────────────────────────────────────────

pub open spec fn not_empty(s: Option<Seq<char>>) -> Option<Seq<char>> {
    match s {
        Some(x) => if x.len() > 0 {
            Some(x)
        } else {
            None
        },
        None => None,
    }
}

/// The text behind the first empty line.
pub open spec fn sent_body(raw: Option<Seq<char>>) -> Option<Seq<char>> {
    match raw {
        Some(r) => if headers::head_end(r) < r.len() {
            not_empty(Some(headers::body_of(r)))
        } else {
            None
        },
        None => None,
    }
}

/// The text of a body, where it is one.
pub open spec fn body_as_text(body: Seq<u8>) -> Option<Seq<char>> {
    if vstd::utf8::valid_utf8(body) {
        not_empty(Some(vstd::utf8::decode_utf8(body)))
    } else {
        None
    }
}

/// The description that answers a re-INVITE: the one sent to that peer last,
/// else the peer's own.
pub open spec fn reinvite_sdp(
    from: Leg,
    last_to_caller: Option<Seq<char>>,
    outbound_invite: Option<Seq<char>>,
    body: Seq<u8>,
) -> Option<Seq<char>> {
    cdr::or_else_text(
        match from {
            Leg::Caller => last_to_caller,
            Leg::Callee => sent_body(outbound_invite),
        },
        body_as_text(body),
    )
}

/// The headers that the answer to a re-INVITE has besides the echoed ones.
pub open spec fn reinvite_extras(
    contact_host: Seq<char>,
    expires: Option<nat>,
    sdp: Option<Seq<char>>,
) -> Seq<(Seq<char>, Seq<char>)> {
    seq![("Contact"@, "<sip:sbc@"@ + contact_host + ">"@), ("Supported"@, "timer"@)] + (
    match expires {
        Some(e) => seq![("Session-Expires"@, text::decimal(e) + ";refresher=uac"@)],
        None => Seq::empty(),
    }) + (match sdp {
        Some(_) => seq![("Content-Type"@, "application/sdp"@)],
        None => Seq::empty(),
    })
}

/// The answer to a re-INVITE.
pub open spec fn reinvite_text(
    hs: Seq<Seq<char>>,
    contact_host: Seq<char>,
    expires: Option<nat>,
    sdp: Option<Seq<char>>,
    tag: Seq<char>,
) -> Option<Seq<char>> {
    match responses::echoed_pairs(responses::via_pairs(hs), hs, responses::response_to(hs, tag)) {
        Some(p) => Some(
            headers::message_text(
                responses::status_line(200),
                p + reinvite_extras(contact_host, expires, sdp) + seq![
                    (
                        "Content-Length"@,
                        text::decimal(vstd::utf8::encode_utf8(identity::or_empty(sdp)).len()),
                    ),
                ],
                identity::or_empty(sdp),
            ),
        ),
        None => None,
    }
}

/// Seconds of the session that a re-INVITE asks for, else the configured
/// ones.
pub open spec fn reinvite_expires(hs: Seq<Seq<char>>, configured: Option<u32>) -> Option<nat> {
    match message::numeric_header(hs, "session-expires:"@, "x:"@) {
        Some(n) => Some(n),
        None => match configured {
            Some(e) => Some(e as nat),
            None => None,
        },
    }
}

/// Integer value of the first of the header lines with one of the prefixes.
pub fn headers_u32(headers: &Vec<String>, a: &str, b: &str) -> (r: Option<u32>)
    ensures
        match r {
            Some(n) => message::numeric_header(text::string_views(headers@), a@, b@) == Some(n as nat),
            None => message::numeric_header(text::string_views(headers@), a@, b@) is None,
        },
{
    match value_of(headers, a, b) {
        None => None,
        Some(v) => {
            let c = chars_of(v.as_str());
            let parts = split_on(c.as_slice(), ';');
            assert(text::views(parts@)[0] == parts@[0]@);
            parse_u32(trimmed(parts[0]))
        },
    }
}

/// The description that answers a re-INVITE.
pub fn reinvite_sdp_of(
    from: Leg,
    last_to_caller: Option<String>,
    outbound_invite: Option<String>,
    body: &[u8],
) -> (r: Option<String>)
    ensures
        text::opt_string(r) == reinvite_sdp(
            from,
            text::opt_string(last_to_caller),
            text::opt_string(outbound_invite),
            body@,
        ),
{
    let stored = match from {
        Leg::Caller => last_to_caller,
        Leg::Callee => match outbound_invite {
            Some(raw) => {
                let c = chars_of(raw.as_str());
                let blank: [char; 4] = ['\r', '\n', '\r', '\n'];
                assert(blank@ =~= text::crlf() + text::crlf());
                let pos: usize = position_of_str(c.as_slice(), &blank, 0);
                if pos < c.len() {
                    let b = body_text(c.as_slice());
                    if b.as_str().is_empty() {
                        None
                    } else {
                        Some(b)
                    }
                } else {
                    None
                }
            },
            None => None,
        },
    };
    match stored {
        Some(s) => Some(s),
        None => match utf8_text(body) {
            Some(t) => if t.is_empty() {
                None
            } else {
                Some(t.to_string())
            },
            None => None,
        },
    }
}

/// Answer an in-dialog re-INVITE with a description that leaves the media as
/// it is. None where the request lacks the headers that a response echoes.
pub fn handle_reinvite_with(
    request: &SipRequest,
    sbc_ip: &str,
    sbc_port: u16,
    configured_expires: Option<u32>,
    sdp: Option<String>,
    tag: &str,
) -> (r: Option<String>)
    ensures
        text::opt_string(r) == reinvite_text(
            request@.headers,
            sbc_ip@ + ":"@ + text::decimal(sbc_port as nat),
            reinvite_expires(request@.headers, configured_expires),
            text::opt_string(sdp),
            tag@,
        ),
{
    let hs = &request.headers;
    let vias = vias_of(hs);
    let to = response_to_of(hs, tag);
    match (from_of(hs), to, call_id_of(hs), value_of(hs, "cseq:", "cseq:")) {
        (Some(f), Some(t), Some(c), Some(q)) => {
            if vias.len() == 0 {
                return None;
            }
            let mut w = MessageWriter::new(write_status_line(200, "OK"));
            write_pairs(&mut w, &vias);
            let ghost head = responses::text_pairs(vias@);
            assert(w.pairs() =~= head);
            w.header("From", f.as_str());
            w.header("To", t.as_str());
            w.header("Call-ID", c.as_str());
            w.header("CSeq", q.as_str());
            let ghost p = head + seq![
                ("From"@, f@),
                ("To"@, t@),
                ("Call-ID"@, c@),
                ("CSeq"@, q@),
            ];
            assert(w.pairs() =~= p);
            let ghost host = sbc_ip@ + ":"@ + text::decimal(sbc_port as nat);
            let mut contact = "<sip:sbc@".to_string();
            contact.push_str(sbc_ip);
            contact.push_str(":");
            contact.push_str(decimal_of(sbc_port as u64).as_str());
            contact.push_str(">");
            assert(contact@ =~= "<sip:sbc@"@ + host + ">"@);
            w.header("Contact", contact.as_str());
            w.header("Supported", "timer");
            let expires: Option<u32> = match headers_u32(hs, "session-expires:", "x:") {
                Some(n) => Some(n),
                None => configured_expires,
            };
            let ghost want = reinvite_expires(request@.headers, configured_expires);
            if let Some(e) = expires {
                let mut v = decimal_of(e as u64);
                v.push_str(";refresher=uac");
                w.header("Session-Expires", v.as_str());
            }
            if sdp.is_some() {
                w.header("Content-Type", "application/sdp");
            }
            assert(w.pairs() =~= p + reinvite_extras(host, want, text::opt_string(sdp)));
            let body = text_or_empty(sdp);
            w.header("Content-Length", decimal_of(body.as_str().as_bytes().len() as u64).as_str());
            assert(w.pairs() =~= p + reinvite_extras(host, want, text::opt_string(sdp)) + seq![
                ("Content-Length"@, text::decimal(vstd::utf8::encode_utf8(body@).len())),
            ]);
            Some(w.finish(body.as_str()))
        },
        _ => None,
    }
}

/// Answer an in-dialog re-INVITE, the To with a fresh tag where it has none.
pub fn handle_reinvite(
    request: &SipRequest,
    sbc_ip: &str,
    sbc_port: u16,
    configured_expires: Option<u32>,
    sdp: Option<String>,
) -> (r: Option<String>)
    ensures
        exists|tag: Seq<char>|
            responses::is_tag(tag) && text::opt_string(r) == #[trigger] reinvite_text(
                request@.headers,
                sbc_ip@ + ":"@ + text::decimal(sbc_port as nat),
                reinvite_expires(request@.headers, configured_expires),
                text::opt_string(sdp),
                tag,
            ),
{
    let tag = new_tag();
    handle_reinvite_with(request, sbc_ip, sbc_port, configured_expires, sdp, tag.as_str())
}

// ── INFO and REFER ──────────────────────────────────────────────────────

/// Where an INFO goes: to the other leg of its call, where that leg can be
/// reached.
pub open spec fn info_target(from: Option<Leg>, caller: bool, callee: bool) -> Option<Leg> {
    match from {
        Some(Leg::Caller) => if callee {
            Some(Leg::Callee)
        } else {
            None
        },
        Some(Leg::Callee) => if caller {
            Some(Leg::Caller)
        } else {
            None
        },
        None => None,
    }
}

/// Where an INFO (or an accepted REFER) is relayed to.
fn relay_target(from: Option<Leg>, caller_reachable: bool, callee_reachable: bool) -> (r: Option<Leg>)
    ensures
        r == info_target(from, caller_reachable, callee_reachable),
{
    match from {
        Some(l) => match l {
            Leg::Caller => if callee_reachable {
                Some(Leg::Callee)
            } else {
                None
            },
            Leg::Callee => if caller_reachable {
                Some(Leg::Caller)
            } else {
                None
            },
        },
        None => None,
    }
}

/// The CSeq number of a request that goes on to the other leg as it is: the
/// requests that this side sends on that leg later stay above it. None where
/// no call is found.
pub open spec fn relayed_cseq(hs: Seq<Seq<char>>, from: Option<Leg>) -> Option<nat> {
    match (from, message::headers_cseq(hs)) {
        (Some(_), Some((n, _))) => Some(n),
        _ => None,
    }
}

pub open spec fn opt_nat(n: Option<u32>) -> Option<nat> {
    match n {
        Some(k) => Some(k as nat),
        None => None,
    }
}

fn relayed_cseq_of(headers: &Vec<String>, from: Option<Leg>) -> (r: Option<u32>)
    ensures
        opt_nat(r) == relayed_cseq(text::string_views(headers@), from),
{
    match (from, cseq_of(headers)) {
        (Some(_), Some((n, _))) => Some(n),
        _ => None,
    }
}

/// What an INFO causes: the 200 for its sender, whether a call is found or
/// not, the leg that it is relayed to, and its CSeq number where a call is
/// found.
#[derive(Debug)]
pub struct Info {
    pub answer: String,
    pub relay_to: Option<Leg>,
    pub cseq: Option<u32>,
}

/// What an INFO causes, its answer under a given tag.
pub fn handle_info_with(
    request: &SipRequest,
    from: Option<Leg>,
    caller_reachable: bool,
    callee_reachable: bool,
    tag: &str,
) -> (r: Info)
    ensures
        r.answer@ == responses::response_or_bare(request@.headers, 200, "OK"@, tag@),
        r.relay_to == info_target(from, caller_reachable, callee_reachable),
        opt_nat(r.cseq) == relayed_cseq(request@.headers, from),
{
    Info {
        answer: answer_with(request, 200, "OK", tag),
        relay_to: relay_target(from, caller_reachable, callee_reachable),
        cseq: relayed_cseq_of(&request.headers, from),
    }
}

/// What an INFO causes.
pub fn handle_info(
    request: &SipRequest,
    from: Option<Leg>,
    caller_reachable: bool,
    callee_reachable: bool,
) -> (r: Info)
    ensures
        responses::answers_request(r.answer@, request@.headers, 200, "OK"@),
        r.relay_to == info_target(from, caller_reachable, callee_reachable),
        opt_nat(r.cseq) == relayed_cseq(request@.headers, from),
{
    let tag = new_tag();
    handle_info_with(request, from, caller_reachable, callee_reachable, tag.as_str())
}

/// What a REFER is answered, and whether it is relayed.
#[derive(Debug, Clone, Copy, PartialEq, Eq, Structural)]
pub enum ReferPlan {
    /// 400: no target.
    NoTarget,
    /// 481: no such call.
    NoCall,
    /// 202, and relayed to a leg where it can be reached.
    Accepted { relay_to: Option<Leg> },
}

/// First header line that begins with one of the two spellings of
/// `Refer-To`.
pub open spec fn names_target(hs: Seq<Seq<char>>) -> bool {
    exists|i: int|
        0 <= i < hs.len() && (text::starts_with(#[trigger] hs[i], "Refer-To:"@) || text::starts_with(
            hs[i],
            "refer-to:"@,
        ))
}

/// What a REFER causes.
pub open spec fn refer_outcome(hs: Seq<Seq<char>>, from: Option<Leg>, caller: bool, callee: bool) -> ReferPlan {
    if !names_target(hs) {
        ReferPlan::NoTarget
    } else if from is None {
        ReferPlan::NoCall
    } else {
        ReferPlan::Accepted { relay_to: info_target(from, caller, callee) }
    }
}

/// What a REFER leads to, as far as its headers tell.
fn refer_plan(
    request: &SipRequest,
    from: Option<Leg>,
    caller_reachable: bool,
    callee_reachable: bool,
) -> (r: ReferPlan)
    ensures
        r == refer_outcome(request@.headers, from, caller_reachable, callee_reachable),
{
    let ghost hs = request@.headers;
    let mut found = false;
    let mut i: usize = 0;
    while i < request.headers.len()
        invariant
            i <= request.headers@.len(),
            hs == request@.headers,
            hs == text::string_views(request.headers@),
            found ==> names_target(hs),
            !found ==> forall|k: int|
                0 <= k < i ==> !text::starts_with(#[trigger] hs[k], "Refer-To:"@) && !text::starts_with(
                    hs[k],
                    "refer-to:"@,
                ),
        decreases request.headers@.len() - i,
    {
        let l = chars_of(request.headers[i].as_str());
        assert(hs[i as int] == l@);
        if has_prefix(l.as_slice(), "Refer-To:") || has_prefix(l.as_slice(), "refer-to:") {
            found = true;
        }
        i = i + 1;
    }
    if !found {
        return ReferPlan::NoTarget;
    }
    if from.is_none() {
        return ReferPlan::NoCall;
    }
    ReferPlan::Accepted { relay_to: relay_target(from, caller_reachable, callee_reachable) }
}

/// Status of the answer to a REFER.
pub open spec fn refer_code(plan: ReferPlan) -> u16 {
    match plan {
        ReferPlan::NoTarget => 400u16,
        ReferPlan::NoCall => 481u16,
        ReferPlan::Accepted { .. } => 202u16,
    }
}

/// Status of the answer to a REFER.
pub fn refer_status(plan: &ReferPlan) -> (r: u16)
    ensures
        r == refer_code(*plan),
{
    match plan {
        ReferPlan::NoTarget => 400,
        ReferPlan::NoCall => 481,
        ReferPlan::Accepted { .. } => 202,
    }
}

/// A REFER and its answer. One that lacks the headers that an answer echoes
/// gets none, and goes nowhere.
#[derive(Debug)]
pub struct Refer {
    pub answer: Option<String>,
    pub plan: ReferPlan,
    /// Its CSeq number, where its call is found.
    pub cseq: Option<u32>,
}

/// What a REFER causes, its answer under a tag.
pub open spec fn refer_causes(
    r: Refer,
    hs: Seq<Seq<char>>,
    from: Option<Leg>,
    caller: bool,
    callee: bool,
    tag: Seq<char>,
) -> bool {
    let plan = refer_outcome(hs, from, caller, callee);
    &&& text::opt_string(r.answer) == responses::plain_response(hs, refer_code(plan), tag)
    &&& r.plan == (if plan is Accepted && r.answer is None {
        ReferPlan::Accepted { relay_to: None }
    } else {
        plan
    })
    &&& opt_nat(r.cseq) == (if plan is Accepted {
        relayed_cseq(hs, from)
    } else {
        None
    })
}

/// What a REFER causes, its answer under a given tag.
pub fn handle_refer_with(
    request: &SipRequest,
    from: Option<Leg>,
    caller_reachable: bool,
    callee_reachable: bool,
    tag: &str,
) -> (r: Refer)
    ensures
        refer_causes(r, request@.headers, from, caller_reachable, callee_reachable, tag@),
{
    let plan = refer_plan(request, from, caller_reachable, callee_reachable);
    let answer = build_plain_response_for_request_with(request, refer_status(&plan), tag);
    match plan {
        ReferPlan::Accepted { .. } => {
            let cseq = relayed_cseq_of(&request.headers, from);
            if answer.is_none() {
                Refer { answer, plan: ReferPlan::Accepted { relay_to: None }, cseq }
            } else {
                Refer { answer, plan, cseq }
            }
        },
        _ => Refer { answer, plan, cseq: None },
    }
}

/// What a REFER causes.
pub fn handle_refer(
    request: &SipRequest,
    from: Option<Leg>,
    caller_reachable: bool,
    callee_reachable: bool,
) -> (r: Refer)
    ensures
        exists|tag: Seq<char>|
            responses::is_tag(tag) && #[trigger] refer_causes(
                r,
                request@.headers,
                from,
                caller_reachable,
                callee_reachable,
                tag,
            ),
{
    let tag = new_tag();
    handle_refer_with(request, from, caller_reachable, callee_reachable, tag.as_str())
}

// ── Laws ────────────────────────────────────────────────────────────────

/// A truncated Call-ID finds a call only from a trunk or a host beside one:
/// from anywhere else a CANCEL without the full Call-ID has no effect.
pub proof fn law_suffix_cancel_needs_a_trunk(p: CancelPlan, hs: Seq<Seq<char>>, f: CancelFacts, t1: Seq<char>, t2: Seq<char>)
    requires
        cancel_outcome(p, hs, f, t1, t2),
        f.exact is None,
        !f.trunk_related,
    ensures
        p.status == 481,
        p.end is None,
        p.toward_callee is None,
        p.terminated is None,
{
}

/// An answered INVITE cannot be cancelled: the call stands.
pub proof fn law_answered_invite_is_not_cancelled(p: CancelPlan, hs: Seq<Seq<char>>, f: CancelFacts, t1: Seq<char>, t2: Seq<char>)
    requires
        cancel_outcome(p, hs, f, t1, t2),
        invite_answered(f),
    ensures
        p.end is None,
        p.toward_callee is None,
        p.terminated is None,
{
}

} // verus!
