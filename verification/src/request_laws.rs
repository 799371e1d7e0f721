//! What is promised of the requests within a call: ACK, BYE, CANCEL, INFO,
//! REFER, re-INVITE, and of a connection that closes.

use crate::call_handler::{AckFacts, Binding, ByePlan, CancelFacts, CancelPlan, Leg, Refer, ReferPlan};
use crate::call_handler;
use crate::cdr::{CallOutcome, CallState};
use crate::client_tx::Transport;
use crate::headers;
use crate::message;
use crate::responses;
use crate::sip_builder::DialogInfo;
use crate::sip_builder;
use crate::text;
use vstd::prelude::*;

verus! {

/// A message of one leg goes to the other, and back.
pub proof fn law_other_leg(l: Leg)
    ensures
        call_handler::opposite(l) != l,
        call_handler::opposite(call_handler::opposite(l)) == l,
{
}

// ── ACK ─────────────────────────────────────────────────────────────────

/// The relayed ACK completes the transaction that the callee has: it carries
/// the number of the callee's INVITE where that is known, and the caller's
/// own CSeq only where it is not.
pub proof fn law_relayed_ack_matches_the_invite(caller: Seq<char>, n: u32)
    ensures
        call_handler::callee_ack_cseq(caller, Some(n)) == text::decimal(n as nat) + " ACK"@,
        call_handler::callee_ack_cseq(caller, None) == caller,
{
}

/// The relayed ACK goes to the contact of the callee's answer, else to its
/// address, and keeps From, To and, unless the callee knows another, the
/// Call-ID of the caller's ACK.
pub proof fn law_relayed_ack_keeps_the_dialog(hs: Seq<Seq<char>>, f: AckFacts, bytes: Seq<u8>)
    ensures
        f.callee_contact_uri matches Some(u) ==> call_handler::ack_uri(f) == u@,
        f.callee_contact_uri is None ==> call_handler::ack_uri(f) == "sip:"@ + f.callee_ip@ + ":"@ + text::decimal(
            f.callee_port as nat,
        ),
        ({
            let p = call_handler::ack_relay_pairs(hs, f, bytes);
            &&& p.len() == 7
            &&& message::from_value(hs) matches Some(v) ==> p[2] == ("From"@, v)
            &&& message::to_value(hs) matches Some(v) ==> p[3] == ("To"@, v)
            &&& f.inbound_call_id matches Some(c) ==> p[4] == ("Call-ID"@, c@)
            &&& f.inbound_call_id is None && message::call_id_value(hs) is Some ==> p[4] == (
                "Call-ID"@,
                message::call_id_value(hs)->0,
            )
            &&& f.outbound_invite_cseq matches Some(n) ==> p[5] == (
                "CSeq"@,
                text::decimal(n as nat) + " ACK"@,
            )
            &&& f.outbound_invite_cseq is None && message::cseq_value(hs) is Some ==> p[5] == (
                "CSeq"@,
                message::cseq_value(hs)->0,
            )
        }),
{
}

// ── BYE ─────────────────────────────────────────────────────────────────

/// A BYE finds its call by Call-ID and source; by Call-ID alone only from a
/// trunk or a host beside one.
pub proof fn law_bye_finds_its_call(
    exact: Option<(Seq<char>, Leg)>,
    related: bool,
    loose: Option<(Seq<char>, Leg)>,
)
    ensures
        exact is Some ==> call_handler::bye_match(exact, related, loose) == exact,
        exact is None && related ==> call_handler::bye_match(exact, related, loose) == loose,
        exact is None && !related ==> call_handler::bye_match(exact, related, loose) is None,
{
}

/// A BYE of one leg ends its call as that leg's doing, goes to the other leg,
/// and takes what the peer says of it along; one that finds no call ends
/// none.
pub proof fn law_bye_ends_its_call(p: ByePlan, hs: Seq<Seq<char>>, uuid: Seq<char>, from: Leg)
    requires
        call_handler::bye_causes(p, hs, Some((uuid, from)), true) || call_handler::bye_causes(
            p,
            hs,
            Some((uuid, from)),
            false,
        ),
    ensures
        p is End,
        p->uuid@ == uuid,
        from == Leg::Caller ==> p->relay_to == Leg::Callee && p->outcome == (
        CallOutcome::NormalClearing { by_caller: true }),
        from == Leg::Callee ==> p->relay_to == Leg::Caller && p->outcome == (
        CallOutcome::NormalClearing { by_caller: false }),
        text::opt_string(p->reason) == message::first_value(hs, "reason:"@, "reason:"@),
{
}

/// A BYE that finds no call ends none, whether it is late or never had one.
pub proof fn law_stray_bye_ends_nothing(p: ByePlan, hs: Seq<Seq<char>>, recent: bool)
    requires
        call_handler::bye_causes(p, hs, None, recent),
    ensures
        !(p is End),
        p is Late <==> recent,
{
}

/// The BYE for a leg whose dialog is known is that dialog's own, with what
/// the peer said; any other is the peer's, and is hidden behind this side.
pub proof fn law_bye_of_a_leg(
    dialog: Option<DialogInfo>,
    reason: Option<Seq<char>>,
    raw: Seq<char>,
    call_id: Seq<char>,
    stored: Option<Seq<char>>,
    branch: Seq<char>,
)
    ensures
        dialog matches Some(d) ==> call_handler::leg_bye(dialog, reason, raw, call_id, stored, branch) == (
            sip_builder::request_text(
                "BYE"@,
                d,
                d.cseq as nat,
                branch,
                sip_builder::reason_extras(reason),
                Seq::empty(),
            ),
            false,
        ),
        dialog is None ==> call_handler::leg_bye(dialog, reason, raw, call_id, stored, branch).1,
        dialog is None && (stored is None || stored == Some(call_id)) ==> call_handler::leg_bye(
            dialog,
            reason,
            raw,
            call_id,
            stored,
            branch,
        ).0 == raw,
{
}

/// A truncated Call-ID is made whole exactly where the known one ends in it.
pub proof fn law_truncated_call_id(call_id: Seq<char>, head: Seq<char>, other: Seq<char>)
    requires
        head.len() > 0,
        !text::ends_with(other, call_id),
    ensures
        call_handler::full_call_id(call_id, Some(head + call_id)) == Some(head + call_id),
        call_handler::full_call_id(call_id, Some(call_id)) is None,
        call_handler::full_call_id(call_id, Some(other)) is None,
        call_handler::full_call_id(call_id, None) is None,
{
    let s = head + call_id;
    assert(s.subrange(head.len() as int, s.len() as int) =~= call_id);
    assert(s.len() != call_id.len());
}

// ── CANCEL ──────────────────────────────────────────────────────────────

/// A CANCEL finds its call by Call-ID; by the end of one only from a trunk
/// or a host beside one.
pub proof fn law_cancel_finds_its_call(f: CancelFacts)
    ensures
        f.exact is Some ==> call_handler::cancel_call(f) == text::opt_string(f.exact),
        f.exact is None && f.trunk_related ==> call_handler::cancel_call(f) == text::opt_string(f.suffix),
        f.exact is None && !f.trunk_related ==> call_handler::cancel_call(f) is None,
        call_handler::invite_answered(f) <==> f.outbound_established || f.state == CallState::Connected || f.state
            == CallState::Terminating || f.state == CallState::Terminated,
{
}

/// A CANCEL of a call that is not answered ends it: the CANCEL is answered
/// 200, the caller's INVITE gets its 487, and the callee a CANCEL of the
/// INVITE that it was sent.
pub proof fn law_pending_call_is_cancelled(
    p: CancelPlan,
    hs: Seq<Seq<char>>,
    f: CancelFacts,
    t1: Seq<char>,
    t2: Seq<char>,
)
    requires
        call_handler::cancel_outcome(p, hs, f, t1, t2),
        f.exact is Some,
        !f.outbound_established,
        f.state == CallState::Initiated || f.state == CallState::Proceeding || f.state
            == CallState::Ringing,
    ensures
        p.status == 200,
        p.answer@ == responses::response_or_bare(hs, 200, "OK"@, t1),
        text::opt_string(p.end) == text::opt_string(f.exact),
        f.attempt matches Some(raw) && sip_builder::invite_identity(raw@) is Some ==> text::opt_string(p.toward_callee)
            == Some(sip_builder::cancel_text(sip_builder::invite_identity(f.attempt->0@)->0)),
        f.attempt is None ==> p.toward_callee is None && p.relay == f.callee_known,
        f.attempt is Some ==> !p.relay,
        text::opt_string(p.reason) == message::first_value(hs, "reason:"@, "reason:"@),
        responses::plain_response(hs, 487, t2) is Some ==> p.terminated is Some,
{
}

/// A CANCEL for no call is answered 481, and nothing else comes of it.
pub proof fn law_stray_cancel_is_refused(
    p: CancelPlan,
    hs: Seq<Seq<char>>,
    f: CancelFacts,
    t1: Seq<char>,
    t2: Seq<char>,
)
    requires
        call_handler::cancel_outcome(p, hs, f, t1, t2),
        f.exact is None,
        f.suffix is None,
    ensures
        p.status == 481,
        p.answer@ == responses::response_or_bare(hs, 481, "Call/Transaction Does Not Exist"@, t1),
        p.end is None && p.toward_callee is None && !p.relay && p.terminated is None,
{
}

/// The 487 carries the number of the caller's INVITE: the one that is known,
/// else that of the CANCEL, which is the same.
pub proof fn law_number_of_the_cancelled_invite(hs: Seq<Seq<char>>, known: Option<u32>)
    ensures
        known matches Some(n) ==> call_handler::cancelled_cseq(hs, known) == Some(n as nat),
        known is None && message::cseq_value(hs) is Some ==> call_handler::cancelled_cseq(hs, known) == headers::cseq_number(
            message::cseq_value(hs)->0,
        ),
        known is None && message::cseq_value(hs) is None ==> call_handler::cancelled_cseq(hs, known) is None,
{
}

// ── INFO and REFER ──────────────────────────────────────────────────────

/// An INFO goes to the other leg of its call, where that can be reached, and
/// never back to the leg that sent it.
pub proof fn law_info_goes_to_the_other_leg(from: Option<Leg>, caller: bool, callee: bool)
    ensures
        call_handler::info_target(from, caller, callee) == Some(Leg::Callee) <==> from == Some(Leg::Caller)
            && callee,
        call_handler::info_target(from, caller, callee) == Some(Leg::Caller) <==> from == Some(Leg::Callee)
            && caller,
        from is None ==> call_handler::info_target(from, caller, callee) is None,
{
}

/// The number of a relayed request is noted where its call is known.
pub proof fn law_relayed_number_is_noted(hs: Seq<Seq<char>>, from: Option<Leg>)
    ensures
        from is Some && message::headers_cseq(hs) is Some ==> call_handler::relayed_cseq(hs, from) == Some(
            (message::headers_cseq(hs)->0).0,
        ),
        from is None || message::headers_cseq(hs) is None ==> call_handler::relayed_cseq(hs, from) is None,
{
}

/// A REFER without a target is a bad request, one for no call is told so, and
/// any other is accepted and goes to the other leg.
pub proof fn law_refer_is_accepted_within_a_call(
    hs: Seq<Seq<char>>,
    from: Option<Leg>,
    caller: bool,
    callee: bool,
)
    ensures
        ({
            let p = call_handler::refer_outcome(hs, from, caller, callee);
            let target = exists|i: int|
                0 <= i < hs.len() && (text::starts_with(#[trigger] hs[i], "Refer-To:"@) || text::starts_with(
                    hs[i],
                    "refer-to:"@,
                ));
            &&& call_handler::refer_code(p) == 400 <==> !target
            &&& call_handler::refer_code(p) == 481 <==> target && from is None
            &&& call_handler::refer_code(p) == 202 <==> target && from is Some
            &&& target && from == Some(Leg::Caller) && callee ==> p == (ReferPlan::Accepted {
                relay_to: Some(Leg::Callee),
            })
            &&& target && from == Some(Leg::Callee) && caller ==> p == (ReferPlan::Accepted {
                relay_to: Some(Leg::Caller),
            })
        }),
{
}

/// What a REFER is answered is what its plan says, and one that cannot be
/// answered goes nowhere.
pub proof fn law_refer_is_answered(
    r: Refer,
    hs: Seq<Seq<char>>,
    from: Option<Leg>,
    caller: bool,
    callee: bool,
    tag: Seq<char>,
)
    requires
        call_handler::refer_causes(r, hs, from, caller, callee, tag),
    ensures
        text::opt_string(r.answer) == responses::plain_response(hs, call_handler::refer_code(r.plan), tag),
        r.answer is None ==> !(r.plan matches ReferPlan::Accepted { relay_to } && relay_to is Some),
        r.answer is Some ==> r.plan == call_handler::refer_outcome(hs, from, caller, callee),
        !(r.plan is Accepted) ==> r.cseq is None,
{
}

// ── Re-INVITE ───────────────────────────────────────────────────────────

/// A re-INVITE is answered with the description that its sender has last been
/// given, so that the media stays; its own is used only where there is none.
pub proof fn law_reinvite_keeps_the_media(
    last_to_caller: Option<Seq<char>>,
    outbound: Option<Seq<char>>,
    body: Seq<u8>,
)
    ensures
        last_to_caller is Some ==> call_handler::reinvite_sdp(Leg::Caller, last_to_caller, outbound, body)
            == last_to_caller,
        last_to_caller is None ==> call_handler::reinvite_sdp(Leg::Caller, last_to_caller, outbound, body)
            == call_handler::body_as_text(body),
        call_handler::sent_body(outbound) is Some ==> call_handler::reinvite_sdp(Leg::Callee, last_to_caller, outbound, body)
            == call_handler::sent_body(outbound),
        call_handler::sent_body(outbound) is None ==> call_handler::reinvite_sdp(Leg::Callee, last_to_caller, outbound, body)
            == call_handler::body_as_text(body),
        call_handler::body_as_text(body) matches Some(t) ==> t.len() > 0 && vstd::utf8::valid_utf8(body) && t
            == vstd::utf8::decode_utf8(body),
        call_handler::sent_body(outbound) matches Some(t) ==> t.len() > 0 && outbound is Some && t == headers::body_of(
            outbound->0,
        ),
{
}

/// The interval that a re-INVITE asks for is the one that it gets; the
/// configured one counts where it asks for none.
pub proof fn law_interval_of_a_reinvite(hs: Seq<Seq<char>>, configured: Option<u32>)
    ensures
        message::numeric_header(hs, "session-expires:"@, "x:"@) is Some ==> call_handler::reinvite_expires(hs, configured)
            == message::numeric_header(hs, "session-expires:"@, "x:"@),
        message::numeric_header(hs, "session-expires:"@, "x:"@) is None && configured is Some
            ==> call_handler::reinvite_expires(hs, configured) == Some(configured->0 as nat),
        message::numeric_header(hs, "session-expires:"@, "x:"@) is None && configured is None
            ==> call_handler::reinvite_expires(hs, configured) is None,
{
}

// ── A closed connection ─────────────────────────────────────────────────

/// The bindings that go with a connection are those on a WebSocket from that
/// address and port, in their order; no other is lost.
pub proof fn law_bindings_of_a_connection(s: Seq<Binding>, ip: Seq<char>, port: u16)
    ensures
        call_handler::bindings_on(s, ip, port) == s.filter(
            |b: Binding|
                b.received_ip@ == ip && b.received_port == port && (b.transport@ == "WS"@
                    || b.transport@ == "WSS"@),
        ).map_values(|b: Binding| (b.aor@, b.contact@)),
    decreases s.len(),
{
    reveal(Seq::filter);
    let keep = |b: Binding|
        b.received_ip@ == ip && b.received_port == port && (b.transport@ == "WS"@ || b.transport@
            == "WSS"@);
    let tell = |b: Binding| (b.aor@, b.contact@);
    if s.len() > 0 {
        law_bindings_of_a_connection(s.drop_last(), ip, port);
    }
    assert(call_handler::bindings_on(s, ip, port) =~= s.filter(keep).map_values(tell));
}

/// A closed connection takes the leg that used it as a WebSocket, and no
/// call whose legs are elsewhere or on another transport.
pub proof fn law_leg_of_a_closed_connection(
    caller_here: bool,
    t: Transport,
    callee_here: bool,
    u: Transport,
)
    ensures
        ({
            let caller_ws = t == Transport::Ws || t == Transport::Wss;
            let callee_ws = u == Transport::Ws || u == Transport::Wss;
            let gone = call_handler::closed_leg(caller_here, t, callee_here, u);
            &&& gone is Some <==> (caller_here && caller_ws) || (callee_here && callee_ws)
            &&& gone == Some(Leg::Caller) <==> gone is Some && caller_here
            &&& gone == Some(Leg::Callee) <==> gone is Some && !caller_here
        }),
{
}

/// The leg that is left is told, the one that is gone is not.
pub proof fn law_survivor_is_told(caller: Option<(bool, Seq<char>)>, callee: Option<(bool, Seq<char>)>)
    ensures
        callee matches Some(m) ==> call_handler::survivor_message(Leg::Caller, caller, callee) == Some(m.1),
        callee is None ==> call_handler::survivor_message(Leg::Caller, caller, callee) is None,
        caller matches Some(m) ==> call_handler::survivor_message(Leg::Callee, caller, callee) == Some(m.1),
        caller is None ==> call_handler::survivor_message(Leg::Callee, caller, callee) is None,
{
}

} // verus!
