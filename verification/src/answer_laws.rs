//! What is promised of the responses of the callee's side.

use crate::cdr::CallOutcome;
use crate::invite_handler::SdpPlan;
use crate::invite_laws;
use crate::message;
use crate::response_handler::{AnswerFacts, ResponseFacts, ResponsePlan, StalePlan};
use crate::response_handler;
use crate::text;
use crate::trunk_state::TrunkStep;
use vstd::prelude::*;

verus! {

// ── What a response leads to ────────────────────────────────────────────

/// The response belongs to the INVITE that is current in a known call.
pub open spec fn is_current(call_id: Seq<char>, cseq: (nat, Seq<char>), f: ResponseFacts) -> bool {
    &&& f.call_known
    &&& !text::starts_with(call_id, "reg-"@) && !text::starts_with(call_id, "hc-"@)
    &&& text::same_text(cseq.1, "INVITE"@)
    &&& !f.pending_refresh && !f.refresh_duplicate && !f.stale
}

/// The next trunk is tried exactly where the final is a timeout or a failure
/// of a server: a callee that is busy, refuses or does not exist is a matter
/// of the call, and its caller hears of it.
pub proof fn law_next_trunk_is_for_failed_trunks(
    status: u16,
    call_id: Seq<char>,
    cseq: (nat, Seq<char>),
    f: ResponseFacts,
)
    requires
        is_current(call_id, cseq, f),
        status >= 300,
    ensures
        ({
            let p = response_handler::response_plan(status, call_id, Some(cseq), f);
            &&& (p matches ResponsePlan::Failed { try_next, .. } && try_next) <==> status == 408
                || 500 <= status <= 699
            &&& 300 <= status <= 499 && status != 407 && status != 408 && status != 422 ==> p == (
            ResponsePlan::Failed { ack: true, try_next: false })
            &&& status == 407 <==> p is Challenged
            &&& status == 422 <==> p is IntervalTooSmall
            &&& status != 407 && status != 422 <==> p is Failed
        }),
{
}

/// The responses of the current INVITE before its final reach the caller, the
/// callee alerting from 180 on, and a final from 200 to 299 is the answer.
pub proof fn law_progress_and_answer(
    status: u16,
    call_id: Seq<char>,
    cseq: (nat, Seq<char>),
    f: ResponseFacts,
)
    requires
        is_current(call_id, cseq, f),
    ensures
        ({
            let p = response_handler::response_plan(status, call_id, Some(cseq), f);
            &&& p is Provisional <==> 100 <= status <= 199
            &&& p matches ResponsePlan::Provisional { alerting } ==> alerting == (status >= 180)
            &&& p == ResponsePlan::Answered <==> 200 <= status <= 299
        }),
{
}

/// What is no part of a call goes elsewhere: the answers of the tasks that
/// talk to trunks to their task, those of a refresh to the refresh, and those
/// to the last INVITE of a call that has ended are settled with the callee.
pub proof fn law_responses_outside_the_call(
    status: u16,
    call_id: Seq<char>,
    cseq: (nat, Seq<char>),
    f: ResponseFacts,
)
    ensures
        ({
            let p = response_handler::response_plan(status, call_id, Some(cseq), f);
            let task = text::starts_with(call_id, "reg-"@) || text::starts_with(call_id, "hc-"@);
            let invite = text::same_text(cseq.1, "INVITE"@);
            let last = f.ended_attempt_cseq is Some && f.ended_attempt_cseq->0 == cseq.0;
            &&& p == ResponsePlan::ToTask <==> task
            &&& p == ResponsePlan::Dropped <==> !task && f.call_known && !invite
            &&& p == ResponsePlan::Refresh <==> !task && f.call_known && invite && f.pending_refresh
            &&& p == ResponsePlan::RefreshDuplicate <==> !task && f.call_known && invite
                && !f.pending_refresh && f.refresh_duplicate
            &&& p == ResponsePlan::Stale <==> !task && f.call_known && invite && !f.pending_refresh
                && !f.refresh_duplicate && f.stale
            &&& p == ResponsePlan::OrphanAnswered <==> !task && !f.call_known && invite && last
                && 200 <= status <= 299
            &&& p == ResponsePlan::OrphanRefused <==> !task && !f.call_known && invite && last
                && status >= 300
            &&& p == ResponsePlan::Stray <==> !task && !f.call_known && !(invite && last && status
                >= 200)
        }),
{
}

/// The trunk of an outbound call is told of the final of its current INVITE:
/// an answer clears it, and a timeout, an internal error, a bad gateway, an
/// unavailable service or a gateway timeout counts against it. No other final
/// says anything of it.
pub proof fn law_trunk_hears_of_its_finals(
    status: u16,
    raw: Seq<char>,
    call_id: Seq<char>,
    cseq: (nat, Seq<char>),
    f: ResponseFacts,
)
    requires
        is_current(call_id, cseq, f),
    ensures
        ({
            let e = response_handler::response_effect(response_handler::response_plan(status, call_id, Some(cseq), f), status, raw, f);
            let own = f.direction@ != "inbound"@ && f.trunk_name is Some;
            let bad = status == 408 || status == 500 || status == 502 || status == 503 || status
                == 504;
            &&& e is Some <==> own && (bad || 200 <= status <= 299)
            &&& e matches Some((name, step)) ==> Some(name) == text::opt_string(f.trunk_name) && (step
                == TrunkStep::Up <==> 200 <= status <= 299)
        }),
{
}

// ── Session timers ──────────────────────────────────────────────────────

/// The interval of an answered session is the answer's own wherever that is
/// no shorter than the floor, whatever was offered or configured. What was
/// offered counts only where the answer names none, and what is configured
/// only where neither does.
pub proof fn law_answer_sets_the_interval(
    configured: nat,
    floor: nat,
    offered: Option<Seq<char>>,
    answer: Seq<char>,
)
    ensures
        ({
            let (interval, low) = response_handler::negotiated_timer(configured, floor, offered, answer);
            let own = message::session_expires(answer);
            let theirs = match offered {
                Some(o) => message::session_expires(o),
                None => None,
            };
            &&& own is Some && own->0 >= low ==> interval == own->0
            &&& own is Some && own->0 < low ==> interval == low
            &&& own is None && theirs is Some && theirs->0 >= low ==> interval == theirs->0
            &&& own is None && theirs is Some && theirs->0 < low ==> interval == low
            &&& own is None && theirs is None && configured >= low ==> interval == configured
            &&& own is None && theirs is None && configured < low ==> interval == low
        }),
{
}

/// The floor of a session is the configured one, or that of the offer where
/// it is higher; nothing else raises or lowers it.
pub proof fn law_floor_of_a_session(
    configured: nat,
    floor: nat,
    offered: Option<Seq<char>>,
    answer: Seq<char>,
)
    ensures
        ({
            let low = response_handler::negotiated_timer(configured, floor, offered, answer).1;
            &&& low >= floor
            &&& low == floor || (offered is Some && message::min_se(offered->0) == Some(low))
            &&& offered is Some && message::min_se(offered->0) is Some ==> low >= message::min_se(offered->0)->0
        }),
{
}

/// Two sessions whose answers name the same interval, not below the floor,
/// run the same, whatever this side is configured to.
pub proof fn law_configuration_yields_to_the_answer(
    a: nat,
    b: nat,
    floor: nat,
    offered: Option<Seq<char>>,
    answer: Seq<char>,
)
    requires
        message::session_expires(answer) is Some,
    ensures
        response_handler::negotiated_timer(a, floor, offered, answer) == response_handler::negotiated_timer(b, floor, offered, answer),
{
}

/// A timer runs exactly on the calls to a trunk, while timers are on.
pub proof fn law_where_timers_run(f: AnswerFacts, answer: Seq<char>)
    ensures
        response_handler::answer_timer(f, answer) is Some <==> f.timer is Some && f.toward_trunk,
        response_handler::answer_timer(f, answer) matches Some(t) ==> t == response_handler::negotiated_timer(
            (f.timer->0).0 as nat,
            (f.timer->0).1 as nat,
            text::opt_string(f.offered_invite),
            answer,
        ),
{
}

/// An INVITE that a trunk refuses for its interval is tried again exactly
/// once, with the floor that the trunk names, where timers are on.
pub proof fn law_floor_of_the_retry(raw_resp: Seq<char>, timer: Option<(u32, u32)>, retries: u32)
    ensures
        response_handler::retry_floor(raw_resp, timer, retries) is Some <==> timer is Some && retries == 0 && message::min_se(
            raw_resp,
        ) is Some,
        response_handler::retry_floor(raw_resp, timer, retries) is Some ==> response_handler::retry_floor(raw_resp, timer, retries)
            == message::min_se(raw_resp),
{
}

// ── Media of the answer ─────────────────────────────────────────────────

/// The caller is told the port of its own leg, whichever of the sides is a
/// browser, wherever the answer has a description that is passed on.
pub proof fn law_caller_gets_its_own_port(
    caller_webrtc: bool,
    has_answer: bool,
    callee_webrtc: bool,
    caller_port: u16,
)
    ensures
        ({
            let p = response_handler::answer_sdp_plan(caller_webrtc, has_answer, callee_webrtc, true, Some(caller_port));
            &&& p != SdpPlan::Answer ==> invite_laws::port_in(p) == Some(caller_port)
            &&& p == SdpPlan::Answer <==> caller_webrtc && has_answer
        }),
{
}

/// The form of the description in an answer: the one made for a browser,
/// plain RTP where a browser answers anyone else, else the relay's address;
/// an answer without a description stays as it is.
pub proof fn law_form_of_the_answer(
    caller_webrtc: bool,
    has_answer: bool,
    callee_webrtc: bool,
    has_text: bool,
    leg_a: Option<u16>,
)
    ensures
        ({
            let p = response_handler::answer_sdp_plan(caller_webrtc, has_answer, callee_webrtc, has_text, leg_a);
            let made = caller_webrtc && has_answer;
            &&& p == SdpPlan::Answer <==> made
            &&& p == SdpPlan::Keep <==> !made && !has_text
            &&& p is Plain <==> has_text && !caller_webrtc && callee_webrtc
            &&& p is Relay <==> has_text && !made && !(!caller_webrtc && callee_webrtc) && leg_a is Some
            &&& p == SdpPlan::AddressOnly <==> has_text && !made && !(!caller_webrtc
                && callee_webrtc) && leg_a is None
            &&& !(p is Offer)
        }),
{
}

// ── Finals that nobody waits for ────────────────────────────────────────

/// The answer to a superseded INVITE is acknowledged and its dialog ended, its
/// refusal is acknowledged, and nothing is sent for anything else.
pub proof fn law_superseded_invite_is_settled(status: u16, known: bool, same_peer: bool)
    ensures
        response_handler::stale_plan(status, known, same_peer) == (StalePlan::AckAndBye { reuse_connection: same_peer })
            <==> known && 200 <= status <= 299,
        response_handler::stale_plan(status, known, same_peer) == (StalePlan::Ack { reuse_connection: same_peer })
            <==> known && !(100 <= status <= 299),
        response_handler::stale_plan(status, known, same_peer) == StalePlan::Dropped <==> !known || 100 <= status <= 199,
{
}

/// A call that the callee refuses is recorded under the code of the response,
/// under 500 where the response has none.
pub proof fn law_refused_call_has_the_code_of_its_response(raw: Seq<char>)
    ensures
        message::status_code(raw) matches Some(c) && c <= u16::MAX ==> response_handler::relayed_outcome(raw) == (
        CallOutcome::Rejected { code: message::status_code(raw)->0 as u16 }),
        message::status_code(raw) is None ==> response_handler::relayed_outcome(raw) == (CallOutcome::Rejected { code: 500 }),
{
}

} // verus!
