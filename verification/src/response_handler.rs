//! Responses of the callee's side: which transaction they belong to, and
//! what follows from them for the call.

use crate::cdr::{CallOutcome, CallSnapshot, hangup_both_legs_with};
use crate::cdr;
use crate::client_tx::utf8_text;
use crate::headers;
use crate::identity::text_or_empty;
use crate::identity;
use crate::invite_handler::{SdpPlan, extract_contact_uri, inject_session_timer_headers};
use crate::invite_handler;
use crate::message::{SipResponse, call_id_of, contact_of, from_of, parse_min_se, parse_name_addr, parse_session_expires, response_cseq, status_code_of, to_of};
use crate::message;
use crate::raw_message::{RawSipMessage, RawView};
use crate::raw_message;
use crate::responses::{SbcUris, rewrite_response_for_caller, strip_sdp_body};
use crate::responses;
use crate::sip_builder::{DialogInfo, build_ack_for_2xx_with, build_ack_for_non_2xx, build_bye_with, new_branch, renew_invite_transaction_with};
use crate::sip_builder;
use crate::text::{chars_of, has_prefix, is_word};
use crate::text;
use crate::trunk_state::{TrunkEffect, TrunkStep, outbound_trunk_of, step_of_final};
use crate::trunk_state;
use vstd::prelude::*;

verus! {

// ── Which transaction a response belongs to ─────────────────────────────

/// What is known of the call of a response.
pub struct ResponseFacts {
    /// There is a call with its Call-ID.
    pub call_known: bool,
    /// Its CSeq is that of a session refresh that waits for an answer.
    pub pending_refresh: bool,
    /// Its CSeq is that of a session refresh that has its answer.
    pub refresh_duplicate: bool,
    /// It answers an INVITE that another one has superseded.
    pub stale: bool,
    /// CSeq of the last INVITE of a call that has ended with this Call-ID.
    pub ended_attempt_cseq: Option<u32>,
    /// Direction of the call, and the trunk that it is on.
    pub direction: String,
    pub trunk_name: Option<String>,
}

/// What a response leads to, and what it tells of the trunk that sent it.
#[derive(Debug)]
pub struct Handled {
    pub plan: ResponsePlan,
    pub trunk: Option<TrunkEffect>,
}

/// What a response leads to. `ack` says that the INVITE's final is to be
/// acknowledged first.
#[derive(Debug, Clone, Copy, PartialEq, Eq, Structural)]
pub enum ResponsePlan {
    /// For a task that registers with a trunk or probes it.
    ToTask,
    /// Nobody waits for it.
    Dropped,
    /// Answer to a session refresh.
    Refresh,
    /// Repeated answer to a session refresh: acknowledged again.
    RefreshDuplicate,
    /// Answer to an INVITE that was superseded.
    Stale,
    /// Relayed to the caller; from 180 on the callee is alerting.
    Provisional { alerting: bool },
    /// The call is answered.
    Answered,
    /// The trunk wants credentials.
    Challenged { ack: bool },
    /// The trunk wants a longer session interval.
    IntervalTooSmall { ack: bool },
    /// The INVITE has failed; the next trunk is tried first where the
    /// failure is the trunk's.
    Failed { ack: bool, try_next: bool },
    /// An answer to a call that has ended: acknowledged and ended by BYE.
    OrphanAnswered,
    /// A refusal for a call that has ended: acknowledged.
    OrphanRefused,
    /// Nothing is known of it.
    Stray,
}

/// The Call-IDs of the tasks that talk to trunks.
pub open spec fn is_task_call_id(call_id: Seq<char>) -> bool {
    text::starts_with(call_id, "reg-"@) || text::starts_with(call_id, "hc-"@)
}

/// A failure of the trunk rather than of the call: the next trunk is tried.
pub open spec fn fails_over(status: u16) -> bool {
    status == 408 || 500 <= status <= 699
}

/// What the status of an INVITE response leads to.
pub open spec fn by_status(status: u16, is_invite: bool) -> ResponsePlan {
    let ack = is_invite && status >= 300;
    if 100 <= status <= 199 {
        ResponsePlan::Provisional { alerting: status >= 180 }
    } else if 200 <= status <= 299 {
        ResponsePlan::Answered
    } else if status == 407 {
        ResponsePlan::Challenged { ack }
    } else if status == 422 {
        ResponsePlan::IntervalTooSmall { ack }
    } else {
        ResponsePlan::Failed { ack, try_next: fails_over(status) }
    }
}

/// What a response leads to.
pub open spec fn response_plan(
    status: u16,
    call_id: Seq<char>,
    cseq: Option<(nat, Seq<char>)>,
    f: ResponseFacts,
) -> ResponsePlan {
    let is_invite = cseq matches Some((_, m)) && text::same_text(m, "INVITE"@);
    if is_task_call_id(call_id) {
        ResponsePlan::ToTask
    } else if f.call_known {
        if cseq is Some && !is_invite {
            ResponsePlan::Dropped
        } else if is_invite && f.pending_refresh {
            ResponsePlan::Refresh
        } else if is_invite && f.refresh_duplicate {
            ResponsePlan::RefreshDuplicate
        } else if is_invite && f.stale {
            ResponsePlan::Stale
        } else {
            by_status(status, is_invite)
        }
    } else if is_invite && status >= 200 && f.ended_attempt_cseq is Some && (cseq->0).0
        == f.ended_attempt_cseq->0 {
        if status < 300 {
            ResponsePlan::OrphanAnswered
        } else {
            ResponsePlan::OrphanRefused
        }
    } else {
        ResponsePlan::Stray
    }
}

/// What a response tells of the trunk of the call: only the final of the
/// current INVITE does, and only of the trunk that the call goes out by.
pub open spec fn response_effect(
    plan: ResponsePlan,
    status: u16,
    raw: Seq<char>,
    f: ResponseFacts,
) -> Option<(Seq<char>, TrunkStep)> {
    match (trunk_state::outbound_trunk(f.direction@, text::opt_string(f.trunk_name)), trunk_state::final_step(status, raw)) {
        (Some(name), Some(step)) => if plan is Answered || plan is Failed {
            Some((name, step))
        } else {
            None
        },
        _ => None,
    }
}

fn status_plan(status: u16, is_invite: bool) -> (r: ResponsePlan)
    ensures
        r == by_status(status, is_invite),
{
    let ack = is_invite && status >= 300;
    if 100 <= status && status <= 199 {
        ResponsePlan::Provisional { alerting: status >= 180 }
    } else if 200 <= status && status <= 299 {
        ResponsePlan::Answered
    } else if status == 407 {
        ResponsePlan::Challenged { ack }
    } else if status == 422 {
        ResponsePlan::IntervalTooSmall { ack }
    } else {
        ResponsePlan::Failed { ack, try_next: status == 408 || (500 <= status && status <= 699) }
    }
}

/// What a response leads to: answers to what this side sent itself are
/// consumed, those of superseded attempts are kept from the call, and the
/// rest goes by its status. The final of the current INVITE also tells of
/// the trunk. `raw` is the response as it came.
pub fn handle_response(response: &SipResponse, raw: &str, facts: &ResponseFacts) -> (r: Handled)
    ensures
        r.plan == response_plan(
            response.status,
            identity::or_empty(message::call_id_value(response@.headers)),
            message::headers_cseq(response@.headers),
            *facts,
        ),
        trunk_state::opt_effect(r.trunk) == response_effect(r.plan, response.status, raw@, *facts),
{
    let plan = plan_response(response, facts);
    let counts = match plan {
        ResponsePlan::Answered => true,
        ResponsePlan::Failed { .. } => true,
        _ => false,
    };
    let trunk = if counts {
        match outbound_trunk_of(facts.direction.as_str(), &facts.trunk_name) {
            Some(trunk) => match step_of_final(response.status, raw) {
                Some(step) => Some(TrunkEffect { trunk, step }),
                None => None,
            },
            None => None,
        }
    } else {
        None
    };
    Handled { plan, trunk }
}

fn plan_response(response: &SipResponse, facts: &ResponseFacts) -> (r: ResponsePlan)
    ensures
        r == response_plan(
            response.status,
            identity::or_empty(message::call_id_value(response@.headers)),
            message::headers_cseq(response@.headers),
            *facts,
        ),
{
    let status: u16 = response.status;
    let call_id = text_or_empty(call_id_of(&response.headers));
    let cc = chars_of(call_id.as_str());
    if has_prefix(cc.as_slice(), "reg-") || has_prefix(cc.as_slice(), "hc-") {
        return ResponsePlan::ToTask;
    }
    let mut number: u32 = 0;
    let mut has_cseq = false;
    let mut is_invite = false;
    if let Some((n, method)) = response_cseq(response) {
        let mc = chars_of(method.as_str());
        number = n;
        has_cseq = true;
        is_invite = is_word(mc.as_slice(), "INVITE");
    }
    if facts.call_known {
        if has_cseq && !is_invite {
            ResponsePlan::Dropped
        } else if is_invite && facts.pending_refresh {
            ResponsePlan::Refresh
        } else if is_invite && facts.refresh_duplicate {
            ResponsePlan::RefreshDuplicate
        } else if is_invite && facts.stale {
            ResponsePlan::Stale
        } else {
            status_plan(status, is_invite)
        }
    } else {
        if is_invite && status >= 200 {
            if let Some(n) = facts.ended_attempt_cseq {
                if n == number {
                    if status < 300 {
                        return ResponsePlan::OrphanAnswered;
                    }
                    return ResponsePlan::OrphanRefused;
                }
            }
        }
        ResponsePlan::Stray
    }
}

/// The class in which a response is counted as an error: client or server
/// side, or none.
pub fn error_class(status: u16) -> (r: Option<bool>)
    ensures
        r == (if 400 <= status < 500 {
            Some(false)
        } else if status >= 500 {
            Some(true)
        } else {
            None
        }),
{
    if 400 <= status && status < 500 {
        Some(false)
    } else if status >= 500 {
        Some(true)
    } else {
        None
    }
}

// ── Provisional responses ───────────────────────────────────────────────

/// A provisional response as the caller gets it: fitted to its transaction,
/// and without the description of a 183 where the caller is a browser.
pub open spec fn provisional_text(
    raw: Seq<char>,
    vias: Seq<Seq<char>>,
    id: Option<(Seq<char>, Seq<char>)>,
    cseq: Option<u32>,
    strip: bool,
) -> Seq<char> {
    let t = if headers::start_line(raw).len() == 0 {
        raw
    } else {
        raw_message::raw_text(responses::caller_response(raw_message::raw_parts(raw), vias, id, cseq))
    };
    if strip {
        responses::stripped_text(t)
    } else {
        t
    }
}

/// A provisional response as the caller gets it.
pub fn relay_provisional(
    raw: &str,
    status: u16,
    caller_is_webrtc: bool,
    caller_vias: &Vec<String>,
    identity: Option<&SbcUris>,
    caller_cseq: Option<u32>,
) -> (r: String)
    ensures
        r@ == provisional_text(
            raw@,
            text::string_views(caller_vias@),
            responses::opt_uris(identity),
            caller_cseq,
            status == 183 && caller_is_webrtc,
        ),
{
    let t = rewrite_response_for_caller(raw, caller_vias, identity, caller_cseq);
    if status == 183 && caller_is_webrtc {
        strip_sdp_body(t.as_str())
    } else {
        t
    }
}

// ── The answer ──────────────────────────────────────────────────────────

/// The tag that the callee gave the dialog; empty where it gave none.
pub open spec fn callee_tag_of(hs: Seq<Seq<char>>) -> Seq<char> {
    match message::to_value(hs) {
        Some(v) => match message::name_addr(v) {
            Some(a) => identity::or_empty(a.tag),
            None => Seq::empty(),
        },
        None => Seq::empty(),
    }
}

/// The tag of the callee's side of a dialog.
pub fn callee_tag(response: &SipResponse) -> (r: String)
    ensures
        r@ == callee_tag_of(response@.headers),
{
    match to_of(&response.headers) {
        Some(v) => match parse_name_addr(v.as_str()) {
            Some(a) => text_or_empty(a.tag),
            None => {
                let e = String::new();
                assert(e@ =~= Seq::empty());
                e
            },
        },
        None => {
            let e = String::new();
            assert(e@ =~= Seq::empty());
            e
        },
    }
}

pub open spec fn at_least(a: nat, b: nat) -> nat {
    if a >= b {
        a
    } else {
        b
    }
}

/// Interval and floor of the session timer of an answered call: the answer's
/// interval, else the one that was offered, else the configured one; the
/// floor is the offered one where it is higher; the interval is never below
/// the floor.
pub open spec fn negotiated_timer(
    configured: nat,
    floor: nat,
    offered: Option<Seq<char>>,
    answer: Seq<char>,
) -> (nat, nat) {
    let min_se_offered = match offered {
        Some(o) => message::min_se(o),
        None => None,
    };
    let offered_interval = match offered {
        Some(o) => message::session_expires(o),
        None => None,
    };
    let low = at_least(
        match min_se_offered {
            Some(m) => m,
            None => floor,
        },
        floor,
    );
    let interval = match message::session_expires(answer) {
        Some(e) => e,
        None => match offered_interval {
            Some(e) => e,
            None => configured,
        },
    };
    (at_least(interval, low), low)
}

fn larger(a: u32, b: u32) -> (r: u32)
    ensures
        r == at_least(a as nat, b as nat),
{
    if a >= b {
        a
    } else {
        b
    }
}

/// Interval and floor of the session timer of an answered call.
pub fn negotiate_session_timer(
    configured: u32,
    cfg_min_se: u32,
    offered_invite: Option<&str>,
    answer: &str,
) -> (r: (u32, u32))
    ensures
        (r.0 as nat, r.1 as nat) == negotiated_timer(
            configured as nat,
            cfg_min_se as nat,
            text::opt_str(offered_invite),
            answer@,
        ),
{
    let (offered_se, offered_min): (Option<u32>, Option<u32>) = match offered_invite {
        Some(o) => (parse_session_expires(o), parse_min_se(o)),
        None => (None, None),
    };
    let low: u32 = match offered_min {
        Some(m) => larger(m, cfg_min_se),
        None => cfg_min_se,
    };
    let interval: u32 = match parse_session_expires(answer) {
        Some(e) => e,
        None => match offered_se {
            Some(e) => e,
            None => configured,
        },
    };
    (larger(interval, low), low)
}

/// What becomes of the description in an answer: `leg_a` is the port of the
/// caller's leg, `has_text` that there is a description.
pub open spec fn answer_sdp_plan(
    caller_webrtc: bool,
    has_answer: bool,
    callee_webrtc: bool,
    has_text: bool,
    leg_a: Option<u16>,
) -> SdpPlan {
    let standard = match leg_a {
        Some(p) => SdpPlan::Relay { port: p },
        None => SdpPlan::AddressOnly,
    };
    if caller_webrtc && has_answer {
        SdpPlan::Answer
    } else if !has_text {
        SdpPlan::Keep
    } else if caller_webrtc {
        standard
    } else if callee_webrtc {
        SdpPlan::Plain {
            port: match leg_a {
                Some(p) => p,
                None => 10000,
            },
        }
    } else {
        standard
    }
}

/// What becomes of the description in an answer on its way to the caller.
pub fn plan_answer_sdp(
    caller_webrtc: bool,
    has_answer: bool,
    callee_webrtc: bool,
    has_text: bool,
    leg_a: Option<u16>,
) -> (r: SdpPlan)
    ensures
        r == answer_sdp_plan(caller_webrtc, has_answer, callee_webrtc, has_text, leg_a),
{
    if caller_webrtc && has_answer {
        return SdpPlan::Answer;
    }
    if !has_text {
        return SdpPlan::Keep;
    }
    if !caller_webrtc && callee_webrtc {
        return match leg_a {
            Some(p) => SdpPlan::Plain { port: p },
            None => SdpPlan::Plain { port: 10000 },
        };
    }
    match leg_a {
        Some(p) => SdpPlan::Relay { port: p },
        None => SdpPlan::AddressOnly,
    }
}

/// How the media relay of a call stands when its answer arrives.
#[derive(Debug, Clone, Copy, PartialEq, Eq, Structural)]
pub enum RelayState {
    /// The call has no media session.
    Absent,
    /// It runs already: the answer is a retransmission.
    Running,
    /// This answer has started it.
    Started,
    /// It could not be started.
    Failed,
}

/// What an answer finds of its call.
pub struct AnswerFacts {
    /// Configured interval and floor of session timers, where they are on.
    pub timer: Option<(u32, u32)>,
    /// The callee is a trunk, to which timers are offered.
    pub toward_trunk: bool,
    /// The INVITE that is answered.
    pub offered_invite: Option<String>,
    pub relay: RelayState,
    pub caller_webrtc: bool,
    /// A WebRTC answer was made for the caller.
    pub webrtc_answer: bool,
    pub callee_webrtc: bool,
    /// Port of the caller's leg.
    pub leg_a: Option<u16>,
}

/// The dialog that an answer establishes, as its headers have it.
#[derive(Debug)]
pub struct Established {
    pub from_raw: String,
    pub to_raw: String,
    pub contact: Option<String>,
}

/// What an answer leads to, besides its relay to the caller.
#[derive(Debug)]
pub struct AnswerPlan {
    pub callee_tag: String,
    pub dialog: Option<Established>,
    /// Interval and floor of the session timer to run.
    pub timer: Option<(u32, u32)>,
    pub sdp: SdpPlan,
    /// It is the first answer of a call with media.
    pub connected: bool,
    /// The call is ended once the answer is relayed.
    pub end: Option<CallOutcome>,
}

/// The dialog of an answer: none without a From and a To.
pub open spec fn is_established(d: Option<Established>, hs: Seq<Seq<char>>) -> bool {
    match (message::from_value(hs), message::to_value(hs)) {
        (Some(f), Some(t)) => d matches Some(e) && e.from_raw@ == f && e.to_raw@ == t && text::opt_string(
            e.contact,
        ) == (match message::contact_value(hs) {
            Some(c) => Some(invite_handler::contact_uri_of(c)),
            None => None,
        }),
        _ => d is None,
    }
}

/// The timer that an answer sets: only where timers are on, towards a trunk.
pub open spec fn answer_timer(f: AnswerFacts, answer: Seq<char>) -> Option<(nat, nat)> {
    match f.timer {
        Some((configured, floor)) => if f.toward_trunk {
            Some(
                negotiated_timer(
                    configured as nat,
                    floor as nat,
                    text::opt_string(f.offered_invite),
                    answer,
                ),
            )
        } else {
            None
        },
        None => None,
    }
}

/// A call whose relay could not start would be silent on both sides, with
/// nothing to notice it: it is ended.
pub open spec fn answer_end(relay: RelayState) -> Option<CallOutcome> {
    match relay {
        RelayState::Failed => Some(CallOutcome::MediaUnavailable),
        _ => None,
    }
}

/// What an answer leads to. `raw` is the answer as it is printed.
pub fn handle_answer(response: &SipResponse, raw: &str, f: &AnswerFacts) -> (r: AnswerPlan)
    ensures
        r.callee_tag@ == callee_tag_of(response@.headers),
        is_established(r.dialog, response@.headers),
        answer_timer(*f, raw@) == (match r.timer {
            Some((a, b)) => Some((a as nat, b as nat)),
            None => None,
        }),
        r.sdp == answer_sdp_plan(
            f.caller_webrtc,
            f.webrtc_answer,
            f.callee_webrtc,
            response@.body.len() > 0 && vstd::utf8::valid_utf8(response@.body),
            f.leg_a,
        ),
        r.connected == (f.relay == RelayState::Started || f.relay == RelayState::Failed),
        r.end == answer_end(f.relay),
{
    let hs = &response.headers;
    let dialog = match (from_of(hs), to_of(hs)) {
        (Some(from_raw), Some(to_raw)) => {
            let contact = match contact_of(hs) {
                Some(c) => Some(extract_contact_uri(c.as_str())),
                None => None,
            };
            Some(Established { from_raw, to_raw, contact })
        },
        _ => None,
    };
    let timer = match f.timer {
        Some((configured, floor)) => if f.toward_trunk {
            let offered = match &f.offered_invite {
                Some(o) => Some(o.as_str()),
                None => None,
            };
            Some(negotiate_session_timer(configured, floor, offered, raw))
        } else {
            None
        },
        None => None,
    };
    let has_text = response.body.len() > 0 && utf8_text(response.body.as_slice()).is_some();
    let (connected, end) = match f.relay {
        RelayState::Absent => (false, None),
        RelayState::Running => (false, None),
        RelayState::Started => (true, None),
        RelayState::Failed => (true, Some(CallOutcome::MediaUnavailable)),
    };
    AnswerPlan {
        callee_tag: callee_tag(response),
        dialog,
        timer,
        sdp: plan_answer_sdp(
            f.caller_webrtc,
            f.webrtc_answer,
            f.callee_webrtc,
            has_text,
            f.leg_a,
        ),
        connected,
        end,
    }
}

// ── Failures ────────────────────────────────────────────────────────────

/// The outcome of a call whose final error is relayed: its code, 500 where
/// it has none.
pub open spec fn relayed_outcome(raw: Seq<char>) -> CallOutcome {
    CallOutcome::Rejected {
        code: match message::status_code(raw) {
            Some(c) => c as u16,
            None => 500,
        },
    }
}

/// A final error as the caller gets it, and the outcome of the call.
pub fn relay_error_and_terminate(
    raw_response: &str,
    caller_vias: &Vec<String>,
    identity: Option<&SbcUris>,
    caller_cseq: Option<u32>,
) -> (r: (String, CallOutcome))
    ensures
        r.0@ == provisional_text(
            raw_response@,
            text::string_views(caller_vias@),
            responses::opt_uris(identity),
            caller_cseq,
            false,
        ),
        r.1 == relayed_outcome(raw_response@),
{
    let code: u16 = match status_code_of(raw_response) {
        Some(c) => c,
        None => 500,
    };
    let text = rewrite_response_for_caller(raw_response, caller_vias, identity, caller_cseq);
    (text, CallOutcome::Rejected { code })
}

/// The acknowledgement of a final that is no answer, from the INVITE that it
/// answers.
pub fn ack_callee_final(invite_raw: &str, response: &SipResponse) -> (r: Option<String>)
    ensures
        text::opt_string(r) == (match sip_builder::invite_identity(invite_raw@) {
            Some(id) => Some(sip_builder::ack_text(id, identity::or_empty(message::to_value(response@.headers)))),
            None => None,
        }),
{
    let to = text_or_empty(to_of(&response.headers));
    build_ack_for_non_2xx(invite_raw, to.as_str())
}

// ── Answers that nobody waits for ───────────────────────────────────────

/// An INVITE that was sent to the callee's side.
pub struct InviteAttempt {
    pub raw: String,
    pub dest: String,
    /// The transport as it is named in a Via.
    pub transport: String,
    pub cseq: u32,
}

/// Why the dialog of an answer is ended that came after its call.
pub const ENDED_REASON: &'static str = "Q.850;cause=31;text=\"Call already cancelled\"";

/// Why the dialog of an answer is ended whose INVITE was superseded.
pub const SUPERSEDED_REASON: &'static str = "Q.850;cause=31;text=\"Superseded INVITE answered\"";

/// The dialog that an unwanted answer has made.
pub open spec fn orphan_dialog(
    d: DialogInfo,
    hs: Seq<Seq<char>>,
    a: InviteAttempt,
    cseq: u32,
    ip: Seq<char>,
    port: u16,
) -> bool {
    &&& d.call_id@ == identity::or_empty(message::call_id_value(hs))
    &&& d.from_raw@ == identity::or_empty(message::from_value(hs))
    &&& d.to_raw@ == identity::or_empty(message::to_value(hs))
    &&& d.request_uri@ == (match message::contact_value(hs) {
        Some(c) => invite_handler::contact_uri_of(c),
        None => "sip:"@ + a.dest@,
    })
    &&& d.cseq == cseq
    &&& d.local_ip@ == ip
    &&& d.local_port == port
    &&& d.transport@ == a.transport@
}

/// The dialog that an unwanted answer has made, with the given CSeq number.
pub fn orphan_dialog_of(
    response: &SipResponse,
    attempt: &InviteAttempt,
    cseq: u32,
    sbc_ip: &str,
    sbc_port: u16,
) -> (r: DialogInfo)
    ensures
        orphan_dialog(r, response@.headers, *attempt, cseq, sbc_ip@, sbc_port),
{
    let hs = &response.headers;
    let request_uri = match contact_of(hs) {
        Some(c) => extract_contact_uri(c.as_str()),
        None => {
            let mut s = "sip:".to_string();
            s.push_str(attempt.dest.as_str());
            s
        },
    };
    DialogInfo {
        call_id: text_or_empty(call_id_of(hs)),
        from_raw: text_or_empty(from_of(hs)),
        to_raw: text_or_empty(to_of(hs)),
        request_uri,
        cseq,
        local_ip: sbc_ip.to_string(),
        local_port: sbc_port,
        transport: attempt.transport.clone(),
    }
}

/// Acknowledge an answer that nobody waits for and end the dialog that it
/// made: the ACK and the BYE, each under a fresh branch.
pub fn ack_and_bye_answered_dialog(
    attempt: &InviteAttempt,
    response: &SipResponse,
    cseq: u32,
    sbc_ip: &str,
    sbc_port: u16,
    reason: &str,
) -> (r: (String, String))
    requires
        cseq < u32::MAX,
    ensures
        exists|d: DialogInfo, e: DialogInfo, b1: Seq<char>, b2: Seq<char>| #[trigger]
            orphan_dialog(d, response@.headers, *attempt, cseq, sbc_ip@, sbc_port)
                && #[trigger] orphan_dialog(
                e,
                response@.headers,
                *attempt,
                (cseq + 1) as u32,
                sbc_ip@,
                sbc_port,
            ) && sip_builder::is_fresh_branch(b1) && sip_builder::is_fresh_branch(b2) && r.0@ == #[trigger] orphan_ack(
                d,
                cseq,
                b1,
            ) && r.1@ == #[trigger] orphan_bye(e, reason@, b2),
{
    let d = orphan_dialog_of(response, attempt, cseq, sbc_ip, sbc_port);
    let e = orphan_dialog_of(response, attempt, cseq + 1, sbc_ip, sbc_port);
    let b1 = new_branch();
    let b2 = new_branch();
    let ack = build_ack_for_2xx_with(&d, cseq, b1.as_str());
    let bye = build_bye_with(&e, Some(reason), b2.as_str());
    proof {
        assert(sip_builder::is_fresh_branch(b1@) && sip_builder::is_fresh_branch(b2@));
        assert(orphan_dialog(d, response@.headers, *attempt, cseq, sbc_ip@, sbc_port));
        assert(orphan_dialog(
            e,
            response@.headers,
            *attempt,
            (cseq + 1) as u32,
            sbc_ip@,
            sbc_port,
        ));
        assert(ack@ == orphan_ack(d, cseq, b1@));
        assert(bye@ == orphan_bye(e, reason@, b2@));
    }
    (ack, bye)
}

/// The acknowledgement of an unwanted answer.
pub open spec fn orphan_ack(d: DialogInfo, cseq: u32, b: Seq<char>) -> Seq<char> {
    sip_builder::request_text("ACK"@, d, cseq as nat, b, Seq::empty(), Seq::empty())
}

/// The BYE that ends the dialog of an unwanted answer.
pub open spec fn orphan_bye(d: DialogInfo, reason: Seq<char>, b: Seq<char>) -> Seq<char> {
    sip_builder::request_text("BYE"@, d, d.cseq as nat, b, sip_builder::reason_extras(Some(reason)), Seq::empty())
}

/// What the answer to a superseded INVITE leads to.
#[derive(Debug, Clone, Copy, PartialEq, Eq, Structural)]
pub enum StalePlan {
    Dropped,
    /// Acknowledge it and end its dialog.
    AckAndBye { reuse_connection: bool },
    /// Acknowledge it.
    Ack { reuse_connection: bool },
}

/// What the answer to a superseded INVITE leads to; the connection of the
/// live one is used where it goes to the same peer.
pub open spec fn stale_plan(status: u16, attempt_known: bool, same_peer: bool) -> StalePlan {
    if !attempt_known || 100 <= status <= 199 {
        StalePlan::Dropped
    } else if 200 <= status <= 299 {
        StalePlan::AckAndBye { reuse_connection: same_peer }
    } else {
        StalePlan::Ack { reuse_connection: same_peer }
    }
}

/// What the answer to a superseded INVITE leads to. It never reaches the
/// caller.
pub fn handle_stale_invite_response(status: u16, attempt_known: bool, same_peer: bool) -> (r:
    StalePlan)
    ensures
        r == stale_plan(status, attempt_known, same_peer),
{
    if !attempt_known || (100 <= status && status <= 199) {
        StalePlan::Dropped
    } else if 200 <= status && status <= 299 {
        StalePlan::AckAndBye { reuse_connection: same_peer }
    } else {
        StalePlan::Ack { reuse_connection: same_peer }
    }
}

// ── Session refresh ─────────────────────────────────────────────────────

/// What the answer to a session refresh leads to.
#[derive(Debug, Clone, Copy, PartialEq, Eq, Structural)]
pub enum RefreshPlan {
    Ignored,
    /// Refreshed: acknowledge it.
    Refreshed,
    /// Refused, with the floor that a 422 names.
    Refused { min_se: Option<u32> },
}

/// What the answer to a session refresh leads to.
pub fn handle_refresh_response(status: u16, raw_resp: &str) -> (r: RefreshPlan)
    ensures
        match r {
            RefreshPlan::Ignored => 100 <= status <= 199,
            RefreshPlan::Refreshed => 200 <= status <= 299,
            RefreshPlan::Refused { min_se: m } => !(100 <= status <= 299) && (match m {
                Some(n) => status == 422 && message::min_se(raw_resp@) == Some(n as nat),
                None => status != 422 || message::min_se(raw_resp@) is None,
            }),
        },
{
    if 100 <= status && status <= 199 {
        RefreshPlan::Ignored
    } else if 200 <= status && status <= 299 {
        RefreshPlan::Refreshed
    } else if status == 422 {
        RefreshPlan::Refused { min_se: parse_min_se(raw_resp) }
    } else {
        RefreshPlan::Refused { min_se: None }
    }
}

/// The BYE for a caller whose callee no longer has the dialog, under the given
/// branch; none where the caller's dialog is not known either.
pub open spec fn lost_dialog_bye(caller: Option<DialogInfo>, status: u16, branch: Seq<char>) -> Option<
    Seq<char>,
> {
    match caller {
        Some(d) => Some(
            sip_builder::request_text(
                "BYE"@,
                d,
                d.cseq as nat,
                branch,
                sip_builder::reason_extras(cdr::reason_text(CallOutcome::DialogLost { status })),
                Seq::empty(),
            ),
        ),
        None => None,
    }
}

/// The callee no longer has the dialog (481 or 408 to a refresh, or refreshed
/// in vain too often): the caller is told, and the call ends.
pub fn teardown_lost_dialog(caller: Option<DialogInfo>, status: u16) -> (r: (
    Option<String>,
    CallOutcome,
))
    ensures
        r.1 == (CallOutcome::DialogLost { status }),
        exists|b: Seq<char>|
            sip_builder::is_fresh_branch(b) && text::opt_string(r.0) == #[trigger] lost_dialog_bye(caller, status, b),
{
    let outcome = CallOutcome::DialogLost { status };
    let branch = new_branch();
    let h = hangup_both_legs_with(&outcome, caller, None, None, None, branch.as_str());
    let bye = match h.toward_caller {
        Some((_, s)) => Some(s),
        None => None,
    };
    assert(text::opt_string(bye) == lost_dialog_bye(caller, status, branch@));
    (bye, outcome)
}

// ── A longer session interval ───────────────────────────────────────────

/// The floor that a 422 asks for, where the INVITE is tried again under it:
/// session timers are on, the response names the floor, and it is the first
/// retry of this attempt.
pub open spec fn retry_floor(raw_resp: Seq<char>, timer: Option<(u32, u32)>, retries: u32) -> Option<
    nat,
> {
    if timer is Some && retries < 1 {
        message::min_se(raw_resp)
    } else {
        None
    }
}

/// The headers without an offer of a session timer.
pub open spec fn untimed(hs: Seq<Seq<char>>) -> Seq<Seq<char>> {
    raw_message::without_header(
        raw_message::without_header(
            raw_message::without_header(
                raw_message::without_header(raw_message::without_header(hs, "Supported"@), "k"@),
                "Session-Expires"@,
            ),
            "x"@,
        ),
        "Min-SE"@,
    )
}

/// The INVITE of a new transaction that offers an interval of at least the
/// floor.
pub open spec fn longer_interval(
    raw: Seq<char>,
    expires: nat,
    floor: nat,
    branch: Seq<char>,
) -> Seq<char> {
    let renewed = sip_builder::renewed_text(raw, branch);
    let base = if headers::start_line(renewed).len() > 0 {
        let m = raw_message::raw_parts(renewed);
        raw_message::raw_text(RawView { headers: untimed(m.headers), ..m })
    } else {
        renewed
    };
    invite_handler::timed_text(base, at_least(expires, floor), floor)
}

/// Try an INVITE again that a trunk refused with 422, under a given branch:
/// with the session interval raised to the floor that the response names.
/// None where it is not tried again.
pub fn handle_422_session_interval_retry_with(
    stored_invite: Option<String>,
    raw_resp: &str,
    timer: Option<(u32, u32)>,
    retries: u32,
    branch: &str,
) -> (r: Option<String>)
    requires
        stored_invite matches Some(raw) ==> sip_builder::renewable(raw@),
    ensures
        text::opt_string(r) == (match (stored_invite, retry_floor(raw_resp@, timer, retries)) {
            (Some(raw), Some(floor)) => Some(
                longer_interval(raw@, (timer->0).0 as nat, floor, branch@),
            ),
            _ => None,
        }),
{
    let raw = match stored_invite {
        Some(raw) => raw,
        None => {
            return None;
        },
    };
    let expires: u32 = match timer {
        Some((expires, _)) => expires,
        None => {
            return None;
        },
    };
    if retries >= 1 {
        return None;
    }
    let floor: u32 = match parse_min_se(raw_resp) {
        Some(n) => n,
        None => {
            return None;
        },
    };
    let renewed = renew_invite_transaction_with(raw.as_str(), branch);
    let base: String = match RawSipMessage::parse(renewed.as_str()) {
        Some(parsed) => {
            let mut m = parsed;
            m.remove_header("Supported");
            m.remove_header("k");
            m.remove_header("Session-Expires");
            m.remove_header("x");
            m.remove_header("Min-SE");
            m.write()
        },
        None => renewed,
    };
    Some(inject_session_timer_headers(base.as_str(), larger(expires, floor), floor))
}

/// Try an INVITE again that a trunk refused with 422, under a fresh branch.
pub fn handle_422_session_interval_retry(
    stored_invite: Option<String>,
    raw_resp: &str,
    timer: Option<(u32, u32)>,
    retries: u32,
) -> (r: Option<String>)
    requires
        stored_invite matches Some(raw) ==> sip_builder::renewable(raw@),
    ensures
        match (stored_invite, retry_floor(raw_resp@, timer, retries)) {
            (Some(raw), Some(floor)) => r matches Some(t) && exists|branch: Seq<char>|
                sip_builder::is_fresh_branch(branch) && t@ == #[trigger] longer_interval(
                    raw@,
                    (timer->0).0 as nat,
                    floor,
                    branch,
                ),
            _ => r is None,
        },
{
    let branch = new_branch();
    handle_422_session_interval_retry_with(
        stored_invite,
        raw_resp,
        timer,
        retries,
        branch.as_str(),
    )
}

// ── Laws ────────────────────────────────────────────────────────────────

/// An answered call is ended for want of media exactly where its relay could
/// not start; its record says so, and that no media was relayed.
pub proof fn law_silent_call_is_ended(relay: RelayState, c: CallSnapshot, ended: u64)
    requires
        c.media is None,
    ensures
        answer_end(relay) is Some <==> relay == RelayState::Failed,
        answer_end(relay) matches Some(o) ==> {
            let record = cdr::cdr_of(c, o, ended);
            &&& record.disconnect_reason == "media-unavailable"@
            &&& record.hangup_by == "sbc"@
            &&& record.media_flags == "no-relay"@
            &&& (record.rtp_tx_caller, record.rtp_tx_callee) == (0u64, 0u64)
        },
{
}

/// A trunk that raises its floor again gets no third INVITE: one retry per
/// attempt, and none where timers are off or no floor is named.
pub proof fn law_interval_is_raised_once(
    raw_resp: Seq<char>,
    timer: Option<(u32, u32)>,
    retries: u32,
)
    ensures
        retries >= 1 ==> retry_floor(raw_resp, timer, retries) is None,
        timer is None ==> retry_floor(raw_resp, timer, retries) is None,
        message::min_se(raw_resp) is None ==> retry_floor(raw_resp, timer, retries) is None,
{
}

/// Every final of an INVITE that is no answer is acknowledged: from a live
/// call before anything else, from a superseded attempt that is known, and
/// from a call that has ended while its last INVITE is remembered.
pub proof fn law_every_refusal_is_acknowledged(
    status: u16,
    call_id: Seq<char>,
    cseq: (nat, Seq<char>),
    f: ResponseFacts,
)
    requires
        status >= 300,
        text::same_text(cseq.1, "INVITE"@),
        !is_task_call_id(call_id),
        f.call_known || f.ended_attempt_cseq == Some(cseq.0 as u32) && cseq.0 <= u32::MAX,
    ensures
        ({
            let p = response_plan(status, call_id, Some(cseq), f);
            ||| p is Refresh || p is RefreshDuplicate || p is Stale || p is OrphanRefused
            ||| p matches ResponsePlan::Challenged { ack } && ack
            ||| p matches ResponsePlan::IntervalTooSmall { ack } && ack
            ||| p matches ResponsePlan::Failed { ack, .. } && ack
        }),
{
}

/// The answer to anything but an INVITE never reaches the caller and never
/// answers the call.
pub proof fn law_only_invite_responses_reach_the_call(
    status: u16,
    call_id: Seq<char>,
    cseq: (nat, Seq<char>),
    f: ResponseFacts,
)
    requires
        !text::same_text(cseq.1, "INVITE"@),
    ensures
        ({
            let p = response_plan(status, call_id, Some(cseq), f);
            p is ToTask || p is Dropped || p is Stray
        }),
{
}

/// The answer to an INVITE that was superseded leaves the call alone.
pub proof fn law_stale_response_leaves_the_call(
    status: u16,
    call_id: Seq<char>,
    cseq: (nat, Seq<char>),
    f: ResponseFacts,
)
    requires
        f.stale,
        f.call_known,
        !f.pending_refresh,
        !f.refresh_duplicate,
        text::same_text(cseq.1, "INVITE"@),
        !is_task_call_id(call_id),
    ensures
        response_plan(status, call_id, Some(cseq), f) == ResponsePlan::Stale,
{
}

/// A session is never refreshed faster than its floor allows, and the floor
/// never below the configured one.
pub proof fn law_interval_respects_the_floor(
    configured: nat,
    floor: nat,
    offered: Option<Seq<char>>,
    answer: Seq<char>,
)
    ensures
        negotiated_timer(configured, floor, offered, answer).0 >= negotiated_timer(
            configured,
            floor,
            offered,
            answer,
        ).1,
        negotiated_timer(configured, floor, offered, answer).1 >= floor,
{
}

/// A failure of a trunk is seen by its counters as well as by the call: a
/// final that sends the call to the next trunk and is the trunk's own strikes
/// it, an answer forgives it, and a call from a trunk touches none.
pub proof fn law_finals_tell_of_the_trunk(status: u16, raw: Seq<char>, f: ResponseFacts)
    ensures
        f.direction@ != "inbound"@ && f.trunk_name is Some ==> {
            let name = text::opt_string(f.trunk_name)->0;
            let e = response_effect(by_status(status, true), status, raw, f);
            &&& 200 <= status <= 299 ==> e == Some((name, TrunkStep::Up))
            &&& trunk_state::strikes_trunk(status) ==> e is Some && (e->0).0 == name && (e->0).1
                != TrunkStep::Up
            &&& !trunk_state::strikes_trunk(status) && !(200 <= status <= 299) ==> e is None
        },
        f.direction@ == "inbound"@ ==> response_effect(by_status(status, true), status, raw, f)
            is None,
        trunk_state::strikes_trunk(status) ==> by_status(status, true) == (ResponsePlan::Failed {
            ack: true,
            try_next: true,
        }),
{
}

} // verus!
