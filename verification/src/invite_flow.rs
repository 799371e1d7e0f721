//! The way of an INVITE from the wire to its route: retransmission, admission,
//! limits of the caller, mapping of the number, blocked destinations.

use crate::cdr::{CallOutcome, CallSnapshot};
use crate::cdr;
use crate::client_tx::utf8_text;
use crate::identity::text_or_empty;
use crate::identity;
use crate::invite_handler::{Admission, AdmissionView, DidMapping, InviteFacts, InviteRoute, InviteSource, RouteFacts, SourceView, admit_invite, build_invite_407_with, caller_user, dialed_user_of, extract_callee_aor, flagged_identity, inject_session_timer_headers, invite_source, limit_refusal, map_did, refusal_with, route_invite};
use crate::invite_handler;
use crate::invite_tx::{InviteTxCache, TxView};
use crate::invite_tx;
use crate::message::{RequestView, SipRequest, from_of, parse_name_addr, parse_uri_user};
use crate::message;
use crate::responses::{build_plain_response, build_plain_response_for_request_with, build_trying, new_tag, reason_phrase};
use crate::responses;
use crate::security::destination::{DestinationDecision, DestinationPolicy, PolicyView};
use crate::security::destination;
use crate::security::manager::{EventView, SecurityEvent, mismatch_event};
use crate::security::manager;
use crate::security::user_limits::{LimitDecision, LimitsView, UserLimitsManager};
use crate::security::user_limits;
use crate::text::{chars_of, clone_opt, decimal_of, has_prefix};
use crate::text;
use crate::trunk_state::{TrunkEffect, TrunkStep, failure_step, outbound_trunk_of};
use crate::trunk_state;
use vstd::prelude::*;

verus! {

/// How an INVITE starts.
#[derive(Debug)]
pub enum InviteStart {
    /// A retransmission: the last response is sent again.
    Replayed { response: Vec<u8> },
    /// A retransmission of one that is still being processed.
    Absorbed,
    /// It belongs to a call in progress.
    Reinvite,
    /// Refused with this status; `flag` reports a claimed identity that is
    /// another's, `strike` counts against the source.
    Refused { status: u16, flag: bool, strike: bool },
    /// Refused because it requires what is not supported.
    BadExtension { unsupported: String },
    /// It must prove who it is.
    Challenged,
    /// Over a limit of its user; with the seconds to wait, where they are
    /// known, and what was decided.
    Limited { status: u16, retry_after: Option<u64>, user: String, decision: LimitDecision },
    /// A call on the account of this user to this address of record, mapped
    /// from a number or as dialed.
    Started { user: Option<String>, flag: bool, callee: Option<String>, did_mapped: bool },
}

/// A start by its contents.
pub enum StartView {
    Replayed { response: Seq<u8> },
    Absorbed,
    Reinvite,
    Refused { status: u16, flag: bool, strike: bool },
    BadExtension { unsupported: Seq<char> },
    Challenged,
    Limited { status: u16, retry_after: Option<u64>, user: Seq<char>, decision: LimitDecision },
    Started { user: Option<Seq<char>>, flag: bool, callee: Option<Seq<char>>, did_mapped: bool },
}

impl View for InviteStart {
    type V = StartView;

    open spec fn view(&self) -> StartView {
        match *self {
            InviteStart::Replayed { response } => StartView::Replayed { response: response@ },
            InviteStart::Absorbed => StartView::Absorbed,
            InviteStart::Reinvite => StartView::Reinvite,
            InviteStart::Refused { status, flag, strike } => StartView::Refused {
                status,
                flag,
                strike,
            },
            InviteStart::BadExtension { unsupported } => StartView::BadExtension {
                unsupported: unsupported@,
            },
            InviteStart::Challenged => StartView::Challenged,
            InviteStart::Limited { status, retry_after, user, decision } => StartView::Limited {
                status,
                retry_after,
                user: user@,
                decision,
            },
            InviteStart::Started { user, flag, callee, did_mapped } => StartView::Started {
                user: text::opt_string(user),
                flag,
                callee: text::opt_string(callee),
                did_mapped,
            },
        }
    }
}

/// The calls of a trunk or of this host count against no one.
pub open spec fn limited_user(source: SourceView, user: Option<Seq<char>>) -> Option<Seq<char>> {
    match source {
        SourceView::Local => None,
        SourceView::Trunk => None,
        _ => user,
    }
}

/// The address of record that a number is mapped to, where it is mapped.
pub open spec fn mapped_callee(
    dids: Seq<DidMapping>,
    callee: Option<Seq<char>>,
    domain: Option<Seq<char>>,
) -> Option<Seq<char>> {
    match callee {
        Some(aor) => match invite_handler::did_target(dids, invite_handler::dialed_user(aor)) {
            Some(user) => Some(invite_handler::mapped_aor(user, domain)),
            None => None,
        },
        None => None,
    }
}

/// A call to what the INVITE dials.
pub open spec fn started(
    q: RequestView,
    user: Option<Seq<char>>,
    flag: bool,
    dids: Seq<DidMapping>,
    domain: Option<Seq<char>>,
) -> StartView {
    let dialed = invite_handler::callee_aor(q.uri, message::to_value(q.headers));
    let mapped = mapped_callee(dids, dialed, domain);
    StartView::Started {
        user,
        flag,
        callee: match mapped {
            Some(a) => Some(a),
            None => dialed,
        },
        did_mapped: mapped is Some,
    }
}

/// What becomes of an INVITE that is no retransmission, and the limits after
/// it.
pub open spec fn fresh_start(
    q: RequestView,
    f: InviteFacts,
    dids: Seq<DidMapping>,
    domain: Option<Seq<char>>,
    limits: LimitsView,
    concurrent: u32,
    now: u64,
) -> (StartView, LimitsView) {
    match invite_handler::admission_of(q.headers, f) {
        AdmissionView::Reinvite => (StartView::Reinvite, limits),
        AdmissionView::Refused { status, flag, strike } => (
            StartView::Refused { status, flag, strike },
            limits,
        ),
        AdmissionView::BadExtension { unsupported } => (
            StartView::BadExtension { unsupported },
            limits,
        ),
        AdmissionView::Challenged => (StartView::Challenged, limits),
        AdmissionView::Admitted { user, flag } => match limited_user(invite_handler::source_in(q.headers, f), user) {
            Some(u) => {
                let (d, after) = user_limits::limit_outcome(limits, u, concurrent, now);
                match invite_handler::limit_refusal_of(d) {
                    Some((status, retry_after)) => (
                        StartView::Limited { status, retry_after, user: u, decision: d },
                        after,
                    ),
                    None => (started(q, user, flag, dids, domain), after),
                }
            },
            None => (started(q, user, flag, dids, domain), limits),
        },
    }
}

/// What becomes of an INVITE, and the transactions and limits after it.
pub open spec fn invite_start(
    txs: Seq<TxView>,
    q: RequestView,
    f: InviteFacts,
    dids: Seq<DidMapping>,
    domain: Option<Seq<char>>,
    limits: LimitsView,
    concurrent: u32,
    now: u64,
) -> (StartView, Seq<TxView>, LimitsView) {
    match invite_tx::request_tx_key(q.headers) {
        Some(key) => if invite_tx::tx_known(txs, key) {
            (
                match txs[invite_tx::tx_index(txs, key)].last_response {
                    Some(b) => StartView::Replayed { response: b },
                    None => StartView::Absorbed,
                },
                txs,
                limits,
            )
        } else {
            let (s, after) = fresh_start(q, f, dids, domain, limits, concurrent, now);
            (s, invite_tx::tx_begun(txs, key, now), after)
        },
        None => {
            let (s, after) = fresh_start(q, f, dids, domain, limits, concurrent, now);
            (s, txs, after)
        },
    }
}

/// The user whose calls an admitted INVITE counts against.
fn charged_user(request: &SipRequest, facts: &InviteFacts, user: &Option<String>) -> (r: Option<
    String,
>)
    ensures
        text::opt_string(r) == limited_user(invite_handler::source_in(request@.headers, *facts), text::opt_string(*user)),
{
    let presented = caller_user(request);
    match invite_source(
        facts.source_ip.as_str(),
        &facts.trunk_ips,
        &facts.bindings,
        &presented,
    ) {
        InviteSource::Local => None,
        InviteSource::Trunk => None,
        _ => clone_opt(user),
    }
}

/// The user whose calls an INVITE counts against, where it is let in.
pub open spec fn account_of(hs: Seq<Seq<char>>, f: InviteFacts) -> Option<Seq<char>> {
    match invite_handler::admission_of(hs, f) {
        AdmissionView::Admitted { user, .. } => limited_user(invite_handler::source_in(hs, f), user),
        _ => None,
    }
}

/// The user whose calls an INVITE counts against, where it is let in.
pub fn invite_account(request: &SipRequest, facts: &InviteFacts) -> (r: Option<String>)
    ensures
        text::opt_string(r) == account_of(request@.headers, *facts),
{
    match admit_invite(request, facts) {
        Admission::Admitted { user, .. } => charged_user(request, facts, &user),
        _ => None,
    }
}

fn start_call(
    request: &SipRequest,
    user: Option<String>,
    flag: bool,
    dids: &Vec<DidMapping>,
    domain: Option<&str>,
) -> (r: InviteStart)
    ensures
        r@ == started(request@, text::opt_string(user), flag, dids@, text::opt_str(domain)),
{
    let dialed = extract_callee_aor(request);
    let mapped: Option<String> = match &dialed {
        Some(aor) => map_did(dids, aor.as_str(), domain),
        None => None,
    };
    let did_mapped = mapped.is_some();
    let callee = match mapped {
        Some(a) => Some(a),
        None => dialed,
    };
    InviteStart::Started { user, flag, callee, did_mapped }
}

fn start_fresh(
    request: &SipRequest,
    facts: &InviteFacts,
    dids: &Vec<DidMapping>,
    domain: Option<&str>,
    limits: &mut UserLimitsManager,
    concurrent: u32,
    now: u64,
) -> (r: InviteStart)
    ensures
        (r@, final(limits)@) == fresh_start(
            request@,
            *facts,
            dids@,
            text::opt_str(domain),
            old(limits)@,
            concurrent,
            now,
        ),
{
    match admit_invite(request, facts) {
        Admission::Reinvite => InviteStart::Reinvite,
        Admission::Refused { status, flag, strike } => InviteStart::Refused {
            status,
            flag,
            strike,
        },
        Admission::BadExtension { unsupported } => InviteStart::BadExtension { unsupported },
        Admission::Challenged => InviteStart::Challenged,
        Admission::Admitted { user, flag } => {
            if let Some(u) = charged_user(request, facts, &user) {
                let d = limits.check_and_record(u.as_str(), concurrent, now);
                if let Some((status, retry_after)) = limit_refusal(&d) {
                    return InviteStart::Limited { status, retry_after, user: u, decision: d };
                }
            }
            start_call(request, user, flag, dids, domain)
        },
    }
}

/// Take an INVITE from the wire to the callee that it asks for. `domain` is
/// the SIP domain of this side, in which the users of mapped numbers are.
/// `concurrent` counts the live calls of its user; `now` is a monotonic clock in
/// milliseconds.
pub fn handle_invite(
    cache: &mut InviteTxCache,
    request: &SipRequest,
    facts: &InviteFacts,
    dids: &Vec<DidMapping>,
    domain: Option<&str>,
    limits: &mut UserLimitsManager,
    concurrent: u32,
    now: u64,
) -> (r: InviteStart)
    requires
        old(cache).wf(),
    ensures
        final(cache).wf(),
        (r@, final(cache)@, final(limits)@) == invite_start(
            old(cache)@,
            request@,
            *facts,
            dids@,
            text::opt_str(domain),
            old(limits)@,
            concurrent,
            now,
        ),
{
    if let Some(key) = InviteTxCache::key_of_request(request) {
        match cache.begin(key.as_str(), now) {
            Err(Some(response)) => {
                return InviteStart::Replayed { response };
            },
            Err(None) => {
                return InviteStart::Absorbed;
            },
            Ok(_) => {},
        }
    }
    start_fresh(request, facts, dids, domain, limits, concurrent, now)
}

// ── What an INVITE is answered at once ──────────────────────────────────

/// A refusal with one further header; without it where the request lacks
/// the headers that a response echoes.
pub open spec fn refusal_or_bare(
    hs: Seq<Seq<char>>,
    status: u16,
    name: Seq<char>,
    value: Seq<char>,
    tag: Seq<char>,
) -> Seq<char> {
    match invite_handler::refusal_text(hs, status, name, value, tag) {
        Some(t) => t,
        None => responses::bare_response(status, responses::phrase_of(status)),
    }
}

/// What an INVITE is answered as soon as it is known how it starts: a refusal
/// with its status, a challenge, the time to wait where a limit tells it, and
/// a 100 for a call that starts. A replayed response goes out as it is.
pub open spec fn start_answer(
    hs: Seq<Seq<char>>,
    s: StartView,
    challenge: Seq<char>,
    tag: Seq<char>,
) -> Option<Seq<char>> {
    match s {
        StartView::Refused { status, .. } => Some(
            responses::response_or_bare(hs, status, responses::phrase_of(status), tag),
        ),
        StartView::BadExtension { unsupported } => Some(
            refusal_or_bare(hs, 420, "Unsupported"@, unsupported, tag),
        ),
        StartView::Challenged => Some(
            refusal_or_bare(hs, 407, "Proxy-Authenticate"@, challenge, tag),
        ),
        StartView::Limited { status, retry_after, .. } => Some(
            match retry_after {
                Some(n) => refusal_or_bare(hs, status, "Retry-After"@, text::decimal(n as nat), tag),
                None => responses::response_or_bare(hs, status, responses::phrase_of(status), tag),
            },
        ),
        StartView::Started { .. } => responses::trying_response(hs),
        _ => None,
    }
}

fn refuse_or_bare(request: &SipRequest, status: u16, name: &str, value: &str, tag: &str) -> (r: String)
    ensures
        r@ == refusal_or_bare(request@.headers, status, name@, value@, tag@),
{
    match refusal_with(request, status, name, value, tag) {
        Some(t) => t,
        None => build_plain_response(status, reason_phrase(status)),
    }
}

fn plain_or_bare(request: &SipRequest, status: u16, tag: &str) -> (r: String)
    ensures
        r@ == responses::response_or_bare(request@.headers, status, responses::phrase_of(status), tag@),
{
    match build_plain_response_for_request_with(request, status, tag) {
        Some(t) => t,
        None => build_plain_response(status, reason_phrase(status)),
    }
}

/// What an INVITE is answered at once, the To of a final under a given tag.
pub fn answer_start_with(request: &SipRequest, start: &InviteStart, challenge: &str, tag: &str) -> (r:
    Option<String>)
    ensures
        text::opt_string(r) == start_answer(request@.headers, start@, challenge@, tag@),
{
    match start {
        InviteStart::Refused { status, .. } => Some(plain_or_bare(request, *status, tag)),
        InviteStart::BadExtension { unsupported } => Some(
            refuse_or_bare(request, 420, "Unsupported", unsupported.as_str(), tag),
        ),
        InviteStart::Challenged => match build_invite_407_with(request, challenge, tag) {
            Some(t) => Some(t),
            None => Some(build_plain_response(407, reason_phrase(407))),
        },
        InviteStart::Limited { status, retry_after, .. } => match retry_after {
            Some(n) => Some(
                refuse_or_bare(request, *status, "Retry-After", decimal_of(*n).as_str(), tag),
            ),
            None => Some(plain_or_bare(request, *status, tag)),
        },
        InviteStart::Started { .. } => build_trying(request),
        InviteStart::Replayed { .. } => None,
        InviteStart::Absorbed => None,
        InviteStart::Reinvite => None,
    }
}

/// What an INVITE is answered at once.
pub fn answer_start(request: &SipRequest, start: &InviteStart, challenge: &str) -> (r: Option<
    String,
>)
    ensures
        exists|tag: Seq<char>|
            responses::is_tag(tag) && text::opt_string(r) == #[trigger] start_answer(
                request@.headers,
                start@,
                challenge@,
                tag,
            ),
{
    let tag = new_tag();
    answer_start_with(request, start, challenge, tag.as_str())
}

// ── Claimed identity ────────────────────────────────────────────────────

/// Whether a start reports a claimed identity that is another's.
pub open spec fn start_flag(s: StartView) -> bool {
    match s {
        StartView::Refused { flag, .. } => flag,
        StartView::Started { flag, .. } => flag,
        _ => false,
    }
}

/// The event of an INVITE that claims an identity which is another's: who
/// claims it, what is claimed, and from where. None for any other INVITE.
pub fn identity_event(request: &SipRequest, facts: &InviteFacts, start: &InviteStart, ts: u64) -> (r:
    Option<SecurityEvent>)
    ensures
        manager::opt_event(r) == manager::mismatch_report(
            facts.source_ip@,
            invite_handler::invite_mismatch(request@.headers, *facts, start_flag(start@)),
            ts,
        ),
{
    let flag = match start {
        InviteStart::Refused { flag, .. } => *flag,
        InviteStart::Started { flag, .. } => *flag,
        _ => false,
    };
    mismatch_event(facts.source_ip.as_str(), &flagged_identity(request, facts, flag), ts)
}

// ── Destination ─────────────────────────────────────────────────────────

/// Only a call that leaves over a trunk is held against the blocked
/// destinations.
pub open spec fn leaves_by_trunk(f: RouteFacts) -> bool {
    f.contact is None && !f.did_mapped && !f.from_trunk
}

/// Rule and description that block a call.
pub open spec fn blocked_by(
    policy: PolicyView,
    dialed: Option<Seq<char>>,
    caller: Option<Seq<char>>,
    f: RouteFacts,
) -> Option<(Seq<char>, Seq<char>)> {
    match dialed {
        Some(d) => if leaves_by_trunk(f) {
            destination::destination_verdict(policy, d, caller)
        } else {
            None
        },
        None => None,
    }
}

/// Rule and description that block what an INVITE dials: the user of its
/// URI, dialed by the user of its From.
pub open spec fn invite_blocked_by(policy: PolicyView, q: RequestView, f: RouteFacts) -> Option<
    (Seq<char>, Seq<char>),
> {
    blocked_by(policy, message::wire_uri_user(q.uri), invite_handler::presented_user(q.headers), f)
}

/// Where the call of an INVITE goes. The second part tells the rule that
/// blocks it; such a refusal is counted. What is held against the rules is
/// the user of the URI that the INVITE asks for, dialed by the user of its
/// From. Whether the facts call it blocked does not matter.
pub fn route_call(destinations: &mut DestinationPolicy, request: &SipRequest, f: RouteFacts) -> (r:
    (InviteRoute, DestinationDecision))
    ensures
        destination::decision_view(r.1) == invite_blocked_by(old(destinations)@, request@, f),
        r.0 == invite_handler::route_of(RouteFacts { blocked: destination::decision_view(r.1) is Some, ..f }),
        final(destinations)@ == (PolicyView {
            blocked_total: if destination::decision_view(r.1) is Some {
                vstd::wrapping::u64_specs::wrapping_add(old(destinations)@.blocked_total, 1)
            } else {
                old(destinations)@.blocked_total
            },
            ..old(destinations)@
        }),
{
    let dialed = parse_uri_user(request.uri.as_str());
    let caller = caller_user(request);
    let by = match &caller {
        Some(u) => Some(u.as_str()),
        None => None,
    };
    match &dialed {
        Some(d) => route_dialed(destinations, Some(d.as_str()), by, f),
        None => route_dialed(destinations, None, by, f),
    }
}

/// Where a call goes, given who was dialed and by whom.
pub fn route_dialed(
    destinations: &mut DestinationPolicy,
    dialed: Option<&str>,
    caller: Option<&str>,
    f: RouteFacts,
) -> (r: (InviteRoute, DestinationDecision))
    ensures
        destination::decision_view(r.1) == blocked_by(old(destinations)@, text::opt_str(dialed), text::opt_str(caller), f),
        r.0 == invite_handler::route_of(RouteFacts { blocked: destination::decision_view(r.1) is Some, ..f }),
        final(destinations)@ == (PolicyView {
            blocked_total: if destination::decision_view(r.1) is Some {
                vstd::wrapping::u64_specs::wrapping_add(old(destinations)@.blocked_total, 1)
            } else {
                old(destinations)@.blocked_total
            },
            ..old(destinations)@
        }),
{
    let leaves = f.contact.is_none() && !f.did_mapped && !f.from_trunk;
    let mut decision = DestinationDecision::Allowed;
    if leaves {
        if let Some(d) = dialed {
            decision = destinations.check(d, caller);
        }
    }
    let blocked = match &decision {
        DestinationDecision::Blocked { .. } => true,
        DestinationDecision::Allowed => false,
    };
    let facts = RouteFacts {
        contact: f.contact,
        did_mapped: f.did_mapped,
        from_trunk: f.from_trunk,
        blocked,
        candidates: f.candidates,
        first_has_address: f.first_has_address,
    };
    let route = route_invite(&facts);
    assert(facts == RouteFacts { blocked, ..f });
    (route, decision)
}

/// What is reported of an INVITE whose destination is blocked.
pub open spec fn blocked_report(
    uri: Seq<char>,
    caller: Option<Seq<char>>,
    verdict: Option<(Seq<char>, Seq<char>)>,
    ts: u64,
) -> Option<EventView> {
    match verdict {
        Some((rule, _)) => Some(
            EventView::DestinationBlocked {
                user: caller,
                destination: identity::or_empty(message::wire_uri_user(uri)),
                rule,
                ts,
            },
        ),
        None => None,
    }
}

/// The event of an INVITE whose destination is blocked; None for one that
/// may be dialed.
pub fn blocked_event(request: &SipRequest, decision: &DestinationDecision, ts: u64) -> (r: Option<
    SecurityEvent,
>)
    ensures
        manager::opt_event(r) == blocked_report(
            request@.uri,
            invite_handler::presented_user(request@.headers),
            destination::decision_view(*decision),
            ts,
        ),
{
    match decision {
        DestinationDecision::Allowed => None,
        DestinationDecision::Blocked { rule_id, .. } => Some(
            SecurityEvent::DestinationBlocked {
                user: caller_user(request),
                destination: text_or_empty(parse_uri_user(request.uri.as_str())),
                rule: rule_id.clone(),
                ts,
            },
        ),
    }
}

/// What is reported of a user over a limit: which limit, how far and how
/// much is allowed.
pub open spec fn limit_report(user: Seq<char>, d: LimitDecision, ts: u64) -> Option<EventView> {
    match d {
        LimitDecision::Allowed => None,
        LimitDecision::ConcurrentExceeded { current, limit } => Some(
            EventView::UserLimitHit { user, kind: "concurrent"@, current, limit, ts },
        ),
        LimitDecision::RateExceeded { current, limit, .. } => Some(
            EventView::UserLimitHit { user, kind: "rate"@, current, limit, ts },
        ),
    }
}

/// The event of a user over a limit; None where the call is allowed.
pub fn limit_event(user: &str, decision: &LimitDecision, ts: u64) -> (r: Option<SecurityEvent>)
    ensures
        manager::opt_event(r) == limit_report(user@, *decision, ts),
{
    match decision {
        LimitDecision::Allowed => None,
        LimitDecision::ConcurrentExceeded { current, limit } => Some(
            SecurityEvent::UserLimitHit {
                user: user.to_string(),
                kind: "concurrent".to_string(),
                current: *current,
                limit: *limit,
                ts,
            },
        ),
        LimitDecision::RateExceeded { current, limit, .. } => Some(
            SecurityEvent::UserLimitHit {
                user: user.to_string(),
                kind: "rate".to_string(),
                current: *current,
                limit: *limit,
                ts,
            },
        ),
    }
}

/// How a call ends that goes nowhere: refused here, with the status of the
/// refusal.
pub open spec fn route_outcome(r: InviteRoute) -> Option<CallOutcome> {
    match r {
        InviteRoute::Refused { status } => Some(CallOutcome::Refused { code: status }),
        _ => None,
    }
}

/// How a call ends whose route is refused; None where it goes somewhere.
pub fn refused_route(route: &InviteRoute) -> (r: Option<CallOutcome>)
    ensures
        r == route_outcome(*route),
{
    match route {
        InviteRoute::Refused { status } => Some(CallOutcome::Refused { code: *status }),
        _ => None,
    }
}

// ── The parties of a call ───────────────────────────────────────────────

/// What is known of a call when it is set up.
#[derive(Debug)]
pub struct CallParties {
    pub caller_tag: String,
    pub caller_number: Option<String>,
    pub callee_number: Option<String>,
    pub trunk_name: Option<String>,
    /// The description that the caller offers.
    pub sdp: Option<String>,
}

/// The tag of the caller's side: that of the From, else a fresh one.
pub open spec fn caller_tag_of(hs: Seq<Seq<char>>, fresh: Seq<char>) -> Seq<char> {
    match invite_handler::from_parts(hs) {
        Some(a) => match a.tag {
            Some(t) => t,
            None => fresh,
        },
        None => fresh,
    }
}

/// The number of the caller: the user of a From that can be read.
pub open spec fn caller_number_of(hs: Seq<Seq<char>>) -> Option<Seq<char>> {
    match invite_handler::from_parts(hs) {
        Some(a) => Some(
            match a.user {
                Some(u) => u,
                None => "unknown"@,
            },
        ),
        None => None,
    }
}

/// The number of the callee: the user of a `sip:` address of record.
pub open spec fn callee_number_of(callee: Option<Seq<char>>) -> Option<Seq<char>> {
    match callee {
        Some(aor) => if text::starts_with(aor, "sip:"@) {
            Some(invite_handler::dialed_user(aor))
        } else {
            None
        },
        None => None,
    }
}

/// The description in a body, where it is text.
pub open spec fn body_description(body: Seq<u8>) -> Option<Seq<char>> {
    if body.len() > 0 && vstd::utf8::valid_utf8(body) {
        Some(vstd::utf8::decode_utf8(body))
    } else {
        None
    }
}

/// The parties of a call; it is on the trunk that was picked for it, else on
/// the one it comes from.
pub open spec fn are_parties(
    p: CallParties,
    q: RequestView,
    callee: Option<Seq<char>>,
    picked: Option<Seq<char>>,
    origin: Option<Seq<char>>,
    fresh: Seq<char>,
) -> bool {
    &&& p.caller_tag@ == caller_tag_of(q.headers, fresh)
    &&& text::opt_string(p.caller_number) == caller_number_of(q.headers)
    &&& text::opt_string(p.callee_number) == callee_number_of(callee)
    &&& text::opt_string(p.trunk_name) == cdr::or_else_text(picked, origin)
    &&& text::opt_string(p.sdp) == body_description(q.body)
}

/// The parties of the call that an INVITE sets up, given a tag for a caller
/// without one.
pub fn call_parties_with(
    request: &SipRequest,
    callee: Option<&str>,
    picked: Option<String>,
    origin: Option<String>,
    tag: &str,
) -> (r: CallParties)
    ensures
        are_parties(r, request@, text::opt_str(callee), text::opt_string(picked), text::opt_string(origin), tag@),
{
    let parts = match from_of(&request.headers) {
        Some(v) => parse_name_addr(v.as_str()),
        None => None,
    };
    assert(message::opt_name_addr(parts) == invite_handler::from_parts(request@.headers));
    let (caller_tag, caller_number) = match parts {
        Some(a) => {
            let t = match a.tag {
                Some(t) => t,
                None => tag.to_string(),
            };
            let n = match a.user {
                Some(u) => u,
                None => "unknown".to_string(),
            };
            (t, Some(n))
        },
        None => (tag.to_string(), None),
    };
    let callee_number = match callee {
        Some(aor) => {
            let c = chars_of(aor);
            if has_prefix(c.as_slice(), "sip:") {
                Some(dialed_user_of(aor))
            } else {
                None
            }
        },
        None => None,
    };
    let trunk_name = match picked {
        Some(t) => Some(t),
        None => origin,
    };
    let sdp = if request.body.len() > 0 {
        match utf8_text(request.body.as_slice()) {
            Some(s) => Some(s.to_string()),
            None => None,
        }
    } else {
        None
    };
    CallParties { caller_tag, caller_number, callee_number, trunk_name, sdp }
}

/// The parties of the call that an INVITE sets up.
pub fn call_parties(
    request: &SipRequest,
    callee: Option<&str>,
    picked: Option<String>,
    origin: Option<String>,
) -> (r: CallParties)
    ensures
        exists|fresh: Seq<char>| #[trigger]
            responses::is_tag(fresh) && are_parties(
                r,
                request@,
                text::opt_str(callee),
                text::opt_string(picked),
                text::opt_string(origin),
                fresh,
            ),
{
    let tag = new_tag();
    assert(responses::is_tag(tag@));
    call_parties_with(request, callee, picked, origin, tag.as_str())
}

/// How far the setup of a call came.
#[derive(Debug, Clone, Copy, PartialEq, Eq, Structural)]
pub enum Setup {
    /// There are no ports to anchor its media: the call was not made.
    NoMedia,
    /// Its INVITE could be sent nowhere.
    Unsent,
    /// Its INVITE is on its way.
    Sent,
}

/// The trunk of an INVITE that could not be sent has failed the call.
pub open spec fn setup_strike_of(s: Setup, trunk: Option<Seq<char>>) -> Option<
    (Seq<char>, TrunkStep),
> {
    match (s, trunk) {
        (Setup::Unsent, Some(name)) => Some((name, trunk_state::failure_of(None))),
        _ => None,
    }
}

/// What a setup tells of the trunk that the call goes out by: one to which
/// nothing can be sent has failed.
pub fn setup_strike(s: Setup, direction: &str, trunk_name: &Option<String>) -> (r: Option<TrunkEffect>)
    ensures
        trunk_state::opt_effect(r) == setup_strike_of(s, trunk_state::outbound_trunk(direction@, text::opt_string(*trunk_name))),
{
    match outbound_trunk_of(direction, trunk_name) {
        Some(trunk) => match s {
            Setup::Unsent => Some(TrunkEffect { trunk, step: failure_step(None) }),
            _ => None,
        },
        None => None,
    }
}

/// What a setup leads to: the final for the caller, and how the call ends
/// where there was one.
pub open spec fn setup_failure_of(s: Setup) -> Option<(u16, Option<CallOutcome>)> {
    match s {
        Setup::NoMedia => Some((503u16, None)),
        Setup::Unsent => Some((503u16, Some(CallOutcome::Refused { code: 503 }))),
        Setup::Sent => None,
    }
}

/// The final for a caller whose call could not be set up, and how the call
/// ends where there was one.
pub fn setup_failure(s: Setup) -> (r: Option<(u16, Option<CallOutcome>)>)
    ensures
        r == setup_failure_of(s),
{
    match s {
        Setup::NoMedia => Some((503, None)),
        Setup::Unsent => Some((503, Some(CallOutcome::Refused { code: 503 }))),
        Setup::Sent => None,
    }
}

/// The INVITE as it goes out: with an offer of a session timer where timers
/// are on and it goes to a trunk.
pub fn offer_session_timer(raw: &str, timer: Option<(u32, u32)>, toward_trunk: bool) -> (r: String)
    ensures
        r@ == (match timer {
            Some((expires, floor)) => if toward_trunk {
                invite_handler::timed_text(raw@, expires as nat, floor as nat)
            } else {
                raw@
            },
            None => raw@,
        }),
{
    match timer {
        Some((expires, floor)) => if toward_trunk {
            inject_session_timer_headers(raw, expires, floor)
        } else {
            raw.to_string()
        },
        None => raw.to_string(),
    }
}

// ── Laws ────────────────────────────────────────────────────────────────

/// A retransmitted INVITE makes no second call: it is answered with the last
/// response or absorbed, and costs its user nothing.
pub proof fn law_retransmission_makes_no_call(
    txs: Seq<TxView>,
    q: RequestView,
    f: InviteFacts,
    dids: Seq<DidMapping>,
    domain: Option<Seq<char>>,
    limits: LimitsView,
    concurrent: u32,
    now: u64,
    key: Seq<char>,
)
    requires
        invite_tx::request_tx_key(q.headers) == Some(key),
        invite_tx::tx_known(txs, key),
    ensures
        ({
            let (s, after, left) = invite_start(
                txs,
                q,
                f,
                dids,
                domain,
                limits,
                concurrent,
                now,
            );
            (s is Replayed || s is Absorbed) && after == txs && left == limits
        }),
{
}

/// An INVITE that is refused or challenged costs its user no attempt, and no
/// call is started for it.
pub proof fn law_refused_invite_costs_nothing(
    q: RequestView,
    f: InviteFacts,
    dids: Seq<DidMapping>,
    domain: Option<Seq<char>>,
    limits: LimitsView,
    concurrent: u32,
    now: u64,
)
    requires
        !(invite_handler::admission_of(q.headers, f) is Admitted),
    ensures
        fresh_start(q, f, dids, domain, limits, concurrent, now).1 == limits,
        !(fresh_start(q, f, dids, domain, limits, concurrent, now).0 is Started),
{
}

/// A user at the limit of concurrent calls starts no further one.
pub proof fn law_full_user_starts_no_call(
    q: RequestView,
    f: InviteFacts,
    dids: Seq<DidMapping>,
    domain: Option<Seq<char>>,
    limits: LimitsView,
    concurrent: u32,
    now: u64,
    user: Seq<char>,
)
    requires
        invite_handler::admission_of(q.headers, f) matches AdmissionView::Admitted { user: u, .. } && limited_user(
            invite_handler::source_in(q.headers, f),
            u,
        ) == Some(user),
        limits.enabled,
        user_limits::effective_limits(limits, user).0 > 0,
        concurrent >= user_limits::effective_limits(limits, user).0,
    ensures
        fresh_start(q, f, dids, domain, limits, concurrent, now).0 == (StartView::Limited {
            status: 403,
            retry_after: None,
            user,
            decision: LimitDecision::ConcurrentExceeded {
                current: concurrent,
                limit: user_limits::effective_limits(limits, user).0,
            },
        }),
{
}

/// An INVITE that is flagged is reported, let in or not: from a trunk as
/// "trunk" with the address that it presents, from anyone else with the user
/// that they are and the user that they present, which are not the same.
pub proof fn law_flagged_invite_is_reported(
    q: RequestView,
    f: InviteFacts,
    dids: Seq<DidMapping>,
    domain: Option<Seq<char>>,
    limits: LimitsView,
    concurrent: u32,
    now: u64,
    ts: u64,
)
    ensures
        ({
            let hs = q.headers;
            let flagged = match invite_handler::admission_of(hs, f) {
                AdmissionView::Refused { flag, .. } => flag,
                AdmissionView::Admitted { flag, .. } => flag,
                _ => false,
            };
            let s = fresh_start(q, f, dids, domain, limits, concurrent, now).0;
            let e = manager::mismatch_report(f.source_ip@, invite_handler::invite_mismatch(hs, f, start_flag(s)), ts);
            &&& !flagged ==> e is None
            &&& flagged ==> match invite_handler::source_in(hs, f) {
                SourceView::Trunk => invite_handler::claims_of(hs, f).from_is_local && e == Some(
                    EventView::IdentityMismatch {
                        ip: f.source_ip@,
                        user: "trunk"@,
                        claimed: identity::addr_spec_of(identity::or_empty(message::from_value(hs))),
                        method: "INVITE"@,
                        ts,
                    },
                ),
                SourceView::Registered { user } => invite_handler::presented_user(hs) != Some(user) && e == Some(
                    EventView::IdentityMismatch {
                        ip: f.source_ip@,
                        user,
                        claimed: identity::or_empty(invite_handler::presented_user(hs)),
                        method: "INVITE"@,
                        ts,
                    },
                ),
                SourceView::Unknown => f.proof is Valid && invite_handler::presented_user(hs) != Some(
                    f.proof->user@,
                ) && e == Some(
                    EventView::IdentityMismatch {
                        ip: f.source_ip@,
                        user: f.proof->user@,
                        claimed: identity::or_empty(invite_handler::presented_user(hs)),
                        method: "INVITE"@,
                        ts,
                    },
                ),
                SourceView::Local => false,
            }
        }),
{
}

/// A blocked destination is not dialed: where a rule blocks the number that
/// an INVITE asks for, dialed by the user of its From, and the call would
/// leave over a trunk, it is refused 403, reaches no trunk, and is reported
/// with that number, user and rule.
pub proof fn law_blocked_destination_is_not_dialed(
    policy: PolicyView,
    q: RequestView,
    f: RouteFacts,
    ts: u64,
)
    requires
        leaves_by_trunk(f),
        message::wire_uri_user(q.uri) is Some,
        destination::destination_verdict(policy, message::wire_uri_user(q.uri)->0, invite_handler::presented_user(q.headers)) is Some,
    ensures
        invite_blocked_by(policy, q, f) is Some,
        invite_handler::route_of(RouteFacts { blocked: invite_blocked_by(policy, q, f) is Some, ..f }) == (
        InviteRoute::Refused { status: 403 }),
        blocked_report(q.uri, invite_handler::presented_user(q.headers), invite_blocked_by(policy, q, f), ts)
            matches Some(EventView::DestinationBlocked { user, destination, .. }) && user
            == invite_handler::presented_user(q.headers) && destination == message::wire_uri_user(q.uri)->0,
{
}

/// A call whose route is refused is recorded with the code that its caller
/// got, as refused here, on the trunk that it is charged to and in the
/// direction that it has, and that trunk counts it as failed.
pub proof fn law_refused_route_is_recorded(f: RouteFacts, c: CallSnapshot, ended: u64)
    requires
        invite_handler::route_of(f) is Refused,
        c.answered_at is None,
    ensures
        ({
            let status = invite_handler::route_of(f)->status;
            let o = route_outcome(invite_handler::route_of(f))->0;
            let e = cdr::ended_of(c, o, ended);
            &&& o == (CallOutcome::Refused { code: status })
            &&& e.record.sip_code == Some(status)
            &&& e.record.disconnect_reason == "rejected-"@ + text::decimal(status as nat)
            &&& e.record.hangup_by == "sbc"@
            &&& e.record.direction == c.direction@
            &&& e.record.trunk_id == text::opt_string(c.trunk_name)
            &&& e.record.answered is None
            &&& e.left == text::opt_string(c.trunk_counted)
            &&& c.trunk_name is Some ==> e.label == Some("failed"@)
        }),
{
}

/// A call that could not be set up is refused to its caller with the code
/// that its record shows, as refused here.
pub proof fn law_failed_setup_is_recorded(s: Setup, c: CallSnapshot, ended: u64)
    requires
        c.answered_at is None,
    ensures
        setup_failure_of(s) is None <==> s == Setup::Sent,
        setup_failure_of(s) matches Some((code, Some(o))) ==> {
            let record = cdr::cdr_of(c, o, ended);
            record.sip_code == Some(code) && record.hangup_by == "sbc"@
        },
{
}

/// A refused INVITE is told why: its answer begins with the status line of
/// the refusal, that of a challenge with 407 and that of an extension that is
/// not supported with 420, whatever the request looks like.
pub proof fn law_refused_invite_is_answered(
    hs: Seq<Seq<char>>,
    s: StartView,
    challenge: Seq<char>,
    tag: Seq<char>,
)
    requires
        s is Refused || s is BadExtension || s is Challenged || s is Limited,
    ensures
        ({
            let status = match s {
                StartView::Refused { status, .. } => status,
                StartView::Limited { status, .. } => status,
                StartView::BadExtension { .. } => 420u16,
                _ => 407u16,
            };
            &&& start_answer(hs, s, challenge, tag) is Some
            &&& text::starts_with(
                start_answer(hs, s, challenge, tag)->0,
                responses::status_line(status) + text::crlf(),
            )
        }),
{
    let status = match s {
        StartView::Refused { status, .. } => status,
        StartView::Limited { status, .. } => status,
        StartView::BadExtension { .. } => 420u16,
        _ => 407u16,
    };
    let a = start_answer(hs, s, challenge, tag)->0;
    let head = responses::status_line(status) + text::crlf();
    assert(a.subrange(0, head.len() as int) =~= head);
}

} // verus!
