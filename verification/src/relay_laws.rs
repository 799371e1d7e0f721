//! What is promised of an INVITE on its way: its start, its parties, the
//! trunks that are tried for it, and the requests that go with it.

use crate::call_handler::{AckFacts, Binding};
use crate::call_handler;
use crate::cdr::{CallOutcome, CallSnapshot};
use crate::cdr;
use crate::client_tx::Transport;
use crate::client_tx;
use crate::engine::SbcIdentity;
use crate::engine;
use crate::headers;
use crate::identity;
use crate::invite_flow::{CallParties, Setup, StartView};
use crate::invite_flow;
use crate::invite_handler::{AdmissionView, Candidate, DidMapping, Failover, InviteFacts, Proof, RouteFacts, SlowAttempt, SourceView, TrunkAuth};
use crate::invite_handler;
use crate::invite_tx::TxView;
use crate::invite_tx;
use crate::leg_requests;
use crate::message::RequestView;
use crate::message;
use crate::raw_message::RawView;
use crate::raw_message;
use crate::record_laws;
use crate::register::RegisterAuth;
use crate::register;
use crate::response_handler::{Established, InviteAttempt};
use crate::response_handler;
use crate::responses;
use crate::security::destination::PolicyView;
use crate::security::destination;
use crate::security::manager::EventView;
use crate::security::user_limits::{LimitDecision, LimitsView};
use crate::security::user_limits;
use crate::sip_builder::{DialogInfo, IdentityView};
use crate::sip_builder;
use crate::text;
use crate::text_laws;
use crate::trunk_state;
use vstd::prelude::*;

verus! {

// ── Start ───────────────────────────────────────────────────────────────

/// An INVITE that came before starts nothing: it is answered as it was, or
/// not at all while there is no answer, and counts for nothing.
pub proof fn law_retransmission_starts_nothing(
    txs: Seq<TxView>,
    q: RequestView,
    f: InviteFacts,
    dids: Seq<DidMapping>,
    domain: Option<Seq<char>>,
    limits: LimitsView,
    concurrent: u32,
    now: u64,
    i: int,
)
    requires
        0 <= i < txs.len(),
        invite_tx::request_tx_key(q.headers) == Some(txs[i].key),
        forall|j: int| 0 <= j < i ==> (#[trigger] txs[j]).key != txs[i].key,
    ensures
        ({
            let (s, t, l) = invite_flow::invite_start(txs, q, f, dids, domain, limits, concurrent, now);
            &&& t == txs
            &&& l == limits
            &&& txs[i].last_response matches Some(b) ==> s == (StartView::Replayed { response: b })
            &&& txs[i].last_response is None ==> s == StartView::Absorbed
        }),
{
    lemma_tx_at(txs, txs[i].key, i);
}

proof fn lemma_tx_at(txs: Seq<TxView>, key: Seq<char>, i: int)
    requires
        0 <= i < txs.len(),
        txs[i].key == key,
        forall|j: int| 0 <= j < i ==> (#[trigger] txs[j]).key != key,
    ensures
        invite_tx::tx_known(txs, key),
        invite_tx::tx_index(txs, key) == i,
    decreases i,
{
    if i > 0 {
        let t = txs.skip(1);
        assert(t[i - 1] == txs[i]);
        assert forall|j: int| 0 <= j < i - 1 implies (#[trigger] t[j]).key != key by {
            assert(t[j] == txs[j + 1]);
        }
        lemma_tx_at(t, key, i - 1);
    }
}

/// Whose calls an INVITE counts against: those of a trunk or of this host
/// against no one, any other against its user.
pub proof fn law_whose_calls_count(source: SourceView, user: Option<Seq<char>>)
    ensures
        source is Local || source is Trunk ==> invite_flow::limited_user(source, user) is None,
        source is Registered || source is Unknown ==> invite_flow::limited_user(source, user) == user,
{
}

/// Only an INVITE that is let in counts against a limit; it starts a call
/// unless its user is over one, and is refused as the limit tells.
pub proof fn law_limits_hold_back_calls(
    q: RequestView,
    f: InviteFacts,
    dids: Seq<DidMapping>,
    domain: Option<Seq<char>>,
    limits: LimitsView,
    concurrent: u32,
    now: u64,
)
    ensures
        ({
            let (s, after) = invite_flow::fresh_start(q, f, dids, domain, limits, concurrent, now);
            let a = invite_handler::admission_of(q.headers, f);
            &&& !(a is Admitted) ==> after == limits && !(s is Started) && !(s is Limited)
            &&& a is Reinvite <==> s is Reinvite
            &&& a is Challenged <==> s is Challenged
            &&& a matches AdmissionView::Refused { status, flag, strike } ==> s == (
            StartView::Refused { status, flag, strike })
            &&& a matches AdmissionView::BadExtension { unsupported } ==> s == (
            StartView::BadExtension { unsupported })
            &&& a is Admitted ==> match invite_flow::account_of(q.headers, f) {
                None => s is Started && after == limits,
                Some(u) => {
                    let d = user_limits::limit_outcome(limits, u, concurrent, now).0;
                    &&& after == user_limits::limit_outcome(limits, u, concurrent, now).1
                    &&& s is Started <==> d is Allowed
                    &&& d is ConcurrentExceeded ==> s == (StartView::Limited {
                        status: 403,
                        retry_after: None,
                        user: u,
                        decision: d,
                    })
                    &&& d matches LimitDecision::RateExceeded { retry_after_secs, .. } ==> s == (
                    StartView::Limited {
                        status: 503,
                        retry_after: Some(retry_after_secs),
                        user: u,
                        decision: d,
                    })
                },
            }
            &&& s matches StartView::Started { user, flag, .. } ==> a == (AdmissionView::Admitted {
                user,
                flag,
            })
            &&& s matches StartView::Started { callee, did_mapped, .. } ==> ({
                let dialed = invite_handler::callee_aor(q.uri, message::to_value(q.headers));
                let to = invite_flow::mapped_callee(dids, dialed, domain);
                did_mapped == (to is Some) && (to is Some ==> callee == to) && (to is None ==> callee
                    == dialed)
            })
        }),
{
}

/// What each start is answered at once: a refusal with its own status, an
/// unsupported extension 420, a challenge 407, a rate limit with the time to
/// wait; what was answered before, or belongs to a call, gets nothing here.
pub proof fn law_answer_of_each_start(
    hs: Seq<Seq<char>>,
    s: StartView,
    challenge: Seq<char>,
    tag: Seq<char>,
)
    ensures
        s is Replayed || s is Absorbed || s is Reinvite ==> invite_flow::start_answer(hs, s, challenge, tag)
            is None,
        s matches StartView::Refused { status, .. } ==> invite_flow::start_answer(hs, s, challenge, tag) == Some(
            responses::response_or_bare(hs, status, responses::phrase_of(status), tag),
        ),
        s matches StartView::BadExtension { unsupported } ==> invite_flow::start_answer(hs, s, challenge, tag)
            == Some(invite_flow::refusal_or_bare(hs, 420, "Unsupported"@, unsupported, tag)),
        s is Challenged ==> invite_flow::start_answer(hs, s, challenge, tag) == Some(
            invite_flow::refusal_or_bare(hs, 407, "Proxy-Authenticate"@, challenge, tag),
        ),
        s matches StartView::Limited { status, retry_after: Some(n), .. } ==> invite_flow::start_answer(
            hs,
            s,
            challenge,
            tag,
        ) == Some(invite_flow::refusal_or_bare(hs, status, "Retry-After"@, text::decimal(n as nat), tag)),
        s matches StartView::Limited { status, retry_after: None, .. } ==> invite_flow::start_answer(
            hs,
            s,
            challenge,
            tag,
        ) == Some(responses::response_or_bare(hs, status, responses::phrase_of(status), tag)),
        s is Started ==> invite_flow::start_answer(hs, s, challenge, tag) == responses::trying_response(hs),
        invite_flow::start_flag(s) ==> s is Refused || s is Started,
{
}

/// The refusal of a limit: too many calls at once are forbidden, too many in
/// a while are told when to come back, and a call within both is refused
/// nothing.
pub proof fn law_refusal_of_each_limit(d: LimitDecision)
    ensures
        d is Allowed <==> invite_handler::limit_refusal_of(d) is None,
        d is ConcurrentExceeded ==> invite_handler::limit_refusal_of(d) == Some((403u16, None::<u64>)),
        d matches LimitDecision::RateExceeded { retry_after_secs, .. } ==> invite_handler::limit_refusal_of(d)
            == Some((503u16, Some(retry_after_secs))),
{
}

/// A limit that is hit is told with its kind, how far the user went and what
/// is allowed; a call within its limits is not told of.
pub proof fn law_report_of_each_limit(user: Seq<char>, d: LimitDecision, ts: u64)
    ensures
        d is Allowed <==> invite_flow::limit_report(user, d, ts) is None,
        d matches LimitDecision::ConcurrentExceeded { current, limit } ==> invite_flow::limit_report(user, d, ts)
            == Some(EventView::UserLimitHit { user, kind: "concurrent"@, current, limit, ts }),
        d matches LimitDecision::RateExceeded { current, limit, .. } ==> invite_flow::limit_report(user, d, ts)
            == Some(EventView::UserLimitHit { user, kind: "rate"@, current, limit, ts }),
{
}

/// Only what leaves over a trunk can be blocked: a call to someone
/// registered, to a mapped number or from a trunk is not.
pub proof fn law_what_can_be_blocked(
    policy: PolicyView,
    dialed: Option<Seq<char>>,
    caller: Option<Seq<char>>,
    f: RouteFacts,
)
    ensures
        f.contact is Some || f.did_mapped || f.from_trunk || dialed is None ==> invite_flow::blocked_by(
            policy,
            dialed,
            caller,
            f,
        ) is None,
        f.contact is None && !f.did_mapped && !f.from_trunk && dialed is Some ==> invite_flow::blocked_by(
            policy,
            dialed,
            caller,
            f,
        ) == destination::destination_verdict(policy, dialed->0, caller),
{
}

/// A blocked call is told with the rule that blocks it and the number that
/// was dialed.
pub proof fn law_report_of_a_block(
    uri: Seq<char>,
    caller: Option<Seq<char>>,
    verdict: Option<(Seq<char>, Seq<char>)>,
    ts: u64,
)
    ensures
        invite_flow::blocked_report(uri, caller, verdict, ts) is Some <==> verdict is Some,
        verdict matches Some((rule, _)) ==> message::wire_uri_user(uri) is Some ==> invite_flow::blocked_report(
            uri,
            caller,
            verdict,
            ts,
        ) == Some(
            EventView::DestinationBlocked {
                user: caller,
                destination: message::wire_uri_user(uri)->0,
                rule,
                ts,
            },
        ),
{
}

// ── Identities ──────────────────────────────────────────────────────────

/// Behind one address the user that is presented counts where it is
/// registered there, else the first that is; an address without a
/// registration stands for no one.
pub proof fn law_user_behind_an_address(
    s: Seq<Binding>,
    ip: Seq<char>,
    presented: Option<Seq<char>>,
    k: int,
)
    requires
        0 <= k < s.len(),
        s[k].received_ip@ == ip,
        forall|j: int| 0 <= j < k ==> (#[trigger] s[j]).received_ip@ != ip,
    ensures
        presented matches Some(u) ==> ((exists|i: int|
            0 <= i < s.len() && (#[trigger] s[i]).received_ip@ == ip && invite_handler::dialed_user(s[i].aor@) == u)
            ==> invite_handler::bound_user(s, ip, presented) == Some(u)),
        presented matches Some(u) ==> (!(exists|i: int|
            0 <= i < s.len() && (#[trigger] s[i]).received_ip@ == ip && invite_handler::dialed_user(s[i].aor@) == u)
            ==> invite_handler::bound_user(s, ip, presented) == Some(invite_handler::dialed_user(s[k].aor@))),
        presented is None ==> invite_handler::bound_user(s, ip, presented) == Some(invite_handler::dialed_user(s[k].aor@)),
{
    lemma_first_registered(s, ip, k);
}

proof fn lemma_first_registered(s: Seq<Binding>, ip: Seq<char>, k: int)
    requires
        0 <= k < s.len(),
        s[k].received_ip@ == ip,
        forall|j: int| 0 <= j < k ==> (#[trigger] s[j]).received_ip@ != ip,
    ensures
        invite_handler::registered_from(s, ip) == Some(s[k]),
    decreases k,
{
    if k > 0 {
        let t = s.skip(1);
        assert(t[k - 1] == s[k]);
        assert forall|j: int| 0 <= j < k - 1 implies (#[trigger] t[j]).received_ip@ != ip by {
            assert(t[j] == s[j + 1]);
        }
        lemma_first_registered(t, ip, k - 1);
    }
}

/// Who is said to have claimed an identity: a trunk as such, a registered
/// host by its user, and anyone else by the user that they proved.
pub proof fn law_who_claimed(
    presented: Option<Seq<char>>,
    from: Seq<char>,
    source: SourceView,
    proved: Proof,
)
    ensures
        invite_handler::claimed_identity(presented, from, source, proved).2 == "INVITE"@,
        source is Trunk ==> invite_handler::claimed_identity(presented, from, source, proved).0 == "trunk"@
            && invite_handler::claimed_identity(presented, from, source, proved).1 == identity::addr_spec_of(from),
        source matches SourceView::Registered { user } ==> invite_handler::claimed_identity(
            presented,
            from,
            source,
            proved,
        ).0 == user,
        (source is Unknown || source is Local) && !(proved is Valid) ==> invite_handler::claimed_identity(
            presented,
            from,
            source,
            proved,
        ).0.len() == 0,
        source is Unknown || source is Local ==> (proved matches Proof::Valid { user }
            ==> invite_handler::claimed_identity(presented, from, source, proved).0 == user@),
        !(source is Trunk) ==> (presented matches Some(u) ==> invite_handler::claimed_identity(
            presented,
            from,
            source,
            proved,
        ).1 == u),
{
}

// ── Parties of a call ───────────────────────────────────────────────────

/// The parties of a call: its caller by tag and number, its callee by the
/// user of its address, and the trunk that was picked before the one that it
/// came in by.
pub proof fn law_parties_of_a_call(
    p: CallParties,
    q: RequestView,
    callee: Option<Seq<char>>,
    picked: Option<Seq<char>>,
    origin: Option<Seq<char>>,
    fresh: Seq<char>,
)
    requires
        invite_flow::are_parties(p, q, callee, picked, origin, fresh),
    ensures
        picked is Some ==> text::opt_string(p.trunk_name) == picked,
        picked is None ==> text::opt_string(p.trunk_name) == origin,
        message::from_value(q.headers) matches Some(v) ==> (message::name_addr(v) matches Some(a) ==> {
            &&& a.tag matches Some(t) ==> p.caller_tag@ == t
            &&& a.tag is None ==> p.caller_tag@ == fresh
            &&& a.user is Some ==> text::opt_string(p.caller_number) == a.user
            &&& a.user is None ==> text::opt_string(p.caller_number) == Some("unknown"@)
        }),
        message::from_value(q.headers) is None ==> p.caller_number is None && p.caller_tag@ == fresh,
        callee matches Some(a) ==> (text::starts_with(a, "sip:"@) ==> text::opt_string(p.callee_number) == Some(
            invite_handler::dialed_user(a),
        )),
        callee matches Some(a) ==> (!text::starts_with(a, "sip:"@) ==> p.callee_number is None),
        callee is None ==> p.callee_number is None,
        p.sdp is Some <==> q.body.len() > 0 && vstd::utf8::valid_utf8(q.body),
        p.sdp matches Some(t) ==> t@ == vstd::utf8::decode_utf8(q.body),
{
}

/// A call that cannot be sent anywhere is 503, and counts against its trunk;
/// one without ports is 503 and no one's fault.
pub proof fn law_failed_setups(s: Setup, trunk: Option<Seq<char>>)
    ensures
        invite_flow::setup_failure_of(s) is None <==> s == Setup::Sent,
        invite_flow::setup_failure_of(s) matches Some((code, _)) ==> code == 503,
        invite_flow::setup_failure_of(Setup::Unsent) == Some((503u16, Some(CallOutcome::Refused { code: 503 }))),
        invite_flow::setup_failure_of(Setup::NoMedia) == Some((503u16, None::<CallOutcome>)),
        invite_flow::setup_strike_of(s, trunk) is Some <==> s == Setup::Unsent && trunk is Some,
        invite_flow::setup_strike_of(s, trunk) matches Some((name, step)) ==> trunk == Some(name) && step
            == trunk_state::failure_of(None),
{
}

// ── Trunks that are tried ───────────────────────────────────────────────

/// The next trunk is the first of those left that is known and has an
/// address.
pub proof fn law_next_trunk_is_the_first_usable(s: Seq<Candidate>)
    ensures
        invite_handler::next_usable(s) matches Some(i) ==> 0 <= i < s.len() && s[i].known && s[i].has_address,
        invite_handler::next_usable(s) matches Some(i) ==> forall|j: int|
            0 <= j < i ==> !(#[trigger] s[j]).known || !s[j].has_address,
        invite_handler::next_usable(s) is None ==> forall|j: int|
            0 <= j < s.len() ==> !(#[trigger] s[j]).known || !s[j].has_address,
    decreases s.len(),
{
    if s.len() > 0 && !(s[0].known && s[0].has_address) {
        let t = s.skip(1);
        law_next_trunk_is_the_first_usable(t);
        match invite_handler::next_usable(t) {
            Some(k) => {
                assert(t[k] == s[k + 1]);
                assert forall|j: int| 0 <= j < k + 1 implies !(#[trigger] s[j]).known
                    || !s[j].has_address by {
                    if j > 0 {
                        assert(t[j - 1] == s[j]);
                    }
                }
            },
            None => {
                assert forall|j: int| 0 <= j < s.len() implies !(#[trigger] s[j]).known
                    || !s[j].has_address by {
                    if j > 0 {
                        assert(t[j - 1] == s[j]);
                    }
                }
            },
        }
    }
}

/// The calls that go on to another trunk are those that have one left, in
/// their order, and a trunk that stayed silent is told against.
pub proof fn law_slow_trunks_are_left(s: Seq<SlowAttempt>)
    ensures
        invite_handler::failing_over(s) == s.filter(|a: SlowAttempt| a.has_next).map_values(
            |a: SlowAttempt|
                (
                    a.uuid@,
                    trunk_state::silent_trunk(a.direction@, text::opt_string(a.trunk_name), a.callee_responded),
                ),
        ),
    decreases s.len(),
{
    reveal(Seq::filter);
    let keep = |a: SlowAttempt| a.has_next;
    let tell = |a: SlowAttempt|
        (a.uuid@, trunk_state::silent_trunk(a.direction@, text::opt_string(a.trunk_name), a.callee_responded));
    if s.len() > 0 {
        law_slow_trunks_are_left(s.drop_last());
    }
    assert(invite_handler::failing_over(s) =~= s.filter(keep).map_values(tell));
}

/// A trunk that was asked before and is left gets its own INVITE cancelled;
/// one that was not is sent nothing.
pub proof fn law_left_trunk_is_cancelled(
    f: Failover,
    raw: Seq<char>,
    previous_known: bool,
    number: Seq<char>,
    host: Seq<char>,
    port: u16,
    branch: Seq<char>,
)
    requires
        invite_handler::is_failover(f, raw, previous_known, number, host, port, branch),
    ensures
        !previous_known ==> f.cancel is None,
        previous_known && sip_builder::invite_identity(raw) is Some ==> text::opt_string(f.cancel) == Some(
            sip_builder::cancel_text(sip_builder::invite_identity(raw)->0),
        ),
        text::opt_string(f.invite) == invite_handler::retargeted_text(raw, number, host, port, branch),
{
}

/// An INVITE that goes on to another trunk asks that trunk for the number,
/// under the version that it had; what is no INVITE, or asks for no SIP
/// address, does not go on.
pub proof fn law_invite_of_the_next_trunk(
    raw: Seq<char>,
    uri: Seq<char>,
    version: Seq<char>,
    number: Seq<char>,
    host: Seq<char>,
    port: u16,
    b: Seq<char>,
)
    requires
        text::lines(raw)[0] == "INVITE"@ + seq![' '] + (uri + seq![' '] + version),
        !uri.contains(' '),
    ensures
        text::starts_with(uri, "sip:"@) || text::starts_with(uri, "sips:"@) ==> invite_handler::retargeted_text(
            raw,
            number,
            host,
            port,
            b,
        ) == Some(
            text::join_lines(
                seq![
                    "INVITE sip:"@ + number + "@"@ + host + ":"@ + text::decimal(port as nat) + " "@
                        + version,
                ] + invite_handler::rebranched(text::lines(raw).skip(1), b),
            ),
        ),
        !text::starts_with(uri, "sip:"@) && !text::starts_with(uri, "sips:"@) ==> invite_handler::retargeted_text(
            raw,
            number,
            host,
            port,
            b,
        ) is None,
{
    reveal_strlit("INVITE");
    assert(!"INVITE"@.contains(' '));
    text_laws::law_parts_are_read_apart("INVITE"@, ' ', uri + seq![' '] + version);
    text_laws::law_parts_are_read_apart(uri, ' ', version);
}

/// Only an INVITE goes on to another trunk.
pub proof fn law_only_an_invite_goes_on(
    raw: Seq<char>,
    method: Seq<char>,
    rest: Seq<char>,
    number: Seq<char>,
    host: Seq<char>,
    port: u16,
    b: Seq<char>,
)
    requires
        text::lines(raw)[0] == method + seq![' '] + rest,
        !method.contains(' '),
        method != "INVITE"@,
    ensures
        invite_handler::retargeted_text(raw, number, host, port, b) is None,
{
    text_laws::law_parts_are_read_apart(method, ' ', rest);
}

/// A challenge is answered once, where the INVITE is still known and the
/// trunk asks for credentials and has both of them.
pub proof fn law_when_a_challenge_is_answered(
    invite: Seq<char>,
    tries: u32,
    t: TrunkAuth,
    challenge: Option<Seq<char>>,
)
    ensures
        invite_handler::retry_possible(Some((invite, tries)), Some(t), challenge) <==> tries == 0 && invite.len() > 0
            && t.auth_required && t.username is Some && t.password is Some && challenge is Some,
        !invite_handler::retry_possible(None, Some(t), challenge),
        !invite_handler::retry_possible(Some((invite, tries)), None, challenge),
{
}

// ── Addresses and timers ────────────────────────────────────────────────

/// The address of a Contact is what stands between its brackets.
pub proof fn law_address_of_a_contact(a: Seq<char>, uri: Seq<char>, b: Seq<char>)
    requires
        !a.contains('<'),
        !a.contains('>'),
        !uri.contains('>'),
    ensures
        invite_handler::contact_uri_of(a + seq!['<'] + uri + seq!['>'] + b) == uri,
{
    let v = a + seq!['<'] + uri + seq!['>'] + b;
    let i = a.len() as int;
    let j = i + 1 + uri.len();
    assert(v[i] == '<' && v[j] == '>');
    assert forall|k: int| 0 <= k < i implies v[k] != '<' && v[k] != '>' by {
        assert(v[k] == a[k] && a.contains(a[k]));
    }
    assert forall|k: int| 0 <= k < j implies v[k] != '>' by {
        if k > i {
            assert(v[k] == uri[k - i - 1] && uri.contains(uri[k - i - 1]));
        }
    }
    text::lemma_find_char_is(v, '<', 0, i);
    text::lemma_find_char_is(v, '>', 0, j);
    assert(v.subrange(i + 1, j) =~= uri);
}

/// A Contact without brackets is its own address, up to the next one.
pub proof fn law_address_of_a_bare_contact(uri: Seq<char>, more: Seq<char>)
    requires
        !uri.contains(','),
        !(uri + seq![','] + more).contains('<'),
    ensures
        invite_handler::contact_uri_of(uri + seq![','] + more) == text::trim(uri),
        invite_handler::contact_uri_of(uri) == text::trim(uri),
{
    let v = uri + seq![','] + more;
    assert forall|k: int| 0 <= k < v.len() implies v[k] != '<' by {
        assert(v.contains(v[k]));
    }
    assert forall|k: int| 0 <= k < uri.len() implies uri[k] != '<' by {
        assert(v[k] == uri[k]);
    }
    text::lemma_find_char_is(v, '<', 0, v.len() as int);
    text::lemma_find_char_is(uri, '<', 0, uri.len() as int);
    text_laws::law_parts_are_read_apart(uri, ',', more);
}

/// The target of a request toward a leg is the address between the brackets
/// of the header that names it, or the header up to its parameters.
pub proof fn law_target_of_a_leg(a: Seq<char>, uri: Seq<char>, b: Seq<char>)
    requires
        !a.contains('<'),
        !b.contains('>'),
    ensures
        leg_requests::target_of(a + seq!['<'] + uri + seq!['>'] + b) == text::trim(uri),
        !a.contains(';') ==> leg_requests::target_of(a) == text::trim(a),
        !a.contains(';') && !b.contains('<') ==> leg_requests::target_of(a + seq![';'] + b) == text::trim(a),
{
    let v = a + seq!['<'] + uri + seq!['>'] + b;
    let i = a.len() as int;
    let j = i + 1 + uri.len();
    assert(v[i] == '<' && v[j] == '>');
    assert forall|k: int| 0 <= k < i implies v[k] != '<' && a[k] != '<' by {
        assert(v[k] == a[k] && a.contains(a[k]));
    }
    assert forall|k: int| j < k < v.len() implies v[k] != '>' by {
        assert(v[k] == b[k - j - 1] && b.contains(b[k - j - 1]));
    }
    text::lemma_find_char_is(v, '<', 0, i);
    record_laws::lemma_find_last_is(v, '>', v.len() as int, j);
    assert(v.subrange(i + 1, j) =~= uri);
    text::lemma_find_char_is(a, '<', 0, i);
    if !a.contains(';') {
        text_laws::law_parts_are_read_apart(a, ';', b);
        let w = a + seq![';'] + b;
        if !b.contains('<') {
            assert forall|k: int| 0 <= k < w.len() implies w[k] != '<' by {
                if k < i {
                    assert(w[k] == a[k]);
                } else if k > i {
                    assert(w[k] == b[k - i - 1] && b.contains(b[k - i - 1]));
                }
            }
            text::lemma_find_char_is(w, '<', 0, w.len() as int);
        }
    }
}

/// The URI that a message asks for is the second word of its first line.
pub proof fn law_uri_of_a_message(raw: Seq<char>)
    ensures
        invite_handler::raw_request_uri(raw) is Some <==> text::tokens(client_tx::first_line(raw)).len() >= 2,
        invite_handler::raw_request_uri(raw) matches Some(u) ==> u == text::tokens(client_tx::first_line(raw))[1],
{
}

/// The offer of a session timer stands before the first Content-Length, and
/// everything else stays as it is; without one nothing is offered.
pub proof fn law_where_the_timer_is_offered(a: Seq<char>, rest: Seq<char>, expires: nat, min_se: nat)
    requires
        text::occurs_at(text::lower(a + rest), "content-length:"@, a.len() as int),
        forall|k: int| 0 <= k < a.len() ==> !text::occurs_at(text::lower(a + rest), "content-length:"@, k),
    ensures
        invite_handler::timed_text(a + rest, expires, min_se) == a + ("Supported: timer\r\nSession-Expires: "@ + text::decimal(
            expires,
        ) + "\r\nMin-SE: "@ + text::decimal(min_se) + "\r\n"@) + rest,
{
    let v = a + rest;
    reveal_strlit("content-length:");
    assert(text::lower(v).len() == v.len());
    text::lemma_find_str_is(text::lower(v), "content-length:"@, 0, a.len() as int);
    assert(v.take(a.len() as int) =~= a);
    assert(v.skip(a.len() as int) =~= rest);
}

/// A message without a Content-Length is offered no timer.
pub proof fn law_no_timer_without_a_length(raw: Seq<char>, expires: nat, min_se: nat)
    requires
        forall|k: int| 0 <= k < raw.len() ==> !text::occurs_at(text::lower(raw), "content-length:"@, k),
    ensures
        invite_handler::timed_text(raw, expires, min_se) == raw,
{
    assert(text::lower(raw).len() == raw.len());
    text::lemma_find_str_is(text::lower(raw), "content-length:"@, 0, raw.len() as int);
}

/// A longer interval is never shorter than what the other side accepts, nor
/// than what was offered, and is the same for every offer below the floor.
pub proof fn law_longer_interval(
    raw: Seq<char>,
    expires: nat,
    floor: nat,
    branch: Seq<char>,
)
    ensures
        expires <= floor ==> response_handler::longer_interval(raw, expires, floor, branch) == response_handler::longer_interval(
            raw,
            floor,
            floor,
            branch,
        ),
        headers::start_line(sip_builder::renewed_text(raw, branch)).len() == 0 ==> expires >= floor ==> response_handler::longer_interval(
            raw,
            expires,
            floor,
            branch,
        ) == invite_handler::timed_text(sip_builder::renewed_text(raw, branch), expires, floor),
        headers::start_line(sip_builder::renewed_text(raw, branch)).len() > 0 ==> expires >= floor ==> response_handler::longer_interval(
            raw,
            expires,
            floor,
            branch,
        ) == invite_handler::timed_text(
            raw_message::raw_text(
                RawView {
                    start: raw_message::raw_parts(sip_builder::renewed_text(raw, branch)).start,
                    headers: response_handler::untimed(raw_message::raw_parts(sip_builder::renewed_text(raw, branch)).headers),
                    body: raw_message::raw_parts(sip_builder::renewed_text(raw, branch)).body,
                },
            ),
            expires,
            floor,
        ),
{
}

/// What an earlier offer said of timers is taken out before a new one is
/// made, under the long names and the short ones; nothing else is.
pub proof fn law_earlier_offer_is_taken_out(hs: Seq<Seq<char>>, l: Seq<char>)
    ensures
        response_handler::untimed(hs.push(l)) == if headers::is_header(l, "Supported"@, "k"@) || headers::is_header(
            l,
            "Session-Expires"@,
            "x"@,
        ) || headers::is_header(l, "Min-SE"@, "Min-SE"@) {
            response_handler::untimed(hs)
        } else {
            response_handler::untimed(hs).push(l)
        },
        response_handler::untimed(Seq::empty()).len() == 0,
{
    lemma_taken_out_push(hs, l, "Supported"@);
    let h1 = raw_message::without_header(hs, "Supported"@);
    lemma_taken_out_push(h1, l, "k"@);
    let h2 = raw_message::without_header(h1, "k"@);
    lemma_taken_out_push(h2, l, "Session-Expires"@);
    let h3 = raw_message::without_header(h2, "Session-Expires"@);
    lemma_taken_out_push(h3, l, "x"@);
    let h4 = raw_message::without_header(h3, "x"@);
    lemma_taken_out_push(h4, l, "Min-SE"@);
}

proof fn lemma_taken_out_push(hs: Seq<Seq<char>>, l: Seq<char>, name: Seq<char>)
    ensures
        raw_message::without_header(hs.push(l), name) == if headers::is_header(l, name, name) {
            raw_message::without_header(hs, name)
        } else {
            raw_message::without_header(hs, name).push(l)
        },
{
    assert(hs.push(l).drop_last() =~= hs);
}

// ── Requests of this side ───────────────────────────────────────────────

/// A dialog is established by an answer with both From and To, and with the
/// address of its Contact where it has one.
pub proof fn law_established_dialog(d: Option<Established>, hs: Seq<Seq<char>>)
    requires
        response_handler::is_established(d, hs),
    ensures
        d is Some <==> message::from_value(hs) is Some && message::to_value(hs) is Some,
        d matches Some(e) ==> message::from_value(hs) == Some(e.from_raw@) && message::to_value(hs) == Some(e.to_raw@),
        d matches Some(e) ==> (e.contact is Some <==> message::contact_value(hs) is Some),
        d matches Some(e) ==> (message::contact_value(hs) matches Some(c) ==> text::opt_string(e.contact) == Some(
            invite_handler::contact_uri_of(c),
        )),
{
}

/// An answer for a call that is gone is acknowledged and ended in its own
/// dialog: toward its Contact, with its From, To and Call-ID as they are.
pub proof fn law_dialog_of_a_late_answer(
    d: DialogInfo,
    hs: Seq<Seq<char>>,
    a: InviteAttempt,
    cseq: u32,
    ip: Seq<char>,
    port: u16,
    b: Seq<char>,
    reason: Seq<char>,
)
    requires
        response_handler::orphan_dialog(d, hs, a, cseq, ip, port),
    ensures
        message::call_id_value(hs) matches Some(v) ==> d.call_id@ == v,
        message::from_value(hs) matches Some(v) ==> d.from_raw@ == v,
        message::to_value(hs) matches Some(v) ==> d.to_raw@ == v,
        message::contact_value(hs) matches Some(c) ==> d.request_uri@ == invite_handler::contact_uri_of(c),
        message::contact_value(hs) is None ==> d.request_uri@ == "sip:"@ + a.dest@,
        d.cseq == cseq && d.local_ip@ == ip && d.local_port == port && d.transport@ == a.transport@,
        response_handler::orphan_ack(d, cseq, b) == sip_builder::request_text(
            "ACK"@,
            d,
            cseq as nat,
            b,
            Seq::empty(),
            Seq::empty(),
        ),
        response_handler::orphan_bye(d, reason, b) == sip_builder::request_text(
            "BYE"@,
            d,
            cseq as nat,
            b,
            sip_builder::reason_extras(Some(reason)),
            Seq::empty(),
        ),
{
}

/// A caller whose peer lost the dialog is sent a BYE of its own dialog, with
/// the status as the reason; without a dialog there is nothing to send.
pub proof fn law_bye_for_a_lost_dialog(caller: Option<DialogInfo>, status: u16, branch: Seq<char>)
    ensures
        response_handler::lost_dialog_bye(caller, status, branch) is Some <==> caller is Some,
        caller matches Some(d) ==> response_handler::lost_dialog_bye(caller, status, branch) == Some(
            sip_builder::request_text(
                "BYE"@,
                d,
                d.cseq as nat,
                branch,
                sip_builder::reason_extras(cdr::reason_text(CallOutcome::DialogLost { status })),
                Seq::empty(),
            ),
        ),
{
}

/// The BYE and the CANCEL toward a leg without a dialog: from and to whom
/// the message that they stand for was, within its call.
pub proof fn law_requests_toward_a_leg(
    hs: Seq<Seq<char>>,
    fresh_id: Seq<char>,
    call_id: Seq<char>,
    mark: Seq<char>,
    from: Seq<char>,
    to: Seq<char>,
    id: Seq<char>,
    n: nat,
    method: Seq<char>,
)
    requires
        message::from_value(hs) == Some(from),
        message::to_value(hs) == Some(to),
        message::call_id_value(hs) == Some(id),
        message::headers_cseq(hs) == Some((n, method)),
    ensures
        leg_requests::other_leg_bye(hs, fresh_id, mark) == headers::message_text(
            sip_builder::request_line("BYE"@, leg_requests::target_of(to)),
            seq![
                ("Via"@, "SIP/2.0/UDP sbc.local:5060;branch=z9hG4bK-"@ + "bye"@ + "-"@ + mark),
                ("From"@, from),
                ("To"@, to),
                ("Call-ID"@, id),
                ("CSeq"@, "2 BYE"@),
                ("Content-Length"@, "0"@),
            ],
            Seq::empty(),
        ),
        leg_requests::other_leg_cancel(hs, call_id, mark) == headers::message_text(
            sip_builder::request_line("CANCEL"@, leg_requests::target_of(to)),
            seq![
                ("Via"@, "SIP/2.0/UDP sbc.local:5060;branch=z9hG4bK-"@ + "cancel"@ + "-"@ + mark),
                ("From"@, from),
                ("To"@, to),
                ("Call-ID"@, call_id),
                ("CSeq"@, text::decimal(n) + " CANCEL"@),
                ("Content-Length"@, "0"@),
            ],
            Seq::empty(),
        ),
{
}

/// The Via of a relayed ACK names the transport toward the callee, this
/// side's address and the port that answers there.
pub proof fn law_way_of_a_relayed_ack(f: AckFacts, bytes: Seq<u8>, ip: Seq<char>)
    requires
        text::opt_string(f.public_ip) == Some(ip),
    ensures
        f.callee_transport == Transport::Udp ==> call_handler::ack_via(f, bytes) == "SIP/2.0/"@ + "UDP"@ + " "@ + ip
            + ":"@ + "5060"@ + ";branch=z9hG4bK"@ + sip_builder::hex(bytes) + ";rport"@,
        f.callee_transport == Transport::Tcp ==> call_handler::ack_via(f, bytes) == "SIP/2.0/"@ + "TCP"@ + " "@ + ip
            + ":"@ + "5061"@ + ";branch=z9hG4bK"@ + sip_builder::hex(bytes) + ";rport"@,
        f.callee_transport != Transport::Udp && f.callee_transport != Transport::Tcp ==> call_handler::ack_via(
            f,
            bytes,
        ) == "SIP/2.0/"@ + "UDP"@ + " "@ + ip + ":"@ + "5061"@ + ";branch=z9hG4bK"@ + sip_builder::hex(bytes)
            + ";rport"@,
{
}

/// A part of a text that is replaced is replaced wherever it stands, from the
/// first place on; a text without it stays.
pub proof fn law_replaced_everywhere(a: Seq<char>, from: Seq<char>, b: Seq<char>, to: Seq<char>)
    requires
        from.len() > 0,
        forall|k: int| 0 <= k < a.len() ==> !text::occurs_at(a + from + b, from, k),
    ensures
        call_handler::replace_all(a + from + b, from, to) == a + to + call_handler::replace_all(b, from, to),
{
    let s = a + from + b;
    let i = a.len() as int;
    assert(s.subrange(i, i + from.len()) =~= from);
    text::lemma_find_str_is(s, from, 0, i);
    assert(s.take(i) =~= a);
    assert(s.skip((i + from.len()) as int) =~= b);
}

/// A text stays as it is where nothing in it is to be replaced.
pub proof fn law_nothing_to_replace(s: Seq<char>, from: Seq<char>, to: Seq<char>)
    requires
        from.len() > 0,
        forall|k: int| 0 <= k < s.len() ==> !text::occurs_at(s, from, k),
    ensures
        call_handler::replace_all(s, from, to) == s,
{
    text::lemma_find_str_is(s, from, 0, s.len() as int);
}

/// A relayed request stays as it is, but for a truncated Call-ID, which is
/// made whole.
pub proof fn law_relayed_request_stays(raw: Seq<char>, call_id: Seq<char>, head: Seq<char>)
    requires
        head.len() > 0,
    ensures
        call_handler::relayed_request(raw, call_id, None) == raw,
        call_handler::relayed_request(raw, call_id, Some(call_id)) == raw,
        call_handler::relayed_request(raw, call_id, Some(head + call_id)) == call_handler::replace_all(
            raw,
            "Call-ID: "@ + call_id,
            "Call-ID: "@ + (head + call_id),
        ),
{
    let s = head + call_id;
    assert(s.subrange(head.len() as int, s.len() as int) =~= call_id);
    assert(s.len() != call_id.len());
}

/// What an accepted re-INVITE adds: this side as the contact, timers as
/// supported, the interval that the peer refreshes, and the type of the
/// description where there is one.
pub proof fn law_headers_of_an_accepted_reinvite(host: Seq<char>, e: nat, sdp: Seq<char>)
    ensures
        call_handler::reinvite_extras(host, None, None) == seq![
            ("Contact"@, "<sip:sbc@"@ + host + ">"@),
            ("Supported"@, "timer"@),
        ],
        call_handler::reinvite_extras(host, Some(e), None) == seq![
            ("Contact"@, "<sip:sbc@"@ + host + ">"@),
            ("Supported"@, "timer"@),
            ("Session-Expires"@, text::decimal(e) + ";refresher=uac"@),
        ],
        call_handler::reinvite_extras(host, Some(e), Some(sdp)) == seq![
            ("Contact"@, "<sip:sbc@"@ + host + ">"@),
            ("Supported"@, "timer"@),
            ("Session-Expires"@, text::decimal(e) + ";refresher=uac"@),
            ("Content-Type"@, "application/sdp"@),
        ],
        call_handler::reinvite_extras(host, None, Some(sdp)) == seq![
            ("Contact"@, "<sip:sbc@"@ + host + ">"@),
            ("Supported"@, "timer"@),
            ("Content-Type"@, "application/sdp"@),
        ],
{
    assert(call_handler::reinvite_extras(host, None, None) =~= seq![
        ("Contact"@, "<sip:sbc@"@ + host + ">"@),
        ("Supported"@, "timer"@),
    ]);
}

/// A message goes out under the name and address of this side, with the port
/// of its transport, and secured over TLS and secure WebSockets.
pub proof fn law_outgoing_identity(id: SbcIdentity, t: Transport, out: SbcIdentity, word: Seq<char>)
    requires
        engine::goes_out_under(id, t, out, word),
    ensures
        out.public_ip@ == id.public_ip@ && out.sip_domain@ == id.sip_domain@,
        out.sip_port == invite_handler::transport_words(t).1 && word == invite_handler::transport_words(t).0,
        out.sip_port == id.sip_port ==> out.tls == id.tls,
        out.sip_port != id.sip_port ==> (out.tls <==> t == Transport::Tls || t == Transport::Wss),
{
}

// ── Claims ──────────────────────────────────────────────────────────────

/// What an INVITE claims: the user of its From, which is local where the user
/// is one of this system's and the host is served, and to belong to a call
/// where its To has a tag and the call is known.
pub proof fn law_what_an_invite_claims(hs: Seq<Seq<char>>, f: InviteFacts, v: Seq<char>)
    requires
        message::from_value(hs) == Some(v),
    ensures
        message::name_addr(v) matches Some(a) ==> invite_handler::claims_of(hs, f).from_user == a.user,
        message::name_addr(v) is None ==> invite_handler::claims_of(hs, f).from_user is None,
        invite_handler::claims_of(hs, f).from_is_local <==> invite_handler::is_local_identity(
            invite_handler::claims_of(hs, f).from_user,
            v,
            text::string_views(f.users@),
            text::string_views(f.served@),
        ),
        message::to_value(hs) is None ==> !invite_handler::claims_of(hs, f).in_dialog && invite_handler::to_tag(hs) is None,
        message::to_value(hs) matches Some(t) ==> (message::name_addr(t) matches Some(a) ==> invite_handler::to_tag(hs) == a.tag && (
        invite_handler::claims_of(hs, f).in_dialog <==> a.tag is Some && f.call_known)),
        invite_handler::source_in(hs, f) == invite_handler::source_of(
            f.source_ip@,
            text::string_views(f.trunk_ips@),
            f.bindings@,
            invite_handler::claims_of(hs, f).from_user,
        ),
{
}

/// A claim is told only where it was flagged.
pub proof fn law_flagged_claims_are_told(hs: Seq<Seq<char>>, f: InviteFacts)
    ensures
        invite_handler::invite_mismatch(hs, f, false) is None,
        invite_handler::invite_mismatch(hs, f, true) == Some(
            invite_handler::claimed_identity(
                invite_handler::presented_user(hs),
                identity::or_empty(message::from_value(hs)),
                invite_handler::source_in(hs, f),
                f.proof,
            ),
        ),
{
}

/// A REGISTER whose user acts for another's address is told, whether it is
/// refused for it or not.
pub proof fn law_registered_claims_are_told(auth: RegisterAuth, aor: Seq<char>, served: Seq<Seq<char>>)
    ensures
        !(auth is Valid) ==> register::register_mismatch(auth, aor, served) is None,
        auth matches RegisterAuth::Valid { user } ==> (identity::or_empty(identity::user_part(aor)) != user@
            ==> register::register_mismatch(auth, aor, served) == Some((user@, aor, "REGISTER"@))),
        auth matches RegisterAuth::Valid { user } ==> (identity::or_empty(identity::user_part(aor)) == user@ && (
        served.len() == 0 || identity::domain_served(served, identity::or_empty(identity::host_part(aor)))) ==> register::register_mismatch(
            auth,
            aor,
            served,
        ) is None),
{
}

// ── Forwarding ──────────────────────────────────────────────────────────

/// The headers of a forwarded INVITE: each line of it as it is, but for what
/// stays here and the hops that are left.
pub proof fn law_forwarded_headers(hs: Seq<Seq<char>>, l: Seq<char>)
    ensures
        invite_handler::forwarded_headers(Seq::empty()).len() == 0,
        headers::is_header(l, "p-asserted-identity"@, "p-preferred-identity"@) || headers::is_header(
            l,
            "remote-party-id"@,
            "remote-party-id"@,
        ) || headers::is_header(l, "authorization"@, "proxy-authorization"@) || headers::is_header(
            l,
            "supported"@,
            "k"@,
        ) ==> invite_handler::forwarded_headers(hs.push(l)) == invite_handler::forwarded_headers(hs),
        !headers::is_header(l, "p-asserted-identity"@, "p-preferred-identity"@) && !headers::is_header(
            l,
            "remote-party-id"@,
            "remote-party-id"@,
        ) && !headers::is_header(l, "authorization"@, "proxy-authorization"@) && !headers::is_header(
            l,
            "supported"@,
            "k"@,
        ) && !headers::is_header(l, "max-forwards"@, "max-forwards"@) ==> invite_handler::forwarded_headers(hs.push(l))
            == invite_handler::forwarded_headers(hs).push(l),
        !headers::is_header(l, "p-asserted-identity"@, "p-preferred-identity"@) && !headers::is_header(
            l,
            "remote-party-id"@,
            "remote-party-id"@,
        ) && !headers::is_header(l, "authorization"@, "proxy-authorization"@) && !headers::is_header(
            l,
            "supported"@,
            "k"@,
        ) && headers::is_header(l, "max-forwards"@, "max-forwards"@) && text::parse_uint(
            headers::header_field(l),
            4294967295,
        ) == Some(0nat) ==> invite_handler::forwarded_headers(hs.push(l)) == invite_handler::forwarded_headers(hs).push(
            "Max-Forwards: "@ + text::decimal(0),
        ),
{
    assert(hs.push(l).drop_last() =~= hs);
}

/// The relayed ACK is an ACK, toward the callee, without a body.
pub proof fn law_relayed_ack_is_written(hs: Seq<Seq<char>>, f: AckFacts, bytes: Seq<u8>)
    ensures
        call_handler::ack_relay_text(hs, f, bytes) == headers::message_text(
            "ACK"@ + " "@ + call_handler::ack_uri(f) + " "@ + "SIP/2.0"@,
            call_handler::ack_relay_pairs(hs, f, bytes),
            Seq::empty(),
        ),
{
}

/// The 487 of a cancelled INVITE is the plain one, with the number of the
/// INVITE in its CSeq.
pub proof fn law_final_of_a_cancelled_invite(hs: Seq<Seq<char>>, n: nat, tag: Seq<char>)
    ensures
        responses::plain_response(hs, 487, tag) is None <==> call_handler::terminated_text(hs, Some(n), tag) is None,
        call_handler::terminated_text(hs, None, tag) == responses::plain_response(hs, 487, tag),
        responses::plain_response(hs, 487, tag) matches Some(raw) ==> (headers::start_line(raw).len() > 0
            ==> call_handler::terminated_text(hs, Some(n), tag) == Some(
            raw_message::raw_text(
                RawView {
                    start: raw_message::raw_parts(raw).start,
                    headers: raw_message::with_header(raw_message::raw_parts(raw).headers, "CSeq"@, text::decimal(n) + " INVITE"@),
                    body: raw_message::raw_parts(raw).body,
                },
            ),
        )),
{
}

/// An accepted re-INVITE is answered 200 with the description, whose length
/// it gives in bytes; one that cannot be echoed is not answered.
pub proof fn law_answer_to_a_reinvite(
    hs: Seq<Seq<char>>,
    host: Seq<char>,
    expires: Option<nat>,
    sdp: Option<Seq<char>>,
    tag: Seq<char>,
)
    ensures
        ({
            let p = responses::echoed_pairs(responses::via_pairs(hs), hs, responses::response_to(hs, tag));
            let body = match sdp {
                Some(s) => s,
                None => Seq::empty(),
            };
            &&& p is None ==> call_handler::reinvite_text(hs, host, expires, sdp, tag) is None
            &&& p is Some ==> call_handler::reinvite_text(hs, host, expires, sdp, tag) == Some(
                headers::message_text(
                    "SIP/2.0 "@ + text::decimal(200) + " "@ + "OK"@,
                    p->0 + call_handler::reinvite_extras(host, expires, sdp) + seq![
                        ("Content-Length"@, text::decimal(vstd::utf8::encode_utf8(body).len())),
                    ],
                    body,
                ),
            )
        }),
{
}

/// What this side supports is told under Allow, in place of what was there.
pub proof fn law_methods_are_told(raw: Seq<char>)
    ensures
        headers::start_line(raw).len() == 0 ==> engine::with_allow(raw) == raw,
        headers::start_line(raw).len() > 0 ==> engine::with_allow(raw) == raw_message::raw_text(
            RawView {
                start: raw_message::raw_parts(raw).start,
                headers: raw_message::with_header(
                    raw_message::raw_parts(raw).headers,
                    "Allow"@,
                    "INVITE, ACK, BYE, CANCEL, OPTIONS, REGISTER, INFO, REFER"@,
                ),
                body: raw_message::raw_parts(raw).body,
            },
        ),
{
}

/// A response that was sent is kept for its INVITE; a refusal over an
/// unreliable transport waits for its ACK besides, and what is no response to
/// an INVITE changes nothing.
pub proof fn law_sent_responses_are_kept(
    s: Seq<TxView>,
    data: Seq<u8>,
    unreliable: bool,
    now: u64,
    key: Seq<char>,
    is_final: bool,
    code: nat,
)
    ensures
        !vstd::utf8::valid_utf8(data) ==> engine::after_sending(s, data, unreliable, now) == s,
        invite_tx::response_tx_key(vstd::utf8::decode_utf8(data)) is None ==> engine::after_sending(
            s,
            data,
            unreliable,
            now,
        ) == s,
        vstd::utf8::valid_utf8(data) && invite_tx::response_tx_key(vstd::utf8::decode_utf8(data)) == Some(
            (key, is_final),
        ) && message::status_code(vstd::utf8::decode_utf8(data)) == Some(code) ==> engine::after_sending(
            s,
            data,
            unreliable,
            now,
        ) == if unreliable && code >= 300 {
            invite_tx::tx_awaiting(invite_tx::tx_recorded(s, key, data, is_final, now), key, now)
        } else {
            invite_tx::tx_recorded(s, key, data, is_final, now)
        },
{
}

/// A provisional response for a browser goes without its body where it is to
/// be stripped, and as the caller is to see it otherwise.
pub proof fn law_provisional_for_the_caller(
    raw: Seq<char>,
    vias: Seq<Seq<char>>,
    id: Option<(Seq<char>, Seq<char>)>,
    cseq: Option<u32>,
)
    ensures
        response_handler::provisional_text(raw, vias, id, cseq, true) == responses::stripped_text(
            response_handler::provisional_text(raw, vias, id, cseq, false),
        ),
        headers::start_line(raw).len() == 0 ==> response_handler::provisional_text(raw, vias, id, cseq, false) == raw,
        headers::start_line(raw).len() > 0 ==> response_handler::provisional_text(raw, vias, id, cseq, false) == raw_message::raw_text(
            RawView {
                start: raw_message::raw_parts(raw).start,
                headers: responses::hidden_headers(
                    responses::caller_cseq_headers(responses::caller_via_headers(raw_message::raw_parts(raw).headers, vias), cseq),
                    id,
                ),
                body: raw_message::raw_parts(raw).body,
            },
        ),
{
}

/// The tag of the callee is that of the To of its response.
pub proof fn law_tag_of_the_callee(hs: Seq<Seq<char>>)
    ensures
        message::to_value(hs) matches Some(v) ==> (message::name_addr(v) matches Some(a) ==> (a.tag matches Some(t)
            ==> response_handler::callee_tag_of(hs) == t)),
        message::to_value(hs) matches Some(v) ==> (message::name_addr(v) matches Some(a) ==> (a.tag is None
            ==> response_handler::callee_tag_of(hs).len() == 0)),
        message::to_value(hs) is None ==> response_handler::callee_tag_of(hs).len() == 0,
{
}

/// What a refusal of the callee is recorded as: its own code.
pub proof fn law_refusal_keeps_its_code(raw: Seq<char>)
    ensures
        message::status_code(raw) matches Some(c) ==> response_handler::relayed_outcome(raw) == (CallOutcome::Rejected {
            code: c as u16,
        }),
        message::status_code(raw) is None ==> response_handler::relayed_outcome(raw) == (CallOutcome::Rejected { code: 500 }),
{
}

/// The description of a request is its body as text, where that is text and
/// not empty.
pub proof fn law_body_as_text(body: Seq<u8>, raw: Seq<char>)
    ensures
        call_handler::body_as_text(body) is Some <==> vstd::utf8::valid_utf8(body) && vstd::utf8::decode_utf8(
            body,
        ).len() > 0,
        call_handler::body_as_text(body) matches Some(t) ==> t == vstd::utf8::decode_utf8(body),
        call_handler::sent_body(None) is None,
        call_handler::sent_body(Some(raw)) is Some <==> headers::head_end(raw) < raw.len() && headers::body_of(raw).len() > 0,
        call_handler::sent_body(Some(raw)) matches Some(t) ==> t == headers::body_of(raw),
{
}

/// The extra headers of a refreshing request: this side's contact, timers as
/// supported, the interval with who refreshes, and the least one.
pub proof fn law_headers_of_a_refresh(contact: Seq<char>, n: u32, who: &str, min: u32)
    ensures
        sip_builder::refresh_extras(contact, Some((n, who)), Some(min)) == seq![
            ("Contact"@, contact),
            ("Supported"@, "timer"@),
            ("Session-Expires"@, text::decimal(n as nat) + ";refresher="@ + who@),
            ("Min-SE"@, text::decimal(min as nat)),
            ("Content-Type"@, "application/sdp"@),
        ],
        sip_builder::refresh_extras(contact, None, None) == seq![
            ("Contact"@, contact),
            ("Supported"@, "timer"@),
            ("Content-Type"@, "application/sdp"@),
        ],
        sip_builder::reason_extras(None).len() == 0,
        sip_builder::reason_extras(Some(contact)) == seq![("Reason"@, contact)],
{
}

// ── Parts of requests ───────────────────────────────────────────────────

/// The first line of a request is its method, its address and the version.
pub proof fn law_first_line_of_a_request(method: Seq<char>, uri: Seq<char>)
    ensures
        sip_builder::request_line(method, uri) == method + " "@ + uri + " "@ + "SIP/2.0"@,
{
}

/// The CANCEL of an INVITE has its Via, From, To and Call-ID, and its number.
pub proof fn law_how_a_cancel_is_written(id: IdentityView)
    ensures
        sip_builder::cancel_text(id) == headers::message_text(
            "CANCEL"@ + " "@ + id.request_uri + " "@ + "SIP/2.0"@,
            seq![
                ("Via"@, id.top_via),
                ("Max-Forwards"@, "70"@),
                ("From"@, id.from),
                ("To"@, id.to),
                ("Call-ID"@, id.call_id),
                ("CSeq"@, text::decimal(id.cseq) + " "@ + "CANCEL"@),
                ("Content-Length"@, "0"@),
            ],
            Seq::empty(),
        ),
{
}

/// The ACK of a refused INVITE has its Via, routes, From and Call-ID, the To
/// of the response, and its number.
pub proof fn law_how_an_ack_is_written(id: IdentityView, to: Seq<char>)
    ensures
        sip_builder::ack_text(id, to) == headers::message_text(
            "ACK"@ + " "@ + id.request_uri + " "@ + "SIP/2.0"@,
            seq![("Via"@, id.top_via), ("Max-Forwards"@, "70"@)] + id.routes.map_values(
                |r: Seq<char>| ("Route"@, r),
            ) + seq![
                ("From"@, id.from),
                ("To"@, text::trim(to)),
                ("Call-ID"@, id.call_id),
                ("CSeq"@, text::decimal(id.cseq) + " "@ + "ACK"@),
                ("Content-Length"@, "0"@),
            ],
            Seq::empty(),
        ),
{
}

/// A request of a dialog has a Via of this side with its branch, the dialog's
/// From, To and Call-ID, its number, and the length of its body.
pub proof fn law_how_a_request_is_written(
    method: Seq<char>,
    d: DialogInfo,
    cseq: nat,
    branch: Seq<char>,
    extras: Seq<(Seq<char>, Seq<char>)>,
    body: Seq<char>,
)
    ensures
        sip_builder::request_text(method, d, cseq, branch, extras, body) == headers::message_text(
            method + " "@ + d.request_uri@ + " "@ + "SIP/2.0"@,
            seq![
                (
                    "Via"@,
                    "SIP/2.0/"@ + sip_builder::upper(d.transport@) + " "@ + d.local_ip@ + ":"@ + text::decimal(
                        d.local_port as nat,
                    ) + ";branch="@ + branch + ";rport"@,
                ),
                ("Max-Forwards"@, "70"@),
                ("From"@, d.from_raw@),
                ("To"@, d.to_raw@),
                ("Call-ID"@, d.call_id@),
                ("CSeq"@, text::decimal(cseq) + " "@ + method),
            ] + extras + seq![
                ("Content-Length"@, text::decimal(vstd::utf8::encode_utf8(body).len())),
            ],
            body,
        ),
{
}

/// Only an INVITE has the identity of one.
pub proof fn law_identity_of_an_invite(raw: Seq<char>)
    ensures
        sip_builder::invite_identity(raw) is Some ==> text::split_char(headers::start_line(raw), ' ')[0] == "INVITE"@,
        sip_builder::invite_identity(raw) == sip_builder::request_identity(raw, "INVITE"@),
{
}

/// The user of the address that an INVITE asks for stands before its at sign
/// and its parameters.
pub proof fn law_user_that_is_called(user: Seq<char>, rest: Seq<char>)
    requires
        !user.contains('@') && !user.contains(';'),
    ensures
        invite_handler::called_user("sip:"@ + (user + seq!['@'] + rest)) == Some(user),
        invite_handler::called_user("sip:"@ + user) == Some(user),
{
    reveal_strlit("sip:");
    let a = user + seq!['@'] + rest;
    let w = "sip:"@ + a;
    assert(w.subrange(0, 4) =~= "sip:"@);
    assert(w.skip(4) =~= a);
    text_laws::law_parts_are_read_apart(user, '@', rest);
    text_laws::law_parts_are_read_apart(user, ';', rest);
    let v = "sip:"@ + user;
    assert(v.subrange(0, 4) =~= "sip:"@);
    assert(v.skip(4) =~= user);
}

/// A first line without a version is taken to be of the usual one.
pub proof fn law_version_of_a_first_line(uri: Seq<char>, version: Seq<char>)
    requires
        !uri.contains(' '),
    ensures
        invite_handler::invite_line("INVITE"@ + seq![' '] + uri) == Some((uri, "SIP/2.0"@)),
        invite_handler::invite_line("INVITE"@ + seq![' '] + (uri + seq![' '] + version)) == Some((uri, version)),
{
    reveal_strlit("INVITE");
    assert(!"INVITE"@.contains(' '));
    text_laws::law_parts_are_read_apart("INVITE"@, ' ', uri);
    text_laws::law_parts_are_read_apart("INVITE"@, ' ', uri + seq![' '] + version);
    text_laws::law_parts_are_read_apart(uri, ' ', version);
}

/// A Via without a branch gets one behind everything else.
pub proof fn law_branch_of_a_bare_via(l: Seq<char>, branch: Seq<char>)
    requires
        forall|k: int| 0 <= k < l.len() ==> !text::occurs_at(text::lower(l), "branch="@, k),
    ensures
        sip_builder::with_branch(l, branch) == l + ";branch="@ + branch,
        sip_builder::via_branch_param(l) is None,
{
    assert(text::lower(l).len() == l.len());
    text::lemma_find_str_is(text::lower(l), "branch="@, 0, l.len() as int);
}

/// Where a request toward a leg stands for a message without From and To, it
/// is from this side to the callee as such.
pub proof fn law_requests_without_names(hs: Seq<Seq<char>>, fresh_id: Seq<char>, mark: Seq<char>)
    requires
        message::from_value(hs) is None,
        message::to_value(hs) is None,
        message::call_id_value(hs) is None,
    ensures
        leg_requests::other_leg_bye(hs, fresh_id, mark) == headers::message_text(
            sip_builder::request_line("BYE"@, "sip:callee@localhost"@),
            seq![
                ("Via"@, "SIP/2.0/UDP sbc.local:5060;branch=z9hG4bK-"@ + "bye"@ + "-"@ + mark),
                ("From"@, "<sip:sbc@localhost>"@),
                ("To"@, "<sip:callee@localhost>"@),
                ("Call-ID"@, fresh_id),
                ("CSeq"@, "2 BYE"@),
                ("Content-Length"@, "0"@),
            ],
            Seq::empty(),
        ),
{
}

/// A header of a raw message is its first of that name, or none.
pub proof fn law_value_in_a_raw_message(raw: Seq<char>, name: Seq<char>)
    ensures
        ({
            let v = headers::header_values(headers::header_lines(raw), name, name);
            &&& v.len() == 0 ==> invite_tx::raw_value(raw, name) is None
            &&& v.len() > 0 ==> invite_tx::raw_value(raw, name) == Some(v[0])
        }),
{
}

/// A call that is counted anew is counted on one trunk, and no other call
/// changes.
pub proof fn law_one_call_is_recounted(
    was: Seq<CallSnapshot>,
    is: Seq<CallSnapshot>,
    at: int,
    trunk: Option<Seq<char>>,
    i: int,
)
    requires
        trunk_state::recounted(was, is, at, trunk),
        0 <= at < was.len(),
        0 <= i < was.len(),
    ensures
        is.len() == was.len(),
        i != at ==> is[i] == was[i],
        text::opt_string(is[at].trunk_counted) == trunk,
        is[at].uuid == was[at].uuid && is[at].trunk_name == was[at].trunk_name,
{
}

/// The calls that this side makes for its own sake are known by how their
/// Call-ID begins.
pub proof fn law_calls_of_this_side(rest: Seq<char>)
    ensures
        response_handler::is_task_call_id("reg-"@ + rest) && response_handler::is_task_call_id("hc-"@ + rest),
        response_handler::is_task_call_id(rest) <==> (exists|t: Seq<char>| rest == #[trigger] ("reg-"@ + t)) || (exists|
            t: Seq<char>,
        | rest == #[trigger] ("hc-"@ + t)),
{
    text_laws::law_prefix_and_suffix("reg-"@, rest, rest);
    text_laws::law_prefix_and_suffix("hc-"@, rest, rest);
}

} // verus!
