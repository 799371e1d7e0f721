//! What is promised of single operations, as relations between what they are
//! given and what they return.

use crate::backup::{BackupEffects, BackupError, BackupInfo, BackupPolicy, BackupReport, BackupTimer};
use crate::backup;
use crate::call_handler::Leg;
use crate::cdr::CallOutcome;
use crate::client_tx::Transport;
use crate::engine::SbcIdentity;
use crate::headers;
use crate::identity::AorRejection;
use crate::identity;
use crate::invite_handler::{DidMapping, InviteRoute, RetryPlan, RouteFacts, SdpPlan, TrunkAuth};
use crate::invite_handler;
use crate::message::SipResponse;
use crate::message;
use crate::net::Address;
use crate::raw_message::RawView;
use crate::raw_message;
use crate::response_handler::{AnswerFacts, AnswerPlan, RefreshPlan, RelayState};
use crate::response_handler;
use crate::responses::SbcUris;
use crate::responses;
use crate::rfc3339;
use crate::sip_builder::DialogInfo;
use crate::sip_builder;
use crate::text;
use crate::trunk_state::{TrunkHealth, TrunkMove};
use vstd::prelude::*;

verus! {

// ── Routing and media ───────────────────────────────────────────────────

/// A mapped number rings the user of the first mapping whose number was
/// dialed, on the domain of this side, and a number that no mapping has is
/// not mapped.
pub proof fn law_mapped_call_rings_its_user(
    mappings: &Vec<DidMapping>,
    aor: &str,
    domain: &str,
    r: Option<String>,
    k: int,
)
    requires
        call_ensures(crate::invite_handler::map_did, (mappings, aor, Some(domain)), r),
        0 <= k <= mappings@.len(),
        k < mappings@.len() ==> invite_handler::dials(invite_handler::dialed_user(aor@), mappings@[k].number@),
        forall|j: int|
            0 <= j < k ==> !invite_handler::dials(invite_handler::dialed_user(aor@), (#[trigger] mappings@[j]).number@),
    ensures
        k < mappings@.len() ==> r is Some && r->0@ == "sip:"@ + mappings@[k].user@ + "@"@ + domain@,
        k == mappings@.len() ==> r is None,
{
    lemma_first_dialed(mappings@, invite_handler::dialed_user(aor@), k);
}

proof fn lemma_first_dialed(s: Seq<DidMapping>, user: Seq<char>, k: int)
    requires
        0 <= k <= s.len(),
        k < s.len() ==> invite_handler::dials(user, s[k].number@),
        forall|j: int| 0 <= j < k ==> !invite_handler::dials(user, (#[trigger] s[j]).number@),
    ensures
        k < s.len() ==> invite_handler::did_target(s, user) == Some(s[k].user@),
        k == s.len() ==> invite_handler::did_target(s, user) is None,
    decreases k,
{
    if k > 0 {
        let t = s.skip(1);
        if k < s.len() {
            assert(t[k - 1] == s[k]);
        }
        assert forall|j: int| 0 <= j < k - 1 implies !invite_handler::dials(user, (#[trigger] t[j]).number@) by {
            assert(t[j] == s[j + 1]);
        }
        lemma_first_dialed(t, user, k - 1);
    }
}

/// A callee that is registered is called where it is: over a WebSocket only
/// while that is open, over anything else always.
pub proof fn law_registered_callee_is_called(f: &RouteFacts, r: InviteRoute)
    requires
        call_ensures(crate::invite_handler::route_invite, (f,), r),
    ensures
        f.contact matches Some(c) ==> (r == InviteRoute::Contact <==> c.alive || !(c.transport
            == Transport::Ws || c.transport == Transport::Wss)),
        f.contact is None ==> r != InviteRoute::Contact,
{
}

/// The interval of the answer counts before any other.
pub proof fn law_interval_of_the_answer_counts(
    configured: u32,
    floor: u32,
    offered: Option<&str>,
    answer: &str,
    r: (u32, u32),
    e: nat,
)
    requires
        call_ensures(
            crate::response_handler::negotiate_session_timer,
            (configured, floor, offered, answer),
            r,
        ),
        message::session_expires(answer@) == Some(e),
    ensures
        e >= r.1 ==> r.0 == e,
        e < r.1 ==> r.0 == r.1,
{
}

/// The callee is offered the port of its own leg where it has one, and the
/// caller's only where it has none.
pub proof fn law_port_of_the_callee(webrtc: bool, a: u16, b: Option<u16>, r: SdpPlan)
    requires
        call_ensures(crate::invite_handler::plan_invite_sdp, (false, webrtc, Some((a, b))), r),
    ensures
        r matches SdpPlan::Plain { port } ==> (b matches Some(p) ==> port == p),
        r matches SdpPlan::Plain { port } ==> (b is None ==> port == a),
{
}

/// A session timer is offered to trunks where timers are on, and to no one
/// else.
pub proof fn law_timer_is_offered_to_trunks(
    raw: &str,
    timer: Option<(u32, u32)>,
    toward_trunk: bool,
    r: String,
)
    requires
        call_ensures(crate::invite_flow::offer_session_timer, (raw, timer, toward_trunk), r),
    ensures
        timer is None || !toward_trunk ==> r@ == raw@,
        timer matches Some((expires, floor)) ==> (toward_trunk ==> r@ == invite_handler::timed_text(
            raw@,
            expires as nat,
            floor as nat,
        )),
{
}

/// Credentials for a challenge are those of the trunk, for the address that
/// the INVITE asks for.
pub proof fn law_credentials_of_the_trunk(
    stored: Option<(String, u32)>,
    trunk: Option<TrunkAuth>,
    headers: &Vec<String>,
    r: RetryPlan,
)
    requires
        call_ensures(crate::invite_handler::handle_407_auth_retry, (stored, trunk, headers), r),
    ensures
        r is GiveUp <==> !(stored matches Some((i, n)) && n == 0 && i@.len() > 0 && (trunk matches Some(
            t,
        ) && t.auth_required && t.username is Some && t.password is Some && invite_handler::proxy_challenge(
            text::string_views(headers@),
        ) is Some)),
        r matches RetryPlan::Answer { username, password, .. } ==> trunk is Some && text::opt_string(
            trunk->0.username,
        ) == Some(username@) && text::opt_string(trunk->0.password) == Some(password@),
        r matches RetryPlan::Answer { challenge, .. } ==> invite_handler::proxy_challenge(text::string_views(headers@))
            == Some(challenge@),
        r matches RetryPlan::Answer { uri, .. } ==> (invite_handler::raw_request_uri((stored->0).0@) matches Some(u)
            ==> uri@ == u),
{
}

// ── Responses ───────────────────────────────────────────────────────────

/// Failures are counted by class: those of the request from 400 on, those of
/// servers from 500 on, and nothing below.
pub proof fn law_class_of_a_failure(status: u16, r: Option<bool>)
    requires
        call_ensures(crate::response_handler::error_class, (status,), r),
    ensures
        r is None <==> status < 400,
        r == Some(true) <==> status >= 500,
{
}

/// A refresh is done with a 2xx, goes on with a 1xx, and is refused by
/// anything else; the floor is told by a 422 alone.
pub proof fn law_outcome_of_a_refresh(status: u16, raw: &str, r: RefreshPlan)
    requires
        call_ensures(crate::response_handler::handle_refresh_response, (status, raw), r),
    ensures
        r is Ignored <==> 100 <= status <= 199,
        r is Refreshed <==> 200 <= status <= 299,
        r is Refused <==> status < 100 || status >= 300,
        r matches RefreshPlan::Refused { min_se: m } ==> (m is Some ==> status == 422),
        r matches RefreshPlan::Refused { min_se: m } ==> (status == 422 ==> (message::min_se(raw@) matches Some(
            n,
        ) ==> m is Some && m->0 == n)),
{
}

/// An answered call is connected once its media was started or could not be,
/// and ends only as that tells.
pub proof fn law_answered_call_is_connected(
    response: &SipResponse,
    raw: &str,
    f: &AnswerFacts,
    r: AnswerPlan,
)
    requires
        call_ensures(crate::response_handler::handle_answer, (response, raw, f), r),
    ensures
        r.connected <==> f.relay == RelayState::Started || f.relay == RelayState::Failed,
        r.end == response_handler::answer_end(f.relay),
        r.callee_tag@ == response_handler::callee_tag_of(response@.headers),
{
}

/// A final of the callee is acknowledged as the INVITE that it answers, to
/// the To that it has.
pub proof fn law_ack_of_a_final(invite: &str, response: &SipResponse, r: Option<String>)
    requires
        call_ensures(crate::response_handler::ack_callee_final, (invite, response), r),
    ensures
        r is Some <==> sip_builder::invite_identity(invite@) is Some,
        r matches Some(t) ==> (message::to_value(response@.headers) matches Some(to) ==> t@ == sip_builder::ack_text(
            sip_builder::invite_identity(invite@)->0,
            to,
        )),
{
}

/// A challenge that cannot be answered reaches the caller as a 503.
pub proof fn law_unanswered_challenge(raw: &str, r: String)
    requires
        call_ensures(crate::responses::unavailable_from_challenge, (raw,), r),
    ensures
        headers::start_line(raw@).len() == 0 ==> r@ == responses::bare_response(503, "Service Unavailable"@),
        headers::start_line(raw@).len() > 0 ==> r@ == raw_message::raw_text(
            RawView {
                start: "SIP/2.0 503 Service Unavailable"@,
                headers: raw_message::without_header(
                    raw_message::without_header(raw_message::raw_parts(raw@).headers, "proxy-authenticate"@),
                    "www-authenticate"@,
                ),
                body: raw_message::raw_parts(raw@).body,
            },
        ),
{
}

/// A response goes to the caller with the caller's Vias and number and this
/// side's identity; what is no response goes as it is.
pub proof fn law_response_for_the_caller(
    raw: &str,
    vias: &Vec<String>,
    id: Option<&SbcUris>,
    cseq: Option<u32>,
    r: String,
)
    requires
        call_ensures(crate::responses::rewrite_response_for_caller, (raw, vias, id, cseq), r),
    ensures
        headers::start_line(raw@).len() == 0 ==> r@ == raw@,
        headers::start_line(raw@).len() > 0 ==> r@ == raw_message::raw_text(
            RawView {
                start: raw_message::raw_parts(raw@).start,
                headers: responses::hidden_headers(
                    responses::caller_cseq_headers(
                        text::string_views(vias@) + raw_message::without_header(
                            raw_message::without_header(raw_message::raw_parts(raw@).headers, "via"@),
                            "v"@,
                        ),
                        cseq,
                    ),
                    responses::opt_uris(id),
                ),
                body: raw_message::raw_parts(raw@).body,
            },
        ),
{
}

// ── Connections and addresses ───────────────────────────────────────────

/// Which transports keep a connection: streams and WebSockets, secured or
/// not.
pub proof fn law_what_keeps_a_connection(t: Transport, r: bool)
    requires
        call_ensures(crate::register::keeps_connection, (t,), r),
    ensures
        r <==> t == Transport::Tcp || t == Transport::Tls || t == Transport::Ws || t
            == Transport::Wss,
{
}

/// This side hides behind its public address where it has one.
pub proof fn law_identity_of_this_side(ip: Option<&str>, realm: &str, r: Option<SbcIdentity>)
    requires
        call_ensures(crate::engine::topology_identity, (ip, realm), r),
    ensures
        r is Some <==> ip is Some,
        r matches Some(id) ==> id.public_ip@ == ip->0@ && id.sip_port == 5060 && !id.tls,
        r matches Some(id) ==> (realm@.len() > 0 && realm@ != "sbc.local"@ ==> id.sip_domain@
            == realm@),
        r matches Some(id) ==> (realm@.len() == 0 || realm@ == "sbc.local"@ ==> id.sip_domain@
            == ip->0@),
{
}

/// The address that this side gives for itself, and that of this host where
/// it has none.
pub proof fn law_own_address(id: Option<&SbcIdentity>, r: (String, u16))
    requires
        call_ensures(crate::engine::sbc_addr, (id,), r),
    ensures
        id matches Some(i) ==> r.0@ == i.public_ip@ && r.1 == i.sip_port,
        id is None ==> r.0@ == "127.0.0.1"@ && r.1 == 5060,
{
}

/// Media is told a short address as it is, and any other as unspecified.
pub proof fn law_address_for_media(a: &Address, r: Option<String>, none: Option<String>)
    requires
        call_ensures(crate::engine::media_address, (Some(a),), r),
        call_ensures(crate::engine::media_address, (None,), none),
    ensures
        none is None,
        r is Some,
        a.octets@.len() == 4 ==> r->0@ == a.text@,
        a.octets@.len() != 4 ==> r->0@ == "0.0.0.0"@,
{
}

/// A closed connection ends its call as closed, by the callee where it was
/// the callee's.
pub proof fn law_end_by_a_closed_connection(
    gone: Leg,
    caller_dialog: Option<DialogInfo>,
    caller_final: Option<String>,
    callee_bye: Option<String>,
    last_invite: Option<String>,
    branch: &str,
    r: (Option<String>, CallOutcome),
)
    requires
        call_ensures(
            crate::call_handler::handle_transport_event_with,
            (gone, caller_dialog, caller_final, callee_bye, last_invite, branch),
            r,
        ),
    ensures
        gone == Leg::Callee ==> r.1 == (CallOutcome::WsClosed { callee_died: true }),
        gone == Leg::Caller ==> r.1 == (CallOutcome::WsClosed { callee_died: false }),
{
}

/// A BYE of this side's own is sent as it is; any other is the peer's and is
/// hidden.
pub proof fn law_which_bye_is_relayed(
    fresh: Option<String>,
    raw: &str,
    call_id: &str,
    stored: Option<&str>,
    r: (String, bool),
)
    requires
        call_ensures(crate::call_handler::relayed_bye, (fresh, raw, call_id, stored), r),
    ensures
        fresh matches Some(f) ==> r.0@ == f@ && !r.1,
        fresh is None ==> r.1,
        fresh is None && stored is None ==> r.0@ == raw@,
{
}

// ── Trunks, stores and backups ──────────────────────────────────────────

/// A trunk is told to be up again where it was cooling down and is not parked
/// any more.
pub proof fn law_trunk_is_up_again(name: &str, cooling: bool, parked: bool, r: Option<TrunkHealth>)
    requires
        call_ensures(crate::trunk_state::note_trunk_success, (name, cooling, parked), r),
    ensures
        r is Some <==> cooling && !parked,
        r matches Some(h) ==> h.trunk@ == name@ && h.status@ == "up"@ && h.consecutive_failures == 0,
{
}

/// A move between trunks is a failover where there was a trunk before.
pub proof fn law_label_of_a_move(m: &TrunkMove, r: Option<&'static str>)
    requires
        call_ensures(crate::trunk_state::move_label, (m,), r),
    ensures
        r is Some <==> m.failover,
        r matches Some(l) ==> l@ == "failover"@,
{
}

/// An import is stamped where it stored something.
pub proof fn law_stamp_of_an_import(stored: (usize, usize, usize), now: u64, r: Option<String>)
    requires
        call_ensures(crate::import::import_stamp, (stored, now), r),
    ensures
        r is Some <==> stored.0 > 0 || stored.1 > 0 || stored.2 > 0,
        r matches Some(t) ==> rfc3339::is_timestamp(t@, now as nat),
{
}

/// The first backup runs when it is due, the later ones every interval, and
/// none where no interval is set.
pub proof fn law_timer_of_the_backups(
    policy: &BackupPolicy,
    newest: Option<(u128, u64)>,
    now: u128,
    r: BackupTimer,
)
    requires
        call_ensures(crate::backup::spawn_backup_timer, (policy, newest, now), r),
    ensures
        r.delays is None <==> policy.interval is None,
        r.delays matches Some((_, later)) ==> Some(later) == policy.interval,
        r.delays matches Some((first, _)) ==> (newest is None ==> first == 60_000_000_000),
        r.delays matches Some((first, _)) ==> (newest matches Some((t, _)) ==> first == backup::run_delay(
            Some(t),
            now,
            policy.interval->0,
        )),
        newest is None <==> r.last_success is None,
        newest matches Some((t, bytes)) ==> r.last_success == Some(
            ((t / 1_000_000_000) as u128, bytes),
        ),
{
}

/// What a backup leaves: a good one its size, a failed one a count and an
/// alert, and one that did not run nothing.
pub proof fn law_what_a_backup_leaves(
    written: Option<Result<BackupInfo, String>>,
    pruned: Result<Vec<String>, String>,
    r: (Result<BackupReport, BackupError>, BackupEffects),
)
    requires
        call_ensures(crate::backup::run_backup, (written, pruned), r),
    ensures
        r.0 is Ok <==> written is Some && written->0 is Ok,
        r.1.failure_counted <==> written is Some && written->0 is Err,
        r.1.alert is Some <==> written is Some && written->0 is Err,
        written matches Some(Ok(info)) ==> r.1.recorded == Some(info.bytes),
        !(written is Some && written->0 is Ok) ==> r.1.recorded is None,
        r.0 matches Err(e) ==> (e is Busy <==> written is None),
        r.1.alert matches Some((level, kind, detail)) ==> level@ == "warning"@ && kind@
            == "backup_failed"@,
{
}

/// What a reload is called in the log of changes.
pub proof fn law_words_of_a_reload(ok: bool, r: String)
    requires
        call_ensures(crate::runtime_config::reload_action, (ok,), r),
    ensures
        ok ==> r@ == "reloaded"@,
        !ok ==> r@ == "reload_failed"@,
{
}

/// Who may act for an address is let through, and anyone else is told what
/// speaks against them.
pub proof fn law_authorization(user: &str, aor: &str, served: &Vec<String>, r: Result<(), AorRejection>)
    requires
        call_ensures(crate::identity::authorize_aor, (user, aor, served), r),
    ensures
        r is Ok <==> identity::or_empty(identity::user_part(aor@)) == user@ && (served@.len() == 0 || identity::domain_served(
            text::string_views(served@),
            identity::or_empty(identity::host_part(aor@)),
        )),
        r matches Err(AorRejection::User(u)) ==> u@ == identity::or_empty(identity::user_part(aor@)) && u@ != user@,
        r matches Err(AorRejection::Domain(d)) ==> d@ == identity::or_empty(identity::host_part(aor@)) && identity::or_empty(
            identity::user_part(aor@),
        ) == user@,
{
}

} // verus!
