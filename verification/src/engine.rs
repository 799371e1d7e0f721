//! The engine around the handlers: what is let in, which handler takes a
//! request, what is remembered of a response, how the controller starts and
//! what its loop does on each event.

use crate::call_handler::{Bye, Info, Refer};
use crate::cdr::Hangup;
use crate::client_tx::{TIMER_T1, Transport, utf8_text};
use crate::headers;
use crate::hydrate::{TrunkConfig, TrunkView};
use crate::hydrate;
use crate::identity::Readiness;
use crate::import::TrunkToml;
use crate::invite_handler::outbound_transport;
use crate::invite_handler;
use crate::invite_tx::{InviteTxCache, TxView};
use crate::invite_tx;
use crate::message::{MessageView, SipMessage, SipRequest, SipResponse, parse_message, status_code_of};
use crate::message;
use crate::net::Address;
use crate::raw_message::{RawSipMessage, RawView};
use crate::raw_message;
use crate::responses::{build_plain_response, build_plain_response_for_request_with, new_tag, response_for_message};
use crate::responses;
use crate::runtime_config::ReloadSource;
use crate::text::same_str;
use crate::text;
use vstd::prelude::*;

verus! {

// ── Screening ───────────────────────────────────────────────────────────

/// What is known of the source of a message. The later facts are not asked
/// for where an earlier one decides.
#[derive(Debug)]
pub struct SourceFacts {
    pub banned: bool,
    /// Banned sources get no answer.
    pub silent_drop: bool,
    pub acl_allowed: bool,
    pub rate_allowed: bool,
}

/// What becomes of a message.
#[derive(Debug, Clone, Copy, PartialEq, Eq, Structural)]
pub enum Screening {
    /// Of a banned source: dropped, answered 403 unless silently.
    Banned,
    /// Refused by the access list: dropped without an answer.
    Denied,
    /// Over the rate: answered 503.
    Limited,
    Delivered,
}

/// Ban, then access list, then rate limit.
pub open spec fn screening(f: SourceFacts) -> Screening {
    if f.banned {
        Screening::Banned
    } else if !f.acl_allowed {
        Screening::Denied
    } else if !f.rate_allowed {
        Screening::Limited
    } else {
        Screening::Delivered
    }
}

/// Status and reason of the answer to a message that is not delivered.
pub open spec fn screening_answer(f: SourceFacts) -> Option<(u16, Seq<char>)> {
    match screening(f) {
        Screening::Banned => if f.silent_drop {
            None
        } else {
            Some((403, "Forbidden"@))
        },
        Screening::Limited => Some((503, "Service Unavailable"@)),
        _ => None,
    }
}

/// The answer to a message that is not delivered.
pub open spec fn refuses_aloud(answer: Option<String>, msg: MessageView, f: SourceFacts) -> bool {
    match screening_answer(f) {
        Some((status, reason)) => answer matches Some(t) && responses::answers(t@, msg, status, reason),
        None => answer is None,
    }
}

/// Screen a received message: what becomes of it and, where it is refused
/// aloud, the answer.
pub fn handle_message(msg: &SipMessage, f: &SourceFacts) -> (r: (Screening, Option<String>))
    ensures
        r.0 == screening(*f),
        refuses_aloud(r.1, msg@, *f),
{
    if f.banned {
        if f.silent_drop {
            return (Screening::Banned, None);
        }
        return (Screening::Banned, Some(response_for_message(msg, 403, "Forbidden")));
    }
    if !f.acl_allowed {
        return (Screening::Denied, None);
    }
    if !f.rate_allowed {
        return (Screening::Limited, Some(response_for_message(msg, 503, "Service Unavailable")));
    }
    (Screening::Delivered, None)
}

// ── Dispatch ────────────────────────────────────────────────────────────

/// The methods that are served.
pub const ALLOWED_METHODS: &'static str = "INVITE, ACK, BYE, CANCEL, OPTIONS, REGISTER, INFO, REFER";

/// The handler of a request.
#[derive(Debug, Clone, Copy, PartialEq, Eq, Structural)]
pub enum Handler {
    Options,
    Register,
    Invite,
    Ack,
    Bye,
    Cancel,
    Refer,
    Info,
    /// Answered 405 with the methods that are served.
    Unsupported,
}

pub open spec fn handler_of(method: Seq<char>) -> Handler {
    if method == "OPTIONS"@ {
        Handler::Options
    } else if method == "REGISTER"@ {
        Handler::Register
    } else if method == "INVITE"@ {
        Handler::Invite
    } else if method == "ACK"@ {
        Handler::Ack
    } else if method == "BYE"@ {
        Handler::Bye
    } else if method == "CANCEL"@ {
        Handler::Cancel
    } else if method == "REFER"@ {
        Handler::Refer
    } else if method == "INFO"@ {
        Handler::Info
    } else {
        Handler::Unsupported
    }
}

/// The handler that takes a request.
pub fn handle_request(request: &SipRequest) -> (r: Handler)
    ensures
        r == handler_of(request@.method),
{
    let m = request.method.as_str();
    if same_str(m, "OPTIONS") {
        Handler::Options
    } else if same_str(m, "REGISTER") {
        Handler::Register
    } else if same_str(m, "INVITE") {
        Handler::Invite
    } else if same_str(m, "ACK") {
        Handler::Ack
    } else if same_str(m, "BYE") {
        Handler::Bye
    } else if same_str(m, "CANCEL") {
        Handler::Cancel
    } else if same_str(m, "REFER") {
        Handler::Refer
    } else if same_str(m, "INFO") {
        Handler::Info
    } else {
        Handler::Unsupported
    }
}

/// What came of bytes from the wire.
#[derive(Debug)]
pub enum Received {
    /// No SIP message.
    Unreadable,
    /// Not let in; with the answer, if it gets one.
    Refused { screening: Screening, answer: Option<String> },
    /// A request for this handler.
    Request { handler: Handler, request: SipRequest },
    Response { response: SipResponse },
}

/// Bytes from the wire are this: no message, one that is not let in, or one
/// for its handler.
pub open spec fn comes_to(r: Received, msg: Option<MessageView>, f: SourceFacts) -> bool {
    match msg {
        None => r is Unreadable,
        Some(m) => if screening(f) != Screening::Delivered {
            r matches Received::Refused { screening: s, answer } && s == screening(f)
                && refuses_aloud(answer, m, f)
        } else {
            match m {
                MessageView::Request(q) => r matches Received::Request { handler, request }
                    && request@ == q && handler == handler_of(q.method),
                MessageView::Response(p) => r matches Received::Response { response } && response@
                    == p,
            }
        },
    }
}

/// Take in a message that was read: screen it and find its handler.
pub fn receive_message(msg: SipMessage, f: &SourceFacts) -> (r: Received)
    ensures
        comes_to(r, Some(msg@), *f),
{
    let (s, answer) = handle_message(&msg, f);
    match s {
        Screening::Delivered => match msg {
            SipMessage::Request(request) => {
                let handler = handle_request(&request);
                Received::Request { handler, request }
            },
            SipMessage::Response(response) => Received::Response { response },
        },
        _ => Received::Refused { screening: s, answer },
    }
}

/// Take in bytes from the wire.
pub fn receive(bytes: &[u8], f: &SourceFacts) -> (r: Received)
    ensures
        comes_to(r, message::wire_message(bytes@), *f),
{
    match parse_message(bytes) {
        None => Received::Unreadable,
        Some(msg) => receive_message(msg, f),
    }
}

/// A response with the methods that are served in its Allow header.
pub open spec fn with_allow(raw: Seq<char>) -> Seq<char> {
    if headers::start_line(raw).len() > 0 {
        let m = raw_message::raw_parts(raw);
        raw_message::raw_text(
            RawView { headers: raw_message::with_header(m.headers, "Allow"@, ALLOWED_METHODS@), ..m },
        )
    } else {
        raw
    }
}

/// The 405 for a method that is not served, given the tag to add to its To.
pub fn method_not_allowed_with(request: &SipRequest, tag: &str) -> (r: String)
    ensures
        r@ == with_allow(responses::response_or_bare(request@.headers, 405, "Method Not Allowed"@, tag@)),
{
    let plain = match build_plain_response_for_request_with(request, 405, tag) {
        Some(t) => t,
        None => build_plain_response(405, "Method Not Allowed"),
    };
    match RawSipMessage::parse(plain.as_str()) {
        Some(parsed) => {
            let mut m = parsed;
            m.set_header("Allow", ALLOWED_METHODS);
            m.write()
        },
        None => plain,
    }
}

/// The 405 for a method that is not served.
pub fn method_not_allowed(request: &SipRequest) -> (r: String)
    ensures
        exists|tag: Seq<char>|
            responses::is_tag(tag) && r@ == with_allow(
                #[trigger] responses::response_or_bare(
                    request@.headers,
                    405,
                    "Method Not Allowed"@,
                    tag,
                ),
            ),
{
    let tag = new_tag();
    let r = method_not_allowed_with(request, tag.as_str());
    assert(r@ == with_allow(
        responses::response_or_bare(request@.headers, 405, "Method Not Allowed"@, tag@),
    ));
    r
}

// ── Sending ─────────────────────────────────────────────────────────────

/// The transactions once bytes have been handed to the transport: a response
/// to an INVITE is remembered, so that a retransmitted INVITE gets it again,
/// and a refusal on a transport that may lose it is sent again until its ACK
/// comes.
pub open spec fn after_sending(s: Seq<TxView>, data: Seq<u8>, unreliable: bool, now: u64) -> Seq<
    TxView,
> {
    if vstd::utf8::valid_utf8(data) {
        let text = vstd::utf8::decode_utf8(data);
        match invite_tx::response_tx_key(text) {
            Some((key, is_final)) => {
                let kept = invite_tx::tx_recorded(s, key, data, is_final, now);
                if unreliable && is_refusal(text) {
                    invite_tx::tx_awaiting(kept, key, now)
                } else {
                    kept
                }
            },
            None => s,
        }
    } else {
        s
    }
}

/// A final that refuses: its ACK ends the transaction.
pub open spec fn is_refusal(raw: Seq<char>) -> bool {
    message::status_code(raw) matches Some(code) && code >= 300
}

/// Note a message that is about to be sent.
pub fn send_sip(cache: &mut InviteTxCache, data: &[u8], unreliable: bool, now: u64)
    requires
        old(cache).wf(),
        now <= u64::MAX - 4_000,
    ensures
        final(cache).wf(),
        final(cache)@ == after_sending(old(cache)@, data@, unreliable, now),
{
    if let Some(text) = utf8_text(data) {
        if let Some((key, is_final)) = InviteTxCache::key_of_response(text) {
            cache.record(key.as_str(), data, is_final, now);
            if unreliable {
                if let Some(code) = status_code_of(text) {
                    if code >= 300 {
                        cache.await_ack(key.as_str(), now);
                    }
                }
            }
        }
    }
}

/// The transactions once an ACK came: the refusal that it acknowledges is not
/// sent again. That of an answer shares the key and changes nothing.
pub open spec fn after_ack(s: Seq<TxView>, hs: Seq<Seq<char>>) -> Seq<TxView> {
    match invite_tx::request_tx_key(hs) {
        Some(key) => invite_tx::tx_acked(s, key),
        None => s,
    }
}

/// Note an ACK that came.
pub fn receive_ack(cache: &mut InviteTxCache, ack: &SipRequest)
    requires
        old(cache).wf(),
    ensures
        final(cache).wf(),
        final(cache)@ == after_ack(old(cache)@, ack@.headers),
{
    if let Some(key) = InviteTxCache::key_of_request(ack) {
        cache.acked(key.as_str());
    }
}

// ── Start ───────────────────────────────────────────────────────────────

/// How far the store came up.
#[derive(Debug, Clone, Copy, PartialEq, Eq, Structural)]
pub enum StoreState {
    /// No store: the file alone is in force.
    Missing,
    /// Open, but what it holds could not be read: the file stays in force.
    Unread,
    /// Open and read.
    Ready,
}

/// Whether the controller starts, and with which store.
pub open spec fn store_verdict(
    opened: Result<(), String>,
    read: Result<(), String>,
    allow_missing: bool,
    path: Seq<char>,
) -> Result<StoreState, Seq<char>> {
    match (opened, read) {
        (Ok(_), Ok(_)) => Ok(StoreState::Ready),
        (Ok(_), Err(why)) => if allow_missing {
            Ok(StoreState::Unread)
        } else {
            Err(
                "config store "@ + path + ": hydration failed: "@ + why@
                    + " — refusing to start with a runtime that does not match the store (set [database].allow_missing_store = true to run from the TOML seeds only)"@,
            )
        },
        (Err(why), _) => if allow_missing {
            Ok(StoreState::Missing)
        } else {
            Err(
                "config store "@ + path + " cannot be opened: "@ + why@
                    + " — refusing to start with no users, trunks or DIDs (set [database].allow_missing_store = true to run from the TOML seeds only)"@,
            )
        },
    }
}

pub open spec fn start_view(r: Result<StoreState, String>) -> Result<StoreState, Seq<char>> {
    match r {
        Ok(s) => Ok(s),
        Err(e) => Err(e@),
    }
}

/// Decide whether to start, given how opening the store and reading it went.
/// Without a store there are no users, trunks or numbers, so that is fatal
/// unless the file allows it.
pub fn open_store(
    opened: Result<(), String>,
    read: Result<(), String>,
    allow_missing: bool,
    path: &str,
) -> (r: Result<StoreState, String>)
    ensures
        start_view(r) == store_verdict(opened, read, allow_missing, path@),
{
    match (opened, read) {
        (Ok(_), Ok(_)) => Ok(StoreState::Ready),
        (Ok(_), Err(why)) => {
            if allow_missing {
                return Ok(StoreState::Unread);
            }
            let mut e = "config store ".to_string();
            e.push_str(path);
            e.push_str(": hydration failed: ");
            e.push_str(why.as_str());
            e.push_str(
                " — refusing to start with a runtime that does not match the store (set [database].allow_missing_store = true to run from the TOML seeds only)",
            );
            Err(e)
        },
        (Err(why), _) => {
            if allow_missing {
                return Ok(StoreState::Missing);
            }
            let mut e = "config store ".to_string();
            e.push_str(path);
            e.push_str(" cannot be opened: ");
            e.push_str(why.as_str());
            e.push_str(
                " — refusing to start with no users, trunks or DIDs (set [database].allow_missing_store = true to run from the TOML seeds only)",
            );
            Err(e)
        },
    }
}

/// What is ready after the store came up so far.
pub fn store_readiness(state: StoreState) -> (r: Readiness)
    ensures
        r.store_open == (state != StoreState::Missing),
        r.hydrated == (state == StoreState::Ready),
        !r.listening,
{
    let mut ready = Readiness::new();
    match state {
        StoreState::Missing => {},
        StoreState::Unread => {
            ready.set_store_open();
        },
        StoreState::Ready => {
            ready.set_store_open();
            ready.set_hydrated();
        },
    }
    ready
}

/// Under which names the controller is reached.
#[derive(Debug)]
pub struct SbcIdentity {
    pub public_ip: String,
    pub sip_domain: String,
    pub sip_port: u16,
    pub tls: bool,
}

/// The domain to go by: the realm, unless it is blank or the placeholder,
/// else the public address.
pub open spec fn sip_domain(realm: Seq<char>, public_ip: Seq<char>) -> Seq<char> {
    if realm.len() > 0 && realm != "sbc.local"@ {
        realm
    } else {
        public_ip
    }
}

/// The identity under a public address; none without one.
pub fn topology_identity(public_ip: Option<&str>, realm: &str) -> (r: Option<SbcIdentity>)
    ensures
        match public_ip {
            Some(ip) => r matches Some(id) && id.public_ip@ == ip@ && id.sip_domain@ == sip_domain(
                realm@,
                ip@,
            ) && id.sip_port == 5060 && !id.tls,
            None => r is None,
        },
{
    match public_ip {
        Some(ip) => {
            let own = !realm.is_empty() && !same_str(realm, "sbc.local");
            Some(
                SbcIdentity {
                    public_ip: ip.to_string(),
                    sip_domain: if own {
                        realm.to_string()
                    } else {
                        ip.to_string()
                    },
                    sip_port: 5060,
                    tls: false,
                },
            )
        },
        None => None,
    }
}

/// The address and port that requests of our own name: those of the identity,
/// else the loopback ones.
pub fn sbc_addr(identity: Option<&SbcIdentity>) -> (r: (String, u16))
    ensures
        match identity {
            Some(id) => r.0@ == id.public_ip@ && r.1 == id.sip_port,
            None => r.0@ == "127.0.0.1"@ && r.1 == 5060,
        },
{
    match identity {
        Some(id) => (id.public_ip.clone(), id.sip_port),
        None => ("127.0.0.1".to_string(), 5060),
    }
}

/// What a relayed request goes out under, over `t`: the names of the
/// controller with the port that goes with the transport, and the transport as
/// a Via names it. An identity already at that port is taken as it is, its TLS
/// flag included.
pub open spec fn goes_out_under(id: SbcIdentity, t: Transport, out: SbcIdentity, word: Seq<char>) -> bool {
    &&& out.public_ip@ == id.public_ip@
    &&& out.sip_domain@ == id.sip_domain@
    &&& (word, out.sip_port) == invite_handler::transport_words(t)
    &&& out.tls == if invite_handler::transport_words(t).1 == id.sip_port {
        id.tls
    } else {
        t == Transport::Tls || t == Transport::Wss
    }
}

/// The identity under which a request is relayed to the other leg, and the
/// word for its transport; none where the topology is not hidden, and the
/// request goes out as it is.
pub fn apply_outbound_topology(identity: Option<&SbcIdentity>, t: Transport) -> (r: Option<
    (SbcIdentity, &'static str),
>)
    ensures
        match identity {
            Some(id) => r matches Some((out, word)) && goes_out_under(*id, t, out, word@),
            None => r is None,
        },
{
    match identity {
        Some(id) => {
            let (word, port) = outbound_transport(t);
            let tls_flag = if port == id.sip_port {
                id.tls
            } else {
                t == Transport::Tls || t == Transport::Wss
            };
            Some(
                (
                    SbcIdentity {
                        public_ip: id.public_ip.clone(),
                        sip_domain: id.sip_domain.clone(),
                        sip_port: port,
                        tls: tls_flag,
                    },
                    word,
                ),
            )
        },
        None => None,
    }
}

/// The address to offer for media: the public one, which has to be an IPv4
/// address; the unspecified address stands for any other.
pub fn media_address(public_ip: Option<&Address>) -> (r: Option<String>)
    ensures
        match public_ip {
            Some(a) => r matches Some(t) && t@ == (if a.octets@.len() == 4 {
                a.text@
            } else {
                "0.0.0.0"@
            }),
            None => r is None,
        },
{
    match public_ip {
        Some(a) => if a.octets.len() == 4 {
            Some(a.text.clone())
        } else {
            Some("0.0.0.0".to_string())
        },
        None => None,
    }
}

/// The resolved addresses of the trunks, in order.
pub open spec fn resolved_ips(ts: Seq<TrunkView>) -> Seq<Seq<char>>
    decreases ts.len(),
{
    if ts.len() == 0 {
        Seq::empty()
    } else {
        match ts.last().resolved_addr {
            Some((ip, _)) => resolved_ips(ts.drop_last()).push(ip),
            None => resolved_ips(ts.drop_last()),
        }
    }
}

/// The sources that count as trunks at boot: resolved addresses, then the
/// hosts of the running trunks, then those of the file.
pub fn boot_trunk_ips(trunks: &Vec<TrunkConfig>, file: &Vec<TrunkToml>) -> (r: Vec<String>)
    ensures
        text::string_views(r@) == resolved_ips(hydrate::trunk_views(trunks@)) + hydrate::trunk_views(trunks@).map_values(
            |t: TrunkView| t.host,
        ) + file@.map_values(|t: TrunkToml| t.host@),
{
    let mut out: Vec<String> = Vec::new();
    let ghost ts = hydrate::trunk_views(trunks@);
    assert(text::string_views(out@) =~= Seq::empty());
    assert(ts.take(0) =~= Seq::empty());
    let mut i: usize = 0;
    while i < trunks.len()
        invariant
            i <= trunks@.len(),
            ts == hydrate::trunk_views(trunks@),
            text::string_views(out@) == resolved_ips(ts.take(i as int)),
        decreases trunks@.len() - i,
    {
        assert(ts.take(i + 1).drop_last() =~= ts.take(i as int));
        assert(ts.take(i + 1).last() == trunks@[i as int]@);
        let ghost before = text::string_views(out@);
        if let Some((ip, _)) = &trunks[i].resolved_addr {
            out.push(ip.clone());
            assert(text::string_views(out@) =~= before.push(ip@));
        }
        i = i + 1;
    }
    assert(ts.take(ts.len() as int) =~= ts);
    let ghost ips = resolved_ips(ts);
    let ghost hosts = ts.map_values(|t: TrunkView| t.host);
    assert(text::string_views(out@) =~= ips + hosts.take(0));
    let mut j: usize = 0;
    while j < trunks.len()
        invariant
            j <= trunks@.len(),
            ts == hydrate::trunk_views(trunks@),
            hosts == ts.map_values(|t: TrunkView| t.host),
            text::string_views(out@) == ips + hosts.take(j as int),
        decreases trunks@.len() - j,
    {
        let ghost before = text::string_views(out@);
        out.push(trunks[j].host.clone());
        assert(hosts[j as int] == trunks@[j as int].host@);
        assert(text::string_views(out@) =~= before.push(hosts[j as int]));
        assert(text::string_views(out@) =~= ips + hosts.take(j + 1));
        j = j + 1;
    }
    assert(hosts.take(hosts.len() as int) =~= hosts);
    let ghost listed = file@.map_values(|t: TrunkToml| t.host@);
    assert(text::string_views(out@) =~= ips + hosts + listed.take(0));
    let mut k: usize = 0;
    while k < file.len()
        invariant
            k <= file@.len(),
            listed == file@.map_values(|t: TrunkToml| t.host@),
            text::string_views(out@) == ips + hosts + listed.take(k as int),
        decreases file@.len() - k,
    {
        let ghost before = text::string_views(out@);
        out.push(file[k].host.clone());
        assert(listed[k as int] == file@[k as int].host@);
        assert(text::string_views(out@) =~= before.push(listed[k as int]));
        assert(text::string_views(out@) =~= ips + hosts + listed.take(k + 1));
        k = k + 1;
    }
    assert(listed.take(listed.len() as int) =~= listed);
    out
}

// ── Loop ────────────────────────────────────────────────────────────────

/// Milliseconds between checks for calls that last too long.
pub const CALL_TICK: u64 = 30_000;

/// Milliseconds between checks for INVITEs that are not answered.
pub const FAILOVER_TICK: u64 = 1_000;

/// Milliseconds between retransmissions of final responses.
pub const RETRANSMIT_TICK: u64 = 500;

/// What wakes the loop.
#[derive(Debug, Clone, Copy, PartialEq, Eq, Structural)]
pub enum LoopEvent {
    Message,
    TransportClosed,
    CallTick,
    FailoverTick,
    RetransmitTick,
    Kick,
    Hangup,
    ReloadRequested,
    Terminate,
    Interrupt,
}

/// What the loop does.
#[derive(Debug, Clone, Copy, PartialEq, Eq, Structural)]
pub enum LoopAction {
    HandleMessage,
    CheckCallTimeouts,
    RefreshSessions,
    PruneTransactions,
    CheckInviteFailover,
    CheckSetupTimeouts,
    CheckMediaTimeouts,
    DrainTransportEvents,
    ProcessKicks,
    RetransmitFinals,
    Reload(ReloadSource),
    ShutDown,
    Stop,
}

/// What the loop does on an event, in order.
pub open spec fn loop_actions(e: LoopEvent) -> Seq<LoopAction> {
    match e {
        LoopEvent::Message => seq![LoopAction::HandleMessage],
        LoopEvent::TransportClosed => seq![LoopAction::Stop],
        LoopEvent::CallTick => seq![
            LoopAction::CheckCallTimeouts,
            LoopAction::RefreshSessions,
            LoopAction::PruneTransactions,
        ],
        LoopEvent::FailoverTick => seq![
            LoopAction::CheckInviteFailover,
            LoopAction::CheckSetupTimeouts,
            LoopAction::CheckMediaTimeouts,
            LoopAction::DrainTransportEvents,
        ],
        LoopEvent::RetransmitTick => seq![LoopAction::RetransmitFinals],
        LoopEvent::Kick => seq![LoopAction::ProcessKicks],
        LoopEvent::Hangup => seq![LoopAction::Reload(ReloadSource::Sighup)],
        LoopEvent::ReloadRequested => seq![LoopAction::Reload(ReloadSource::Api)],
        LoopEvent::Terminate => seq![LoopAction::ShutDown, LoopAction::Stop],
        LoopEvent::Interrupt => seq![LoopAction::ShutDown, LoopAction::Stop],
    }
}

/// One turn of the loop: what to do on an event, in order.
pub fn run(e: LoopEvent) -> (r: Vec<LoopAction>)
    ensures
        r@ == loop_actions(e),
{
    match e {
        LoopEvent::Message => vec![LoopAction::HandleMessage],
        LoopEvent::TransportClosed => vec![LoopAction::Stop],
        LoopEvent::CallTick => vec![
            LoopAction::CheckCallTimeouts,
            LoopAction::RefreshSessions,
            LoopAction::PruneTransactions,
        ],
        LoopEvent::FailoverTick => vec![
            LoopAction::CheckInviteFailover,
            LoopAction::CheckSetupTimeouts,
            LoopAction::CheckMediaTimeouts,
            LoopAction::DrainTransportEvents,
        ],
        LoopEvent::RetransmitTick => vec![LoopAction::RetransmitFinals],
        LoopEvent::Kick => vec![LoopAction::ProcessKicks],
        LoopEvent::Hangup => vec![LoopAction::Reload(ReloadSource::Sighup)],
        LoopEvent::ReloadRequested => vec![LoopAction::Reload(ReloadSource::Api)],
        LoopEvent::Terminate => vec![LoopAction::ShutDown, LoopAction::Stop],
        LoopEvent::Interrupt => vec![LoopAction::ShutDown, LoopAction::Stop],
    }
}

// ── Laws ────────────────────────────────────────────────────────────────

/// A message of a banned source reaches no handler, whatever else holds of
/// the source, and gets no answer where bans are silent.
pub proof fn law_banned_source_is_not_served(f: SourceFacts)
    requires
        f.banned,
    ensures
        screening(f) != Screening::Delivered,
        f.silent_drop ==> screening_answer(f) is None,
{
}

/// A message reaches its handler only past ban, access list and rate limit,
/// and then it is not answered here.
pub proof fn law_delivered_passed_every_check(f: SourceFacts)
    ensures
        screening(f) == Screening::Delivered <==> !f.banned && f.acl_allowed && f.rate_allowed,
        screening(f) == Screening::Delivered ==> screening_answer(f) is None,
{
}

/// Without a store that opened and was read the controller starts only where
/// the file allows it.
pub proof fn law_store_failure_is_fatal_by_default(
    opened: Result<(), String>,
    read: Result<(), String>,
    path: Seq<char>,
)
    ensures
        store_verdict(opened, read, false, path) is Ok ==> opened is Ok && read is Ok,
        store_verdict(opened, read, true, path) is Ok,
{
}

/// A retransmitted INVITE is answered with the last response that was sent
/// for it: what is sent for a known transaction is what is kept.
pub proof fn law_sent_response_is_kept(
    s: Seq<TxView>,
    data: Seq<u8>,
    unreliable: bool,
    now: u64,
    key: Seq<char>,
    is_final: bool,
)
    requires
        vstd::utf8::valid_utf8(data),
        invite_tx::response_tx_key(vstd::utf8::decode_utf8(data)) == Some((key, is_final)),
        invite_tx::tx_known(s, key),
    ensures
        after_sending(s, data, unreliable, now)[invite_tx::tx_index(s, key)].last_response == Some(data),
{
    invite_tx::law_retransmission_replays_the_last_response(s, key, data, is_final, now);
    invite_tx::lemma_tx_index(s, key);
}

/// A refusal that may be lost is sent again until its ACK comes: once it was
/// sent it waits, and once an ACK with the same identity came it does not.
pub proof fn law_refusal_waits_for_its_ack(
    s: Seq<TxView>,
    data: Seq<u8>,
    now: u64,
    key: Seq<char>,
    ack: Seq<Seq<char>>,
    later: u64,
)
    requires
        vstd::utf8::valid_utf8(data),
        invite_tx::response_tx_key(vstd::utf8::decode_utf8(data)) == Some((key, true)),
        is_refusal(vstd::utf8::decode_utf8(data)),
        invite_tx::tx_known(s, key),
        invite_tx::request_tx_key(ack) == Some(key),
        now <= u64::MAX - 4_000,
    ensures
        ({
            let at = invite_tx::tx_index(s, key);
            let sent = after_sending(s, data, true, now);
            &&& sent[at].resend == Some(((now + TIMER_T1) as u64, TIMER_T1))
            &&& !invite_tx::final_due(after_ack(sent, ack)[at], later)
        }),
{
    invite_tx::law_retransmission_replays_the_last_response(s, key, data, true, now);
    invite_tx::lemma_tx_index(s, key);
    let kept = invite_tx::tx_recorded(s, key, data, true, now);
    let sent = after_sending(s, data, true, now);
    invite_tx::lemma_tx_index(kept, key);
    invite_tx::lemma_tx_index_is(sent, key, invite_tx::tx_index(s, key));
}

} // verus!
