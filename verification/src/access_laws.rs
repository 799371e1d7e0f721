//! What is promised of who is let in: screening, dispatch, registration and
//! claimed identities.

use crate::call_handler::{Binding, Bye, Info, Refer};
use crate::cdr::Hangup;
use crate::cdr;
use crate::engine::{Handler, LoopAction, LoopEvent, Received, Screening, SourceFacts, StoreState};
use crate::engine;
use crate::headers;
use crate::hydrate::TrunkView;
use crate::identity::IdentityPolicy;
use crate::identity;
use crate::invite_handler::{AdmissionView, ClaimsView, InviteFacts, Proof, SourceView};
use crate::invite_handler;
use crate::message::MessageView;
use crate::message;
use crate::register::{RegisterAuth, RegisterPolicy, RegisterView};
use crate::register;
use crate::runtime_config::ReloadSource;
use crate::sip_laws;
use crate::text;
use vstd::prelude::*;

verus! {

// ── Screening and dispatch ──────────────────────────────────────────────

/// What becomes of a message: a ban comes before the access list, and that
/// before the rate; a banned source hears 403 unless bans are silent, one
/// over the rate 503, and one that the list refuses nothing.
pub proof fn law_screening(f: SourceFacts)
    ensures
        engine::screening(f) == Screening::Banned <==> f.banned,
        engine::screening(f) == Screening::Denied <==> !f.banned && !f.acl_allowed,
        engine::screening(f) == Screening::Limited <==> !f.banned && f.acl_allowed && !f.rate_allowed,
        engine::screening(f) == Screening::Delivered <==> !f.banned && f.acl_allowed && f.rate_allowed,
        engine::screening_answer(f) is Some <==> (f.banned && !f.silent_drop) || (!f.banned && f.acl_allowed
            && !f.rate_allowed),
        f.banned && !f.silent_drop ==> engine::screening_answer(f) == Some((403u16, "Forbidden"@)),
        !f.banned && f.acl_allowed && !f.rate_allowed ==> engine::screening_answer(f) == Some(
            (503u16, "Service Unavailable"@),
        ),
{
}

/// What comes of bytes: what is no message is dropped, a refused message
/// reaches no handler, and any other reaches the one of its kind unchanged.
pub proof fn law_delivered_as_it_came(r: Received, msg: Option<MessageView>, f: SourceFacts)
    requires
        engine::comes_to(r, msg, f),
    ensures
        msg is None <==> r is Unreadable,
        r is Refused <==> msg is Some && (f.banned || !f.acl_allowed || !f.rate_allowed),
        r matches Received::Request { handler, request } ==> msg == Some(
            MessageView::Request(request@),
        ) && handler == engine::handler_of(request@.method),
        r matches Received::Response { response } ==> msg == Some(MessageView::Response(response@)),
{
}

/// Each method that is served has its own handler, and no other has one.
pub proof fn law_handler_of_each_method(m: Seq<char>)
    ensures
        engine::handler_of("OPTIONS"@) == Handler::Options,
        engine::handler_of("REGISTER"@) == Handler::Register,
        engine::handler_of("INVITE"@) == Handler::Invite,
        engine::handler_of("ACK"@) == Handler::Ack,
        engine::handler_of("BYE"@) == Handler::Bye,
        engine::handler_of("CANCEL"@) == Handler::Cancel,
        engine::handler_of("REFER"@) == Handler::Refer,
        engine::handler_of("INFO"@) == Handler::Info,
        engine::handler_of(m) == Handler::Unsupported <==> m != "OPTIONS"@ && m != "REGISTER"@ && m
            != "INVITE"@ && m != "ACK"@ && m != "BYE"@ && m != "CANCEL"@ && m != "REFER"@ && m
            != "INFO"@,
{
    reveal_strlit("OPTIONS");
    reveal_strlit("REGISTER");
    reveal_strlit("INVITE");
    reveal_strlit("ACK");
    reveal_strlit("BYE");
    reveal_strlit("CANCEL");
    reveal_strlit("REFER");
    reveal_strlit("INFO");
    assert("OPTIONS"@[0] == 'O' && "REGISTER"@[0] == 'R' && "INVITE"@[0] == 'I' && "ACK"@[0] == 'A');
    assert("BYE"@[0] == 'B' && "CANCEL"@[0] == 'C' && "REFER"@[0] == 'R' && "INFO"@[0] == 'I');
    assert("REGISTER"@.len() == 8 && "REFER"@.len() == 5 && "INVITE"@.len() == 6 && "INFO"@.len()
        == 4);
}

/// A turn of the loop does what its event is for, and only a signal to end or
/// a transport that is gone stops it, a signal after the calls are ended.
pub proof fn law_turn_of_the_loop(e: LoopEvent)
    ensures
        engine::loop_actions(e).contains(LoopAction::Stop) <==> e == LoopEvent::TransportClosed || e
            == LoopEvent::Terminate || e == LoopEvent::Interrupt,
        e == LoopEvent::Terminate || e == LoopEvent::Interrupt ==> engine::loop_actions(e) == seq![
            LoopAction::ShutDown,
            LoopAction::Stop,
        ],
        engine::loop_actions(LoopEvent::Message) == seq![LoopAction::HandleMessage],
        engine::loop_actions(LoopEvent::CallTick) == seq![
            LoopAction::CheckCallTimeouts,
            LoopAction::RefreshSessions,
            LoopAction::PruneTransactions,
        ],
        engine::loop_actions(LoopEvent::FailoverTick) == seq![
            LoopAction::CheckInviteFailover,
            LoopAction::CheckSetupTimeouts,
            LoopAction::CheckMediaTimeouts,
            LoopAction::DrainTransportEvents,
        ],
        engine::loop_actions(LoopEvent::RetransmitTick) == seq![LoopAction::RetransmitFinals],
        engine::loop_actions(LoopEvent::Kick) == seq![LoopAction::ProcessKicks],
        engine::loop_actions(LoopEvent::Hangup) == seq![LoopAction::Reload(ReloadSource::Sighup)],
        engine::loop_actions(LoopEvent::ReloadRequested) == seq![LoopAction::Reload(ReloadSource::Api)],
{
    let a = engine::loop_actions(e);
    match e {
        LoopEvent::TransportClosed => {
            assert(a[0] == LoopAction::Stop);
        },
        LoopEvent::Terminate => {
            assert(a[1] == LoopAction::Stop);
        },
        LoopEvent::Interrupt => {
            assert(a[1] == LoopAction::Stop);
        },
        _ => {
            assert forall|i: int| 0 <= i < a.len() implies a[i] != LoopAction::Stop by {}
        },
    }
}

/// The controller starts with what it could open and read, and where it does
/// not start, it says which store and why.
pub proof fn law_start_of_the_controller(
    opened: Result<(), String>,
    read: Result<(), String>,
    allow: bool,
    path: Seq<char>,
)
    ensures
        engine::store_verdict(opened, read, allow, path) == Ok::<StoreState, Seq<char>>(StoreState::Ready)
            <==> opened is Ok && read is Ok,
        engine::store_verdict(opened, read, allow, path) == Ok::<StoreState, Seq<char>>(StoreState::Unread)
            <==> opened is Ok && read is Err && allow,
        engine::store_verdict(opened, read, allow, path) == Ok::<StoreState, Seq<char>>(StoreState::Missing)
            <==> opened is Err && allow,
        engine::store_verdict(opened, read, allow, path) is Err <==> !allow && (opened is Err || read is Err),
{
}

/// The domain to go by is the realm that was configured, and the public
/// address where there is none but the placeholder.
pub proof fn law_own_domain(realm: Seq<char>, ip: Seq<char>)
    ensures
        realm.len() > 0 && realm != "sbc.local"@ ==> engine::sip_domain(realm, ip) == realm,
        realm.len() == 0 || realm == "sbc.local"@ ==> engine::sip_domain(realm, ip) == ip,
{
}

/// The addresses of trunks that resolved, in the order of the trunks.
pub proof fn law_resolved_addresses(ts: Seq<TrunkView>)
    ensures
        engine::resolved_ips(ts) == ts.filter(|t: TrunkView| t.resolved_addr is Some).map_values(
            |t: TrunkView| (t.resolved_addr->0).0,
        ),
    decreases ts.len(),
{
    reveal(Seq::filter);
    let keep = |t: TrunkView| t.resolved_addr is Some;
    let tell = |t: TrunkView| (t.resolved_addr->0).0;
    if ts.len() > 0 {
        law_resolved_addresses(ts.drop_last());
    }
    assert(engine::resolved_ips(ts) =~= ts.filter(keep).map_values(tell));
}

// ── Registration ────────────────────────────────────────────────────────

/// What the credentials of a REGISTER lead to: none, old or repeated ones to
/// a challenge, wrong ones to a refusal that counts, and what is no answer to
/// a challenge at all to a bad request.
pub proof fn law_credentials_of_a_register(
    auth: RegisterAuth,
    aor: Seq<char>,
    hs: Seq<Seq<char>>,
    served: Seq<Seq<char>>,
    id: IdentityPolicy,
    policy: RegisterPolicy,
)
    ensures
        ({
            let p = register::register_plan(auth, aor, hs, served, id, policy);
            &&& p is Challenge <==> auth is Missing || auth is Stale || auth is Replay
            &&& p matches RegisterView::Challenge { stale } ==> stale == !(auth is Missing)
            &&& auth is Malformed ==> p == RegisterView::BadRequest
            &&& auth is Failed ==> p is Forbidden && p->strike
            &&& auth is NotRequired ==> p == register::contact_plan(hs, policy)
            &&& auth matches RegisterAuth::Valid { user } ==> (identity::or_empty(identity::user_part(aor)) == user@ && (
            served.len() == 0 || identity::domain_served(served, identity::or_empty(identity::host_part(aor)))) ==> p
                == register::contact_plan(hs, policy))
            &&& auth matches RegisterAuth::Valid { user } ==> (identity::or_empty(identity::user_part(aor)) != user@
                && id.enforce_register_aor ==> p == (RegisterView::Forbidden {
                strike: false,
                user: None,
            }))
            &&& auth is Valid && !id.enforce_register_aor ==> p == register::contact_plan(hs, policy)
        }),
{
}

/// Who may act for an address of record: its user, on a domain that is
/// served where any is known. What speaks against anyone else is named.
pub proof fn law_who_may_act(user: Seq<char>, aor: Seq<char>, served: Seq<Seq<char>>)
    ensures
        identity::aor_objection(user, aor, served) is None <==> identity::or_empty(identity::user_part(aor)) == user && (
        served.len() == 0 || exists|i: int|
            0 <= i < served.len() && text::same_text(#[trigger] served[i], identity::or_empty(identity::host_part(aor)))),
        identity::or_empty(identity::user_part(aor)) != user ==> identity::aor_objection(user, aor, served) == Some(
            (true, identity::or_empty(identity::user_part(aor))),
        ),
        identity::aor_objection(user, aor, served) matches Some((of_user, what)) ==> (!of_user ==> what
            == identity::or_empty(identity::host_part(aor))),
{
}

/// What an objection does: a user that is another's is refused while the
/// check is enforced, a domain only once domains are configured.
pub proof fn law_when_an_objection_refuses(of_user: bool, what: Seq<char>, enforce: bool, n: nat)
    ensures
        identity::refuses((of_user, what), enforce, n) ==> enforce,
        identity::refuses((true, what), enforce, n) <==> enforce,
        identity::refuses((false, what), enforce, n) <==> enforce && n > 0,
{
}

/// What the contacts of a REGISTER ask for: none asks for the bindings there
/// are, a lone star with a lifetime of zero removes all of them, and where
/// every contact can be called and none asks for too little, each is bound.
pub proof fn law_contacts_of_a_register(hs: Seq<Seq<char>>, policy: RegisterPolicy)
    ensures
        ({
            let cs = register::contact_values(hs);
            let p = register::contact_plan(hs, policy);
            let star = exists|i: int| 0 <= i < cs.len() && #[trigger] cs[i] == "*"@;
            let callable = forall|i: int| 0 <= i < cs.len() ==> register::is_contact(#[trigger] cs[i]);
            let brief = exists|i: int|
                0 <= i < cs.len() && 0 < register::asked_lifetime(#[trigger] cs[i], register::expires_header(hs))
                    < policy.min_expires;
            &&& p == RegisterView::Query <==> cs.len() == 0
            &&& p == RegisterView::RemoveAll <==> star && cs.len() == 1 && register::expires_header(hs) == Some(
                0nat,
            )
            &&& p == (RegisterView::TooBrief { min_expires: policy.min_expires }) <==> cs.len() > 0
                && !star && callable && brief
            &&& p is Bind <==> cs.len() > 0 && !star && callable && !brief
            &&& p == RegisterView::BadRequest <==> (star && !(cs.len() == 1 && register::expires_header(hs)
                == Some(0nat))) || (cs.len() > 0 && !star && !callable)
        }),
{
    let cs = register::contact_values(hs);
    if cs.contains("*"@) {
        let i = choose|i: int| 0 <= i < cs.len() && cs[i] == "*"@;
        assert(cs[i] == "*"@);
    }
}

/// Each contact is bound for what it asks for itself, else for what the
/// request asks for, else for an hour, and never for longer than allowed.
pub proof fn law_lifetime_of_each_contact(cs: Seq<Seq<char>>, header: Option<nat>, max: nat)
    ensures
        register::asked_bindings(cs, header, max).len() == cs.len(),
        forall|i: int|
            0 <= i < cs.len() ==> (#[trigger] register::asked_bindings(cs, header, max)[i]).0 == cs[i] && ({
                let want = match register::contact_lifetime(cs[i]) {
                    Some(n) => n,
                    None => match header {
                        Some(n) => n,
                        None => 3600nat,
                    },
                };
                let got = register::asked_bindings(cs, header, max)[i].1;
                (want <= max ==> got == want) && (want > max ==> got == max)
            }),
    decreases cs.len(),
{
    if cs.len() > 0 {
        let d = cs.drop_last();
        law_lifetime_of_each_contact(d, header, max);
        assert forall|i: int| 0 <= i < cs.len() implies (#[trigger] register::asked_bindings(
            cs,
            header,
            max,
        )[i]).0 == cs[i] && ({
            let want = match register::contact_lifetime(cs[i]) {
                Some(n) => n,
                None => match header {
                    Some(n) => n,
                    None => 3600nat,
                },
            };
            let got = register::asked_bindings(cs, header, max)[i].1;
            (want <= max ==> got == want) && (want > max ==> got == max)
        }) by {
            if i < d.len() {
                assert(d[i] == cs[i]);
                assert(register::asked_bindings(cs, header, max)[i] == register::asked_bindings(d, header, max)[i]);
            }
        }
    }
}

/// The contacts of a REGISTER are the values of its Contact headers, in their
/// order.
pub proof fn law_contact_headers(hs: Seq<Seq<char>>)
    ensures
        register::contact_values(hs) == hs.filter(
            |l: Seq<char>| text::starts_with_word(l, "contact:"@) || text::starts_with_word(l, "m:"@),
        ).map_values(|l: Seq<char>| headers::header_field(l)),
    decreases hs.len(),
{
    reveal(Seq::filter);
    let keep = |l: Seq<char>| text::starts_with_word(l, "contact:"@) || text::starts_with_word(l, "m:"@);
    let tell = |l: Seq<char>| headers::header_field(l);
    if hs.len() > 0 {
        law_contact_headers(hs.drop_last());
    }
    assert(register::contact_values(hs) =~= hs.filter(keep).map_values(tell));
}

/// A successful REGISTER lists every binding with the seconds that it has
/// left, and the lifetime of the first.
pub proof fn law_bindings_are_listed(
    hs: Seq<Seq<char>>,
    bindings: Seq<(Seq<char>, nat)>,
    query: bool,
)
    ensures
        ({
            let e = register::register_200_extras(hs, bindings, query);
            let n = bindings.len();
            &&& forall|i: int|
                0 <= i < n ==> #[trigger] e[i] == (
                    "Contact"@,
                    "<"@ + bindings[i].0 + ">;expires="@ + text::decimal(bindings[i].1),
                )
            &&& n > 0 && query ==> e.len() == n
            &&& n > 0 && !query ==> e.len() == n + 1 && e[n as int] == (
                "Expires"@,
                text::decimal(bindings[0].1),
            )
            &&& n == 0 && query && message::contact_value(hs) is None ==> e.len() == 0
            &&& n == 0 && message::contact_value(hs) is Some ==> e.len() > 0 && e[0] == (
                "Contact"@,
                message::contact_value(hs)->0,
            )
        }),
{
    lemma_binding_pairs(bindings);
}

proof fn lemma_binding_pairs(v: Seq<(Seq<char>, nat)>)
    ensures
        register::binding_pairs(v).len() == v.len(),
        forall|i: int|
            0 <= i < v.len() ==> #[trigger] register::binding_pairs(v)[i] == (
                "Contact"@,
                "<"@ + v[i].0 + ">;expires="@ + text::decimal(v[i].1),
            ),
    decreases v.len(),
{
    if v.len() > 0 {
        lemma_binding_pairs(v.drop_last());
        assert forall|i: int| 0 <= i < v.len() implies #[trigger] register::binding_pairs(v)[i] == (
            "Contact"@,
            "<"@ + v[i].0 + ">;expires="@ + text::decimal(v[i].1),
        ) by {
            if i < v.len() - 1 {
                assert(register::binding_pairs(v)[i] == register::binding_pairs(v.drop_last())[i]);
            }
        }
    }
}

/// The address that a REGISTER is for is the one between the brackets of its
/// To, or its To where it has none.
pub proof fn law_address_of_a_register(name: Seq<char>, aor: Seq<char>, hs: Seq<Seq<char>>)
    requires
        sip_laws::is_trimmed(aor),
        !name.contains('<') && !aor.contains('>'),
        name.len() > 0 ==> !text::is_space(name[0]),
        message::to_value(hs) == Some(name + seq!['<'] + aor + seq!['>']),
    ensures
        register::registered_aor(hs) == Some(aor),
{
    let v = name + seq!['<'] + aor + seq!['>'];
    assert(sip_laws::is_trimmed(v)) by {
        assert(v.last() == '>');
        assert(v[0] == if name.len() > 0 {
            name[0]
        } else {
            '<'
        });
    }
    sip_laws::lemma_trim_after_space(v);
    let a = name.len() as int;
    let b = v.len() - 1;
    assert forall|k: int| 0 <= k < a implies v[k] != '<' by {
        assert(v[k] == name[k]);
        assert(name.contains(name[k]));
    }
    assert(v[a] == '<' && v[b] == '>');
    text::lemma_find_char_is(v, '<', 0, a);
    assert(identity::find_last(v, '>', v.len() as int) == b);
    assert(v.subrange(a + 1, b) =~= aor);
    sip_laws::lemma_trim_after_space(aor);
}

// ── Claims and admission ────────────────────────────────────────────────

/// An INVITE is let in by where it comes from: this host and trunks are
/// believed; a registered host under its own user; and anyone else with the
/// credentials of the local user that they present.
pub proof fn law_who_is_let_in(c: ClaimsView, source: SourceView, proved: Proof, reject: bool)
    ensures
        ({
            let a = invite_handler::identity_check(c, source, proved, reject);
            &&& a is Admitted <==> (source is Local || (source is Trunk && !(c.from_is_local && reject))
                || (source matches SourceView::Registered { user } && c.from_user == Some(user)) || (
            source is Unknown && c.from_is_local && (proved matches Proof::Valid { user }
                && c.from_user == Some(user@))))
            &&& a is Challenged <==> source is Unknown && c.from_is_local && proved is Missing
            &&& a matches AdmissionView::Refused { status, .. } ==> status == 403
            &&& a matches AdmissionView::Refused { strike, .. } ==> strike == (source is Unknown && (
            !c.from_is_local || proved is Wrong))
            &&& a matches AdmissionView::Refused { flag, .. } ==> flag == !(source is Unknown && (
            !c.from_is_local || proved is Wrong))
            &&& a matches AdmissionView::Admitted { flag, .. } ==> flag == (source is Trunk
                && c.from_is_local)
            &&& a matches AdmissionView::Admitted { user, .. } ==> user == (if source is Trunk {
                None
            } else {
                c.from_user
            })
            &&& !(a is Reinvite) && !(a is BadExtension)
        }),
{
}

/// Before who it is from, an INVITE is asked whether it belongs to a call,
/// has hops left, and requires only what is supported.
pub proof fn law_order_of_admission(hs: Seq<Seq<char>>, f: InviteFacts)
    ensures
        ({
            let a = invite_handler::admission_of(hs, f);
            let inside = invite_handler::to_tag(hs) is Some && f.call_known;
            &&& a == AdmissionView::Reinvite <==> inside
            &&& !inside && invite_handler::max_forwards(hs) == Some(0nat) ==> a == (AdmissionView::Refused {
                status: 483,
                flag: false,
                strike: false,
            })
            &&& !inside && invite_handler::max_forwards(hs) != Some(0nat) && invite_handler::unsupported_required(hs).len() > 0
                ==> a == (AdmissionView::BadExtension {
                unsupported: invite_handler::comma_list(invite_handler::unsupported_required(hs)),
            })
            &&& !inside && invite_handler::max_forwards(hs) != Some(0nat) && invite_handler::unsupported_required(hs).len() == 0
                ==> a == invite_handler::identity_check(
                invite_handler::claims_of(hs, f),
                invite_handler::source_in(hs, f),
                f.proof,
                f.reject_trunk_local_from,
            )
        }),
{
}

/// An extension that is required is not supported unless it is the session
/// timer, in any case of its letters; blank ones count for nothing.
pub proof fn law_unsupported_extensions(parts: Seq<Seq<char>>)
    ensures
        invite_handler::unsupported_in(parts) == parts.map_values(|p: Seq<char>| text::trim(p)).filter(
            |p: Seq<char>| p.len() > 0 && !text::same_text(p, "timer"@),
        ),
    decreases parts.len(),
{
    reveal(Seq::filter);
    let t = parts.map_values(|p: Seq<char>| text::trim(p));
    let keep = |p: Seq<char>| p.len() > 0 && !text::same_text(p, "timer"@);
    if parts.len() > 0 {
        law_unsupported_extensions(parts.drop_last());
        assert(t.drop_last() =~= parts.drop_last().map_values(|p: Seq<char>| text::trim(p)));
        assert(t.last() == text::trim(parts.last()));
    }
    assert(invite_handler::unsupported_in(parts) =~= t.filter(keep));
}

/// Every Require header counts, and no other.
pub proof fn law_every_require_counts(hs: Seq<Seq<char>>, l: Seq<char>)
    ensures
        text::starts_with_word(l, "require:"@) ==> invite_handler::unsupported_required(hs.push(l)) == invite_handler::unsupported_required(
            hs,
        ) + invite_handler::unsupported_in(text::split_char(headers::header_field(l), ',')),
        !text::starts_with_word(l, "require:"@) ==> invite_handler::unsupported_required(hs.push(l))
            == invite_handler::unsupported_required(hs),
        invite_handler::unsupported_required(Seq::empty()).len() == 0,
{
    assert(hs.push(l).drop_last() =~= hs);
}

/// Where an INVITE comes from: this host, then a trunk or a host beside one,
/// then an address from which someone is registered.
pub proof fn law_where_it_comes_from(
    ip: Seq<char>,
    trunks: Seq<Seq<char>>,
    bindings: Seq<Binding>,
    presented: Option<Seq<char>>,
)
    ensures
        ({
            let s = invite_handler::source_of(ip, trunks, bindings, presented);
            let host = ip == "127.0.0.1"@ || ip == "::1"@;
            let trunk = exists|i: int| 0 <= i < trunks.len() && cdr::near_trunk(#[trigger] trunks[i], ip);
            let known = exists|i: int|
                0 <= i < bindings.len() && (#[trigger] bindings[i]).received_ip@ == ip;
            &&& s is Local <==> host
            &&& s is Trunk <==> !host && trunk
            &&& s is Registered <==> !host && !trunk && known
            &&& s is Unknown <==> !host && !trunk && !known
            &&& s matches SourceView::Registered { user } ==> exists|i: int|
                0 <= i < bindings.len() && (#[trigger] bindings[i]).received_ip@ == ip
                    && invite_handler::dialed_user(bindings[i].aor@) == user
        }),
{
    lemma_registered(bindings, ip);
}

proof fn lemma_registered(s: Seq<Binding>, ip: Seq<char>)
    ensures
        invite_handler::registered_from(s, ip) is Some <==> exists|i: int|
            0 <= i < s.len() && (#[trigger] s[i]).received_ip@ == ip,
        invite_handler::registered_from(s, ip) matches Some(b) ==> exists|i: int|
            0 <= i < s.len() && (#[trigger] s[i]).received_ip@ == ip && s[i] == b,
    decreases s.len(),
{
    if s.len() > 0 {
        let t = s.skip(1);
        lemma_registered(t, ip);
        if s[0].received_ip@ != ip {
            if exists|i: int| 0 <= i < s.len() && (#[trigger] s[i]).received_ip@ == ip {
                let i = choose|i: int| 0 <= i < s.len() && (#[trigger] s[i]).received_ip@ == ip;
                assert(t[i - 1] == s[i]);
            }
            if let Some(b) = invite_handler::registered_from(t, ip) {
                let i = choose|i: int|
                    0 <= i < t.len() && (#[trigger] t[i]).received_ip@ == ip && t[i] == b;
                assert(s[i + 1] == t[i]);
            }
        }
    }
}

/// A From is local exactly where its user is one of this system's and its
/// host one of the domains served here.
pub proof fn law_local_identity(
    user: Option<Seq<char>>,
    from: Seq<char>,
    users: Seq<Seq<char>>,
    served: Seq<Seq<char>>,
)
    ensures
        invite_handler::is_local_identity(user, from, users, served) <==> user is Some && (exists|i: int|
            0 <= i < users.len() && #[trigger] users[i] == user->0) && (exists|i: int|
            0 <= i < served.len() && text::same_text(#[trigger] served[i], identity::or_empty(identity::host_part(from)))),
{
    if let Some(u) = user {
        if users.contains(u) {
            let i = choose|i: int| 0 <= i < users.len() && users[i] == u;
            assert(users[i] == u);
        }
    }
}

} // verus!
