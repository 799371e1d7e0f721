//! What is promised of an INVITE that comes in: whom a number rings, where a
//! call goes, and what the other side is told of its media.

use crate::client_tx::Transport;
use crate::invite_flow;
use crate::invite_handler::{ContactFacts, DidMapping, InviteRoute, RouteFacts, SdpPlan};
use crate::invite_handler;
use crate::text;
use vstd::prelude::*;

verus! {

// ── Numbers ─────────────────────────────────────────────────────────────

/// `b` is what is left of `n` without its leading zeros.
pub open spec fn is_bare(n: Seq<char>, b: Seq<char>) -> bool {
    &&& b.len() <= n.len()
    &&& n.skip(n.len() - b.len()) == b
    &&& forall|i: int| 0 <= i < n.len() - b.len() ==> n[i] == '0'
    &&& b.len() > 0 ==> b[0] != '0'
}

/// A dialed text means a number: written as the number is, without its
/// leading zeros, in international form, or with other leading zeros.
pub open spec fn means_number(u: Seq<char>, n: Seq<char>) -> bool {
    u == n || exists|b: Seq<char>| #[trigger]
        is_bare(n, b) && (u == b || u == "+33"@ + b || is_bare(u, b))
}

proof fn lemma_zeros_end(s: Seq<char>, from: int)
    requires
        0 <= from <= s.len(),
    ensures
        from <= invite_handler::zeros_end(s, from) <= s.len(),
        forall|i: int| from <= i < invite_handler::zeros_end(s, from) ==> s[i] == '0',
        invite_handler::zeros_end(s, from) < s.len() ==> s[invite_handler::zeros_end(s, from)] != '0',
    decreases s.len() - from,
{
    if from < s.len() && s[from] == '0' {
        lemma_zeros_end(s, from + 1);
    }
}

proof fn lemma_bare(s: Seq<char>)
    ensures
        is_bare(s, invite_handler::without_zeros(s)),
{
    lemma_zeros_end(s, 0);
    let b = invite_handler::without_zeros(s);
    assert(s.skip(s.len() - b.len()) =~= b);
}

proof fn lemma_bare_is_one(s: Seq<char>, b: Seq<char>, c: Seq<char>)
    requires
        is_bare(s, b),
        is_bare(s, c),
    ensures
        b == c,
{
    if b.len() < c.len() {
        assert(c[0] == s[s.len() - c.len()]);
        assert(false);
    }
    if c.len() < b.len() {
        assert(b[0] == s[s.len() - b.len()]);
        assert(false);
    }
}

/// A text dials a number exactly where it is one of the forms of the number.
pub proof fn law_forms_of_a_number(u: Seq<char>, n: Seq<char>)
    ensures
        invite_handler::dials(u, n) <==> means_number(u, n),
{
    lemma_bare(n);
    lemma_bare(u);
    let b = invite_handler::without_zeros(n);
    if invite_handler::dials(u, n) && u != n {
        assert(is_bare(n, b));
    }
    if means_number(u, n) && u != n {
        let c = choose|c: Seq<char>| #[trigger]
            is_bare(n, c) && (u == c || u == "+33"@ + c || is_bare(u, c));
        lemma_bare_is_one(n, b, c);
        if is_bare(u, c) {
            lemma_bare_is_one(u, invite_handler::without_zeros(u), c);
        }
    }
}

proof fn lemma_did_target(s: Seq<DidMapping>, u: Seq<char>)
    ensures
        match invite_handler::did_target(s, u) {
            Some(t) => exists|i: int|
                0 <= i < s.len() && t == (#[trigger] s[i]).user@ && means_number(u, s[i].number@)
                    && forall|j: int| 0 <= j < i ==> !means_number(u, (#[trigger] s[j]).number@),
            None => forall|j: int| 0 <= j < s.len() ==> !means_number(u, (#[trigger] s[j]).number@),
        },
    decreases s.len(),
{
    if s.len() > 0 {
        law_forms_of_a_number(u, s[0].number@);
        if invite_handler::dials(u, s[0].number@) {
            assert(s[0].user@ == invite_handler::did_target(s, u)->0);
        } else {
            let t = s.skip(1);
            lemma_did_target(t, u);
            match invite_handler::did_target(t, u) {
                Some(x) => {
                    let i = choose|i: int|
                        0 <= i < t.len() && x == (#[trigger] t[i]).user@ && means_number(
                            u,
                            t[i].number@,
                        ) && forall|j: int|
                            0 <= j < i ==> !means_number(u, (#[trigger] t[j]).number@);
                    assert(s[i + 1] == t[i]);
                    assert forall|j: int| 0 <= j < i + 1 implies !means_number(
                        u,
                        (#[trigger] s[j]).number@,
                    ) by {
                        if j > 0 {
                            assert(s[j] == t[j - 1]);
                        }
                    }
                },
                None => {
                    assert forall|j: int| 0 <= j < s.len() implies !means_number(
                        u,
                        (#[trigger] s[j]).number@,
                    ) by {
                        if j > 0 {
                            assert(s[j] == t[j - 1]);
                        }
                    }
                },
            }
        }
    }
}

/// A public number rings the user that it is mapped to: the address is that
/// of the first mapping whose number is dialed, in the domain of this side,
/// and a number that no mapping has is mapped to nobody.
pub proof fn law_number_rings_its_user(
    s: Seq<DidMapping>,
    aor: Seq<char>,
    domain: Option<Seq<char>>,
)
    ensures
        match invite_handler::did_target(s, invite_handler::dialed_user(aor)) {
            Some(t) => exists|i: int|
                0 <= i < s.len() && means_number(invite_handler::dialed_user(aor), (#[trigger] s[i]).number@) && (
                forall|j: int|
                    0 <= j < i ==> !means_number(invite_handler::dialed_user(aor), (#[trigger] s[j]).number@))
                    && invite_handler::mapped_aor(t, domain) == "sip:"@ + s[i].user@ + "@"@ + (match domain {
                    Some(d) => d,
                    None => "sip.nixi.tel"@,
                }),
            None => forall|j: int|
                0 <= j < s.len() ==> !means_number(invite_handler::dialed_user(aor), (#[trigger] s[j]).number@),
        },
        invite_flow::mapped_callee(s, Some(aor), domain) == (match invite_handler::did_target(s, invite_handler::dialed_user(aor)) {
            Some(t) => Some(invite_handler::mapped_aor(t, domain)),
            None => None,
        }),
        invite_flow::mapped_callee(s, None, domain) is None,
{
    lemma_did_target(s, invite_handler::dialed_user(aor));
    if let Some(t) = invite_handler::did_target(s, invite_handler::dialed_user(aor)) {
        let u = invite_handler::dialed_user(aor);
        let i = choose|i: int|
            0 <= i < s.len() && t == (#[trigger] s[i]).user@ && means_number(u, s[i].number@)
                && forall|j: int| 0 <= j < i ==> !means_number(u, (#[trigger] s[j]).number@);
        assert(means_number(u, s[i].number@));
    }
}

/// Mapping a number further on changes nothing for the numbers before it.
pub proof fn law_later_mappings_do_not_matter(
    s: Seq<DidMapping>,
    more: Seq<DidMapping>,
    u: Seq<char>,
)
    requires
        invite_handler::did_target(s, u) is Some,
    ensures
        invite_handler::did_target(s + more, u) == invite_handler::did_target(s, u),
    decreases s.len(),
{
    if s.len() > 0 && !invite_handler::dials(u, s[0].number@) {
        law_later_mappings_do_not_matter(s.skip(1), more, u);
        assert((s + more).skip(1) =~= s.skip(1) + more);
    }
    assert((s + more)[0] == s[0]);
}

/// The user of `sip:user@host` is what is dialed; a text without the scheme
/// is dialed whole.
pub proof fn law_dialed_user(user: Seq<char>, host: Seq<char>, other: Seq<char>)
    requires
        !user.contains('@'),
        !text::starts_with(other, "sip:"@),
    ensures
        invite_handler::dialed_user("sip:"@ + user + "@"@ + host) == user,
        invite_handler::dialed_user("sip:"@ + user) == user,
        invite_handler::dialed_user(other) == other,
{
    reveal_strlit("sip:");
    reveal_strlit("@");
    let a = "sip:"@ + user + "@"@ + host;
    assert(a.subrange(0, 4) =~= "sip:"@);
    assert(a.skip(4) =~= user.push('@') + host);
    text::lemma_split_char_cons(user, '@', host);
    let b = "sip:"@ + user;
    assert(b.subrange(0, 4) =~= "sip:"@);
    assert(b.skip(4) =~= user);
    text::lemma_split_char_one(user, '@');
}

/// What an INVITE asks for is its URI; the To counts where there is none.
pub proof fn law_uri_before_to(uri: Seq<char>, to: Option<Seq<char>>)
    ensures
        uri.len() > 0 ==> invite_handler::callee_aor(uri, to) == Some(uri),
        uri.len() == 0 && to is Some && (to->0).len() > 0 ==> invite_handler::callee_aor(uri, to) == to,
        uri.len() == 0 && (to is None || (to->0).len() == 0) ==> invite_handler::callee_aor(uri, to) is None,
{
}

// ── Routing ─────────────────────────────────────────────────────────────

/// A registered callee is reached over its contact, whatever its transport,
/// unless the contact is on a WebSocket whose connection is gone.
pub proof fn law_registered_callee_is_reached(f: RouteFacts, c: ContactFacts)
    requires
        f.contact == Some(c),
    ensures
        invite_handler::route_of(f) == InviteRoute::Contact <==> c.alive || (c.transport != Transport::Ws
            && c.transport != Transport::Wss),
        invite_handler::route_of(f) != InviteRoute::Contact <==> invite_handler::route_of(f) == (InviteRoute::Refused {
            status: 480,
        }),
        c.alive ==> invite_handler::route_of(f) == InviteRoute::Contact,
        c.transport == Transport::Udp ==> invite_handler::route_of(f) == InviteRoute::Contact,
{
}

/// A call leaves over a trunk exactly where its callee is neither registered
/// nor a mapped user, it did not come from a trunk, nothing blocks it, and
/// there is a trunk with an address.
pub proof fn law_when_a_call_leaves(f: RouteFacts)
    ensures
        invite_handler::route_of(f) == InviteRoute::Trunk <==> f.contact is None && !f.did_mapped && !f.from_trunk
            && !f.blocked && f.candidates > 0 && f.first_has_address,
        f.contact is None && f.did_mapped ==> invite_handler::route_of(f) == (InviteRoute::Refused { status: 480 }),
        f.contact is None && !f.did_mapped && f.from_trunk ==> invite_handler::route_of(f) == (
        InviteRoute::Refused { status: 404 }),
        f.contact is None && !f.did_mapped && !f.from_trunk && f.blocked ==> invite_handler::route_of(f) == (
        InviteRoute::Refused { status: 403 }),
        f.contact is None && !f.did_mapped && !f.from_trunk && !f.blocked && (f.candidates == 0
            || !f.first_has_address) ==> invite_handler::route_of(f) == (InviteRoute::Refused { status: 503 }),
{
}

/// The contact that is called is the newest: none is younger, and of several
/// of one age it is the last.
pub proof fn law_newest_contact(s: Seq<u64>)
    requires
        s.len() > 0,
    ensures
        0 <= invite_handler::latest(s) < s.len(),
        forall|k: int| 0 <= k < s.len() ==> #[trigger] s[k] <= s[invite_handler::latest(s)],
        forall|k: int| invite_handler::latest(s) < k < s.len() ==> #[trigger] s[k] < s[invite_handler::latest(s)],
    decreases s.len(),
{
    if s.len() > 1 {
        let d = s.drop_last();
        law_newest_contact(d);
        assert forall|k: int| 0 <= k < s.len() implies #[trigger] s[k] <= s[invite_handler::latest(s)] by {
            if k < d.len() {
                assert(d[k] == s[k]);
            }
        }
        assert forall|k: int| invite_handler::latest(s) < k < s.len() implies #[trigger] s[k] < s[invite_handler::latest(s)] by {
            if k < d.len() {
                assert(d[k] == s[k]);
            }
        }
    }
}

/// The name that a transport has in a Via reads back as the transport, and
/// the secured ones have the secured port.
pub proof fn law_transport_names(t: Transport, name: Seq<char>)
    requires
        t != Transport::Sctp && t != Transport::TlsSctp,
    ensures
        invite_handler::named_transport(invite_handler::transport_words(t).0) == t,
        invite_handler::transport_words(t).1 == (if t == Transport::Tls || t == Transport::Wss {
            5061u16
        } else {
            5060u16
        }),
        name != "WSS"@ && name != "WS"@ && name != "TLS"@ && name != "TCP"@ ==> invite_handler::named_transport(name)
            == Transport::Udp,
{
    reveal_strlit("WSS");
    reveal_strlit("WS");
    reveal_strlit("TLS");
    reveal_strlit("TCP");
    reveal_strlit("UDP");
    assert("WSS"@.len() == 3 && "WS"@.len() == 2 && "TLS"@.len() == 3);
    assert("TLS"@[0] == 'T' && "TCP"@[0] == 'T' && "UDP"@[0] == 'U' && "WSS"@[0] == 'W');
    assert("TLS"@[1] == 'L' && "TCP"@[1] == 'C');
}

/// A response goes back over the Vias of its request: each of them, in their
/// order, and nothing else.
pub proof fn law_vias_are_kept(hs: Seq<Seq<char>>)
    ensures
        invite_handler::via_lines(hs) == hs.filter(
            |l: Seq<char>| text::starts_with_word(l, "via:"@) || text::starts_with_word(l, "v:"@),
        ),
    decreases hs.len(),
{
    reveal(Seq::filter);
    if hs.len() > 0 {
        law_vias_are_kept(hs.drop_last());
    } else {
        assert(invite_handler::via_lines(hs) =~= Seq::empty());
    }
}

// ── Media ───────────────────────────────────────────────────────────────

/// The port that a description names for media.
pub open spec fn port_in(p: SdpPlan) -> Option<u16> {
    match p {
        SdpPlan::Offer { port } => Some(port),
        SdpPlan::Plain { port } => Some(port),
        SdpPlan::Relay { port } => Some(port),
        _ => None,
    }
}

/// The callee is told the port of its own leg, whichever of the sides is a
/// browser; that of the caller's leg only where its own has none.
pub proof fn law_callee_gets_its_own_port(
    callee_webrtc: bool,
    caller_webrtc: bool,
    caller_port: u16,
    callee_port: u16,
)
    ensures
        port_in(invite_handler::invite_sdp_plan(callee_webrtc, caller_webrtc, Some((caller_port, Some(callee_port)))))
            == Some(callee_port),
        port_in(invite_handler::invite_sdp_plan(false, caller_webrtc, Some((caller_port, None)))) == Some(
            caller_port,
        ),
        port_in(invite_handler::invite_sdp_plan(true, caller_webrtc, Some((caller_port, None)))) == Some(10000u16),
{
}

/// The form of the description follows the sides: an offer of this side for
/// a browser, plain RTP for a browser's call to anyone else, and the relay's
/// address between two plain sides.
pub proof fn law_form_of_the_offer(
    callee_webrtc: bool,
    caller_webrtc: bool,
    media: Option<(u16, Option<u16>)>,
)
    ensures
        ({
            let p = invite_handler::invite_sdp_plan(callee_webrtc, caller_webrtc, media);
            &&& p is Offer <==> callee_webrtc
            &&& p is Plain <==> !callee_webrtc && caller_webrtc
            &&& p is Relay <==> !callee_webrtc && !caller_webrtc && media is Some
            &&& p is AddressOnly <==> !callee_webrtc && !caller_webrtc && media is None
        }),
{
}

} // verus!
