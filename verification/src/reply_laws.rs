//! What is promised of what is answered: responses, media addresses,
//! registrations and the identities they are for.

use crate::headers;
use crate::identity;
use crate::invite_handler;
use crate::message::MessageView;
use crate::message;
use crate::net::{Address, AddressView};
use crate::net;
use crate::raw_message::RawView;
use crate::raw_message;
use crate::register;
use crate::responses;
use crate::sdp::SdpScan;
use crate::sdp;
use crate::sip_builder;
use crate::text;
use crate::text_laws;
use vstd::prelude::*;

verus! {

// ── Responses ───────────────────────────────────────────────────────────

/// What the answers of this side are called.
pub proof fn law_phrases_of_own_answers()
    ensures
        responses::phrase_of(100) == "Trying"@,
        responses::phrase_of(200) == "OK"@,
        responses::phrase_of(202) == "Accepted"@,
        responses::phrase_of(400) == "Bad Request"@,
        responses::phrase_of(401) == "Unauthorized"@,
        responses::phrase_of(403) == "Forbidden"@,
        responses::phrase_of(404) == "Not Found"@,
        responses::phrase_of(405) == "Method Not Allowed"@,
        responses::phrase_of(407) == "Proxy Authentication Required"@,
        responses::phrase_of(408) == "Request Timeout"@,
        responses::phrase_of(420) == "Bad Extension"@,
        responses::phrase_of(422) == "Session Interval Too Small"@,
        responses::phrase_of(423) == "Interval Too Brief"@,
        responses::phrase_of(480) == "Temporarily Unavailable"@,
        responses::phrase_of(481) == "Call/Transaction Does Not Exist"@,
        responses::phrase_of(482) == "Loop Detected"@,
        responses::phrase_of(483) == "Too Many Hops"@,
        responses::phrase_of(486) == "Busy Here"@,
        responses::phrase_of(487) == "Request Terminated"@,
        responses::phrase_of(488) == "Not Acceptable Here"@,
        responses::phrase_of(500) == "Server Internal Error"@,
        responses::phrase_of(501) == "Not Implemented"@,
        responses::phrase_of(503) == "Service Unavailable"@,
        responses::phrase_of(504) == "Server Time-out"@,
        responses::phrase_of(603) == "Decline"@,
        responses::phrase_of(180) == "Ringing"@ && responses::phrase_of(181) == "Call Is Being Forwarded"@,
        responses::phrase_of(182) == "Queued"@ && responses::phrase_of(183) == "Session Progress"@,
        responses::phrase_of(199) == "Early Dialog Terminated"@ && responses::phrase_of(204) == "No Notification"@,
        responses::phrase_of(300) == "Multiple Choices"@ && responses::phrase_of(301) == "Moved Permanently"@,
        responses::phrase_of(302) == "Moved Temporarily"@ && responses::phrase_of(305) == "Use Proxy"@,
        responses::phrase_of(380) == "Alternative Service"@ && responses::phrase_of(402) == "Payment Required"@,
        responses::phrase_of(406) == "Not Acceptable"@ && responses::phrase_of(410) == "Gone"@,
        responses::phrase_of(413) == "Request Entity Too Large"@ && responses::phrase_of(414) == "Request-URI Too Long"@,
        responses::phrase_of(415) == "Unsupported Media Type"@ && responses::phrase_of(416) == "Unsupported URI Scheme"@,
        responses::phrase_of(421) == "Extension Required"@ && responses::phrase_of(484) == "Address Incomplete"@,
        responses::phrase_of(485) == "Ambiguous"@ && responses::phrase_of(491) == "Request Pending"@,
        responses::phrase_of(493) == "Undecipherable"@ && responses::phrase_of(502) == "Bad Gateway"@,
        responses::phrase_of(505) == "Version Not Supported"@ && responses::phrase_of(513) == "Message Too Large"@,
        responses::phrase_of(600) == "Busy Everywhere"@ && responses::phrase_of(604) == "Does Not Exist Anywhere"@,
        responses::phrase_of(606) == "Not Acceptable"@,
{
}

/// The first line of a response is the version, its code and its phrase.
pub proof fn law_first_line_of_a_response(code: u16)
    ensures
        responses::status_line(code) == "SIP/2.0 "@ + text::decimal(code as nat) + " "@ + responses::phrase_of(code),
{
}

/// A response needs a Via, From, To, Call-ID and CSeq to echo, and echoes
/// them in this order: without one of them there is none.
pub proof fn law_what_a_response_echoes(
    vias: Seq<(Seq<char>, Seq<char>)>,
    hs: Seq<Seq<char>>,
    to: Option<Seq<char>>,
)
    ensures
        responses::echoed_pairs(vias, hs, to) is Some <==> vias.len() > 0 && message::from_value(hs) is Some && to is Some
            && message::call_id_value(hs) is Some && message::cseq_value(hs) is Some,
        responses::echoed_pairs(vias, hs, to) matches Some(p) ==> p == vias + seq![
            ("From"@, message::from_value(hs)->0),
            ("To"@, to->0),
            ("Call-ID"@, message::call_id_value(hs)->0),
            ("CSeq"@, message::cseq_value(hs)->0),
        ],
{
}

/// The To of a response has a tag: its own where there is one, else the one
/// that this side makes; a To that cannot be read is not answered.
pub proof fn law_tag_of_a_response(hs: Seq<Seq<char>>, v: Seq<char>, tag: Seq<char>)
    requires
        message::to_value(hs) == Some(v),
    ensures
        message::name_addr(v) is None ==> responses::response_to(hs, tag) is None,
        message::name_addr(v) matches Some(a) ==> (a.tag is Some ==> responses::response_to(hs, tag) == Some(a.text)),
        message::name_addr(v) matches Some(a) ==> (a.tag is None ==> responses::response_to(hs, tag) == Some(
            a.text + ";tag="@ + tag,
        )),
{
}

/// The Vias of a request go back as they came: all of them, in their order.
pub proof fn law_vias_of_a_response(hs: Seq<Seq<char>>)
    ensures
        responses::via_pairs(hs) == hs.filter(|l: Seq<char>| sip_builder::is_via_line(l)).map_values(
            |l: Seq<char>| responses::line_pair(l),
        ),
    decreases hs.len(),
{
    reveal(Seq::filter);
    if hs.len() > 0 {
        law_vias_of_a_response(hs.drop_last());
    }
    assert(responses::via_pairs(hs) =~= hs.filter(|l: Seq<char>| sip_builder::is_via_line(l)).map_values(
        |l: Seq<char>| responses::line_pair(l),
    ));
}

/// A header line goes back with its name and its value apart.
pub proof fn law_line_goes_back(name: Seq<char>, value: Seq<char>)
    requires
        !name.contains(':'),
    ensures
        responses::line_pair(name + seq![':'] + value) == (text::trim(name), text::trim(value)),
{
    text_laws::law_parts_are_read_apart(name, ':', value);
}

/// The caller sees its own number on a response to its INVITE, and no other
/// header changes for it.
pub proof fn law_number_for_the_caller(hs: Seq<Seq<char>>, n: u32, v: Seq<char>)
    requires
        raw_message::line_value(hs, "cseq"@) == Some(v),
        text::tokens(v).len() >= 2,
    ensures
        text::same_text(text::tokens(v)[1], "INVITE"@) ==> responses::caller_cseq_headers(hs, Some(n)) == raw_message::with_header(
            hs,
            "CSeq"@,
            text::decimal(n as nat) + " INVITE"@,
        ),
        !text::same_text(text::tokens(v)[1], "INVITE"@) ==> responses::caller_cseq_headers(hs, Some(n)) == hs,
        responses::caller_cseq_headers(hs, None) == hs,
{
}

/// The caller sees this side in place of the callee: its contact where the
/// response has one, and one Record-Route in front; without an identity to
/// hide behind everything stays.
pub proof fn law_callee_is_hidden(hs: Seq<Seq<char>>, contact: Seq<char>, route: Seq<char>)
    ensures
        responses::hidden_headers(hs, None) == hs,
        ({
            let r = responses::hidden_headers(hs, Some((contact, route)));
            &&& r.len() > 0 && r[0] == "Record-Route: "@ + route
            &&& raw_message::line_value(hs, "contact"@) is None ==> r.skip(1) == raw_message::without_header(
                hs,
                "record-route"@,
            )
            &&& raw_message::line_value(hs, "contact"@) is Some ==> r.skip(1) == raw_message::without_header(
                raw_message::without_header(raw_message::without_header(hs, "contact"@), "m"@).push(
                    "Contact: <"@ + contact + ">"@,
                ),
                "record-route"@,
            )
        }),
{
    let r = responses::hidden_headers(hs, Some((contact, route)));
    if raw_message::line_value(hs, "contact"@) is None {
        assert(r.skip(1) =~= raw_message::without_header(hs, "record-route"@));
    } else {
        assert(r.skip(1) =~= raw_message::without_header(
            raw_message::without_header(raw_message::without_header(hs, "contact"@), "m"@).push(
                "Contact: <"@ + contact + ">"@,
            ),
            "record-route"@,
        ));
    }
}

/// A response that the caller must not see becomes a 503 without challenges.
pub proof fn law_hidden_failure(m: RawView)
    ensures
        responses::unavailable_parts(m).start == "SIP/2.0 503 Service Unavailable"@,
        responses::unavailable_parts(m).body == m.body,
        responses::unavailable_parts(m).headers == raw_message::without_header(
            raw_message::without_header(m.headers, "proxy-authenticate"@),
            "www-authenticate"@,
        ),
{
}

/// A response without its body keeps every line but those that describe one.
pub proof fn law_lines_of_a_stripped_response(ls: Seq<Seq<char>>)
    ensures
        responses::bodiless(ls) == ls.filter(
            |l: Seq<char>|
                !text::starts_with_word(l, "content-type:"@) && !text::starts_with_word(l, "content-length:"@),
        ),
    decreases ls.len(),
{
    reveal(Seq::filter);
    if ls.len() > 0 {
        law_lines_of_a_stripped_response(ls.drop_last());
    }
    assert(responses::bodiless(ls) =~= ls.filter(
        |l: Seq<char>|
            !text::starts_with_word(l, "content-type:"@) && !text::starts_with_word(l, "content-length:"@),
    ));
}

/// A message has one length, the last of its headers and that of its body;
/// no other header goes.
pub proof fn law_length_of_a_message(hs: Seq<Seq<char>>, len: nat)
    ensures
        responses::with_length(hs, len) == hs.filter(
            |l: Seq<char>| !text::starts_with_word(l, "content-length:"@),
        ).push("Content-Length: "@ + text::decimal(len)),
{
    lemma_unprefixed(hs, "content-length:"@);
}

proof fn lemma_unprefixed(ls: Seq<Seq<char>>, p: Seq<char>)
    ensures
        responses::unprefixed(ls, p) == ls.filter(|l: Seq<char>| !text::starts_with_word(l, p)),
    decreases ls.len(),
{
    reveal(Seq::filter);
    if ls.len() > 0 {
        lemma_unprefixed(ls.drop_last(), p);
    }
    assert(responses::unprefixed(ls, p) =~= ls.filter(|l: Seq<char>| !text::starts_with_word(l, p)));
}

/// Credentials stand right behind the Vias, in place of any before them.
pub proof fn law_place_of_credentials(ls: Seq<Seq<char>>, auth: Seq<char>, k: int)
    requires
        ({
            let kept = ls.filter(|l: Seq<char>| !text::starts_with_word(l, "proxy-authorization:"@));
            &&& 0 <= k < kept.len()
            &&& !text::starts_with_word(kept[k], "invite "@) && !sip_builder::is_via_line(kept[k])
            &&& forall|i: int|
                0 <= i < k ==> text::starts_with_word(#[trigger] kept[i], "invite "@) || sip_builder::is_via_line(
                    kept[i],
                )
        }),
    ensures
        responses::authorized_lines(ls, auth) == ls.filter(
            |l: Seq<char>| !text::starts_with_word(l, "proxy-authorization:"@),
        ).insert(k, "Proxy-Authorization: "@ + auth),
{
    lemma_unprefixed(ls, "proxy-authorization:"@);
    let kept = responses::unprefixed(ls, "proxy-authorization:"@);
    lemma_credentials_at(kept, k);
}

proof fn lemma_credentials_at(ls: Seq<Seq<char>>, k: int)
    requires
        0 <= k < ls.len(),
        responses::after_vias(ls[k]),
        forall|i: int| 0 <= i < k ==> !responses::after_vias(#[trigger] ls[i]),
    ensures
        responses::credentials_index(ls) == k,
    decreases k,
{
    if k > 0 {
        let t = ls.skip(1);
        assert(t[k - 1] == ls[k]);
        assert forall|i: int| 0 <= i < k - 1 implies !responses::after_vias(#[trigger] t[i]) by {
            assert(t[i] == ls[i + 1]);
        }
        lemma_credentials_at(t, k - 1);
    }
}

// ── Media addresses ─────────────────────────────────────────────────────

/// The addresses that no one outside reaches, as ranges of numbers: own
/// networks, the host itself, link-local, shared and documentation ones.
pub proof fn law_private_ranges(a: u8, b: u8, c: u8, d: u8)
    ensures
        ({
            let n = ((a * 256 + b) * 256 + c) * 256 + d;
            net::is_private(seq![a, b, c, d]) <==> n == 0 || 167772160 <= n <= 184549375 || 1681915904 <= n
                <= 1686110207 || 2130706432 <= n <= 2147483647 || 2851995648 <= n <= 2852061183
                || 2886729728 <= n <= 2887778303 || 3221225472 <= n <= 3221225727 || 3221225984 <= n
                <= 3221226239 || 3232235520 <= n <= 3232301055 || 3323068416 <= n <= 3323199487
                || 3325256704 <= n <= 3325256959 || 3405803776 <= n <= 3405804031
        }),
{
    let o = seq![a, b, c, d];
    assert(o[0] == a && o[1] == b && o[2] == c && o[3] == d && o.len() == 4);
    assert(o =~= seq![0u8, 0, 0, 0] <==> a == 0 && b == 0 && c == 0 && d == 0);
}

/// The address of this host and the unspecified one are private in the longer
/// form too; no other is.
pub proof fn law_private_long_addresses(o: Seq<u8>)
    requires
        o.len() == 16,
    ensures
        net::is_private(o) <==> (forall|i: int| 0 <= i < 15 ==> #[trigger] o[i] == 0) && (o[15] == 0 || o[15]
            == 1),
{
}

/// Where media goes: to the address that the description names, or to the
/// public one in its place where that is private and the public one known;
/// always to the port that it names.
pub proof fn law_where_media_goes(a: AddressView, p: nat, public_ip: Option<Seq<char>>)
    ensures
        sdp::reachable_endpoint(None, public_ip) is None,
        public_ip matches Some(ip) ==> (net::is_private(a.octets) ==> sdp::reachable_endpoint(
            Some((a, p)),
            public_ip,
        ) == Some((ip, p))),
        public_ip is None || !net::is_private(a.octets) ==> sdp::reachable_endpoint(Some((a, p)), public_ip)
            == Some((a.text, p)),
{
}

/// A browser's leg has no address to send to in its description, and without
/// a description no leg has one.
pub proof fn law_address_of_a_leg(sdp: Seq<char>, public_ip: Option<Seq<char>>)
    ensures
        sdp::leg_endpoint(true, Some(sdp), public_ip) is None,
        sdp::leg_endpoint(true, None, public_ip) is None && sdp::leg_endpoint(false, None, public_ip) is None,
        sdp::leg_endpoint(false, Some(sdp), public_ip) == sdp::reachable_endpoint(
            sdp::sdp_endpoint(sdp),
            public_ip,
        ),
{
}

/// A line of a description changes only what it is about: a connection line
/// the address, an audio line the port.
pub proof fn law_line_of_a_description(s: SdpScan, line: Seq<char>)
    ensures
        text::starts_with(text::trim(line), "c=IN IP4 "@) ==> sdp::sdp_step(s, line).port == s.port,
        text::starts_with(text::trim(line), "c=IN IP4 "@) ==> (net::parsed_address(
            text::trim(text::trim(line).skip("c=IN IP4 "@.len() as int)),
        ) matches Some(a) ==> sdp::sdp_step(s, line).ip == Some(a)),
        !text::starts_with(text::trim(line), "c=IN IP4 "@) ==> sdp::sdp_step(s, line).ip == s.ip,
        !text::starts_with(text::trim(line), "c=IN IP4 "@) && text::starts_with(text::trim(line), "m=audio "@) && text::tokens(
            text::trim(line),
        ).len() >= 2 ==> (text::parse_uint(text::tokens(text::trim(line))[1], 65535) matches Some(p) ==> sdp::sdp_step(
            s,
            line,
        ).port == Some(p)),
        !text::starts_with(text::trim(line), "c=IN IP4 "@) && !text::starts_with(text::trim(line), "m=audio "@) ==> sdp::sdp_step(
            s,
            line,
        ) == s,
{
}

/// The lines of a description are read one by one until both are known, and a
/// port of zero is none.
pub proof fn law_reading_of_a_description(ls: Seq<Seq<char>>, l: Seq<char>, s: SdpScan, sdp: Seq<char>)
    ensures
        s.ip is Some && s.port is Some ==> sdp::sdp_scan(ls, s) == s,
        s.ip is None || s.port is None ==> sdp::sdp_scan(seq![l] + ls, s) == sdp::sdp_scan(ls, sdp::sdp_step(s, l)),
        sdp::sdp_scan(Seq::empty(), s) == s,
        sdp::sdp_endpoint(sdp) matches Some((a, p)) ==> p > 0,
        ({
            let r = sdp::sdp_scan(text::split_char(sdp, '\n'), SdpScan { ip: None, port: None });
            r.ip is Some && r.port is Some && r.port->0 > 0 ==> sdp::sdp_endpoint(sdp) == Some(
                (r.ip->0, r.port->0),
            )
        }),
{
    let v = seq![l] + ls;
    assert(v.skip(1) =~= ls);
    assert(v[0] == l);
}

// ── Registrations ───────────────────────────────────────────────────────

/// What a contact asks for itself: the first of its parameters that gives a
/// number of seconds.
pub proof fn law_lifetime_in_a_contact(parts: Seq<Seq<char>>, k: int)
    requires
        0 <= k < parts.len(),
        register::expires_param(parts[k]) is Some,
        forall|i: int| 0 <= i < k ==> register::expires_param(#[trigger] parts[i]) is None,
    ensures
        register::first_expires(parts) == register::expires_param(parts[k]),
    decreases k,
{
    if k > 0 {
        let t = parts.skip(1);
        assert(t[k - 1] == parts[k]);
        assert forall|i: int| 0 <= i < k - 1 implies register::expires_param(#[trigger] t[i]) is None by {
            assert(t[i] == parts[i + 1]);
        }
        law_lifetime_in_a_contact(t, k - 1);
    }
}

/// A parameter gives the seconds that stand behind its name.
pub proof fn law_seconds_of_a_parameter(n: nat)
    requires
        n <= u32::MAX,
    ensures
        register::expires_param("expires="@ + text::decimal(n)) == Some(n),
{
    reveal_strlit("expires=");
    let p = "expires="@;
    let d = text::decimal(n);
    let t = p + d;
    text::law_decimal_reads_back(n, u32::MAX as nat);
    text::lemma_decimal_digits(n);
    assert(text::is_digit(d[0]) && text::is_digit(d.last()));
    assert(!text::is_space(p[0]) && !text::is_space(t.last()));
    text_laws::law_space_around_is_dropped(Seq::empty(), t, Seq::empty());
    assert(Seq::<char>::empty() + t + Seq::<char>::empty() =~= t);
    assert(t.subrange(0, p.len() as int) =~= p);
    assert(t.skip(p.len() as int) =~= d);
    assert(register::strip_start(d, '>') == d);
    assert(register::strip_end(d, '>') == d);
}

/// A lifetime is too brief where it is not zero and below the least one.
pub proof fn law_what_is_too_brief(n: nat, min: nat, max: nat)
    ensures
        register::below(n, min) <==> n != 0 && n < min,
        register::clamped(n, max) <= max && register::clamped(n, max) <= n,
        register::clamped(n, max) == n || register::clamped(n, max) == max,
{
}

/// A REGISTER without the right credentials is answered 401 with a challenge,
/// one that is accepted 200, each with the Via, From, Call-ID and CSeq that it
/// came with.
pub proof fn law_answers_to_a_register(
    hs: Seq<Seq<char>>,
    v: Seq<char>,
    challenge: Seq<char>,
    tag: Seq<char>,
    bindings: Seq<(Seq<char>, nat)>,
    query: bool,
)
    requires
        message::first_value(hs, "via:"@, "v:"@) == Some(v),
        message::from_value(hs) is Some,
        message::call_id_value(hs) is Some,
        message::cseq_value(hs) is Some,
        responses::response_to(hs, tag) is Some,
    ensures
        ({
            let echoed = seq![
                ("Via"@, v),
                ("From"@, message::from_value(hs)->0),
                ("To"@, responses::response_to(hs, tag)->0),
                ("Call-ID"@, message::call_id_value(hs)->0),
                ("CSeq"@, message::cseq_value(hs)->0),
            ];
            let none = seq![("Content-Length"@, "0"@)];
            &&& register::register_401_text(hs, challenge, tag) == Some(
                headers::message_text(
                    "SIP/2.0 "@ + text::decimal(401) + " "@ + "Unauthorized"@,
                    echoed + seq![("WWW-Authenticate"@, challenge)] + none,
                    Seq::empty(),
                ),
            )
            &&& register::register_200_text(hs, bindings, query, tag) == Some(
                headers::message_text(
                    "SIP/2.0 "@ + text::decimal(200) + " "@ + "OK"@,
                    echoed + register::register_200_extras(hs, bindings, query) + none,
                    Seq::empty(),
                ),
            )
        }),
{
    let vias = seq![("Via"@, v)];
    let rest = seq![
        ("From"@, message::from_value(hs)->0),
        ("To"@, responses::response_to(hs, tag)->0),
        ("Call-ID"@, message::call_id_value(hs)->0),
        ("CSeq"@, message::cseq_value(hs)->0),
    ];
    assert(vias + rest =~= seq![
        ("Via"@, v),
        ("From"@, message::from_value(hs)->0),
        ("To"@, responses::response_to(hs, tag)->0),
        ("Call-ID"@, message::call_id_value(hs)->0),
        ("CSeq"@, message::cseq_value(hs)->0),
    ]);
}

// ── Domains ─────────────────────────────────────────────────────────────

/// The domains of a setting are those that are not blank, in lower case and
/// without space around them, in their order.
pub proof fn law_domains_of_a_setting(v: Seq<Seq<char>>)
    ensures
        identity::domain_keys(v) == v.map_values(|d: Seq<char>| text::lower(text::trim(d))).filter(
            |d: Seq<char>| d.len() > 0,
        ),
    decreases v.len(),
{
    reveal(Seq::filter);
    let m = v.map_values(|d: Seq<char>| text::lower(text::trim(d)));
    if v.len() > 0 {
        law_domains_of_a_setting(v.drop_last());
        assert(m.drop_last() =~= v.drop_last().map_values(|d: Seq<char>| text::lower(text::trim(d))));
        assert(m.last() == text::lower(text::trim(v.last())));
    }
    assert(identity::domain_keys(v) =~= m.filter(|d: Seq<char>| d.len() > 0));
}

/// A domain that is put in is served from then on, once; a blank one is not,
/// and no other is lost.
pub proof fn law_domain_is_put_in(v: Seq<Seq<char>>, d: Seq<char>, x: Seq<char>)
    ensures
        identity::with_domain(v, d).contains(x) <==> v.contains(x) || (x == text::lower(text::trim(d)) && x.len() > 0),
        v.contains(text::lower(text::trim(d))) || text::lower(text::trim(d)).len() == 0 ==> identity::with_domain(v, d) == v,
{
    let k = text::lower(text::trim(d));
    let r = identity::with_domain(v, d);
    if k.len() > 0 && !v.contains(k) {
        assert(r[v.len() as int] == k);
        if v.contains(x) {
            let i = choose|i: int| 0 <= i < v.len() && v[i] == x;
            assert(r[i] == x);
        }
        if r.contains(x) {
            let i = choose|i: int| 0 <= i < r.len() && r[i] == x;
            if i < v.len() {
                assert(v[i] == x);
            }
        }
    }
}

/// The domains that are served: the realm, this side's own domain and
/// address, this host, and those that are configured.
pub proof fn law_domains_that_are_served(
    realm: Option<Seq<char>>,
    own: Option<(Seq<char>, Seq<char>)>,
    configured: Seq<Seq<char>>,
    x: Seq<char>,
)
    ensures
        identity::domain_candidates(realm, own, configured).contains(x) <==> realm == Some(x) || (own is Some && (
        (own->0).0 == x || (own->0).1 == x)) || x == "127.0.0.1"@ || x == "localhost"@
            || configured.contains(x),
{
    let c = identity::domain_candidates(realm, own, configured);
    let a = match realm {
        Some(r) => seq![r],
        None => Seq::empty(),
    };
    let b = match own {
        Some((domain, ip)) => seq![domain, ip],
        None => Seq::empty(),
    };
    let h = seq!["127.0.0.1"@, "localhost"@];
    assert(c == a + b + h + configured);
    let n = a.len() as int;
    let m = n + b.len();
    if realm == Some(x) {
        assert(c[0] == x);
    }
    if let Some((domain, ip)) = own {
        assert(c[n] == domain && c[n + 1] == ip);
    }
    assert(c[m] == "127.0.0.1"@ && c[m + 1] == "localhost"@);
    if configured.contains(x) {
        let i = choose|i: int| 0 <= i < configured.len() && configured[i] == x;
        assert(c[m + 2 + i] == x);
    }
    if c.contains(x) {
        let i = choose|i: int| 0 <= i < c.len() && c[i] == x;
        if i >= m + 2 {
            assert(configured[i - m - 2] == x);
        }
    }
}

/// Text that may stand in an address: no space and none of the marks around
/// addresses.
pub open spec fn plain_part(s: Seq<char>) -> bool {
    s.len() > 0 && forall|i: int|
        0 <= i < s.len() ==> !text::is_space(#[trigger] s[i]) && s[i] != ';' && s[i] != '<' && s[i] != '>'
            && s[i] != '@'
}

/// The user and the host of an address are what stands on either side of its
/// at sign; host names are the same in any case.
pub proof fn law_user_and_host(user: Seq<char>, host: Seq<char>)
    requires
        plain_part(user),
        plain_part(host),
        !host.contains('?') && !host.contains(':') && !host.contains('['),
    ensures
        identity::user_part("sip:"@ + (user + seq!['@'] + host)) == Some(user),
        identity::host_part("sip:"@ + (user + seq!['@'] + host)) == Some(text::lower(host)),
        identity::scheme_user("sip:"@ + (user + seq!['@'] + host)) == Some(user),
{
    let rest = user + seq!['@'] + host;
    let w = "sip:"@ + rest;
    assert forall|i: int| 0 <= i < rest.len() implies !text::is_space(#[trigger] rest[i]) && rest[i] != ';'
        && rest[i] != '<' && rest[i] != '>' by {
        if i < user.len() {
            assert(rest[i] == user[i]);
        } else if i > user.len() {
            assert(rest[i] == host[i - 1 - user.len()]);
        }
    }
    lemma_spec_of_plain(rest);
    assert(!user.contains('@') && !user.contains(';'));
    text_laws::law_parts_are_read_apart(user, '@', host);
    text::lemma_split_char_one(user, ';');
    lemma_plain_is_trimmed(user);
    lemma_plain_host(host);
    assert(text::lower(host).len() == host.len());
}

proof fn lemma_plain_is_trimmed(s: Seq<char>)
    requires
        s.len() > 0,
        !text::is_space(s[0]),
        !text::is_space(s[s.len() - 1]),
    ensures
        text::trim(s) == s,
{
    text_laws::law_space_around_is_dropped(Seq::empty(), s, Seq::empty());
    assert(Seq::<char>::empty() + s + Seq::<char>::empty() =~= s);
}

proof fn lemma_spec_of_plain(rest: Seq<char>)
    requires
        rest.len() > 0,
        forall|i: int|
            0 <= i < rest.len() ==> !text::is_space(#[trigger] rest[i]) && rest[i] != ';' && rest[i] != '<'
                && rest[i] != '>',
    ensures
        identity::addr_spec_of("sip:"@ + rest) == "sip:"@ + rest,
        identity::without_scheme("sip:"@ + rest) == rest,
        text::starts_with("sip:"@ + rest, "sip:"@),
{
    reveal_strlit("sip:");
    reveal_strlit("sips:");
    let w = "sip:"@ + rest;
    assert("sip:"@.len() == 4 && "sips:"@.len() == 5);
    assert(w.last() == rest[rest.len() - 1]);
    assert(w[0] == 's' && w[3] == ':');
    lemma_plain_is_trimmed(w);
    assert forall|i: int| 0 <= i < w.len() implies w[i] != ';' && w[i] != '<' by {
        if i >= 4 {
            assert(w[i] == rest[i - 4]);
        }
    }
    lemma_no_last(w, '<', w.len() as int);
    assert(!w.contains(';'));
    text::lemma_split_char_one(w, ';');
    assert(w.subrange(0, 4) =~= "sip:"@);
    if text::starts_with(w, "sips:"@) {
        assert(w.subrange(0, 5)[3] == "sips:"@[3]);
    }
    assert(w.skip(4) =~= rest);
}

proof fn lemma_plain_host(host: Seq<char>)
    requires
        plain_part(host),
        !host.contains('?') && !host.contains(':') && !host.contains('['),
    ensures
        text::trim(host.take(text::find_any(host, seq![';', '>', '?'], 0))) == host,
        identity::find_last(host, ':', host.len() as int) == -1,
        host[0] != '[',
{
    let marks = seq![';', '>', '?'];
    text::lemma_find_any(host, marks, 0);
    let e = text::find_any(host, marks, 0);
    if e < host.len() {
        let j = choose|j: int| 0 <= j < marks.len() && marks[j] == host[e];
        assert(host.contains(host[e]));
        assert(host[e] != ';' && host[e] != '>' && host[e] != '?');
    }
    assert(host.take(e) =~= host);
    lemma_plain_is_trimmed(host);
    assert forall|i: int| 0 <= i < host.len() implies host[i] != ':' by {
        assert(host.contains(host[i]));
    }
    lemma_no_last(host, ':', host.len() as int);
    assert(host.contains(host[0]));
}

proof fn lemma_no_last(s: Seq<char>, c: char, end: int)
    requires
        0 <= end <= s.len(),
        forall|i: int| 0 <= i < end ==> s[i] != c,
    ensures
        identity::find_last(s, c, end) == -1,
    decreases end,
{
    if end > 0 {
        lemma_no_last(s, c, end - 1);
    }
}

// ── Bare answers ────────────────────────────────────────────────────────

/// An answer to what cannot be echoed is a status and nothing else.
pub proof fn law_bare_answer(code: u16, phrase: Seq<char>, hs: Seq<Seq<char>>, tag: Seq<char>)
    ensures
        responses::bare_response(code, phrase) == headers::message_text(
            "SIP/2.0 "@ + text::decimal(code as nat) + " "@ + phrase,
            seq![("Content-Length"@, "0"@)],
            Seq::empty(),
        ),
        responses::plain_response(hs, code, tag) is None ==> responses::response_or_bare(hs, code, phrase, tag)
            == responses::bare_response(code, phrase),
        responses::plain_response(hs, code, tag) matches Some(t) ==> responses::response_or_bare(hs, code, phrase, tag) == t,
{
}

/// A plain answer echoes the request and says nothing else; the 100 echoes
/// the first Via alone and adds no tag.
pub proof fn law_plain_answer(hs: Seq<Seq<char>>, code: u16, tag: Seq<char>, v: Seq<char>)
    requires
        message::first_value(hs, "via:"@, "v:"@) == Some(v),
    ensures
        responses::echoed_pairs(responses::via_pairs(hs), hs, responses::response_to(hs, tag)) matches Some(p) ==> responses::plain_response(
            hs,
            code,
            tag,
        ) == Some(
            headers::message_text(
                responses::status_line(code),
                p + Seq::empty() + seq![("Content-Length"@, "0"@)],
                Seq::empty(),
            ),
        ),
        responses::echoed_pairs(responses::via_pairs(hs), hs, responses::response_to(hs, tag)) is None ==> responses::plain_response(
            hs,
            code,
            tag,
        ) is None,
        responses::echoed_pairs(seq![("Via"@, v)], hs, message::to_value(hs)) matches Some(p) ==> responses::trying_response(hs)
            == Some(
            headers::message_text(
                "SIP/2.0 "@ + text::decimal(100) + " "@ + "Trying"@,
                p + Seq::empty() + seq![("Content-Length"@, "0"@)],
                Seq::empty(),
            ),
        ),
{
}

/// A stripped response keeps its first lines and says that it has no body.
pub proof fn law_stripped_response(raw: Seq<char>)
    ensures
        message::text_lines(raw).len() < text::lines(raw).len() ==> responses::stripped_text(raw) == raw_message::lines_block(
            responses::bodiless(message::text_lines(raw)),
        ) + "Content-Length: 0\r\n\r\n"@,
        message::text_lines(raw).len() >= text::lines(raw).len() ==> responses::stripped_text(raw) == raw_message::lines_block(
            responses::bodiless(message::text_lines(raw)),
        ),
{
    assert(raw_message::lines_block(responses::bodiless(message::text_lines(raw))) + Seq::<char>::empty() =~= raw_message::lines_block(
        responses::bodiless(message::text_lines(raw)),
    ));
}

/// The lines of a message end at the first that is empty.
pub proof fn law_lines_end_at_the_empty_one(a: Seq<Seq<char>>, b: Seq<Seq<char>>)
    requires
        forall|i: int| 0 <= i < a.len() ==> (#[trigger] a[i]).len() > 0,
        b.len() > 0 ==> b[0].len() == 0,
    ensures
        headers::until_blank(a + b) == a,
    decreases a.len(),
{
    let s = a + b;
    if a.len() > 0 {
        let t = a.skip(1);
        assert forall|i: int| 0 <= i < t.len() implies (#[trigger] t[i]).len() > 0 by {
            assert(t[i] == a[i + 1]);
        }
        law_lines_end_at_the_empty_one(t, b);
        assert(s.skip(1) =~= t + b);
        assert(s[0] == a[0]);
        assert(seq![a[0]] + t =~= a);
    } else if b.len() > 0 {
        assert(s[0] == b[0]);
        assert(headers::until_blank(s) =~= a);
    } else {
        assert(headers::until_blank(s) =~= a);
    }
}

/// The address of a REGISTER without brackets is its To as it is.
pub proof fn law_bare_address_of_a_register(hs: Seq<Seq<char>>, aor: Seq<char>)
    requires
        message::to_value(hs) == Some(aor),
        aor.len() > 0 && !text::is_space(aor[0]) && !text::is_space(aor.last()),
        !aor.contains('<') && !aor.contains('>'),
    ensures
        register::registered_aor(hs) == Some(aor),
{
    lemma_plain_is_trimmed(aor);
    assert forall|i: int| 0 <= i < aor.len() implies aor[i] != '<' && aor[i] != '>' by {
        assert(aor.contains(aor[i]));
    }
    text::lemma_find_char_is(aor, '<', 0, aor.len() as int);
}

/// A contact can be called where its address is a SIP one.
pub proof fn law_which_contacts_can_be_called(v: Seq<char>)
    ensures
        register::is_contact(v) <==> text::starts_with(invite_handler::contact_uri_of(v), "sip:"@) || text::starts_with(
            invite_handler::contact_uri_of(v),
            "sips:"@,
        ),
{
}

/// An answer to a request echoes it where that can be done; a response is
/// answered bare.
pub proof fn law_what_an_answer_is(r: Seq<char>, m: MessageView, status: u16, reason: Seq<char>)
    requires
        responses::answers(r, m, status, reason),
    ensures
        m is Response ==> r == responses::bare_response(status, reason),
        m matches MessageView::Request(q) ==> exists|tag: Seq<char>|
            responses::is_tag(tag) && r == #[trigger] responses::response_or_bare(q.headers, status, reason, tag),
{
}

/// Domains are put in one after the other.
pub proof fn law_domains_are_put_in(v: Seq<Seq<char>>, ds: Seq<Seq<char>>, d: Seq<char>)
    ensures
        identity::with_domains(v, Seq::empty()) == v,
        identity::with_domains(v, ds.push(d)) == identity::with_domain(identity::with_domains(v, ds), d),
{
    assert(ds.push(d).drop_last() =~= ds);
}

} // verus!
