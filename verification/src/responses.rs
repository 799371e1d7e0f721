//! Responses: how they are built from a request, and how a response of the
//! callee is fitted to the caller's transaction.

use crate::headers::MessageWriter;
use crate::headers;
use crate::message::{MessageView, RequestView, ResponseView, SipMessage, SipRequest, SipResponse, call_id_of, from_of, header_value, parse_name_addr, to_of, until_blank_of, value_of};
use crate::message;
use crate::net::Address;
use crate::raw_message::{RawSipMessage, RawView, body_text, own_lines};
use crate::raw_message;
use crate::renewal;
use crate::sip_builder::{new_branch, renew_invite_transaction_with};
use crate::sip_builder;
use crate::sip_laws;
use crate::text::{chars_of, decimal_of, has_prefix_word, is_word, position_of_str, split_lines, split_once_at, split_tokens, string_of, trimmed};
use crate::text;
use vstd::prelude::*;
use vstd::slice::slice_subrange;

verus! {

// ── Status line ─────────────────────────────────────────────────────────

/// The reason phrase of a status code (RFC 3261 section 21 and extensions).
pub open spec fn phrase_of(code: u16) -> Seq<char> {
    match code {
        100 => "Trying"@,
        180 => "Ringing"@,
        181 => "Call Is Being Forwarded"@,
        182 => "Queued"@,
        183 => "Session Progress"@,
        199 => "Early Dialog Terminated"@,
        200 => "OK"@,
        202 => "Accepted"@,
        204 => "No Notification"@,
        300 => "Multiple Choices"@,
        301 => "Moved Permanently"@,
        302 => "Moved Temporarily"@,
        305 => "Use Proxy"@,
        380 => "Alternative Service"@,
        400 => "Bad Request"@,
        401 => "Unauthorized"@,
        402 => "Payment Required"@,
        403 => "Forbidden"@,
        404 => "Not Found"@,
        405 => "Method Not Allowed"@,
        406 => "Not Acceptable"@,
        407 => "Proxy Authentication Required"@,
        408 => "Request Timeout"@,
        410 => "Gone"@,
        413 => "Request Entity Too Large"@,
        414 => "Request-URI Too Long"@,
        415 => "Unsupported Media Type"@,
        416 => "Unsupported URI Scheme"@,
        420 => "Bad Extension"@,
        421 => "Extension Required"@,
        422 => "Session Interval Too Small"@,
        423 => "Interval Too Brief"@,
        480 => "Temporarily Unavailable"@,
        481 => "Call/Transaction Does Not Exist"@,
        482 => "Loop Detected"@,
        483 => "Too Many Hops"@,
        484 => "Address Incomplete"@,
        485 => "Ambiguous"@,
        486 => "Busy Here"@,
        487 => "Request Terminated"@,
        488 => "Not Acceptable Here"@,
        491 => "Request Pending"@,
        493 => "Undecipherable"@,
        500 => "Server Internal Error"@,
        501 => "Not Implemented"@,
        502 => "Bad Gateway"@,
        503 => "Service Unavailable"@,
        504 => "Server Time-out"@,
        505 => "Version Not Supported"@,
        513 => "Message Too Large"@,
        600 => "Busy Everywhere"@,
        603 => "Decline"@,
        604 => "Does Not Exist Anywhere"@,
        606 => "Not Acceptable"@,
        _ => "Other"@,
    }
}

/// The reason phrase of a status code.
pub fn reason_phrase(code: u16) -> (r: &'static str)
    ensures
        r@ == phrase_of(code),
{
    match code {
        100 => "Trying",
        180 => "Ringing",
        181 => "Call Is Being Forwarded",
        182 => "Queued",
        183 => "Session Progress",
        199 => "Early Dialog Terminated",
        200 => "OK",
        202 => "Accepted",
        204 => "No Notification",
        300 => "Multiple Choices",
        301 => "Moved Permanently",
        302 => "Moved Temporarily",
        305 => "Use Proxy",
        380 => "Alternative Service",
        400 => "Bad Request",
        401 => "Unauthorized",
        402 => "Payment Required",
        403 => "Forbidden",
        404 => "Not Found",
        405 => "Method Not Allowed",
        406 => "Not Acceptable",
        407 => "Proxy Authentication Required",
        408 => "Request Timeout",
        410 => "Gone",
        413 => "Request Entity Too Large",
        414 => "Request-URI Too Long",
        415 => "Unsupported Media Type",
        416 => "Unsupported URI Scheme",
        420 => "Bad Extension",
        421 => "Extension Required",
        422 => "Session Interval Too Small",
        423 => "Interval Too Brief",
        480 => "Temporarily Unavailable",
        481 => "Call/Transaction Does Not Exist",
        482 => "Loop Detected",
        483 => "Too Many Hops",
        484 => "Address Incomplete",
        485 => "Ambiguous",
        486 => "Busy Here",
        487 => "Request Terminated",
        488 => "Not Acceptable Here",
        491 => "Request Pending",
        493 => "Undecipherable",
        500 => "Server Internal Error",
        501 => "Not Implemented",
        502 => "Bad Gateway",
        503 => "Service Unavailable",
        504 => "Server Time-out",
        505 => "Version Not Supported",
        513 => "Message Too Large",
        600 => "Busy Everywhere",
        603 => "Decline",
        604 => "Does Not Exist Anywhere",
        606 => "Not Acceptable",
        _ => "Other",
    }
}

/// The status line of a response.
pub open spec fn status_line(code: u16) -> Seq<char> {
    status_line_with(code, phrase_of(code))
}

/// A status line with a phrase of its own.
pub open spec fn status_line_with(code: u16, phrase: Seq<char>) -> Seq<char> {
    "SIP/2.0 "@ + text::decimal(code as nat) + " "@ + phrase
}

pub fn write_status_line(code: u16, phrase: &str) -> (r: String)
    ensures
        r@ == status_line_with(code, phrase@),
{
    let mut s = "SIP/2.0 ".to_string();
    s.push_str(decimal_of(code as u64).as_str());
    s.push_str(" ");
    s.push_str(phrase);
    s
}

/// A response without the headers of a request.
pub open spec fn bare_response(code: u16, phrase: Seq<char>) -> Seq<char> {
    headers::message_text(status_line_with(code, phrase), seq![("Content-Length"@, "0"@)], Seq::empty())
}

/// A minimal response without the headers of a request: the last resort.
pub fn build_plain_response(status: u16, reason: &str) -> (r: String)
    ensures
        r@ == bare_response(status, reason@),
{
    let mut w = MessageWriter::new(write_status_line(status, reason));
    w.header("Content-Length", "0");
    proof {
        reveal_strlit("");
        assert(""@ =~= Seq::empty());
        assert(w.pairs() =~= seq![("Content-Length"@, "0"@)]);
    }
    w.finish("")
}

// ── Tags ────────────────────────────────────────────────────────────────

/// A lower case hexadecimal digit.
pub open spec fn is_hex_char(c: char) -> bool {
    ('0' <= c && c <= '9') || ('a' <= c && c <= 'f')
}

/// The form of a UUID: groups of 8, 4, 4, 4 and 12 digits with hyphens
/// between them.
pub open spec fn is_uuid_text(s: Seq<char>) -> bool {
    &&& s.len() == 36
    &&& forall|i: int|
        0 <= i < 36 ==> if i == 8 || i == 13 || i == 18 || i == 23 {
            #[trigger] s[i] == '-'
        } else {
            is_hex_char(s[i])
        }
}

/// A tag: eight hexadecimal digits.
pub open spec fn is_tag(s: Seq<char>) -> bool {
    s.len() == 8 && forall|i: int| 0 <= i < 8 ==> is_hex_char(#[trigger] s[i])
}

/// Calls `uuid::Uuid::new_v4` and prints the result: a fresh identifier in
/// the hyphenated lower case form, of which nothing else is known.
#[verifier::external_body]
pub(crate) fn fresh_uuid() -> (r: String)
    ensures
        is_uuid_text(r@),
{
    uuid::Uuid::new_v4().to_string()
}

/// A fresh tag.
pub fn new_tag() -> (r: String)
    ensures
        is_tag(r@),
{
    let u = fresh_uuid();
    let c = chars_of(u.as_str());
    let t = slice_subrange(c.as_slice(), 0, 8);
    assert forall|i: int| 0 <= i < 8 implies is_hex_char(#[trigger] t@[i]) by {
        assert(t@[i] == u@[i]);
    }
    string_of(t)
}

// ── Echoed headers ──────────────────────────────────────────────────────

/// Name and value of a header line.
pub open spec fn line_pair(l: Seq<char>) -> (Seq<char>, Seq<char>) {
    match text::split_once(l, ':') {
        Some((name, value)) => (text::trim(name), text::trim(value)),
        None => (text::trim(l), Seq::empty()),
    }
}

/// The Via headers among header lines, in order.
pub open spec fn via_pairs(hs: Seq<Seq<char>>) -> Seq<(Seq<char>, Seq<char>)>
    decreases hs.len(),
{
    if hs.len() == 0 {
        Seq::empty()
    } else if sip_builder::is_via_line(hs.last()) {
        via_pairs(hs.drop_last()).push(line_pair(hs.last()))
    } else {
        via_pairs(hs.drop_last())
    }
}

/// A To value with a tag: its own, or the given one where it has none.
pub open spec fn tagged_to(value: Seq<char>, tag: Seq<char>) -> Option<Seq<char>> {
    match message::name_addr(value) {
        Some(a) => Some(
            if a.tag is None {
                a.text + ";tag="@ + tag
            } else {
                a.text
            },
        ),
        None => None,
    }
}

/// The headers of a response to a request, without its length: the Vias, and
/// From, To, Call-ID and CSeq. None where the request lacks one.
pub open spec fn echoed_pairs(
    vias: Seq<(Seq<char>, Seq<char>)>,
    hs: Seq<Seq<char>>,
    to: Option<Seq<char>>,
) -> Option<Seq<(Seq<char>, Seq<char>)>> {
    match (message::from_value(hs), to, message::call_id_value(hs), message::cseq_value(hs)) {
        (Some(f), Some(t), Some(c), Some(q)) => if vias.len() > 0 {
            Some(
                vias + seq![("From"@, f), ("To"@, t), ("Call-ID"@, c), ("CSeq"@, q)],
            )
        } else {
            None
        },
        _ => None,
    }
}

/// The tagged To of header lines.
pub open spec fn response_to(hs: Seq<Seq<char>>, tag: Seq<char>) -> Option<Seq<char>> {
    match message::to_value(hs) {
        Some(v) => tagged_to(v, tag),
        None => None,
    }
}

/// A response to a request with further headers.
pub open spec fn echo_response(
    code: u16,
    pairs: Option<Seq<(Seq<char>, Seq<char>)>>,
    extra: Seq<(Seq<char>, Seq<char>)>,
) -> Option<Seq<char>> {
    match pairs {
        Some(p) => Some(
            headers::message_text(
                status_line(code),
                p + extra + seq![("Content-Length"@, "0"@)],
                Seq::empty(),
            ),
        ),
        None => None,
    }
}

/// A response that the peer can match to its transaction.
pub open spec fn plain_response(hs: Seq<Seq<char>>, code: u16, tag: Seq<char>) -> Option<Seq<char>> {
    echo_response(code, echoed_pairs(via_pairs(hs), hs, response_to(hs, tag)), Seq::empty())
}

/// Names and values as texts of their own.
pub open spec fn text_pairs(v: Seq<(String, String)>) -> Seq<(Seq<char>, Seq<char>)> {
    v.map_values(|p: (String, String)| (p.0@, p.1@))
}

fn pair_of(line: &[char]) -> (r: (String, String))
    ensures
        (r.0@, r.1@) == line_pair(line@),
{
    match split_once_at(line, ':') {
        Some((name, value)) => (string_of(trimmed(name)), string_of(trimmed(value))),
        None => {
            let e = String::new();
            assert(e@ =~= Seq::empty());
            (string_of(trimmed(line)), e)
        },
    }
}

/// The Via headers among header lines.
pub fn vias_of(headers: &Vec<String>) -> (r: Vec<(String, String)>)
    ensures
        text_pairs(r@) == via_pairs(text::string_views(headers@)),
{
    let ghost hs = text::string_views(headers@);
    let mut out: Vec<(String, String)> = Vec::new();
    let mut i: usize = 0;
    assert(text_pairs(out@) =~= via_pairs(hs.take(0)));
    while i < headers.len()
        invariant
            i <= headers@.len(),
            hs == text::string_views(headers@),
            text_pairs(out@) == via_pairs(hs.take(i as int)),
        decreases headers@.len() - i,
    {
        let line = chars_of(headers[i].as_str());
        assert(hs.take(i + 1).drop_last() =~= hs.take(i as int));
        assert(hs.take(i + 1).last() == line@);
        if has_prefix_word(line.as_slice(), "via:") || has_prefix_word(line.as_slice(), "v:") {
            let ghost before = out@;
            let p = pair_of(line.as_slice());
            out.push(p);
            assert(text_pairs(out@) =~= text_pairs(before).push((p.0@, p.1@)));
        }
        i = i + 1;
    }
    assert(hs.take(hs.len() as int) =~= hs);
    out
}

/// The To header of a response.
pub fn response_to_of(headers: &Vec<String>, tag: &str) -> (r: Option<String>)
    ensures
        text::opt_string(r) == response_to(text::string_views(headers@), tag@),
{
    match to_of(headers) {
        None => None,
        Some(v) => match parse_name_addr(v.as_str()) {
            None => None,
            Some(a) => {
                let mut t = a.text;
                if a.tag.is_none() {
                    t.push_str(";tag=");
                    t.push_str(tag);
                }
                Some(t)
            },
        },
    }
}

/// A response with the given Vias and To, further headers and no body; None
/// where the request lacks a header that a response echoes.
pub fn build_echo_response(
    request: &SipRequest,
    code: u16,
    vias: &Vec<(String, String)>,
    to: Option<String>,
    extra: &Vec<(String, String)>,
) -> (r: Option<String>)
    ensures
        text::opt_string(r) == echo_response(
            code,
            echoed_pairs(text_pairs(vias@), request@.headers, text::opt_string(to)),
            text_pairs(extra@),
        ),
{
    let hs = &request.headers;
    match (from_of(hs), to, call_id_of(hs), value_of(hs, "cseq:", "cseq:")) {
        (Some(f), Some(t), Some(c), Some(q)) => {
            if vias.len() == 0 {
                return None;
            }
            let mut w = MessageWriter::new(write_status_line(code, reason_phrase(code)));
            write_pairs(&mut w, vias);
            let ghost head = text_pairs(vias@);
            assert(w.pairs() =~= head);
            w.header("From", f.as_str());
            w.header("To", t.as_str());
            w.header("Call-ID", c.as_str());
            w.header("CSeq", q.as_str());
            let ghost four = seq![
                ("From"@, f@),
                ("To"@, t@),
                ("Call-ID"@, c@),
                ("CSeq"@, q@),
            ];
            assert(w.pairs() =~= head + four);
            write_pairs(&mut w, extra);
            w.header("Content-Length", "0");
            proof {
                reveal_strlit("");
                assert(""@ =~= Seq::empty());
                assert(w.pairs() =~= head + four + text_pairs(extra@) + seq![
                    ("Content-Length"@, "0"@),
                ]);
            }
            Some(w.finish(""))
        },
        _ => None,
    }
}

/// Append headers to a message under construction.
pub fn write_pairs(w: &mut MessageWriter, v: &Vec<(String, String)>)
    requires
        old(w).wf(),
    ensures
        final(w).wf(),
        final(w).start() == old(w).start(),
        final(w).pairs() == old(w).pairs() + text_pairs(v@),
{
    let ghost before = w.pairs();
    let ghost all = text_pairs(v@);
    let mut i: usize = 0;
    assert(before + all.take(0) =~= before);
    while i < v.len()
        invariant
            i <= v@.len(),
            all == text_pairs(v@),
            w.wf(),
            w.start() == old(w).start(),
            w.pairs() == before + all.take(i as int),
        decreases v@.len() - i,
    {
        w.header(v[i].0.as_str(), v[i].1.as_str());
        assert(before + all.take(i + 1) =~= (before + all.take(i as int)).push(all[i as int]));
        i = i + 1;
    }
    assert(all.take(all.len() as int) =~= all);
}

/// A response that echoes Via, From, To, Call-ID and CSeq of the request, the
/// To with `tag` where it has none; None where the request lacks one of them.
pub fn build_plain_response_for_request_with(request: &SipRequest, status: u16, tag: &str) -> (r:
    Option<String>)
    ensures
        text::opt_string(r) == plain_response(request@.headers, status, tag@),
{
    let vias = vias_of(&request.headers);
    let to = response_to_of(&request.headers, tag);
    let extra: Vec<(String, String)> = Vec::new();
    assert(text_pairs(extra@) =~= Seq::empty());
    build_echo_response(request, status, &vias, to, &extra)
}

/// A response that echoes the headers of the request, the To with a fresh
/// tag where it has none.
pub fn build_plain_response_for_request(request: &SipRequest, status: u16) -> (r: Option<String>)
    ensures
        exists|tag: Seq<char>|
            is_tag(tag) && text::opt_string(r) == #[trigger] plain_response(
                request@.headers,
                status,
                tag,
            ),
{
    let tag = new_tag();
    build_plain_response_for_request_with(request, status, tag.as_str())
}

/// A response to the request, or the status line alone where the request
/// lacks the headers that a response echoes.
pub open spec fn response_or_bare(
    hs: Seq<Seq<char>>,
    code: u16,
    reason: Seq<char>,
    tag: Seq<char>,
) -> Seq<char> {
    match plain_response(hs, code, tag) {
        Some(t) => t,
        None => bare_response(code, reason),
    }
}

/// The text answers a request of these headers with that status, under some
/// tag.
pub open spec fn answers_request(
    r: Seq<char>,
    hs: Seq<Seq<char>>,
    status: u16,
    reason: Seq<char>,
) -> bool {
    exists|tag: Seq<char>|
        is_tag(tag) && r == #[trigger] response_or_bare(hs, status, reason, tag)
}

/// The text answers the message with that status: a request with its headers
/// echoed, a response with the status line alone.
pub open spec fn answers(r: Seq<char>, msg: MessageView, status: u16, reason: Seq<char>) -> bool {
    match msg {
        MessageView::Request(q) => answers_request(r, q.headers, status, reason),
        MessageView::Response(_) => r == bare_response(status, reason),
    }
}

/// A response to `request` that the peer can match to its transaction; only
/// the status line where the request lacks the headers for that.
pub fn response_for_request(request: &SipRequest, status: u16, reason: &str) -> (r: String)
    ensures
        answers_request(r@, request@.headers, status, reason@),
{
    let tag = new_tag();
    let r = match build_plain_response_for_request_with(request, status, tag.as_str()) {
        Some(t) => t,
        None => build_plain_response(status, reason),
    };
    assert(r@ == response_or_bare(request@.headers, status, reason@, tag@));
    r
}

/// The same for a message of either kind: a response is answered with the
/// status line alone.
pub fn response_for_message(msg: &SipMessage, status: u16, reason: &str) -> (r: String)
    ensures
        answers(r@, msg@, status, reason@),
{
    match msg {
        SipMessage::Request(q) => response_for_request(q, status, reason),
        SipMessage::Response(_) => build_plain_response(status, reason),
    }
}

/// A 100 Trying: the top Via only, and the To as it is.
pub open spec fn trying_response(hs: Seq<Seq<char>>) -> Option<Seq<char>> {
    echo_response(
        100,
        echoed_pairs(
            match message::first_value(hs, "via:"@, "v:"@) {
                Some(v) => seq![("Via"@, v)],
                None => Seq::empty(),
            },
            hs,
            message::to_value(hs),
        ),
        Seq::empty(),
    )
}

/// The top Via as a list.
pub fn top_via_of(headers: &Vec<String>) -> (r: Vec<(String, String)>)
    ensures
        text_pairs(r@) == (match message::first_value(text::string_views(headers@), "via:"@, "v:"@) {
            Some(v) => seq![("Via"@, v)],
            None => Seq::empty(),
        }),
{
    let mut out: Vec<(String, String)> = Vec::new();
    if let Some(v) = value_of(headers, "via:", "v:") {
        out.push(("Via".to_string(), v));
        assert(text_pairs(out@) =~= seq![("Via"@, v@)]);
    } else {
        assert(text_pairs(out@) =~= Seq::empty());
    }
    out
}

/// A 100 Trying for an INVITE. It does not add a tag to the To.
pub fn build_trying(request: &SipRequest) -> (r: Option<String>)
    ensures
        text::opt_string(r) == trying_response(request@.headers),
{
    let vias = top_via_of(&request.headers);
    let extra: Vec<(String, String)> = Vec::new();
    assert(text_pairs(extra@) =~= Seq::empty());
    let to = to_of(&request.headers);
    build_echo_response(request, 100, &vias, to, &extra)
}

// ── Fitting a response to the caller ────────────────────────────────────

/// The URIs under which this side hides the other leg.
#[derive(Debug)]
pub struct SbcUris {
    pub contact_uri: String,
    pub record_route: String,
}

/// The second word of a CSeq value is INVITE.
pub open spec fn is_invite_cseq(value: Option<Seq<char>>) -> bool {
    match value {
        Some(v) => text::tokens(v).len() >= 2 && text::same_text(text::tokens(v)[1], "INVITE"@),
        None => false,
    }
}

/// The headers with the caller's Vias in place of all others.
pub open spec fn caller_via_headers(hs: Seq<Seq<char>>, vias: Seq<Seq<char>>) -> Seq<Seq<char>> {
    vias + raw_message::without_header(raw_message::without_header(hs, "via"@), "v"@)
}

/// The headers with the CSeq number of the caller's INVITE.
pub open spec fn caller_cseq_headers(hs: Seq<Seq<char>>, cseq: Option<u32>) -> Seq<Seq<char>> {
    match cseq {
        Some(n) => if is_invite_cseq(raw_message::line_value(hs, "cseq"@)) {
            raw_message::with_header(hs, "CSeq"@, text::decimal(n as nat) + " INVITE"@)
        } else {
            hs
        },
        None => hs,
    }
}

/// The headers with the Contact and the Record-Route of this side.
pub open spec fn hidden_headers(hs: Seq<Seq<char>>, id: Option<(Seq<char>, Seq<char>)>) -> Seq<
    Seq<char>,
> {
    match id {
        Some((contact, route)) => {
            let c = if raw_message::line_value(hs, "contact"@) is Some {
                raw_message::without_header(raw_message::without_header(hs, "contact"@), "m"@).push(
                    "Contact: <"@ + contact + ">"@,
                )
            } else {
                hs
            };
            seq!["Record-Route: "@ + route] + raw_message::without_header(c, "record-route"@)
        },
        None => hs,
    }
}

/// The response as the caller gets it.
pub open spec fn caller_response(
    m: RawView,
    vias: Seq<Seq<char>>,
    id: Option<(Seq<char>, Seq<char>)>,
    cseq: Option<u32>,
) -> RawView {
    RawView {
        headers: hidden_headers(caller_cseq_headers(caller_via_headers(m.headers, vias), cseq), id),
        ..m
    }
}

pub open spec fn opt_uris(id: Option<&SbcUris>) -> Option<(Seq<char>, Seq<char>)> {
    match id {
        Some(u) => Some((u.contact_uri@, u.record_route@)),
        None => None,
    }
}

/// Fit a response to the caller's transaction: its Vias in place of those of
/// this side, its CSeq number on an INVITE, and with an identity the Contact
/// and the Record-Route of this side. A text without a start line is left as
/// it is.
pub fn rewrite_response_for_caller(
    raw_response: &str,
    caller_vias: &Vec<String>,
    identity: Option<&SbcUris>,
    caller_invite_cseq: Option<u32>,
) -> (r: String)
    ensures
        r@ == (if headers::start_line(raw_response@).len() == 0 {
            raw_response@
        } else {
            raw_message::raw_text(
                caller_response(
                    raw_message::raw_parts(raw_response@),
                    text::string_views(caller_vias@),
                    opt_uris(identity),
                    caller_invite_cseq,
                ),
            )
        }),
{
    let mut msg = match RawSipMessage::parse(raw_response) {
        Some(m) => m,
        None => {
            return raw_response.to_string();
        },
    };
    let ghost m = msg@;
    let ghost vias = text::string_views(caller_vias@);
    msg.remove_header("via");
    msg.remove_header("v");
    let ghost bare = msg@.headers;
    let mut i: usize = caller_vias.len();
    assert(vias.skip(vias.len() as int) + bare =~= bare);
    while i > 0
        invariant
            i <= caller_vias@.len(),
            vias == text::string_views(caller_vias@),
            msg@ == (RawView { headers: vias.skip(i as int) + bare, ..m }),
        decreases i,
    {
        i = i - 1;
        msg.prepend_header(caller_vias[i].clone());
        assert(msg@.headers =~= vias.skip(i as int) + bare);
    }
    assert(vias.skip(0) =~= vias);
    assert(msg@.headers == caller_via_headers(m.headers, vias));
    if let Some(n) = caller_invite_cseq {
        let is_invite = match msg.header_value("cseq") {
            Some(v) => {
                let c = chars_of(v.as_str());
                let w = split_tokens(c.as_slice());
                if w.len() >= 2 {
                    assert(text::views(w@)[1] == w@[1]@);
                    is_word(w[1], "INVITE")
                } else {
                    false
                }
            },
            None => false,
        };
        if is_invite {
            let mut value = decimal_of(n as u64);
            value.push_str(" INVITE");
            msg.set_header("CSeq", value.as_str());
        }
    }
    if let Some(id) = identity {
        if msg.header_value("contact").is_some() {
            msg.remove_header("contact");
            msg.remove_header("m");
            let mut line = "Contact: <".to_string();
            line.push_str(id.contact_uri.as_str());
            line.push_str(">");
            msg.append_header(line);
        }
        msg.remove_header("record-route");
        let mut line = "Record-Route: ".to_string();
        line.push_str(id.record_route.as_str());
        msg.prepend_header(line);
    }
    msg.write()
}

/// A 407 that is not passed on, as the 503 that the caller gets instead: the
/// same dialog, without the challenge.
pub open spec fn unavailable_parts(m: RawView) -> RawView {
    RawView {
        start: "SIP/2.0 503 Service Unavailable"@,
        headers: raw_message::without_header(raw_message::without_header(m.headers, "proxy-authenticate"@), "www-authenticate"@),
        body: m.body,
    }
}

/// The 503 that stands for a challenge that could not be met.
pub fn unavailable_from_challenge(raw: &str) -> (r: String)
    ensures
        r@ == (if headers::start_line(raw@).len() == 0 {
            bare_response(503, "Service Unavailable"@)
        } else {
            raw_message::raw_text(unavailable_parts(raw_message::raw_parts(raw@)))
        }),
{
    match RawSipMessage::parse(raw) {
        None => build_plain_response(503, "Service Unavailable"),
        Some(m) => {
            let mut msg = m;
            msg.start_line = "SIP/2.0 503 Service Unavailable".to_string();
            msg.remove_header("proxy-authenticate");
            msg.remove_header("www-authenticate");
            msg.write()
        },
    }
}

// ── Bodies ──────────────────────────────────────────────────────────────

pub open spec fn describes_body(l: Seq<char>) -> bool {
    text::starts_with_word(l, "content-type:"@) || text::starts_with_word(l, "content-length:"@)
}

/// The lines that do not describe a body.
pub open spec fn bodiless(ls: Seq<Seq<char>>) -> Seq<Seq<char>>
    decreases ls.len(),
{
    if ls.len() == 0 {
        ls
    } else if describes_body(ls.last()) {
        bodiless(ls.drop_last())
    } else {
        bodiless(ls.drop_last()).push(ls.last())
    }
}

/// A message without its body.
pub open spec fn stripped_text(raw: Seq<char>) -> Seq<char> {
    raw_message::lines_block(bodiless(message::text_lines(raw))) + (if message::text_lines(raw).len() < text::lines(raw).len() {
        "Content-Length: 0\r\n\r\n"@
    } else {
        Seq::empty()
    })
}

/// Strip the body from a response: type and length go, and the length is
/// zero.
pub fn strip_sdp_body(raw: &str) -> (r: String)
    ensures
        r@ == stripped_text(raw@),
{
    let c = chars_of(raw);
    let ls = split_lines(c.as_slice());
    let hs = until_blank_of(&ls);
    let ghost all = text::views(hs@);
    let mut out = String::new();
    let mut i: usize = 0;
    assert(out@ =~= raw_message::lines_block(bodiless(all.take(0))));
    proof {
        reveal_strlit("\r\n");
        assert("\r\n"@ =~= text::crlf());
    }
    while i < hs.len()
        invariant
            i <= hs@.len(),
            all == text::views(hs@),
            "\r\n"@ == text::crlf(),
            out@ == raw_message::lines_block(bodiless(all.take(i as int))),
        decreases hs@.len() - i,
    {
        let line = hs[i];
        let ghost kept = bodiless(all.take(i as int));
        assert(all.take(i + 1).drop_last() =~= all.take(i as int));
        assert(all.take(i + 1).last() == line@);
        if !has_prefix_word(line, "content-type:") && !has_prefix_word(line, "content-length:") {
            out.push_str(string_of(line).as_str());
            out.push_str("\r\n");
            assert(kept.push(line@).drop_last() =~= kept);
            assert(out@ =~= raw_message::lines_block(kept.push(line@)));
        }
        i = i + 1;
    }
    assert(all.take(all.len() as int) =~= all);
    if hs.len() < ls.len() {
        out.push_str("Content-Length: 0\r\n\r\n");
    } else {
        assert(out@ =~= stripped_text(raw@));
    }
    out
}

/// The header lines with the length of the body, and no other length.
pub open spec fn with_length(hs: Seq<Seq<char>>, len: nat) -> Seq<Seq<char>> {
    unprefixed(hs, "content-length:"@).push("Content-Length: "@ + text::decimal(len))
}

/// The lines that do not begin with a prefix.
pub open spec fn unprefixed(ls: Seq<Seq<char>>, p: Seq<char>) -> Seq<Seq<char>>
    decreases ls.len(),
{
    if ls.len() == 0 {
        ls
    } else if text::starts_with_word(ls.last(), p) {
        unprefixed(ls.drop_last(), p)
    } else {
        unprefixed(ls.drop_last(), p).push(ls.last())
    }
}

fn drop_prefixed(headers: &Vec<String>, p: &str) -> (r: Vec<String>)
    ensures
        text::string_views(r@) == unprefixed(text::string_views(headers@), p@),
{
    let ghost hs = text::string_views(headers@);
    let mut out: Vec<String> = Vec::new();
    let mut i: usize = 0;
    assert(text::string_views(out@) =~= unprefixed(hs.take(0), p@));
    while i < headers.len()
        invariant
            i <= headers@.len(),
            hs == text::string_views(headers@),
            text::string_views(out@) == unprefixed(hs.take(i as int), p@),
        decreases headers@.len() - i,
    {
        let line = chars_of(headers[i].as_str());
        assert(hs.take(i + 1).drop_last() =~= hs.take(i as int));
        assert(hs.take(i + 1).last() == line@);
        if !has_prefix_word(line.as_slice(), p) {
            let ghost before = out@;
            let s = headers[i].clone();
            out.push(s);
            assert(text::string_views(out@) =~= text::string_views(before).push(s@));
        }
        i = i + 1;
    }
    assert(hs.take(hs.len() as int) =~= hs);
    out
}

fn set_length(headers: &mut Vec<String>, len: usize)
    ensures
        text::string_views(final(headers)@) == with_length(text::string_views(old(headers)@), len as nat),
{
    let mut kept = drop_prefixed(headers, "content-length:");
    let mut line = "Content-Length: ".to_string();
    line.push_str(decimal_of(len as u64).as_str());
    let ghost before = kept@;
    kept.push(line);
    assert(text::string_views(kept@) =~= text::string_views(before).push(line@));
    *headers = kept;
}

/// Make the Content-Length of a response that of its body.
pub fn update_content_length_response(response: &mut SipResponse)
    ensures
        final(response)@ == (ResponseView {
            headers: with_length(old(response)@.headers, old(response)@.body.len()),
            ..old(response)@
        }),
{
    let n: usize = response.body.len();
    set_length(&mut response.headers, n);
}

/// Make the Content-Length of a request that of its body.
pub fn update_content_length_request(request: &mut SipRequest)
    ensures
        final(request)@ == (RequestView {
            headers: with_length(old(request)@.headers, old(request)@.body.len()),
            ..old(request)@
        }),
{
    let n: usize = request.body.len();
    set_length(&mut request.headers, n);
}

// ── Credentials for a challenged INVITE ─────────────────────────────────

/// Neither the request line nor a Via.
pub open spec fn after_vias(l: Seq<char>) -> bool {
    !text::starts_with_word(l, "invite "@) && !sip_builder::is_via_line(l)
}

/// First line behind the request line and the top Vias, or the length.
pub open spec fn credentials_index(ls: Seq<Seq<char>>) -> int
    decreases ls.len(),
{
    if ls.len() == 0 || after_vias(ls[0]) {
        0
    } else {
        1 + credentials_index(ls.skip(1))
    }
}

/// The head with the credentials as the only ones.
pub open spec fn authorized_lines(ls: Seq<Seq<char>>, auth: Seq<char>) -> Seq<Seq<char>> {
    let kept = unprefixed(ls, "proxy-authorization:"@);
    let at = credentials_index(kept);
    kept.insert(
        if at < kept.len() {
            at
        } else {
            1
        },
        "Proxy-Authorization: "@ + auth,
    )
}

/// The stored INVITE as a new transaction with credentials.
pub open spec fn authorized_text(raw: Seq<char>, auth: Seq<char>, branch: Seq<char>) -> Seq<char> {
    let renewed = sip_builder::renewed_text(raw, branch);
    text::join_lines(authorized_lines(text::lines(headers::head_of(renewed)), auth)) + text::crlf() + text::crlf() + headers::body_of(renewed)
}

/// The head of the new transaction has more lines than credentials.
pub open spec fn takes_credentials(raw: Seq<char>, branch: Seq<char>) -> bool {
    unprefixed(text::lines(headers::head_of(sip_builder::renewed_text(raw, branch))), "proxy-authorization:"@).len() > 0
}

/// Lines put together with a line end between each two.
pub fn join_of(v: &Vec<String>) -> (r: String)
    ensures
        r@ == text::join_lines(text::string_views(v@)),
{
    let ghost all = text::string_views(v@);
    if v.len() == 0 {
        let e = String::new();
        assert(e@ =~= text::join_lines(all));
        return e;
    }
    proof {
        reveal_strlit("\r\n");
        assert("\r\n"@ =~= text::crlf());
    }
    let mut out = v[0].clone();
    let mut i: usize = 1;
    assert(all.take(1) =~= seq![all[0]]);
    while i < v.len()
        invariant
            1 <= i <= v@.len(),
            all == text::string_views(v@),
            "\r\n"@ == text::crlf(),
            out@ == text::join_lines(all.take(i as int)),
        decreases v@.len() - i,
    {
        out.push_str("\r\n");
        out.push_str(v[i].as_str());
        assert(all.take(i + 1).drop_last() =~= all.take(i as int));
        assert(out@ =~= text::join_lines(all.take(i + 1)));
        i = i + 1;
    }
    assert(all.take(all.len() as int) =~= all);
    out
}

fn find_credentials_place(lines: &Vec<String>) -> (r: usize)
    ensures
        r == credentials_index(text::string_views(lines@)),
        r <= lines@.len(),
{
    let ghost s = text::string_views(lines@);
    let mut i: usize = 0;
    assert(s.skip(0) =~= s);
    while i < lines.len()
        invariant
            i <= s.len(),
            s == text::string_views(lines@),
            credentials_index(s) == i + credentials_index(s.skip(i as int)),
        decreases s.len() - i,
    {
        let l = chars_of(lines[i].as_str());
        assert(s.skip(i as int)[0] == l@);
        assert(s.skip(i as int).skip(1) =~= s.skip(i + 1));
        if !has_prefix_word(l.as_slice(), "invite ") && !has_prefix_word(l.as_slice(), "via:")
            && !has_prefix_word(l.as_slice(), "v:") {
            return i;
        }
        i = i + 1;
    }
    i
}

/// Put credentials into a stored INVITE as a new transaction under a given
/// branch: any earlier credentials go, the new ones come behind the top Via,
/// and the body stays.
pub fn inject_proxy_auth_into_invite_with(raw_invite: &str, auth_value: &str, branch: &str) -> (r:
    String)
    requires
        sip_builder::renewable(raw_invite@),
        takes_credentials(raw_invite@, branch@),
    ensures
        r@ == authorized_text(raw_invite@, auth_value@, branch@),
{
    let renewed = renew_invite_transaction_with(raw_invite, branch);
    let raw = chars_of(renewed.as_str());
    let blank: [char; 4] = ['\r', '\n', '\r', '\n'];
    assert(blank@ =~= text::crlf() + text::crlf());
    let pos: usize = position_of_str(raw.as_slice(), &blank, 0);
    let head = slice_subrange(raw.as_slice(), 0, pos);
    assert(head@ =~= headers::head_of(raw@));
    let ls = split_lines(head);
    let own = own_lines(&ls);
    assert(text::string_views(own@) == text::lines(headers::head_of(sip_builder::renewed_text(raw_invite@, branch@))));
    let mut kept = drop_prefixed(&own, "proxy-authorization:");
    let mut at: usize = find_credentials_place(&kept);
    if at == kept.len() {
        at = 1;
    }
    let mut line = "Proxy-Authorization: ".to_string();
    line.push_str(auth_value);
    let ghost before = kept@;
    assert(text::string_views(before).len() == before.len());
    kept.insert(at, line);
    assert(text::string_views(kept@) =~= text::string_views(before).insert(at as int, line@));
    let mut out = join_of(&kept);
    out.push_str("\r\n\r\n");
    proof {
        reveal_strlit("\r\n\r\n");
        assert("\r\n\r\n"@ =~= text::crlf() + text::crlf());
    }
    out.push_str(body_text(raw.as_slice()).as_str());
    assert(out@ =~= authorized_text(raw_invite@, auth_value@, branch@));
    out
}

/// Put credentials into a stored INVITE as a new transaction with a fresh
/// branch.
pub fn inject_proxy_auth_into_invite(raw_invite: &str, auth_value: &str) -> (r: String)
    requires
        sip_builder::renewable(raw_invite@),
        forall|b: Seq<char>| sip_builder::is_fresh_branch(b) ==> #[trigger] takes_credentials(raw_invite@, b),
    ensures
        exists|b: Seq<char>|
            sip_builder::is_fresh_branch(b) && r@ == #[trigger] authorized_text(raw_invite@, auth_value@, b),
{
    let branch = new_branch();
    inject_proxy_auth_into_invite_with(raw_invite, auth_value, branch.as_str())
}

// ── Lemmas ──────────────────────────────────────────────────────────────

/// The first line that does not begin with the prefix stays first.
proof fn lemma_unprefixed_first(ls: Seq<Seq<char>>, p: Seq<char>)
    requires
        ls.len() > 0,
        !text::starts_with_word(ls[0], p),
    ensures
        unprefixed(ls, p).len() > 0,
        unprefixed(ls, p)[0] == ls[0],
    decreases ls.len(),
{
    if ls.len() > 1 {
        lemma_unprefixed_first(ls.drop_last(), p);
    } else {
        assert(unprefixed(ls.drop_last(), p) =~= Seq::empty());
    }
}

/// The first line of the head of `a`, a line end and more is `a`.
proof fn lemma_head_first_line(a: Seq<char>, rest: Seq<char>)
    requires
        sip_laws::one_line(a),
    ensures
        text::lines(headers::head_of(a + text::crlf() + rest))[0] == a,
{
    let s = a + text::crlf() + rest;
    let p = text::crlf() + text::crlf();
    let n = a.len() as int;
    let e = headers::head_end(s);
    text::lemma_find_str(s, p, 0);
    assert forall|k: int| 0 <= k < n implies !text::occurs_at(s, p, k) by {
        if text::occurs_at(s, p, k) {
            let w = s.subrange(k, k + 4);
            assert(w[0] == p[0] && w[1] == p[1]);
            if k + 1 < n {
                sip_laws::lemma_crlf_at(a, k);
            }
        }
    }
    assert(e >= n);
    assert(e != n + 1) by {
        if e == n + 1 && e < s.len() {
            assert(s.subrange(e, e + 4)[0] == p[0]);
        }
    }
    let h = headers::head_of(s);
    if e == n {
        assert(h =~= a);
        text::lemma_find_str(a, text::crlf(), 0);
        let at = text::find_str(a, text::crlf(), 0);
        if at < a.len() {
            assert(text::occurs_at(a, text::crlf(), at));
        }
    } else {
        let more = h.skip(n + 2);
        assert(h =~= a + text::crlf() + more);
        sip_laws::lemma_lines_cons(a, more);
    }
}

/// A new transaction keeps the request line first.
proof fn lemma_renewed_first_line(raw: Seq<char>, b: Seq<char>)
    ensures
        text::lines(headers::head_of(sip_builder::renewed_text(raw, b)))[0] == text::lines(headers::head_of(raw))[0],
        text::lines(headers::head_of(sip_builder::renewed_text(raw, b))).len() > 0,
{
    let ls = text::lines(headers::head_of(raw));
    sip_laws::lemma_lines_are_lines(headers::head_of(raw));
    sip_laws::lemma_lines_are_lines(headers::head_of(sip_builder::renewed_text(raw, b)));
    let l = ls[0];
    let t = sip_builder::renewed_lines(ls.skip(1), false, b);
    let v = seq![l] + t;
    renewal::lemma_join_is_block(v);
    raw_message::lemma_block_cons(l, t);
    let rest = raw_message::lines_block(t) + text::crlf() + headers::body_of(raw);
    assert(sip_builder::renewed_text(raw, b) =~= l + text::crlf() + rest);
    lemma_head_first_line(l, rest);
}

// ── Laws ────────────────────────────────────────────────────────────────

/// Every INVITE takes credentials, under any branch.
pub proof fn law_invite_takes_credentials(raw: Seq<char>, b: Seq<char>)
    requires
        text::starts_with_word(text::lines(headers::head_of(raw))[0], "invite "@),
    ensures
        takes_credentials(raw, b),
{
    reveal_strlit("invite ");
    reveal_strlit("proxy-authorization:");
    lemma_prefix_differs(text::lines(headers::head_of(raw))[0], "invite "@, "proxy-authorization:"@);
    lemma_renewed_first_line(raw, b);
    lemma_unprefixed_first(text::lines(headers::head_of(sip_builder::renewed_text(raw, b))), "proxy-authorization:"@);
}

/// How many lines begin with a prefix.
pub open spec fn prefixed_count(ls: Seq<Seq<char>>, p: Seq<char>) -> nat
    decreases ls.len(),
{
    if ls.len() == 0 {
        0
    } else {
        prefixed_count(ls.drop_last(), p) + (if text::starts_with_word(ls.last(), p) {
            1nat
        } else {
            0
        })
    }
}

proof fn lemma_unprefixed_count(ls: Seq<Seq<char>>, p: Seq<char>)
    ensures
        prefixed_count(unprefixed(ls, p), p) == 0,
    decreases ls.len(),
{
    if ls.len() > 0 {
        lemma_unprefixed_count(ls.drop_last(), p);
        let w = unprefixed(ls.drop_last(), p);
        assert(w.push(ls.last()).drop_last() =~= w);
    }
}

proof fn lemma_insert_count(ls: Seq<Seq<char>>, at: int, l: Seq<char>, p: Seq<char>)
    requires
        0 <= at <= ls.len(),
    ensures
        prefixed_count(ls.insert(at, l), p) == prefixed_count(ls, p) + (if text::starts_with_word(l, p) {
            1nat
        } else {
            0
        }),
    decreases ls.len(),
{
    let n = ls.insert(at, l);
    if at == ls.len() {
        assert(n.drop_last() =~= ls);
    } else {
        assert(n.drop_last() =~= ls.drop_last().insert(at, l));
        assert(n.last() == ls.last());
        lemma_insert_count(ls.drop_last(), at, l, p);
    }
}

proof fn lemma_unprefixed_lines(ls: Seq<Seq<char>>, p: Seq<char>)
    requires
        forall|i: int| 0 <= i < ls.len() ==> sip_laws::one_line(#[trigger] ls[i]) && ls[i].len() > 0,
    ensures
        forall|i: int|
            0 <= i < unprefixed(ls, p).len() ==> sip_laws::one_line(#[trigger] unprefixed(ls, p)[i])
                && unprefixed(ls, p)[i].len() > 0,
    decreases ls.len(),
{
    if ls.len() > 0 {
        let d = ls.drop_last();
        assert forall|i: int| 0 <= i < d.len() implies sip_laws::one_line(#[trigger] d[i]) && d[i].len()
            > 0 by {
            assert(d[i] == ls[i]);
        }
        lemma_unprefixed_lines(d, p);
        assert(sip_laws::one_line(ls[ls.len() - 1]));
        let w = unprefixed(d, p);
        let v = unprefixed(ls, p);
        assert forall|i: int| 0 <= i < v.len() implies sip_laws::one_line(#[trigger] v[i]) && v[i].len()
            > 0 by {
            if i < w.len() {
                assert(v[i] == w[i]);
            } else {
                assert(v[i] == ls[ls.len() - 1]);
            }
        }
    }
}

proof fn lemma_credentials_index(ls: Seq<Seq<char>>)
    ensures
        0 <= credentials_index(ls) <= ls.len(),
    decreases ls.len(),
{
    if ls.len() > 0 && !after_vias(ls[0]) {
        lemma_credentials_index(ls.skip(1));
    }
}

/// An INVITE with credentials is a new transaction of the stored one that
/// keeps its request line and its body and carries exactly one set of
/// credentials, however many it had before.
pub proof fn law_credentials_are_the_only_ones(raw: Seq<char>, auth: Seq<char>, b: Seq<char>)
    requires
        headers::head_end(raw) < raw.len(),
        headers::start_line(raw).len() > 0,
        text::starts_with_word(headers::start_line(raw), "invite "@),
        sip_builder::is_fresh_branch(b),
        sip_laws::one_line(auth),
        auth.len() > 0 ==> auth[0] != '\n',
    ensures
        ({
            let m = raw_message::raw_parts(authorized_text(raw, auth, b));
            &&& m.start == headers::start_line(raw)
            &&& m.body == headers::body_of(raw)
            &&& prefixed_count(m.headers, "proxy-authorization:"@) == 1
        }),
{
    renewal::law_renewal_keeps_the_rest(raw, b);
    let renewed = sip_builder::renewed_text(raw, b);
    let rm = raw_message::raw_parts(renewed);
    renewal::lemma_renewal_written(raw, b);
    renewal::lemma_head_lines(renewed);
    let ls = seq![rm.start] + rm.headers;
    lemma_authorized_lines(rm.start, rm.headers, auth);
    let all = authorized_lines(ls, auth);
    let hs = all.skip(1);
    let m = RawView { start: rm.start, headers: hs, body: headers::body_of(raw) };
    renewal::lemma_join_is_block(all);
    raw_message::lemma_block_cons(rm.start, hs);
    assert(authorized_text(raw, auth, b) =~= raw_message::raw_text(m));
    raw_message::law_raw_message_reads_back(m);
}

/// Credentials among lines: the request line stays first, and there is one
/// line of credentials.
proof fn lemma_authorized_lines(start: Seq<char>, headers: Seq<Seq<char>>, auth: Seq<char>)
    requires
        sip_laws::one_line(start),
        start.len() > 0,
        text::starts_with_word(start, "invite "@),
        forall|i: int| 0 <= i < headers.len() ==> sip_laws::one_line(#[trigger] headers[i]) && headers[i].len() > 0,
        sip_laws::one_line(auth),
        auth.len() > 0 ==> auth[0] != '\n',
    ensures
        ({
            let all = authorized_lines(seq![start] + headers, auth);
            let hs = all.skip(1);
            &&& all == seq![start] + hs
            &&& forall|i: int| 0 <= i < hs.len() ==> sip_laws::one_line(#[trigger] hs[i]) && hs[i].len() > 0
            &&& prefixed_count(hs, "proxy-authorization:"@) == 1
        }),
{
    let p = "proxy-authorization:"@;
    let line = "Proxy-Authorization: "@ + auth;
    let ls = seq![start] + headers;
    reveal_strlit("invite ");
    reveal_strlit("proxy-authorization:");
    reveal_strlit("Proxy-Authorization: ");
    lemma_prefix_differs(start, "invite "@, p);
    lemma_unprefixed_first(ls, p);
    let kept = unprefixed(ls, p);
    assert forall|i: int| 0 <= i < ls.len() implies sip_laws::one_line(#[trigger] ls[i]) && ls[i].len()
        > 0 by {
        if i > 0 {
            assert(ls[i] == headers[i - 1]);
        }
    }
    lemma_unprefixed_lines(ls, p);
    lemma_credentials_index(kept);
    lemma_credentials_index(kept.skip(1));
    let at = if credentials_index(kept) < kept.len() {
        credentials_index(kept)
    } else {
        1
    };
    assert(!after_vias(kept[0]));
    assert(at >= 1);
    let all = kept.insert(at, line);
    assert(all == authorized_lines(ls, auth));
    let hs = all.skip(1);
    assert(all =~= seq![start] + hs);
    sip_laws::lemma_no_lf_is_line("Proxy-Authorization: "@);
    sip_laws::lemma_joined_is_line("Proxy-Authorization: "@, auth);
    assert forall|i: int| 0 <= i < hs.len() implies sip_laws::one_line(#[trigger] hs[i]) && hs[i].len()
        > 0 by {
        let k = i + 1;
        if k == at {
            assert(hs[i] == line);
        } else if k < at {
            assert(hs[i] == kept[k]);
        } else {
            assert(hs[i] == kept[k - 1]);
        }
    }
    lemma_unprefixed_count(ls, p);
    lemma_insert_count(kept, at, line, p);
    assert(text::starts_with_word(line, p)) by {
        assert(text::lower(line.take(p.len() as int)) =~= text::lower(p));
    }
    lemma_count_cons(start, hs, p);
}

proof fn lemma_count_cons(l: Seq<char>, ls: Seq<Seq<char>>, p: Seq<char>)
    ensures
        prefixed_count(seq![l] + ls, p) == prefixed_count(ls, p) + (if text::starts_with_word(l, p) {
            1nat
        } else {
            0
        }),
{
    lemma_insert_count(ls, 0, l, p);
    assert(ls.insert(0, l) =~= seq![l] + ls);
}

/// Two prefixes that differ in their first letter do not both fit.
proof fn lemma_prefix_differs(s: Seq<char>, a: Seq<char>, b: Seq<char>)
    requires
        text::starts_with_word(s, a),
        a.len() > 0,
        b.len() > 0,
        text::lower_char(a[0]) != text::lower_char(b[0]),
    ensures
        !text::starts_with_word(s, b),
{
    if text::starts_with_word(s, b) {
        assert(text::lower(s.take(a.len() as int))[0] == text::lower(a)[0]);
        assert(text::lower(s.take(b.len() as int))[0] == text::lower(b)[0]);
    }
}

} // verus!
