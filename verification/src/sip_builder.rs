//! SIP requests that the border controller originates: BYE, CANCEL, ACK and
//! the session refresh re-INVITE.
//!
//! Requests are built from the real dialog identity, so that tags, Call-ID
//! and CSeq match what the peer expects. Header order is Via, Max-Forwards,
//! From, To, Call-ID, CSeq, extras, Content-Length last.

use crate::headers::{MessageWriter, cseq_number_of, header_lines_of, values_of};
use crate::headers;
use crate::identity::lower_string;
use crate::text::{chars_of, decimal_of, has_prefix_word, is_exactly, is_space_char, parse_u32, position_of_any, position_of_str, position_of_word, split_lines, split_on, split_tokens, string_of, trimmed, word_len};
use crate::text;
use vstd::prelude::*;
use vstd::slice::slice_subrange;


verus! {

/// Dialog identity for one leg, as the peer knows it.
#[derive(Debug, Clone)]
pub struct DialogInfo {
    /// Call-ID of this leg.
    pub call_id: String,
    /// Full `From` value, exactly as established.
    pub from_raw: String,
    /// Full `To` value with the peer's tag.
    pub to_raw: String,
    /// Request-URI: the peer's remote target.
    pub request_uri: String,
    /// CSeq number to use for the request.
    pub cseq: u32,
    /// Address for the Via header.
    pub local_ip: String,
    /// Port for the Via header.
    pub local_port: u16,
    /// Via transport token: "UDP", "TCP", "TLS", "WS", "WSS".
    pub transport: String,
}

// ── Upper case ──────────────────────────────────────────────────────────

/// Unicode upper case of a text that is not all ASCII.
pub uninterp spec fn unicode_uppercase(s: Seq<char>) -> Seq<char>;

pub open spec fn upper_char(c: char) -> char {
    if 'a' <= c <= 'z' {
        ((c as u32 - 32) as u32) as char
    } else {
        c
    }
}

/// Upper case of a text.
pub open spec fn upper(s: Seq<char>) -> Seq<char> {
    if vstd::utf8::is_ascii_chars(s) {
        s.map_values(|c: char| upper_char(c))
    } else {
        unicode_uppercase(s)
    }
}

/// Calls `str::to_uppercase`: on ASCII text the letters `a` to `z` become `A`
/// to `Z` and nothing else changes; on other text the result follows from the
/// text alone and is named.
#[verifier::external_body]
pub(crate) fn to_uppercase(s: &str) -> (r: String)
    ensures
        vstd::utf8::is_ascii_chars(s@) ==> r@ == s@.map_values(|c: char| upper_char(c)),
        !vstd::utf8::is_ascii_chars(s@) ==> r@ == unicode_uppercase(s@),
{
    s.to_uppercase()
}

// ── Branch parameter ────────────────────────────────────────────────────

pub open spec fn hex_digit(n: int) -> char {
    if n < 10 {
        (('0' as u32 + n) as u32) as char
    } else {
        (('a' as u32 + n - 10) as u32) as char
    }
}

/// Two lower case hexadecimal digits for each byte.
pub open spec fn hex(bytes: Seq<u8>) -> Seq<char>
    decreases bytes.len(),
{
    if bytes.len() == 0 {
        Seq::empty()
    } else {
        hex(bytes.drop_last()).push(hex_digit(bytes.last() as int / 16)).push(
            hex_digit(bytes.last() as int % 16),
        )
    }
}

/// The branch parameter made of the magic cookie and the given bytes.
pub open spec fn branch_text(bytes: Seq<u8>) -> Seq<char> {
    "z9hG4bK"@ + hex(bytes)
}

/// A branch parameter as `new_branch` makes them.
pub open spec fn is_fresh_branch(b: Seq<char>) -> bool {
    exists|bytes: Seq<u8>| #![trigger branch_text(bytes)] bytes.len() == 8 && b == branch_text(bytes)
}

/// Calls `rand::Rng::gen` on `rand::thread_rng()`: eight random bytes, of
/// which nothing else is known.
#[verifier::external_body]
fn random_bytes() -> (r: [u8; 8]) {
    rand::Rng::gen(&mut rand::thread_rng())
}

pub fn hex_char(n: u8) -> (r: char)
    requires
        n < 16,
    ensures
        r == hex_digit(n as int),
{
    if n < 10 {
        (('0' as u8) + n) as char
    } else {
        (('a' as u8) + (n - 10)) as char
    }
}

/// The branch parameter made of the magic cookie and `bytes`.
pub fn branch_from_bytes(bytes: &[u8; 8]) -> (r: String)
    ensures
        r@ == branch_text(bytes@),
{
    let mut out = "z9hG4bK".to_string();
    let mut i: usize = 0;
    assert(bytes@.take(0) =~= Seq::empty());
    assert(out@ =~= "z9hG4bK"@ + hex(bytes@.take(0)));
    while i < 8
        invariant
            i <= 8,
            bytes@.len() == 8,
            out@ == "z9hG4bK"@ + hex(bytes@.take(i as int)),
        decreases 8 - i,
    {
        let b: u8 = bytes[i];
        assert(bytes@.take(i + 1).drop_last() =~= bytes@.take(i as int));
        out.push(hex_char(b / 16));
        out.push(hex_char(b % 16));
        assert(out@ =~= "z9hG4bK"@ + hex(bytes@.take(i + 1)));
        i = i + 1;
    }
    assert(bytes@.take(8) =~= bytes@);
    out
}

/// Fresh branch parameter: the magic cookie and sixteen random hexadecimal
/// digits.
pub fn new_branch() -> (r: String)
    ensures
        is_fresh_branch(r@),
{
    let bytes = random_bytes();
    let r = branch_from_bytes(&bytes);
    assert(r@ == branch_text(bytes@) && bytes@.len() == 8);
    r
}

// ── In-dialog requests ──────────────────────────────────────────────────

/// The start line of a request.
pub open spec fn request_line(method: Seq<char>, uri: Seq<char>) -> Seq<char> {
    method + " "@ + uri + " "@ + "SIP/2.0"@
}

/// The Via value of a request that the dialog `d` sends.
pub open spec fn via_value(d: DialogInfo, branch: Seq<char>) -> Seq<char> {
    "SIP/2.0/"@ + upper(d.transport@) + " "@ + d.local_ip@ + ":"@ + text::decimal(d.local_port as nat)
        + ";branch="@ + branch + ";rport"@
}

/// The headers of a request in the dialog `d`.
pub open spec fn request_pairs(
    method: Seq<char>,
    d: DialogInfo,
    cseq: nat,
    branch: Seq<char>,
    extras: Seq<(Seq<char>, Seq<char>)>,
    body: Seq<char>,
) -> Seq<(Seq<char>, Seq<char>)> {
    seq![
        ("Via"@, via_value(d, branch)),
        ("Max-Forwards"@, "70"@),
        ("From"@, d.from_raw@),
        ("To"@, d.to_raw@),
        ("Call-ID"@, d.call_id@),
        ("CSeq"@, text::decimal(cseq) + " "@ + method),
    ] + extras + seq![("Content-Length"@, text::decimal(vstd::utf8::encode_utf8(body).len()))]
}

/// A request in the dialog `d`, with the given branch, CSeq number, extra
/// headers and body.
pub open spec fn request_text(
    method: Seq<char>,
    d: DialogInfo,
    cseq: nat,
    branch: Seq<char>,
    extras: Seq<(Seq<char>, Seq<char>)>,
    body: Seq<char>,
) -> Seq<char> {
    headers::message_text(
        request_line(method, d.request_uri@),
        request_pairs(method, d, cseq, branch, extras, body),
        body,
    )
}

/// The characters behind name and value pairs.
pub open spec fn pair_views(v: Seq<(&str, &str)>) -> Seq<(Seq<char>, Seq<char>)> {
    v.map_values(|p: (&str, &str)| (p.0@, p.1@))
}

/// The start line of a request.
pub fn write_request_line(method: &str, uri: &str) -> (r: String)
    ensures
        r@ == request_line(method@, uri@),
{
    let mut line = String::new();
    line.push_str(method);
    line.push_str(" ");
    line.push_str(uri);
    line.push_str(" ");
    line.push_str("SIP/2.0");
    assert(line@ =~= request_line(method@, uri@));
    line
}

fn write_via(d: &DialogInfo, branch: &str) -> (r: String)
    ensures
        r@ == via_value(*d, branch@),
{
    let mut v = String::new();
    v.push_str("SIP/2.0/");
    v.push_str(to_uppercase(d.transport.as_str()).as_str());
    v.push_str(" ");
    v.push_str(d.local_ip.as_str());
    v.push_str(":");
    v.push_str(decimal_of(d.local_port as u64).as_str());
    v.push_str(";branch=");
    v.push_str(branch);
    v.push_str(";rport");
    assert(v@ =~= via_value(*d, branch@));
    v
}

/// Number, space, method.
fn write_cseq(cseq: u32, method: &str) -> (r: String)
    ensures
        r@ == text::decimal(cseq as nat) + " "@ + method@,
{
    let mut v = decimal_of(cseq as u64);
    v.push_str(" ");
    v.push_str(method);
    v
}

/// A request in the dialog `d` under the branch parameter `branch`.
pub fn build_request(
    method: &str,
    d: &DialogInfo,
    cseq: u32,
    branch: &str,
    extra_headers: &Vec<(&str, &str)>,
    body: &str,
) -> (r: String)
    ensures
        r@ == request_text(
            method@,
            *d,
            cseq as nat,
            branch@,
            pair_views(extra_headers@),
            body@,
        ),
{
    let mut msg = MessageWriter::new(write_request_line(method, d.request_uri.as_str()));
    msg.header("Via", write_via(d, branch).as_str());
    msg.header("Max-Forwards", "70");
    msg.header("From", d.from_raw.as_str());
    msg.header("To", d.to_raw.as_str());
    msg.header("Call-ID", d.call_id.as_str());
    msg.header("CSeq", write_cseq(cseq, method).as_str());
    let ghost head = msg.pairs();
    let ghost pairs = pair_views(extra_headers@);
    let ghost start = msg.start();
    let mut i: usize = 0;
    assert(head + pairs.take(0) =~= head);
    while i < extra_headers.len()
        invariant
            i <= extra_headers@.len(),
            pairs == pair_views(extra_headers@),
            msg.wf(),
            msg.start() == start,
            msg.pairs() == head + pairs.take(i as int),
        decreases extra_headers@.len() - i,
    {
        let (name, value) = extra_headers[i];
        msg.header(name, value);
        assert(msg.pairs() =~= head + pairs.take(i + 1));
        i = i + 1;
    }
    assert(pairs.take(pairs.len() as int) =~= pairs);
    msg.header("Content-Length", decimal_of(body.as_bytes().len() as u64).as_str());
    assert(msg.pairs() =~= request_pairs(method@, *d, cseq as nat, branch@, pairs, body@));
    msg.finish(body)
}

/// The extra headers of a BYE: a `Reason` when one is given.
pub open spec fn reason_extras(reason: Option<Seq<char>>) -> Seq<(Seq<char>, Seq<char>)> {
    match reason {
        Some(r) => seq![("Reason"@, r)],
        None => Seq::empty(),
    }
}

/// In-dialog BYE under a given branch. `reason` becomes a `Reason:` header.
pub fn build_bye_with(d: &DialogInfo, reason: Option<&str>, branch: &str) -> (r: String)
    ensures
        r@ == request_text(
            "BYE"@,
            *d,
            d.cseq as nat,
            branch@,
            reason_extras(text::opt_str(reason)),
            Seq::empty(),
        ),
{
    let mut extras: Vec<(&str, &str)> = Vec::new();
    if let Some(r) = reason {
        extras.push(("Reason", r));
    }
    proof {
        reveal_strlit("");
        assert(""@ =~= Seq::empty());
        assert(pair_views(extras@) =~= reason_extras(text::opt_str(reason)));
    }
    build_request("BYE", d, d.cseq, branch, &extras, "")
}

/// In-dialog BYE. `reason` becomes a `Reason:` header, such as
/// `Q.850;cause=16;text="Call duration exceeded"`.
pub fn build_bye(d: &DialogInfo, reason: Option<&str>) -> (r: String)
    ensures
        exists|b: Seq<char>|
            is_fresh_branch(b) && r@ == #[trigger] request_text(
                "BYE"@,
                *d,
                d.cseq as nat,
                b,
                reason_extras(text::opt_str(reason)),
                Seq::empty(),
            ),
{
    let branch = new_branch();
    build_bye_with(d, reason, branch.as_str())
}

/// ACK for a 2xx under a given branch.
pub fn build_ack_for_2xx_with(d: &DialogInfo, invite_cseq: u32, branch: &str) -> (r: String)
    ensures
        r@ == request_text(
            "ACK"@,
            *d,
            invite_cseq as nat,
            branch@,
            Seq::empty(),
            Seq::empty(),
        ),
{
    let extras: Vec<(&str, &str)> = Vec::new();
    proof {
        reveal_strlit("");
        assert(""@ =~= Seq::empty());
        assert(pair_views(extras@) =~= Seq::empty());
    }
    build_request("ACK", d, invite_cseq, branch, &extras, "")
}

/// ACK for a 2xx response: its own transaction with a fresh branch, and the
/// CSeq number of the INVITE that it acknowledges.
pub fn build_ack_for_2xx(d: &DialogInfo, invite_cseq: u32) -> (r: String)
    ensures
        exists|b: Seq<char>|
            is_fresh_branch(b) && r@ == #[trigger] request_text(
                "ACK"@,
                *d,
                invite_cseq as nat,
                b,
                Seq::empty(),
                Seq::empty(),
            ),
{
    let branch = new_branch();
    build_ack_for_2xx_with(d, invite_cseq, branch.as_str())
}

/// The extra headers of a session refresh.
pub open spec fn refresh_extras(
    contact: Seq<char>,
    session_expires: Option<(u32, &str)>,
    min_se: Option<u32>,
) -> Seq<(Seq<char>, Seq<char>)> {
    seq![("Contact"@, contact), ("Supported"@, "timer"@)] + (match session_expires {
        Some((n, who)) => seq![
            ("Session-Expires"@, text::decimal(n as nat) + ";refresher="@ + who@),
        ],
        None => Seq::empty(),
    }) + (match min_se {
        Some(n) => seq![("Min-SE"@, text::decimal(n as nat))],
        None => Seq::empty(),
    }) + seq![("Content-Type"@, "application/sdp"@)]
}

/// Session refresh re-INVITE under a given branch.
pub fn build_reinvite_with(
    d: &DialogInfo,
    sdp: &str,
    contact_uri: &str,
    session_expires: Option<(u32, &str)>,
    min_se: Option<u32>,
    branch: &str,
) -> (r: String)
    ensures
        r@ == request_text(
            "INVITE"@,
            *d,
            d.cseq as nat,
            branch@,
            refresh_extras(contact_uri@, session_expires, min_se),
            sdp@,
        ),
{
    let mut se_value = String::new();
    let mut min_se_value = String::new();
    if let Some((interval, refresher)) = session_expires {
        se_value = decimal_of(interval as u64);
        se_value.push_str(";refresher=");
        se_value.push_str(refresher);
    }
    if let Some(min) = min_se {
        min_se_value = decimal_of(min as u64);
    }
    let mut extras: Vec<(&str, &str)> = Vec::new();
    extras.push(("Contact", contact_uri));
    extras.push(("Supported", "timer"));
    if session_expires.is_some() {
        extras.push(("Session-Expires", se_value.as_str()));
    }
    if min_se.is_some() {
        extras.push(("Min-SE", min_se_value.as_str()));
    }
    extras.push(("Content-Type", "application/sdp"));
    assert(pair_views(extras@) =~= refresh_extras(contact_uri@, session_expires, min_se));
    build_request("INVITE", d, d.cseq, branch, &extras, sdp)
}

/// Session refresh re-INVITE with unchanged SDP. `session_expires` is the
/// interval and the refresher, e.g. `(1800, "uac")`; `min_se` is sent as
/// `Min-SE`: once a peer raised it, later requests in the dialog carry it.
pub fn build_reinvite(
    d: &DialogInfo,
    sdp: &str,
    contact_uri: &str,
    session_expires: Option<(u32, &str)>,
    min_se: Option<u32>,
) -> (r: String)
    ensures
        exists|b: Seq<char>|
            is_fresh_branch(b) && r@ == #[trigger] request_text(
                "INVITE"@,
                *d,
                d.cseq as nat,
                b,
                refresh_extras(contact_uri@, session_expires, min_se),
                sdp@,
            ),
{
    let branch = new_branch();
    build_reinvite_with(d, sdp, contact_uri, session_expires, min_se, branch.as_str())
}

// ── Identity of an INVITE ───────────────────────────────────────────────

/// Identity of a raw INVITE: everything that a CANCEL or a non-2xx ACK must
/// copy verbatim to match the peer's transaction.
#[derive(Debug, Clone)]
pub struct InviteIdentity {
    pub request_uri: String,
    /// Top Via value (after `Via:`), branch included.
    pub top_via: String,
    pub from: String,
    pub to: String,
    pub call_id: String,
    pub cseq: u32,
    /// Route header values, in order (an ACK for a non-2xx copies them).
    pub routes: Vec<String>,
}

/// What an `InviteIdentity` holds.
#[verifier::ext_equal]
pub struct IdentityView {
    pub request_uri: Seq<char>,
    pub top_via: Seq<char>,
    pub from: Seq<char>,
    pub to: Seq<char>,
    pub call_id: Seq<char>,
    pub cseq: nat,
    pub routes: Seq<Seq<char>>,
}

impl View for InviteIdentity {
    type V = IdentityView;

    open spec fn view(&self) -> IdentityView {
        IdentityView {
            request_uri: self.request_uri@,
            top_via: self.top_via@,
            from: self.from@,
            to: self.to@,
            call_id: self.call_id@,
            cseq: self.cseq as nat,
            routes: text::string_views(self.routes@),
        }
    }
}

/// Identity of a raw request with the given method: the first Via, the last
/// From, To, Call-ID and CSeq, and all Routes. None when the method is
/// another or a mandatory header is missing.
pub open spec fn request_identity(raw: Seq<char>, method: Seq<char>) -> Option<IdentityView> {
    let words = text::split_char(headers::start_line(raw), ' ');
    let hs = headers::header_lines(raw);
    let via = headers::header_values(hs, "via"@, "v"@);
    let from = headers::header_values(hs, "from"@, "f"@);
    let to = headers::header_values(hs, "to"@, "t"@);
    let call_id = headers::header_values(hs, "call-id"@, "i"@);
    let cseq = headers::header_values(hs, "cseq"@, "cseq"@);
    if words[0] == method && words.len() >= 2 && via.len() > 0 && from.len() > 0 && to.len() > 0
        && call_id.len() > 0 && cseq.len() > 0 && headers::cseq_number(cseq.last()) is Some {
        Some(
            IdentityView {
                request_uri: words[1],
                top_via: via[0],
                from: from.last(),
                to: to.last(),
                call_id: call_id.last(),
                cseq: headers::cseq_number(cseq.last())->0,
                routes: headers::header_values(hs, "route"@, "route"@),
            },
        )
    } else {
        None
    }
}

pub open spec fn invite_identity(raw: Seq<char>) -> Option<IdentityView> {
    request_identity(raw, "INVITE"@)
}

fn owned_all(v: &Vec<&[char]>) -> (r: Vec<String>)
    ensures
        text::string_views(r@) == text::views(v@),
{
    let mut out: Vec<String> = Vec::new();
    let mut i: usize = 0;
    while i < v.len()
        invariant
            i <= v@.len(),
            text::string_views(out@) == text::views(v@).take(i as int),
        decreases v@.len() - i,
    {
        let ghost before = out@;
        let s = string_of(v[i]);
        out.push(s);
        assert(text::string_views(out@) =~= text::string_views(before).push(s@));
        assert(text::views(v@).take(i + 1) =~= text::views(v@).take(i as int).push(v@[i as int]@));
        i = i + 1;
    }
    assert(text::views(v@).take(v@.len() as int) =~= text::views(v@));
    out
}

/// Parse the identity fields out of a raw INVITE. None when the message is
/// not an INVITE or lacks a mandatory header.
pub fn parse_invite_identity(raw_invite: &str) -> (r: Option<InviteIdentity>)
    ensures
        match r {
            Some(id) => invite_identity(raw_invite@) == Some(id@),
            None => invite_identity(raw_invite@) is None,
        },
{
    let raw = chars_of(raw_invite);
    let ls = split_lines(raw.as_slice());
    assert(text::views(ls@)[0] == ls@[0]@);
    let words = split_on(ls[0], ' ');
    assert(text::views(words@)[0] == words@[0]@);
    if !is_exactly(words[0], "INVITE") {
        return None;
    }
    let hs = header_lines_of(&ls);
    let via = values_of(&hs, "via", "v");
    let from = values_of(&hs, "from", "f");
    let to = values_of(&hs, "to", "t");
    let call_id = values_of(&hs, "call-id", "i");
    let cseq = values_of(&hs, "cseq", "cseq");
    let routes = values_of(&hs, "route", "route");
    if words.len() < 2 || via.len() == 0 || from.len() == 0 || to.len() == 0 || call_id.len() == 0
        || cseq.len() == 0 {
        return None;
    }
    assert(text::views(words@)[1] == words@[1]@);
    assert(text::views(via@)[0] == via@[0]@);
    assert(text::views(from@).last() == from@.last()@);
    assert(text::views(to@).last() == to@.last()@);
    assert(text::views(call_id@).last() == call_id@.last()@);
    assert(text::views(cseq@).last() == cseq@.last()@);
    match cseq_number_of(cseq[cseq.len() - 1]) {
        Some(n) => Some(
            InviteIdentity {
                request_uri: string_of(words[1]),
                top_via: string_of(via[0]),
                from: string_of(from[from.len() - 1]),
                to: string_of(to[to.len() - 1]),
                call_id: string_of(call_id[call_id.len() - 1]),
                cseq: n,
                routes: owned_all(&routes),
            },
        ),
        None => None,
    }
}

// ── Via branch ──────────────────────────────────────────────────────────

/// First position at or after `from` of a semicolon, a comma or white space.
pub open spec fn param_end(s: Seq<char>, from: int) -> int
    decreases s.len() - from,
{
    if from >= s.len() {
        s.len() as int
    } else if s[from] == ';' || s[from] == ',' || text::is_space(s[from]) {
        from
    } else {
        param_end(s, from + 1)
    }
}

/// Where the `branch` parameter of a Via is named, in any case; the length
/// where it is not.
pub open spec fn branch_at(via: Seq<char>) -> int {
    text::find_str(text::lower(via), "branch="@, 0)
}

/// The `branch` parameter of a Via value, its name in any case, when it has
/// one that is not empty.
pub open spec fn via_branch_param(via: Seq<char>) -> Option<Seq<char>> {
    let p = branch_at(via);
    let start = p + "branch="@.len();
    if p < via.len() && param_end(via, start) > start {
        Some(via.subrange(start, param_end(via, start)))
    } else {
        None
    }
}

/// The branch parameter of the first Via of a message.
pub open spec fn top_branch(raw: Seq<char>) -> Option<Seq<char>> {
    let via = headers::header_values(headers::header_lines(raw), "via"@, "v"@);
    if via.len() > 0 {
        via_branch_param(via[0])
    } else {
        None
    }
}

/// Where the `branch` parameter of a Via is named.
pub fn branch_position(via: &[char]) -> (r: usize)
    ensures
        r == branch_at(via@),
        r <= via@.len(),
        r < via@.len() ==> r + "branch="@.len() <= via@.len(),
{
    let low_text = lower_string(via);
    let low = chars_of(low_text.as_str());
    assert(low@.len() == via@.len());
    position_of_word(low.as_slice(), "branch=", 0)
}

/// The branch parameter of a Via value.
pub fn branch_param_of<'a>(value: &'a [char]) -> (r: Option<&'a [char]>)
    ensures
        match r {
            Some(b) => via_branch_param(value@) == Some(b@),
            None => via_branch_param(value@) is None,
        },
{
    let p: usize = branch_position(value);
    if p == value.len() {
        return None;
    }
    let start: usize = p + word_len("branch=");
    let mut end: usize = start;
    while end < value.len() && value[end] != ';' && value[end] != ',' && !is_space_char(value[end])
        invariant
            start <= end <= value@.len(),
            param_end(value@, start as int) == param_end(value@, end as int),
        decreases value@.len() - end,
    {
        end = end + 1;
    }
    if end > start {
        Some(slice_subrange(value, start, end))
    } else {
        None
    }
}

/// Branch parameter of the first Via of a raw request or response.
pub fn top_via_branch(raw: &str) -> (r: Option<String>)
    ensures
        match r {
            Some(b) => top_branch(raw@) == Some(b@),
            None => top_branch(raw@) is None,
        },
{
    let t = chars_of(raw);
    let ls = split_lines(t.as_slice());
    let hs = header_lines_of(&ls);
    let via = values_of(&hs, "via", "v");
    if via.len() == 0 {
        return None;
    }
    assert(text::views(via@)[0] == via@[0]@);
    match branch_param_of(via[0]) {
        Some(b) => Some(string_of(b)),
        None => None,
    }
}

// ── CANCEL and ACK from the INVITE ──────────────────────────────────────

/// The headers of the CANCEL for an INVITE.
pub open spec fn cancel_pairs(id: IdentityView) -> Seq<(Seq<char>, Seq<char>)> {
    seq![
        ("Via"@, id.top_via),
        ("Max-Forwards"@, "70"@),
        ("From"@, id.from),
        ("To"@, id.to),
        ("Call-ID"@, id.call_id),
        ("CSeq"@, text::decimal(id.cseq) + " "@ + "CANCEL"@),
        ("Content-Length"@, "0"@),
    ]
}

/// CANCEL for the INVITE with the given identity.
pub open spec fn cancel_text(id: IdentityView) -> Seq<char> {
    headers::message_text(request_line("CANCEL"@, id.request_uri), cancel_pairs(id), Seq::empty())
}

/// CANCEL for a pending INVITE: same Request-URI, Via branch, From, To,
/// Call-ID and CSeq number as the INVITE, only the method differs.
pub fn build_cancel(original_invite_raw: &str) -> (r: Option<String>)
    ensures
        match r {
            Some(text) => invite_identity(original_invite_raw@) is Some && text@ == cancel_text(
                invite_identity(original_invite_raw@)->0,
            ),
            None => invite_identity(original_invite_raw@) is None,
        },
{
    match parse_invite_identity(original_invite_raw) {
        None => None,
        Some(id) => {
            let mut msg = MessageWriter::new(write_request_line("CANCEL", id.request_uri.as_str()));
            msg.header("Via", id.top_via.as_str());
            msg.header("Max-Forwards", "70");
            msg.header("From", id.from.as_str());
            msg.header("To", id.to.as_str());
            msg.header("Call-ID", id.call_id.as_str());
            msg.header("CSeq", write_cseq(id.cseq, "CANCEL").as_str());
            msg.header("Content-Length", "0");
            proof {
                reveal_strlit("");
                assert(""@ =~= Seq::empty());
                assert(msg.pairs() =~= cancel_pairs(id@));
            }
            Some(msg.finish(""))
        },
    }
}

/// A `Route` header for each value.
pub open spec fn route_pairs(routes: Seq<Seq<char>>) -> Seq<(Seq<char>, Seq<char>)> {
    routes.map_values(|r: Seq<char>| ("Route"@, r))
}

/// The headers of the ACK for a non-2xx final.
pub open spec fn ack_pairs(id: IdentityView, response_to: Seq<char>) -> Seq<
    (Seq<char>, Seq<char>),
> {
    seq![("Via"@, id.top_via), ("Max-Forwards"@, "70"@)] + route_pairs(id.routes) + seq![
        ("From"@, id.from),
        ("To"@, text::trim(response_to)),
        ("Call-ID"@, id.call_id),
        ("CSeq"@, text::decimal(id.cseq) + " "@ + "ACK"@),
        ("Content-Length"@, "0"@),
    ]
}

/// ACK for a non-2xx final of the INVITE with the given identity.
pub open spec fn ack_text(id: IdentityView, response_to: Seq<char>) -> Seq<char> {
    headers::message_text(request_line("ACK"@, id.request_uri), ack_pairs(id, response_to), Seq::empty())
}

/// ACK for a non-2xx final response: same Request-URI, top Via, From,
/// Call-ID, Route set and CSeq number as the INVITE; `To` copied from the
/// response, which carries the peer's tag.
pub fn build_ack_for_non_2xx(original_invite_raw: &str, response_to: &str) -> (r: Option<String>)
    ensures
        match r {
            Some(text) => invite_identity(original_invite_raw@) is Some && text@ == ack_text(
                invite_identity(original_invite_raw@)->0,
                response_to@,
            ),
            None => invite_identity(original_invite_raw@) is None,
        },
{
    match parse_invite_identity(original_invite_raw) {
        None => None,
        Some(id) => {
            let to_chars = chars_of(response_to);
            let to = string_of(trimmed(to_chars.as_slice()));
            let mut msg = MessageWriter::new(write_request_line("ACK", id.request_uri.as_str()));
            msg.header("Via", id.top_via.as_str());
            msg.header("Max-Forwards", "70");
            let ghost head = msg.pairs();
            let ghost start = msg.start();
            let ghost rs = route_pairs(id@.routes);
            let mut i: usize = 0;
            assert(head + rs.take(0) =~= head);
            while i < id.routes.len()
                invariant
                    i <= id.routes@.len(),
                    rs == route_pairs(id@.routes),
                    msg.wf(),
                    msg.start() == start,
                    msg.pairs() == head + rs.take(i as int),
                decreases id.routes@.len() - i,
            {
                msg.header("Route", id.routes[i].as_str());
                assert(msg.pairs() =~= head + rs.take(i + 1));
                i = i + 1;
            }
            assert(rs.take(rs.len() as int) =~= rs);
            msg.header("From", id.from.as_str());
            msg.header("To", to.as_str());
            msg.header("Call-ID", id.call_id.as_str());
            msg.header("CSeq", write_cseq(id.cseq, "ACK").as_str());
            msg.header("Content-Length", "0");
            proof {
                reveal_strlit("");
                assert(""@ =~= Seq::empty());
                assert(msg.pairs() =~= ack_pairs(id@, response_to@));
            }
            Some(msg.finish(""))
        },
    }
}

// ── New transaction for a stored INVITE ─────────────────────────────────

pub open spec fn is_via_line(l: Seq<char>) -> bool {
    text::starts_with_word(l, "via:"@) || text::starts_with_word(l, "v:"@)
}

/// The Via line with its branch parameter replaced, or added when it has none.
pub open spec fn with_branch(l: Seq<char>, branch: Seq<char>) -> Seq<char> {
    let p = branch_at(l);
    let start = p + "branch="@.len();
    if p < l.len() {
        l.take(start) + branch + l.skip(text::find_any(l, seq![';', ','], start))
    } else {
        l + ";branch="@ + branch
    }
}

/// The number of a `CSeq:` line that also has a method.
pub open spec fn cseq_line_number(l: Seq<char>) -> Option<nat> {
    let w = text::tokens(l.skip("cseq:"@.len() as int));
    if w.len() >= 2 {
        text::parse_uint(w[0], u32::MAX as nat)
    } else {
        None
    }
}

/// The `CSeq:` line with its number raised by one; a line without a number
/// and a method stays.
pub open spec fn with_next_cseq(l: Seq<char>) -> Seq<char> {
    match cseq_line_number(l) {
        Some(n) => "CSeq: "@ + text::decimal(n + 1) + " "@ + text::tokens(l.skip("cseq:"@.len() as int))[1],
        None => l,
    }
}

/// The header lines of the new transaction: the first Via line gets the
/// branch, every CSeq line the next number, the others stay.
pub open spec fn renewed_lines(ls: Seq<Seq<char>>, via_done: bool, branch: Seq<char>) -> Seq<
    Seq<char>,
>
    decreases ls.len(),
{
    if ls.len() == 0 {
        Seq::empty()
    } else if !via_done && is_via_line(ls[0]) {
        seq![with_branch(ls[0], branch)] + renewed_lines(ls.skip(1), true, branch)
    } else if text::starts_with_word(ls[0], "cseq:"@) {
        seq![with_next_cseq(ls[0])] + renewed_lines(ls.skip(1), via_done, branch)
    } else {
        seq![ls[0]] + renewed_lines(ls.skip(1), via_done, branch)
    }
}

/// The stored INVITE as a new transaction: only the header block changes.
pub open spec fn renewed_text(raw: Seq<char>, branch: Seq<char>) -> Seq<char> {
    let ls = text::lines(headers::head_of(raw));
    text::join_lines(seq![ls[0]] + renewed_lines(ls.skip(1), false, branch)) + text::crlf() + text::crlf() + headers::body_of(
        raw,
    )
}

/// No CSeq number of the header block is the largest one, which has no next.
pub open spec fn renewable(raw: Seq<char>) -> bool {
    forall|i: int|
        1 <= i < text::lines(headers::head_of(raw)).len() && text::starts_with_word(
            #[trigger] text::lines(headers::head_of(raw))[i],
            "cseq:"@,
        ) ==> cseq_line_number(text::lines(headers::head_of(raw))[i]) != Some(u32::MAX as nat)
}

/// Replace the branch parameter of a Via line, or add it.
pub fn put_branch(line: &[char], branch: &str) -> (r: String)
    ensures
        r@ == with_branch(line@, branch@),
{
    let p: usize = branch_position(line);
    if p < line.len() {
        let start: usize = p + word_len("branch=");
        let ends: [char; 2] = [';', ','];
        assert(ends@ =~= seq![';', ',']);
        let end: usize = position_of_any(line, &ends, start);
        let mut out = string_of(slice_subrange(line, 0, start));
        out.push_str(branch);
        out.push_str(string_of(slice_subrange(line, end, line.len())).as_str());
        assert(line@.subrange(0, start as int) =~= line@.take(start as int));
        assert(line@.subrange(end as int, line@.len() as int) =~= line@.skip(end as int));
        out
    } else {
        let mut out = string_of(line);
        out.push_str(";branch=");
        out.push_str(branch);
        out
    }
}

fn put_next_cseq(line: &[char]) -> (r: String)
    requires
        text::starts_with_word(line@, "cseq:"@),
        cseq_line_number(line@) != Some(u32::MAX as nat),
    ensures
        r@ == with_next_cseq(line@),
{
    let value = slice_subrange(line, word_len("cseq:"), line.len());
    assert(value@ =~= line@.skip("cseq:"@.len() as int));
    let words = split_tokens(value);
    if words.len() >= 2 {
        assert(text::views(words@)[0] == words@[0]@);
        assert(text::views(words@)[1] == words@[1]@);
        if let Some(n) = parse_u32(words[0]) {
            let mut out = "CSeq: ".to_string();
            out.push_str(decimal_of((n + 1) as u64).as_str());
            out.push_str(" ");
            out.push_str(string_of(words[1]).as_str());
            return out;
        }
    }
    string_of(line)
}

/// Turn a stored INVITE into a new transaction under a given branch.
pub fn renew_invite_transaction_with(raw_invite: &str, branch: &str) -> (r: String)
    requires
        renewable(raw_invite@),
    ensures
        r@ == renewed_text(raw_invite@, branch@),
{
    let raw = chars_of(raw_invite);
    let blank: [char; 4] = ['\r', '\n', '\r', '\n'];
    assert(blank@ =~= text::crlf() + text::crlf());
    let pos: usize = position_of_str(raw.as_slice(), &blank, 0);
    let head = slice_subrange(raw.as_slice(), 0, pos);
    assert(head@ =~= headers::head_of(raw@));
    let ls = split_lines(head);
    let ghost vs = text::views(ls@);
    assert(vs[0] == ls@[0]@);
    let mut out = string_of(ls[0]);
    let ghost mut done: Seq<Seq<char>> = seq![vs[0]];
    let ghost whole = seq![vs[0]] + renewed_lines(vs.skip(1), false, branch@);
    let mut via_done: bool = false;
    let mut i: usize = 1;
    assert(done + renewed_lines(vs.skip(1), false, branch@) =~= whole);
    while i < ls.len()
        invariant
            1 <= i <= ls@.len(),
            vs == text::views(ls@),
            vs == text::lines(headers::head_of(raw_invite@)),
            renewable(raw_invite@),
            done.len() >= 1,
            out@ == text::join_lines(done),
            done + renewed_lines(vs.skip(i as int), via_done, branch@) == whole,
        decreases ls@.len() - i,
    {
        let line: &[char] = ls[i];
        let ghost rest = vs.skip(i as int);
        assert(rest[0] == line@);
        assert(rest.skip(1) =~= vs.skip(i + 1));
        assert(vs[i as int] == line@);
        let next: String;
        if !via_done && (has_prefix_word(line, "via:") || has_prefix_word(line, "v:")) {
            next = put_branch(line, branch);
            via_done = true;
        } else if has_prefix_word(line, "cseq:") {
            next = put_next_cseq(line);
        } else {
            next = string_of(line);
        }
        let ghost before = done;
        let ghost text_before = out@;
        out.push_str("\r\n");
        out.push_str(next.as_str());
        proof {
            reveal_strlit("\r\n");
            done = before.push(next@);
            assert("\r\n"@ =~= text::crlf());
            assert(done.drop_last() =~= before);
            assert(out@ =~= text::join_lines(done));
            assert(done + renewed_lines(vs.skip(i + 1), via_done, branch@) =~= whole);
        }
        i = i + 1;
    }
    assert(done =~= whole) by {
        assert(renewed_lines(vs.skip(i as int), via_done, branch@) =~= Seq::empty());
    }
    out.push_str("\r\n\r\n");
    proof {
        reveal_strlit("\r\n\r\n");
        assert("\r\n\r\n"@ =~= text::crlf() + text::crlf());
    }
    if pos < raw.len() {
        let body = slice_subrange(raw.as_slice(), pos + 4, raw.len());
        assert(body@ =~= headers::body_of(raw@));
        out.push_str(string_of(body).as_str());
    }
    assert(out@ =~= renewed_text(raw_invite@, branch@));
    out
}

/// Turn a stored INVITE into a new transaction for a re-send: fresh top-Via
/// branch and CSeq + 1. Only the header block is touched, the body is copied
/// as it is.
pub fn renew_invite_transaction(raw_invite: &str) -> (r: String)
    requires
        renewable(raw_invite@),
    ensures
        exists|b: Seq<char>| is_fresh_branch(b) && r@ == #[trigger] renewed_text(raw_invite@, b),
{
    let branch = new_branch();
    renew_invite_transaction_with(raw_invite, branch.as_str())
}

} // verus!
