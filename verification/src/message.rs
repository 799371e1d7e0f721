//! SIP messages as plain values.
//!
//! A message is parsed by the `rsip` crate and held as its start line parts,
//! its header lines and its body.

use crate::headers::{field_of, find_prefixed};
use crate::headers;
use crate::text::{chars_of, has_prefix_word, parse_u16, parse_u32, split_lines, split_on, split_tokens, string_of, trimmed};
use crate::text;
use vstd::prelude::*;
use vstd::slice::slice_subrange;

verus! {

/// A parsed request.
#[derive(Debug)]
pub struct SipRequest {
    pub method: String,
    pub uri: String,
    /// Header lines `Name: value`, in order.
    pub headers: Vec<String>,
    pub body: Vec<u8>,
}

/// A parsed response.
#[derive(Debug)]
pub struct SipResponse {
    pub status: u16,
    /// Header lines `Name: value`, in order.
    pub headers: Vec<String>,
    pub body: Vec<u8>,
}

#[derive(Debug)]
pub enum SipMessage {
    Request(SipRequest),
    Response(SipResponse),
}

/// What a request holds.
pub struct RequestView {
    pub method: Seq<char>,
    pub uri: Seq<char>,
    pub headers: Seq<Seq<char>>,
    pub body: Seq<u8>,
}

/// What a response holds.
pub struct ResponseView {
    pub status: u16,
    pub headers: Seq<Seq<char>>,
    pub body: Seq<u8>,
}

/// What a message holds.
pub enum MessageView {
    Request(RequestView),
    Response(ResponseView),
}

impl View for SipRequest {
    type V = RequestView;

    open spec fn view(&self) -> RequestView {
        RequestView {
            method: self.method@,
            uri: self.uri@,
            headers: text::string_views(self.headers@),
            body: self.body@,
        }
    }
}

impl View for SipResponse {
    type V = ResponseView;

    open spec fn view(&self) -> ResponseView {
        ResponseView {
            status: self.status,
            headers: text::string_views(self.headers@),
            body: self.body@,
        }
    }
}

impl View for SipMessage {
    type V = MessageView;

    open spec fn view(&self) -> MessageView {
        match *self {
            SipMessage::Request(r) => MessageView::Request(r@),
            SipMessage::Response(r) => MessageView::Response(r@),
        }
    }
}

pub open spec fn message_view(m: Option<SipMessage>) -> Option<MessageView> {
    match m {
        Some(x) => Some(x@),
        None => None,
    }
}

/// The message that bytes on the wire hold, if they hold one.
pub uninterp spec fn wire_message(bytes: Seq<u8>) -> Option<MessageView>;

/// Calls `rsip::SipMessage::try_from` on the bytes and takes the message
/// apart: method, URI, status and header lines as `rsip` prints them, and the
/// body. None when `rsip` refuses the bytes. The result follows from the
/// bytes alone and is named.
#[verifier::external_body]
pub(crate) fn parse_message(bytes: &[u8]) -> (r: Option<SipMessage>)
    ensures
        message_view(r) == wire_message(bytes@),
{
    match rsip::SipMessage::try_from(bytes) {
        Ok(rsip::SipMessage::Request(m)) => Some(SipMessage::Request(SipRequest {
            method: m.method.to_string(), uri: m.uri.to_string(),
            headers: m.headers.iter().map(|h| h.to_string()).collect(), body: m.body,
        })),
        Ok(rsip::SipMessage::Response(m)) => Some(SipMessage::Response(SipResponse {
            status: m.status_code.code(),
            headers: m.headers.iter().map(|h| h.to_string()).collect(), body: m.body,
        })),
        Err(_) => None,
    }
}

// ── Name and address ────────────────────────────────────────────────────

/// A From or To value, taken apart.
#[derive(Debug)]
pub struct NameAddr {
    /// The value as it is written in a header.
    pub text: String,
    pub user: Option<String>,
    pub tag: Option<String>,
}

/// What a taken apart value holds.
pub struct NameAddrView {
    pub text: Seq<char>,
    pub user: Option<Seq<char>>,
    pub tag: Option<Seq<char>>,
}

impl View for NameAddr {
    type V = NameAddrView;

    open spec fn view(&self) -> NameAddrView {
        NameAddrView {
            text: self.text@,
            user: text::opt_string(self.user),
            tag: text::opt_string(self.tag),
        }
    }
}

pub open spec fn opt_name_addr(a: Option<NameAddr>) -> Option<NameAddrView> {
    match a {
        Some(x) => Some(x@),
        None => None,
    }
}

/// The parts of a From or To value, if it has the form of one.
pub uninterp spec fn name_addr(value: Seq<char>) -> Option<NameAddrView>;

/// Calls `rsip::headers::To::typed`, which reads a From value in the same way:
/// the value as `rsip` prints it, its user and its tag. None when `rsip`
/// refuses the value. The result follows from the value alone and is named.
#[verifier::external_body]
pub(crate) fn parse_name_addr(value: &str) -> (r: Option<NameAddr>)
    ensures
        opt_name_addr(r) == name_addr(value@),
{
    let header: rsip::headers::To = rsip::headers::UntypedHeader::new(value);
    match rsip::headers::ToTypedHeader::typed(&header) {
        Ok(to) => Some(NameAddr {
            text: to.to_string(),
            user: to.uri.user().map(|u| u.to_string()),
            tag: to.tag().map(|t| t.value().to_string()),
        }),
        Err(_) => None,
    }
}

// ── URI ─────────────────────────────────────────────────────────────────

/// The user of a URI, where it has one.
pub uninterp spec fn wire_uri_user(uri: Seq<char>) -> Option<Seq<char>>;

/// Calls `rsip::Uri::try_from` on the text and then `rsip::Uri::user`: the
/// user in front of the host, without a password. None when `rsip` refuses
/// the text or finds no user. The result follows from the text alone and is
/// named.
#[verifier::external_body]
pub(crate) fn parse_uri_user(uri: &str) -> (r: Option<String>)
    ensures
        text::opt_string(r) == wire_uri_user(uri@),
{
    match rsip::Uri::try_from(uri) {
        Ok(u) => u.user().map(|s| s.to_string()),
        Err(_) => None,
    }
}

// ── Header lines ────────────────────────────────────────────────────────

/// Value of the first header line with one of the two prefixes (name and
/// colon), without the white space round it.
pub open spec fn first_value(hs: Seq<Seq<char>>, a: Seq<char>, b: Seq<char>) -> Option<Seq<char>> {
    match headers::first_prefixed(hs, a, b) {
        Some(line) => Some(headers::header_field(line)),
        None => None,
    }
}

/// Value of the first header line with one of the two prefixes.
pub fn value_of(headers: &Vec<String>, a: &str, b: &str) -> (r: Option<String>)
    ensures
        text::opt_string(r) == first_value(text::string_views(headers@), a@, b@),
{
    let ghost hs = text::string_views(headers@);
    let mut i: usize = 0;
    assert(hs.skip(0) =~= hs);
    while i < headers.len()
        invariant
            i <= headers@.len(),
            hs == text::string_views(headers@),
            headers::first_prefixed(hs, a@, b@) == headers::first_prefixed(hs.skip(i as int), a@, b@),
        decreases headers@.len() - i,
    {
        let line = chars_of(headers[i].as_str());
        assert(hs.skip(i as int)[0] == line@);
        assert(hs.skip(i as int).skip(1) =~= hs.skip(i + 1));
        if has_prefix_word(line.as_slice(), a) || has_prefix_word(line.as_slice(), b) {
            return Some(string_of(field_of(line.as_slice())));
        }
        i = i + 1;
    }
    None
}

pub open spec fn call_id_value(hs: Seq<Seq<char>>) -> Option<Seq<char>> {
    first_value(hs, "call-id:"@, "i:"@)
}

pub open spec fn from_value(hs: Seq<Seq<char>>) -> Option<Seq<char>> {
    first_value(hs, "from:"@, "f:"@)
}

pub open spec fn to_value(hs: Seq<Seq<char>>) -> Option<Seq<char>> {
    first_value(hs, "to:"@, "t:"@)
}

pub open spec fn contact_value(hs: Seq<Seq<char>>) -> Option<Seq<char>> {
    first_value(hs, "contact:"@, "m:"@)
}

pub open spec fn cseq_value(hs: Seq<Seq<char>>) -> Option<Seq<char>> {
    first_value(hs, "cseq:"@, "cseq:"@)
}

pub fn call_id_of(headers: &Vec<String>) -> (r: Option<String>)
    ensures
        text::opt_string(r) == call_id_value(text::string_views(headers@)),
{
    value_of(headers, "call-id:", "i:")
}

pub fn from_of(headers: &Vec<String>) -> (r: Option<String>)
    ensures
        text::opt_string(r) == from_value(text::string_views(headers@)),
{
    value_of(headers, "from:", "f:")
}

pub fn to_of(headers: &Vec<String>) -> (r: Option<String>)
    ensures
        text::opt_string(r) == to_value(text::string_views(headers@)),
{
    value_of(headers, "to:", "t:")
}

pub fn contact_of(headers: &Vec<String>) -> (r: Option<String>)
    ensures
        text::opt_string(r) == contact_value(text::string_views(headers@)),
{
    value_of(headers, "contact:", "m:")
}

/// First value of header `name` (in any case) on a request.
pub fn header_value(request: &SipRequest, name: &str) -> (r: Option<String>)
    ensures
        text::opt_string(r) == first_value(request@.headers, name@ + ":"@, name@ + ":"@),
{
    let mut prefix = name.to_string();
    prefix.push_str(":");
    value_of(&request.headers, prefix.as_str(), prefix.as_str())
}

/// Number and method of a CSeq value.
pub open spec fn cseq_parts(value: Seq<char>) -> Option<(nat, Seq<char>)> {
    let w = text::tokens(value);
    if w.len() >= 2 {
        match text::parse_uint(w[0], u32::MAX as nat) {
            Some(n) => Some((n, w[1])),
            None => None,
        }
    } else {
        None
    }
}

pub open spec fn headers_cseq(hs: Seq<Seq<char>>) -> Option<(nat, Seq<char>)> {
    match cseq_value(hs) {
        Some(v) => cseq_parts(v),
        None => None,
    }
}

/// CSeq number and method.
pub fn cseq_of(headers: &Vec<String>) -> (r: Option<(u32, String)>)
    ensures
        match r {
            Some((n, m)) => headers_cseq(text::string_views(headers@)) == Some((n as nat, m@)),
            None => headers_cseq(text::string_views(headers@)) is None,
        },
{
    match value_of(headers, "cseq:", "cseq:") {
        None => None,
        Some(v) => {
            let c = chars_of(v.as_str());
            let w = split_tokens(c.as_slice());
            if w.len() < 2 {
                return None;
            }
            assert(text::views(w@)[0] == w@[0]@);
            assert(text::views(w@)[1] == w@[1]@);
            match parse_u32(w[0]) {
                Some(n) => Some((n, string_of(w[1]))),
                None => None,
            }
        },
    }
}

/// CSeq number and method of a response.
pub fn response_cseq(response: &SipResponse) -> (r: Option<(u32, String)>)
    ensures
        match r {
            Some((n, m)) => headers_cseq(response@.headers) == Some((n as nat, m@)),
            None => headers_cseq(response@.headers) is None,
        },
{
    cseq_of(&response.headers)
}

// ── Raw text ────────────────────────────────────────────────────────────

/// Status code of a raw response (`SIP/2.0 486 Busy Here` has 486).
pub open spec fn status_code(raw: Seq<char>) -> Option<nat> {
    if text::tokens(raw).len() >= 2 {
        text::parse_uint(text::tokens(raw)[1], u16::MAX as nat)
    } else {
        None
    }
}

/// Status code of a raw response.
pub fn status_code_of(raw: &str) -> (r: Option<u16>)
    ensures
        match r {
            Some(n) => status_code(raw@) == Some(n as nat),
            None => status_code(raw@) is None,
        },
{
    let c = chars_of(raw);
    let w = split_tokens(c.as_slice());
    if w.len() < 2 {
        return None;
    }
    assert(text::views(w@)[1] == w@[1]@);
    parse_u16(w[1])
}

/// Value of the first line that begins with one of the two prefixes, up to
/// the first semicolon, as a number.
pub open spec fn numeric_header(hs: Seq<Seq<char>>, a: Seq<char>, b: Seq<char>) -> Option<nat> {
    match headers::first_prefixed(hs, a, b) {
        Some(line) => text::parse_uint(
            text::trim(text::split_char(headers::header_field(line), ';')[0]),
            u32::MAX as nat,
        ),
        None => None,
    }
}

/// Header lines of a raw text, its start line included.
pub open spec fn text_lines(raw: Seq<char>) -> Seq<Seq<char>> {
    headers::until_blank(text::lines(raw))
}

/// Integer value of the first header among the two prefixes (lower case, with
/// colon): `Session-Expires: 1800;refresher=uac` gives 1800. None when that
/// header's value up to the first `;` is no number; later duplicates are not
/// consulted.
pub fn header_u32(raw: &str, a: &str, b: &str) -> (r: Option<u32>)
    ensures
        match r {
            Some(n) => numeric_header(text_lines(raw@), a@, b@) == Some(n as nat),
            None => numeric_header(text_lines(raw@), a@, b@) is None,
        },
{
    let c = chars_of(raw);
    let ls = split_lines(c.as_slice());
    let hs = until_blank_of(&ls);
    match find_prefixed(&hs, a, b) {
        None => None,
        Some(line) => {
            let parts = split_on(field_of(line), ';');
            assert(text::views(parts@)[0] == parts@[0]@);
            parse_u32(trimmed(parts[0]))
        },
    }
}

/// The lines before the first empty one.
pub fn until_blank_of<'a>(ls: &Vec<&'a [char]>) -> (r: Vec<&'a [char]>)
    ensures
        text::views(r@) == headers::until_blank(text::views(ls@)),
{
    let mut out: Vec<&'a [char]> = Vec::new();
    let mut i: usize = 0;
    let ghost whole = headers::until_blank(text::views(ls@));
    assert(text::views(ls@).skip(0) =~= text::views(ls@));
    assert(text::views(out@) + headers::until_blank(text::views(ls@).skip(0)) =~= whole);
    while i < ls.len() && ls[i].len() > 0
        invariant
            i <= ls@.len(),
            text::views(out@) + headers::until_blank(text::views(ls@).skip(i as int)) == whole,
        decreases ls@.len() - i,
    {
        let ghost before = out@;
        out.push(ls[i]);
        assert(text::views(out@) =~= text::views(before).push(ls@[i as int]@));
        assert(text::views(ls@).skip(i as int).skip(1) =~= text::views(ls@).skip(i + 1));
        assert(text::views(out@) + headers::until_blank(text::views(ls@).skip(i + 1)) =~= whole);
        i = i + 1;
    }
    assert(headers::until_blank(text::views(ls@).skip(i as int)) =~= Seq::empty());
    assert(text::views(out@) =~= whole);
    out
}

pub open spec fn session_expires(raw: Seq<char>) -> Option<nat> {
    numeric_header(text_lines(raw), "session-expires:"@, "x:"@)
}

pub open spec fn min_se(raw: Seq<char>) -> Option<nat> {
    numeric_header(text_lines(raw), "min-se:"@, "min-se:"@)
}

/// Seconds of `Session-Expires: 1800;refresher=uac` (long or compact form).
pub fn parse_session_expires(raw: &str) -> (r: Option<u32>)
    ensures
        match r {
            Some(n) => session_expires(raw@) == Some(n as nat),
            None => session_expires(raw@) is None,
        },
{
    header_u32(raw, "session-expires:", "x:")
}

/// Seconds of `Min-SE: 14400` (no compact form).
pub fn parse_min_se(raw: &str) -> (r: Option<u32>)
    ensures
        match r {
            Some(n) => min_se(raw@) == Some(n as nat),
            None => min_se(raw@) is None,
        },
{
    header_u32(raw, "min-se:", "min-se:")
}

} // verus!
