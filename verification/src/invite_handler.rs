//! New calls: who may place them, where they go, and how a stored INVITE is
//! turned to the next trunk.

use crate::call_handler::{Binding, headers_u32};
use crate::call_handler;
use crate::cdr::{StaleCall, source_is_trunk_related};
use crate::cdr;
use crate::client_tx::Transport;
use crate::client_tx;
use crate::headers::{field_of, header_is};
use crate::headers;
use crate::hydrate::contains_text;
use crate::identity::{Mismatch, addr_spec, is_served, lower_string, text_or_empty, uri_host};
use crate::identity;
use crate::message::{NameAddr, NameAddrView, SipRequest, from_of, parse_name_addr, to_of, value_of};
use crate::message;
use crate::response_laws;
use crate::responses::{build_echo_response, join_of, new_tag, response_to_of, vias_of};
use crate::responses;
use crate::security::user_limits::LimitDecision;
use crate::sip_builder::{branch_position, build_cancel, new_branch, put_branch};
use crate::sip_builder;
use crate::sip_laws;
use crate::text::{chars_of, decimal_of, has_prefix, has_prefix_word, is_exactly, is_word, parse_u32, position_of, position_of_word, same, same_str, split_lines, split_on, split_once_at, split_tokens, string_of, trimmed, word_len};
use crate::text;
use crate::trunk_state::silent_outbound_trunk_of;
use crate::trunk_state;
use vstd::prelude::*;
use vstd::slice::slice_subrange;

verus! {

// ── URIs ────────────────────────────────────────────────────────────────

/// The URI in a Contact value: what is in its first angle brackets, else the
/// value up to the first comma.
pub open spec fn contact_uri_of(value: Seq<char>) -> Seq<char> {
    let a = text::find_char(value, '<', 0);
    let b = text::find_char(value, '>', 0);
    if a < value.len() && b < value.len() && b > a {
        value.subrange(a + 1, b)
    } else {
        text::trim(text::split_char(value, ',')[0])
    }
}

/// The URI of a Contact value: `"Bob" <sip:b@1.2.3.4>;expires=60` has
/// `sip:b@1.2.3.4`.
pub fn extract_contact_uri(value: &str) -> (r: String)
    ensures
        r@ == contact_uri_of(value@),
{
    let c = chars_of(value);
    let a: usize = position_of(c.as_slice(), '<', 0);
    let b: usize = position_of(c.as_slice(), '>', 0);
    if a < c.len() && b < c.len() && b > a {
        return string_of(slice_subrange(c.as_slice(), a + 1, b));
    }
    let parts = split_on(c.as_slice(), ',');
    assert(text::views(parts@)[0] == parts@[0]@);
    string_of(trimmed(parts[0]))
}

/// Second word of the first line of a raw request.
pub open spec fn raw_request_uri(raw: Seq<char>) -> Option<Seq<char>> {
    let w = text::tokens(client_tx::first_line(raw));
    if w.len() >= 2 {
        Some(w[1])
    } else {
        None
    }
}

/// The URI of a raw request.
pub fn extract_request_uri_from_raw(raw: &str) -> (r: Option<String>)
    ensures
        text::opt_string(r) == raw_request_uri(raw@),
{
    let c = chars_of(raw);
    let mut end: usize = position_of(c.as_slice(), '\n', 0);
    let ghost l = c@.take(end as int);
    if end > 0 && end < c.len() && c[end - 1] == '\r' {
        end = end - 1;
        assert(c@.take(end as int) =~= l.drop_last());
    }
    let first = slice_subrange(c.as_slice(), 0, end);
    assert(first@ =~= client_tx::first_line(raw@));
    let w = split_tokens(first);
    if w.len() >= 2 {
        assert(text::views(w@)[1] == w@[1]@);
        Some(string_of(w[1]))
    } else {
        None
    }
}

/// What an INVITE calls: its URI, else its To.
pub open spec fn callee_aor(uri: Seq<char>, to: Option<Seq<char>>) -> Option<Seq<char>> {
    if uri.len() > 0 {
        Some(uri)
    } else {
        call_handler::not_empty(to)
    }
}

/// What an INVITE calls, for the lookup of the callee.
pub fn extract_callee_aor(request: &SipRequest) -> (r: Option<String>)
    ensures
        text::opt_string(r) == callee_aor(request@.uri, message::to_value(request@.headers)),
{
    if !request.uri.as_str().is_empty() {
        return Some(request.uri.clone());
    }
    match to_of(&request.headers) {
        Some(t) => if t.as_str().is_empty() {
            None
        } else {
            Some(t)
        },
        None => None,
    }
}

/// The user of an address of record that begins with `sip:`; the whole text
/// where it does not.
pub open spec fn dialed_user(aor: Seq<char>) -> Seq<char> {
    if text::starts_with(aor, "sip:"@) {
        text::split_char(aor.skip("sip:"@.len() as int), '@')[0]
    } else {
        aor
    }
}

/// The user that an address of record dials.
pub fn dialed_user_of(aor: &str) -> (r: String)
    ensures
        r@ == dialed_user(aor@),
{
    let c = chars_of(aor);
    if has_prefix(c.as_slice(), "sip:") {
        let rest = slice_subrange(c.as_slice(), word_len("sip:"), c.len());
        assert(rest@ =~= aor@.skip("sip:"@.len() as int));
        let parts = split_on(rest, '@');
        assert(text::views(parts@)[0] == parts@[0]@);
        string_of(parts[0])
    } else {
        aor.to_string()
    }
}

// ── Number mapping ──────────────────────────────────────────────────────

/// A public number and the local user that it reaches.
#[derive(Debug)]
pub struct DidMapping {
    pub number: String,
    pub user: String,
    pub display_name: Option<String>,
}

pub open spec fn zeros_end(s: Seq<char>, from: int) -> int
    decreases s.len() - from,
{
    if 0 <= from && from < s.len() && s[from] == '0' {
        zeros_end(s, from + 1)
    } else {
        from
    }
}

/// The text without its leading zeros.
pub open spec fn without_zeros(s: Seq<char>) -> Seq<char> {
    s.skip(zeros_end(s, 0))
}

fn skip_zeros<'a>(s: &'a [char]) -> (r: &'a [char])
    ensures
        r@ == without_zeros(s@),
{
    let mut i: usize = 0;
    while i < s.len() && s[i] == '0'
        invariant
            i <= s@.len(),
            zeros_end(s@, 0) == zeros_end(s@, i as int),
        decreases s@.len() - i,
    {
        i = i + 1;
    }
    let r = slice_subrange(s, i, s.len());
    assert(r@ =~= s@.skip(i as int));
    r
}

/// A dialed user is a number: as it is, without its leading zeros, or in
/// international form.
pub open spec fn dials(user: Seq<char>, number: Seq<char>) -> bool {
    ||| user == number
    ||| user == without_zeros(number)
    ||| user == "+33"@ + without_zeros(number)
    ||| without_zeros(user) == without_zeros(number)
}

/// First mapping whose number is dialed.
pub open spec fn did_target(s: Seq<DidMapping>, user: Seq<char>) -> Option<Seq<char>>
    decreases s.len(),
{
    if s.len() == 0 {
        None
    } else if dials(user, s[0].number@) {
        Some(s[0].user@)
    } else {
        did_target(s.skip(1), user)
    }
}

fn is_dialed(user: &[char], number: &[char]) -> (r: bool)
    ensures
        r == dials(user@, number@),
{
    let bare = skip_zeros(number);
    let mut intl = "+33".to_string();
    intl.push_str(string_of(bare).as_str());
    let ic = chars_of(intl.as_str());
    same(user, number) || same(user, bare) || same(user, ic.as_slice()) || same(
        skip_zeros(user),
        bare,
    )
}

/// The address of record that a mapped number stands for.
pub open spec fn mapped_aor(user: Seq<char>, domain: Option<Seq<char>>) -> Seq<char> {
    "sip:"@ + user + "@"@ + (match domain {
        Some(r) => r,
        None => "sip.nixi.tel"@,
    })
}

/// Map the number that an address of record dials to a local user.
pub fn map_did(mappings: &Vec<DidMapping>, aor: &str, domain: Option<&str>) -> (r: Option<String>)
    ensures
        text::opt_string(r) == (match did_target(mappings@, dialed_user(aor@)) {
            Some(u) => Some(mapped_aor(u, text::opt_str(domain))),
            None => None,
        }),
{
    let user = dialed_user_of(aor);
    let uc = chars_of(user.as_str());
    let mut i: usize = 0;
    assert(mappings@.skip(0) =~= mappings@);
    while i < mappings.len()
        invariant
            i <= mappings@.len(),
            uc@ == dialed_user(aor@),
            did_target(mappings@, uc@) == did_target(mappings@.skip(i as int), uc@),
        decreases mappings@.len() - i,
    {
        let nc = chars_of(mappings[i].number.as_str());
        assert(mappings@.skip(i as int)[0] == mappings@[i as int]);
        assert(mappings@.skip(i as int).skip(1) =~= mappings@.skip(i + 1));
        if is_dialed(uc.as_slice(), nc.as_slice()) {
            let mut out = "sip:".to_string();
            out.push_str(mappings[i].user.as_str());
            out.push_str("@");
            match domain {
                Some(d) => {
                    out.push_str(d);
                },
                None => {
                    out.push_str("sip.nixi.tel");
                },
            }
            return Some(out);
        }
        i = i + 1;
    }
    None
}

// ── Admission ───────────────────────────────────────────────────────────

/// Where an INVITE comes from.
pub enum InviteSource {
    /// This host.
    Local,
    /// A trunk, or a host that shares a /24 with one.
    Trunk,
    /// A host from which this user is registered.
    Registered { user: String },
    /// Anywhere else.
    Unknown,
}

/// Where an INVITE comes from, by its contents.
pub enum SourceView {
    Local,
    Trunk,
    Registered { user: Seq<char> },
    Unknown,
}

impl View for InviteSource {
    type V = SourceView;

    open spec fn view(&self) -> SourceView {
        match *self {
            InviteSource::Local => SourceView::Local,
            InviteSource::Trunk => SourceView::Trunk,
            InviteSource::Registered { user } => SourceView::Registered { user: user@ },
            InviteSource::Unknown => SourceView::Unknown,
        }
    }
}

/// First registration from an address.
pub open spec fn registered_from(s: Seq<Binding>, ip: Seq<char>) -> Option<Binding>
    decreases s.len(),
{
    if s.len() == 0 {
        None
    } else if s[0].received_ip@ == ip {
        Some(s[0])
    } else {
        registered_from(s.skip(1), ip)
    }
}

/// A user is registered from an address.
pub open spec fn is_bound_at(s: Seq<Binding>, ip: Seq<char>, user: Seq<char>) -> bool {
    exists|i: int|
        0 <= i < s.len() && (#[trigger] s[i]).received_ip@ == ip && dialed_user(s[i].aor@) == user
}

/// The user that a registered address stands for: the one that it presents,
/// where that one is registered from there (several may be, behind one
/// address), else the first that is.
pub open spec fn bound_user(s: Seq<Binding>, ip: Seq<char>, presented: Option<Seq<char>>) -> Option<
    Seq<char>,
> {
    match registered_from(s, ip) {
        Some(b) => match presented {
            Some(u) => if is_bound_at(s, ip, u) {
                Some(u)
            } else {
                Some(dialed_user(b.aor@))
            },
            None => Some(dialed_user(b.aor@)),
        },
        None => None,
    }
}

/// Where an INVITE from an address comes from: this host before any trunk,
/// a trunk before any user.
pub open spec fn source_of(
    ip: Seq<char>,
    trunks: Seq<Seq<char>>,
    bindings: Seq<Binding>,
    presented: Option<Seq<char>>,
) -> SourceView {
    if ip == "127.0.0.1"@ || ip == "::1"@ {
        SourceView::Local
    } else if exists|i: int| 0 <= i < trunks.len() && cdr::near_trunk(#[trigger] trunks[i], ip) {
        SourceView::Trunk
    } else {
        match bound_user(bindings, ip, presented) {
            Some(user) => SourceView::Registered { user },
            None => SourceView::Unknown,
        }
    }
}

/// The user that a registered address stands for.
fn user_bound_at(bindings: &Vec<Binding>, ip: &str, presented: &Option<String>) -> (r: Option<String>)
    ensures
        text::opt_string(r) == bound_user(bindings@, ip@, text::opt_string(*presented)),
{
    let mut first: Option<String> = None;
    let mut i: usize = 0;
    assert(bindings@.skip(0) =~= bindings@);
    while i < bindings.len()
        invariant
            i <= bindings@.len(),
            match first {
                Some(u) => registered_from(bindings@, ip@) is Some && u@ == dialed_user(
                    (registered_from(bindings@, ip@)->0).aor@,
                ),
                None => registered_from(bindings@, ip@) == registered_from(
                    bindings@.skip(i as int),
                    ip@,
                ),
            },
            forall|k: int|
                0 <= k < i && (#[trigger] bindings@[k]).received_ip@ == ip@ ==> text::opt_string(*presented)
                    != Some(dialed_user(bindings@[k].aor@)),
        decreases bindings@.len() - i,
    {
        assert(bindings@.skip(i as int)[0] == bindings@[i as int]);
        assert(bindings@.skip(i as int).skip(1) =~= bindings@.skip(i + 1));
        if same_str(bindings[i].received_ip.as_str(), ip) {
            let user = dialed_user_of(bindings[i].aor.as_str());
            if presents(presented, user.as_str()) {
                assert(is_bound_at(bindings@, ip@, user@)) by {
                    assert(bindings@[i as int].received_ip@ == ip@);
                }
                proof {
                    lemma_bound_is_registered(bindings@, ip@, i as int);
                }
                return Some(user);
            }
            if first.is_none() {
                first = Some(user);
            }
        }
        i = i + 1;
    }
    assert(bindings@.skip(i as int).len() == 0);
    first
}

proof fn lemma_bound_is_registered(s: Seq<Binding>, ip: Seq<char>, i: int)
    requires
        0 <= i < s.len(),
        s[i].received_ip@ == ip,
    ensures
        registered_from(s, ip) is Some,
    decreases s.len(),
{
    if s[0].received_ip@ != ip {
        assert(s.skip(1)[i - 1] == s[i]);
        lemma_bound_is_registered(s.skip(1), ip, i - 1);
    }
}

proof fn lemma_registered_is_bound(s: Seq<Binding>, ip: Seq<char>)
    ensures
        registered_from(s, ip) matches Some(b) ==> is_bound_at(s, ip, dialed_user(b.aor@)),
    decreases s.len(),
{
    if s.len() > 0 {
        if s[0].received_ip@ != ip {
            let t = s.skip(1);
            lemma_registered_is_bound(t, ip);
            if let Some(b) = registered_from(t, ip) {
                let i = choose|i: int|
                    0 <= i < t.len() && (#[trigger] t[i]).received_ip@ == ip && dialed_user(t[i].aor@)
                        == dialed_user(b.aor@);
                assert(s[i + 1] == t[i]);
            }
        }
    }
}

/// Where an INVITE from an address comes from, given the addresses of the
/// trunks, the registrations and the user that it presents.
pub fn invite_source(
    source_ip: &str,
    trunk_ips: &Vec<String>,
    bindings: &Vec<Binding>,
    presented: &Option<String>,
) -> (r: InviteSource)
    ensures
        r@ == source_of(source_ip@, text::string_views(trunk_ips@), bindings@, text::opt_string(*presented)),
{
    if same_str(source_ip, "127.0.0.1") || same_str(source_ip, "::1") {
        return InviteSource::Local;
    }
    let ghost trunks = text::string_views(trunk_ips@);
    assert(forall|i: int| 0 <= i < trunks.len() ==> #[trigger] trunks[i] == trunk_ips@[i]@);
    if source_is_trunk_related(trunk_ips, source_ip) {
        proof {
            let i = choose|i: int|
                0 <= i < trunk_ips@.len() && cdr::near_trunk((#[trigger] trunk_ips@[i])@, source_ip@);
            assert(cdr::near_trunk(trunks[i], source_ip@));
        }
        return InviteSource::Trunk;
    }
    assert(forall|i: int|
        0 <= i < trunks.len() ==> !cdr::near_trunk(#[trigger] trunks[i], source_ip@)) by {
        assert(forall|i: int|
            0 <= i < trunk_ips@.len() ==> !cdr::near_trunk((#[trigger] trunk_ips@[i])@, source_ip@));
        assert forall|i: int| 0 <= i < trunks.len() implies !cdr::near_trunk(
            #[trigger] trunks[i],
            source_ip@,
        ) by {
            assert(trunks[i] == trunk_ips@[i]@);
        }
    }
    match user_bound_at(bindings, source_ip, presented) {
        Some(user) => InviteSource::Registered { user },
        None => InviteSource::Unknown,
    }
}

/// What the credentials of an INVITE prove.
pub enum Proof {
    Missing,
    /// They are those of this user.
    Valid { user: String },
    Wrong,
}

/// What the admission of an INVITE looks at, besides the INVITE.
pub struct InviteFacts {
    /// A call with the Call-ID of the INVITE and a leg at its source is known.
    pub call_known: bool,
    /// The address that the INVITE came from.
    pub source_ip: String,
    /// The addresses of the trunks.
    pub trunk_ips: Vec<String>,
    /// The registrations.
    pub bindings: Vec<Binding>,
    /// The users of this system.
    pub users: Vec<String>,
    /// The domains served here.
    pub served: Vec<String>,
    pub proof: Proof,
    pub reject_trunk_local_from: bool,
}

// ── What an INVITE claims ───────────────────────────────────────────────

/// What an INVITE claims of itself.
#[derive(Debug)]
pub struct InviteClaims {
    /// The user of its From.
    pub from_user: Option<String>,
    /// Its From is a user of this system on a domain served here.
    pub from_is_local: bool,
    /// It is within a dialog that is known here.
    pub in_dialog: bool,
}

/// What an INVITE claims, by its contents.
pub struct ClaimsView {
    pub from_user: Option<Seq<char>>,
    pub from_is_local: bool,
    pub in_dialog: bool,
}

impl View for InviteClaims {
    type V = ClaimsView;

    open spec fn view(&self) -> ClaimsView {
        ClaimsView {
            from_user: text::opt_string(self.from_user),
            from_is_local: self.from_is_local,
            in_dialog: self.in_dialog,
        }
    }
}

/// The From of a request, taken apart.
pub open spec fn from_parts(hs: Seq<Seq<char>>) -> Option<NameAddrView> {
    match message::from_value(hs) {
        Some(v) => message::name_addr(v),
        None => None,
    }
}

/// The To of a request, taken apart.
pub open spec fn to_parts(hs: Seq<Seq<char>>) -> Option<NameAddrView> {
    match message::to_value(hs) {
        Some(v) => message::name_addr(v),
        None => None,
    }
}

/// The user of the From, where it has one.
pub open spec fn presented_user(hs: Seq<Seq<char>>) -> Option<Seq<char>> {
    match from_parts(hs) {
        Some(a) => a.user,
        None => None,
    }
}

/// The tag of the To, where it has one.
pub open spec fn to_tag(hs: Seq<Seq<char>>) -> Option<Seq<char>> {
    match to_parts(hs) {
        Some(a) => a.tag,
        None => None,
    }
}

/// The user of a From value is a user of this system, and its host is a
/// domain served here.
pub open spec fn is_local_identity(
    user: Option<Seq<char>>,
    from: Seq<char>,
    users: Seq<Seq<char>>,
    served: Seq<Seq<char>>,
) -> bool {
    match user {
        Some(u) => users.contains(u) && identity::domain_served(served, identity::or_empty(identity::host_part(from))),
        None => false,
    }
}

/// The From is a user of this system on a domain served here.
pub open spec fn presents_local(
    hs: Seq<Seq<char>>,
    users: Seq<Seq<char>>,
    served: Seq<Seq<char>>,
) -> bool {
    is_local_identity(presented_user(hs), identity::or_empty(message::from_value(hs)), users, served)
}

/// What an INVITE claims.
pub open spec fn claims_of(hs: Seq<Seq<char>>, f: InviteFacts) -> ClaimsView {
    ClaimsView {
        from_user: presented_user(hs),
        from_is_local: presents_local(hs, text::string_views(f.users@), text::string_views(f.served@)),
        in_dialog: to_tag(hs) is Some && f.call_known,
    }
}

/// Where an INVITE comes from.
pub open spec fn source_in(hs: Seq<Seq<char>>, f: InviteFacts) -> SourceView {
    source_of(f.source_ip@, text::string_views(f.trunk_ips@), f.bindings@, presented_user(hs))
}

/// The claims of an INVITE, given its From and To taken apart and the text of
/// its From: it belongs to a dialog where its To has a tag and the call is
/// known.
pub fn read_claims(
    from: Option<NameAddr>,
    from_text: &str,
    to: Option<NameAddr>,
    users: &Vec<String>,
    served: &Vec<String>,
    call_known: bool,
) -> (r: InviteClaims)
    ensures
        text::opt_string(r.from_user) == (match message::opt_name_addr(from) {
            Some(a) => a.user,
            None => None,
        }),
        r.from_is_local == is_local_identity(
            text::opt_string(r.from_user),
            from_text@,
            text::string_views(users@),
            text::string_views(served@),
        ),
        r.in_dialog == (call_known && (message::opt_name_addr(to) matches Some(a) && a.tag is Some)),
{
    let from_user = match from {
        Some(a) => a.user,
        None => None,
    };
    let from_is_local = match &from_user {
        Some(u) => {
            let host = text_or_empty(uri_host(from_text));
            contains_text(users, u.as_str()) && is_served(served, host.as_str())
        },
        None => false,
    };
    let tagged = match to {
        Some(a) => a.tag.is_some(),
        None => false,
    };
    InviteClaims { from_user, from_is_local, in_dialog: call_known && tagged }
}

/// What an INVITE claims of itself: who it is from, whether that is a user of
/// this system on a domain served here, and whether it is within a known
/// dialog.
pub fn invite_claims(
    request: &SipRequest,
    users: &Vec<String>,
    served: &Vec<String>,
    call_known: bool,
) -> (r: InviteClaims)
    ensures
        text::opt_string(r.from_user) == presented_user(request@.headers),
        r.from_is_local == presents_local(
            request@.headers,
            text::string_views(users@),
            text::string_views(served@),
        ),
        r.in_dialog == (to_tag(request@.headers) is Some && call_known),
{
    let from_text = from_of(&request.headers);
    let from = match &from_text {
        Some(v) => parse_name_addr(v.as_str()),
        None => None,
    };
    let to = match to_of(&request.headers) {
        Some(v) => parse_name_addr(v.as_str()),
        None => None,
    };
    assert(message::opt_name_addr(from) == from_parts(request@.headers));
    assert(message::opt_name_addr(to) == to_parts(request@.headers));
    let text = text_or_empty(from_text);
    read_claims(from, text.as_str(), to, users, served, call_known)
}

/// What becomes of an INVITE.
#[derive(Debug)]
pub enum Admission {
    /// It belongs to a call in progress.
    Reinvite,
    /// Refused with this status; `flag` reports a claimed identity that is
    /// another's, `strike` counts against the source.
    Refused { status: u16, flag: bool, strike: bool },
    /// Refused because it requires what is not supported.
    BadExtension { unsupported: String },
    /// It must prove who it is.
    Challenged,
    /// Accepted, on the account of this user; `flag` as above.
    Admitted { user: Option<String>, flag: bool },
}

/// Max-Forwards of header lines.
pub open spec fn max_forwards(hs: Seq<Seq<char>>) -> Option<nat> {
    message::numeric_header(hs, "max-forwards:"@, "max-forwards:"@)
}

/// The extensions of a Require value that are not supported here.
pub open spec fn unsupported_in(parts: Seq<Seq<char>>) -> Seq<Seq<char>>
    decreases parts.len(),
{
    if parts.len() == 0 {
        Seq::empty()
    } else {
        let p = text::trim(parts.last());
        if p.len() > 0 && !text::same_text(p, "timer"@) {
            unsupported_in(parts.drop_last()).push(p)
        } else {
            unsupported_in(parts.drop_last())
        }
    }
}

/// The extensions that header lines require and that are not supported.
pub open spec fn unsupported_required(hs: Seq<Seq<char>>) -> Seq<Seq<char>>
    decreases hs.len(),
{
    if hs.len() == 0 {
        Seq::empty()
    } else if text::starts_with_word(hs.last(), "require:"@) {
        unsupported_required(hs.drop_last()) + unsupported_in(
            text::split_char(headers::header_field(hs.last()), ','),
        )
    } else {
        unsupported_required(hs.drop_last())
    }
}

/// Names with a comma and a space between each two.
pub open spec fn comma_list(v: Seq<Seq<char>>) -> Seq<char>
    decreases v.len(),
{
    if v.len() == 0 {
        Seq::empty()
    } else if v.len() == 1 {
        v[0]
    } else {
        comma_list(v.drop_last()) + ", "@ + v.last()
    }
}

/// An admission by its contents.
pub enum AdmissionView {
    Reinvite,
    Refused { status: u16, flag: bool, strike: bool },
    BadExtension { unsupported: Seq<char> },
    Challenged,
    Admitted { user: Option<Seq<char>>, flag: bool },
}

impl View for Admission {
    type V = AdmissionView;

    open spec fn view(&self) -> AdmissionView {
        match *self {
            Admission::Reinvite => AdmissionView::Reinvite,
            Admission::Refused { status, flag, strike } => AdmissionView::Refused {
                status,
                flag,
                strike,
            },
            Admission::BadExtension { unsupported } => AdmissionView::BadExtension {
                unsupported: unsupported@,
            },
            Admission::Challenged => AdmissionView::Challenged,
            Admission::Admitted { user, flag } => AdmissionView::Admitted {
                user: text::opt_string(user),
                flag,
            },
        }
    }
}

/// Who an INVITE is from, as far as it can be believed. A trunk is believed;
/// a trunk that presents a local user is flagged, and refused where that is
/// the policy. A registered host must present its own user. Anyone else must
/// prove to be the local user that they present, and is turned away where
/// they present none.
pub open spec fn identity_check(c: ClaimsView, source: SourceView, proved: Proof, reject: bool) -> AdmissionView {
    match source {
        SourceView::Local => AdmissionView::Admitted { user: c.from_user, flag: false },
        SourceView::Trunk => if c.from_is_local && reject {
            AdmissionView::Refused { status: 403, flag: true, strike: false }
        } else {
            AdmissionView::Admitted { user: None, flag: c.from_is_local }
        },
        SourceView::Registered { user } => if c.from_user == Some(user) {
            AdmissionView::Admitted { user: Some(user), flag: false }
        } else {
            AdmissionView::Refused { status: 403, flag: true, strike: false }
        },
        SourceView::Unknown => if !c.from_is_local {
            AdmissionView::Refused { status: 403, flag: false, strike: true }
        } else {
            match proved {
                Proof::Missing => AdmissionView::Challenged,
                Proof::Wrong => AdmissionView::Refused { status: 403, flag: false, strike: true },
                Proof::Valid { user } => if c.from_user == Some(user@) {
                    AdmissionView::Admitted { user: Some(user@), flag: false }
                } else {
                    AdmissionView::Refused { status: 403, flag: true, strike: false }
                },
            }
        },
    }
}

/// What becomes of an INVITE, before any state is made for it.
pub open spec fn admission_of(hs: Seq<Seq<char>>, f: InviteFacts) -> AdmissionView {
    if claims_of(hs, f).in_dialog {
        AdmissionView::Reinvite
    } else if max_forwards(hs) == Some(0nat) {
        AdmissionView::Refused { status: 483, flag: false, strike: false }
    } else if unsupported_required(hs).len() > 0 {
        AdmissionView::BadExtension { unsupported: comma_list(unsupported_required(hs)) }
    } else {
        identity_check(claims_of(hs, f), source_in(hs, f), f.proof, f.reject_trunk_local_from)
    }
}

fn unsupported_parts(value: &[char]) -> (r: Vec<String>)
    ensures
        text::string_views(r@) == unsupported_in(text::split_char(value@, ',')),
{
    let parts = split_on(value, ',');
    let ghost all = text::views(parts@);
    let mut out: Vec<String> = Vec::new();
    let mut i: usize = 0;
    assert(text::string_views(out@) =~= unsupported_in(all.take(0)));
    while i < parts.len()
        invariant
            i <= parts@.len(),
            all == text::views(parts@),
            text::string_views(out@) == unsupported_in(all.take(i as int)),
        decreases parts@.len() - i,
    {
        assert(all.take(i + 1).drop_last() =~= all.take(i as int));
        assert(all.take(i + 1).last() == parts@[i as int]@);
        let p = trimmed(parts[i]);
        if p.len() > 0 && !is_word(p, "timer") {
            let ghost before = out@;
            let s = string_of(p);
            out.push(s);
            assert(text::string_views(out@) =~= text::string_views(before).push(s@));
        }
        i = i + 1;
    }
    assert(all.take(all.len() as int) =~= all);
    out
}

/// The extensions that a request requires and that are not supported.
pub fn unsupported_extensions(headers: &Vec<String>) -> (r: Vec<String>)
    ensures
        text::string_views(r@) == unsupported_required(text::string_views(headers@)),
{
    let ghost hs = text::string_views(headers@);
    let mut out: Vec<String> = Vec::new();
    let mut i: usize = 0;
    assert(text::string_views(out@) =~= unsupported_required(hs.take(0)));
    while i < headers.len()
        invariant
            i <= headers@.len(),
            hs == text::string_views(headers@),
            text::string_views(out@) == unsupported_required(hs.take(i as int)),
        decreases headers@.len() - i,
    {
        let line = chars_of(headers[i].as_str());
        assert(hs.take(i + 1).drop_last() =~= hs.take(i as int));
        assert(hs.take(i + 1).last() == line@);
        if has_prefix_word(line.as_slice(), "require:") {
            let mut more = unsupported_parts(field_of(line.as_slice()));
            let ghost a = out@;
            let ghost b = more@;
            out.append(&mut more);
            assert(text::string_views(out@) =~= text::string_views(a) + text::string_views(b));
        }
        i = i + 1;
    }
    assert(hs.take(hs.len() as int) =~= hs);
    out
}

fn comma_list_of(v: &Vec<String>) -> (r: String)
    ensures
        r@ == comma_list(text::string_views(v@)),
{
    let ghost all = text::string_views(v@);
    if v.len() == 0 {
        let e = String::new();
        assert(e@ =~= comma_list(all));
        return e;
    }
    let mut out = v[0].clone();
    let mut i: usize = 1;
    assert(all.take(1) =~= seq![all[0]]);
    while i < v.len()
        invariant
            1 <= i <= v@.len(),
            all == text::string_views(v@),
            out@ == comma_list(all.take(i as int)),
        decreases v@.len() - i,
    {
        out.push_str(", ");
        out.push_str(v[i].as_str());
        assert(all.take(i + 1).drop_last() =~= all.take(i as int));
        i = i + 1;
    }
    assert(all.take(all.len() as int) =~= all);
    out
}

fn presents(from_user: &Option<String>, user: &str) -> (r: bool)
    ensures
        r == (text::opt_string(*from_user) == Some(user@)),
{
    match from_user {
        Some(u) => same_str(u.as_str(), user),
        None => false,
    }
}

/// Whether an INVITE is let in, given what it claims, where it comes from and
/// what its credentials prove.
pub fn check_identity(claims: InviteClaims, source: InviteSource, proved: &Proof, reject: bool) -> (r:
    Admission)
    ensures
        r@ == identity_check(claims@, source@, *proved, reject),
{
    match source {
        InviteSource::Local => Admission::Admitted { user: claims.from_user, flag: false },
        InviteSource::Trunk => if claims.from_is_local && reject {
            Admission::Refused { status: 403, flag: true, strike: false }
        } else {
            Admission::Admitted { user: None, flag: claims.from_is_local }
        },
        InviteSource::Registered { user } => if presents(&claims.from_user, user.as_str()) {
            Admission::Admitted { user: Some(user), flag: false }
        } else {
            Admission::Refused { status: 403, flag: true, strike: false }
        },
        InviteSource::Unknown => if !claims.from_is_local {
            Admission::Refused { status: 403, flag: false, strike: true }
        } else {
            match proved {
                Proof::Missing => Admission::Challenged,
                Proof::Wrong => Admission::Refused { status: 403, flag: false, strike: true },
                Proof::Valid { user } => if presents(&claims.from_user, user.as_str()) {
                    Admission::Admitted { user: Some(user.clone()), flag: false }
                } else {
                    Admission::Refused { status: 403, flag: true, strike: false }
                },
            }
        },
    }
}

/// What becomes of an INVITE, before any state is made for it: part of a
/// call in progress, too many hops, a required extension that is not
/// supported, and then who it is from.
pub fn admit_invite(request: &SipRequest, facts: &InviteFacts) -> (r: Admission)
    ensures
        r@ == admission_of(request@.headers, *facts),
{
    let claims = invite_claims(request, &facts.users, &facts.served, facts.call_known);
    assert(claims@ == claims_of(request@.headers, *facts));
    if claims.in_dialog {
        return Admission::Reinvite;
    }
    let hops: Option<u32> = headers_u32(&request.headers, "max-forwards:", "max-forwards:");
    if let Some(n) = hops {
        if n == 0 {
            return Admission::Refused { status: 483, flag: false, strike: false };
        }
    }
    let unsupported = unsupported_extensions(&request.headers);
    if unsupported.len() > 0 {
        return Admission::BadExtension { unsupported: comma_list_of(&unsupported) };
    }
    let source = invite_source(
        facts.source_ip.as_str(),
        &facts.trunk_ips,
        &facts.bindings,
        &claims.from_user,
    );
    check_identity(claims, source, &facts.proof, facts.reject_trunk_local_from)
}

// ── Claimed identities that are another's ───────────────────────────────

/// Who presents an identity that is another's, and which: a trunk the address
/// of one of our users; a registered host, or one that has proved who it is,
/// the user of its From.
pub open spec fn claimed_identity(
    presented: Option<Seq<char>>,
    from: Seq<char>,
    source: SourceView,
    proved: Proof,
) -> (Seq<char>, Seq<char>, Seq<char>) {
    match source {
        SourceView::Trunk => ("trunk"@, identity::addr_spec_of(from), "INVITE"@),
        SourceView::Registered { user } => (user, identity::or_empty(presented), "INVITE"@),
        _ => (
            match proved {
                Proof::Valid { user } => user@,
                _ => Seq::empty(),
            },
            identity::or_empty(presented),
            "INVITE"@,
        ),
    }
}

/// What a flagged INVITE is reported with.
pub open spec fn invite_mismatch(hs: Seq<Seq<char>>, f: InviteFacts, flag: bool) -> Option<
    (Seq<char>, Seq<char>, Seq<char>),
> {
    if flag {
        Some(
            claimed_identity(
                presented_user(hs),
                identity::or_empty(message::from_value(hs)),
                source_in(hs, f),
                f.proof,
            ),
        )
    } else {
        None
    }
}

/// Who presents an identity that is another's, given the user of the From and
/// its text.
pub fn identity_claim(
    presented: Option<String>,
    from_text: &str,
    source: InviteSource,
    proved: &Proof,
) -> (r: Mismatch)
    ensures
        r@ == claimed_identity(text::opt_string(presented), from_text@, source@, *proved),
{
    let method = "INVITE".to_string();
    match source {
        InviteSource::Trunk => {
            let c = chars_of(from_text);
            Mismatch {
                user: "trunk".to_string(),
                claimed: string_of(addr_spec(c.as_slice())),
                method,
            }
        },
        InviteSource::Registered { user } => Mismatch {
            user,
            claimed: text_or_empty(presented),
            method,
        },
        _ => {
            let user = match proved {
                Proof::Valid { user } => user.clone(),
                _ => {
                    let e = String::new();
                    assert(e@ =~= Seq::empty());
                    e
                },
            };
            Mismatch { user, claimed: text_or_empty(presented), method }
        },
    }
}

/// What a flagged INVITE is reported with.
pub fn flagged_identity(request: &SipRequest, facts: &InviteFacts, flag: bool) -> (r: Option<Mismatch>)
    ensures
        identity::opt_mismatch(r) == invite_mismatch(request@.headers, *facts, flag),
{
    if !flag {
        return None;
    }
    let presented = caller_user(request);
    let source = invite_source(
        facts.source_ip.as_str(),
        &facts.trunk_ips,
        &facts.bindings,
        &presented,
    );
    let from_text = text_or_empty(from_of(&request.headers));
    Some(identity_claim(presented, from_text.as_str(), source, &facts.proof))
}

/// The user of the From of a request.
pub fn caller_user(request: &SipRequest) -> (r: Option<String>)
    ensures
        text::opt_string(r) == presented_user(request@.headers),
{
    match from_of(&request.headers) {
        Some(v) => match parse_name_addr(v.as_str()) {
            Some(a) => a.user,
            None => None,
        },
        None => None,
    }
}

/// The headers that a refusal has besides the echoed ones.
pub open spec fn refusal_extras(name: Seq<char>, value: Seq<char>) -> Seq<(Seq<char>, Seq<char>)> {
    seq![(name, value)]
}

/// A final with one further header; None where the request lacks the headers
/// that a response echoes.
pub open spec fn refusal_text(
    hs: Seq<Seq<char>>,
    status: u16,
    name: Seq<char>,
    value: Seq<char>,
    tag: Seq<char>,
) -> Option<Seq<char>> {
    responses::echo_response(
        status,
        responses::echoed_pairs(responses::via_pairs(hs), hs, responses::response_to(hs, tag)),
        refusal_extras(name, value),
    )
}

/// A final with one further header, given the tag to add to its To.
pub fn refusal_with(request: &SipRequest, status: u16, name: &str, value: &str, tag: &str) -> (r:
    Option<String>)
    ensures
        text::opt_string(r) == refusal_text(request@.headers, status, name@, value@, tag@),
{
    let vias = vias_of(&request.headers);
    let to = response_to_of(&request.headers, tag);
    let mut extra: Vec<(String, String)> = Vec::new();
    extra.push((name.to_string(), value.to_string()));
    assert(responses::text_pairs(extra@) =~= refusal_extras(name@, value@));
    build_echo_response(request, status, &vias, to, &extra)
}

/// A final with one further header, such as a 420 with the extensions that
/// are not supported or a 503 with the time to wait.
pub fn refusal(request: &SipRequest, status: u16, name: &str, value: &str) -> (r: Option<String>)
    ensures
        exists|tag: Seq<char>|
            responses::is_tag(tag) && text::opt_string(r) == #[trigger] refusal_text(
                request@.headers,
                status,
                name@,
                value@,
                tag,
            ),
{
    let tag = new_tag();
    refusal_with(request, status, name, value, tag.as_str())
}

/// The 407 that challenges an INVITE, its To under a given tag.
pub fn build_invite_407_with(request: &SipRequest, challenge: &str, tag: &str) -> (r: Option<String>)
    ensures
        text::opt_string(r) == refusal_text(
            request@.headers,
            407,
            "Proxy-Authenticate"@,
            challenge@,
            tag@,
        ),
{
    refusal_with(request, 407, "Proxy-Authenticate", challenge, tag)
}

/// The 407 that challenges an INVITE.
pub fn build_invite_407(request: &SipRequest, challenge: &str) -> (r: Option<String>)
    ensures
        exists|tag: Seq<char>|
            responses::is_tag(tag) && text::opt_string(r) == #[trigger] refusal_text(
                request@.headers,
                407,
                "Proxy-Authenticate"@,
                challenge@,
                tag,
            ),
{
    refusal(request, 407, "Proxy-Authenticate", challenge)
}

/// What a limit means for an INVITE: the status of its refusal, and the
/// seconds after which it may be tried again.
pub open spec fn limit_refusal_of(d: LimitDecision) -> Option<(u16, Option<u64>)> {
    match d {
        LimitDecision::Allowed => None,
        LimitDecision::ConcurrentExceeded { .. } => Some((403u16, None)),
        LimitDecision::RateExceeded { retry_after_secs, .. } => Some(
            (503u16, Some(retry_after_secs)),
        ),
    }
}

/// What a limit means for an INVITE.
pub fn limit_refusal(d: &LimitDecision) -> (r: Option<(u16, Option<u64>)>)
    ensures
        r == limit_refusal_of(*d),
{
    match d {
        LimitDecision::Allowed => None,
        LimitDecision::ConcurrentExceeded { .. } => Some((403, None)),
        LimitDecision::RateExceeded { retry_after_secs, .. } => Some((503, Some(*retry_after_secs))),
    }
}

// ── Routing ─────────────────────────────────────────────────────────────

/// What the routing of an admitted INVITE looks at.
pub struct RouteFacts {
    /// The callee's registration, where there is one.
    pub contact: Option<ContactFacts>,
    /// The number was mapped to a local user.
    pub did_mapped: bool,
    pub from_trunk: bool,
    /// The destination is blocked.
    pub blocked: bool,
    /// Trunks that could take the call.
    pub candidates: usize,
    /// The first of them has an address.
    pub first_has_address: bool,
}

/// A registration, as far as routing needs it.
pub struct ContactFacts {
    pub transport: Transport,
    /// Its connection is open.
    pub alive: bool,
}

/// Where an INVITE goes.
#[derive(Debug, Clone, Copy, PartialEq, Eq, Structural)]
pub enum InviteRoute {
    /// To the registered contact.
    Contact,
    /// To the first trunk, the others standing by.
    Trunk,
    /// Nowhere: refused with this status.
    Refused { status: u16 },
}

/// Where an INVITE goes: to the callee's registration where there is one
/// (over its own connection, if it is a WebSocket); a mapped number without
/// one is unavailable; a trunk's call to an unknown number is not routed out
/// again; and any other goes to a trunk unless it is blocked.
pub open spec fn route_of(f: RouteFacts) -> InviteRoute {
    match f.contact {
        Some(c) => if call_handler::is_websocket(c.transport) && !c.alive {
            InviteRoute::Refused { status: 480 }
        } else {
            InviteRoute::Contact
        },
        None => if f.did_mapped {
            InviteRoute::Refused { status: 480 }
        } else if f.from_trunk {
            InviteRoute::Refused { status: 404 }
        } else if f.blocked {
            InviteRoute::Refused { status: 403 }
        } else if f.candidates == 0 || !f.first_has_address {
            InviteRoute::Refused { status: 503 }
        } else {
            InviteRoute::Trunk
        },
    }
}

/// Where an INVITE goes.
pub fn route_invite(f: &RouteFacts) -> (r: InviteRoute)
    ensures
        r == route_of(*f),
{
    match &f.contact {
        Some(c) => {
            let ws = match c.transport {
                Transport::Ws => true,
                Transport::Wss => true,
                _ => false,
            };
            if ws && !c.alive {
                InviteRoute::Refused { status: 480 }
            } else {
                InviteRoute::Contact
            }
        },
        None => if f.did_mapped {
            InviteRoute::Refused { status: 480 }
        } else if f.from_trunk {
            InviteRoute::Refused { status: 404 }
        } else if f.blocked {
            InviteRoute::Refused { status: 403 }
        } else if f.candidates == 0 || !f.first_has_address {
            InviteRoute::Refused { status: 503 }
        } else {
            InviteRoute::Trunk
        },
    }
}

/// The latest of times; the last of them where several are.
pub open spec fn latest(s: Seq<u64>) -> int
    decreases s.len(),
{
    if s.len() <= 1 {
        s.len() - 1
    } else {
        let k = latest(s.drop_last());
        if s.last() >= s[k] {
            s.len() - 1
        } else {
            k
        }
    }
}

/// The contact that was registered last.
pub fn latest_contact(registered_at: &Vec<u64>) -> (r: Option<usize>)
    ensures
        match r {
            Some(i) => i < registered_at@.len() && i == latest(registered_at@) && forall|k: int|
                0 <= k < registered_at@.len() ==> #[trigger] registered_at@[k]
                    <= registered_at@[i as int],
            None => registered_at@.len() == 0,
        },
{
    if registered_at.len() == 0 {
        return None;
    }
    let ghost s = registered_at@;
    let mut best: usize = 0;
    let mut i: usize = 1;
    assert(s.take(1).len() == 1);
    while i < registered_at.len()
        invariant
            s == registered_at@,
            1 <= i <= s.len(),
            best < i,
            best == latest(s.take(i as int)),
            forall|k: int| 0 <= k < i ==> #[trigger] s[k] <= s[best as int],
        decreases s.len() - i,
    {
        assert(s.take(i + 1).drop_last() =~= s.take(i as int));
        assert(s.take(i + 1)[best as int] == s[best as int]);
        if registered_at[i] >= registered_at[best] {
            best = i;
        }
        i = i + 1;
    }
    assert(s.take(s.len() as int) =~= s);
    Some(best)
}

/// The transport of a registration, by its name.
pub open spec fn named_transport(name: Seq<char>) -> Transport {
    if name == "WSS"@ {
        Transport::Wss
    } else if name == "WS"@ {
        Transport::Ws
    } else if name == "TLS"@ {
        Transport::Tls
    } else if name == "TCP"@ {
        Transport::Tcp
    } else {
        Transport::Udp
    }
}

/// The transport of a registration, by its name.
pub fn registered_transport(name: &str) -> (r: Transport)
    ensures
        r == named_transport(name@),
{
    if same_str(name, "WSS") {
        Transport::Wss
    } else if same_str(name, "WS") {
        Transport::Ws
    } else if same_str(name, "TLS") {
        Transport::Tls
    } else if same_str(name, "TCP") {
        Transport::Tcp
    } else {
        Transport::Udp
    }
}

/// The name of a transport in a Via, and the port that goes with it.
pub open spec fn transport_words(t: Transport) -> (Seq<char>, u16) {
    match t {
        Transport::Tls => ("TLS"@, 5061u16),
        Transport::Tcp => ("TCP"@, 5060u16),
        Transport::Wss => ("WSS"@, 5061u16),
        Transport::Ws => ("WS"@, 5060u16),
        _ => ("UDP"@, 5060u16),
    }
}

/// The name of the outbound transport in a Via, and the port of this side
/// that goes with it.
pub fn outbound_transport(t: Transport) -> (r: (&'static str, u16))
    ensures
        (r.0@, r.1) == transport_words(t),
{
    match t {
        Transport::Tls => ("TLS", 5061),
        Transport::Tcp => ("TCP", 5060),
        Transport::Wss => ("WSS", 5061),
        Transport::Ws => ("WS", 5060),
        _ => ("UDP", 5060),
    }
}

/// The Via lines of a request, for its responses.
pub open spec fn via_lines(hs: Seq<Seq<char>>) -> Seq<Seq<char>>
    decreases hs.len(),
{
    if hs.len() == 0 {
        hs
    } else if sip_builder::is_via_line(hs.last()) {
        via_lines(hs.drop_last()).push(hs.last())
    } else {
        via_lines(hs.drop_last())
    }
}

/// The Via lines of a request as they are, for its responses.
pub fn caller_vias(headers: &Vec<String>) -> (r: Vec<String>)
    ensures
        text::string_views(r@) == via_lines(text::string_views(headers@)),
{
    let ghost hs = text::string_views(headers@);
    let mut out: Vec<String> = Vec::new();
    let mut i: usize = 0;
    assert(text::string_views(out@) =~= via_lines(hs.take(0)));
    while i < headers.len()
        invariant
            i <= headers@.len(),
            hs == text::string_views(headers@),
            text::string_views(out@) == via_lines(hs.take(i as int)),
        decreases headers@.len() - i,
    {
        let line = chars_of(headers[i].as_str());
        assert(hs.take(i + 1).drop_last() =~= hs.take(i as int));
        assert(hs.take(i + 1).last() == line@);
        if has_prefix_word(line.as_slice(), "via:") || has_prefix_word(line.as_slice(), "v:") {
            let ghost before = out@;
            let s = headers[i].clone();
            out.push(s);
            assert(text::string_views(out@) =~= text::string_views(before).push(s@));
        }
        i = i + 1;
    }
    assert(hs.take(hs.len() as int) =~= hs);
    out
}

// ── Session descriptions ────────────────────────────────────────────────

/// What becomes of a session description on its way.
#[derive(Debug, Clone, Copy, PartialEq, Eq, Structural)]
pub enum SdpPlan {
    /// A WebRTC offer of this side, at this port.
    Offer { port: u16 },
    /// Plain RTP for a trunk, at this port.
    Plain { port: u16 },
    /// Address and port of the relay.
    Relay { port: u16 },
    /// The public address only.
    AddressOnly,
    /// The WebRTC answer made for this caller.
    Answer,
    /// As it is.
    Keep,
}

/// The description of an INVITE: `media` holds the ports of the caller's leg
/// and of the callee's.
pub open spec fn invite_sdp_plan(
    callee_webrtc: bool,
    caller_webrtc: bool,
    media: Option<(u16, Option<u16>)>,
) -> SdpPlan {
    if callee_webrtc {
        SdpPlan::Offer {
            port: match media {
                Some((_, Some(b))) => b,
                _ => 10000,
            },
        }
    } else if caller_webrtc {
        SdpPlan::Plain {
            port: match media {
                Some((a, b)) => match b {
                    Some(p) => p,
                    None => a,
                },
                None => 10000,
            },
        }
    } else {
        match media {
            Some((a, b)) => SdpPlan::Relay {
                port: match b {
                    Some(p) => p,
                    None => a,
                },
            },
            None => SdpPlan::AddressOnly,
        }
    }
}

/// What becomes of the description in an INVITE.
pub fn plan_invite_sdp(callee_webrtc: bool, caller_webrtc: bool, media: Option<(u16, Option<u16>)>) -> (r:
    SdpPlan)
    ensures
        r == invite_sdp_plan(callee_webrtc, caller_webrtc, media),
{
    if callee_webrtc {
        match media {
            Some((_, b)) => match b {
                Some(p) => SdpPlan::Offer { port: p },
                None => SdpPlan::Offer { port: 10000 },
            },
            None => SdpPlan::Offer { port: 10000 },
        }
    } else if caller_webrtc {
        match media {
            Some((a, b)) => match b {
                Some(p) => SdpPlan::Plain { port: p },
                None => SdpPlan::Plain { port: a },
            },
            None => SdpPlan::Plain { port: 10000 },
        }
    } else {
        match media {
            Some((a, b)) => match b {
                Some(p) => SdpPlan::Relay { port: p },
                None => SdpPlan::Relay { port: a },
            },
            None => SdpPlan::AddressOnly,
        }
    }
}

// ── Session timer ───────────────────────────────────────────────────────

/// The headers that offer a session timer.
pub open spec fn timer_lines(expires: nat, min_se: nat) -> Seq<char> {
    "Supported: timer\r\nSession-Expires: "@ + text::decimal(expires) + "\r\nMin-SE: "@ + text::decimal(min_se)
        + "\r\n"@
}

/// A message with a session timer offered before its length.
pub open spec fn timed_text(raw: Seq<char>, expires: nat, min_se: nat) -> Seq<char> {
    let p = text::find_str(text::lower(raw), "content-length:"@, 0);
    if p < raw.len() {
        raw.take(p) + timer_lines(expires, min_se) + raw.skip(p)
    } else {
        raw
    }
}

/// Insert `Supported: timer`, `Session-Expires` and `Min-SE` before the
/// Content-Length of a raw INVITE; without a Content-Length it stays.
pub fn inject_session_timer_headers(raw: &str, expires: u32, min_se: u32) -> (r: String)
    ensures
        r@ == timed_text(raw@, expires as nat, min_se as nat),
{
    let c = chars_of(raw);
    let low_text = lower_string(c.as_slice());
    let low = chars_of(low_text.as_str());
    assert(low@.len() == c@.len());
    let p: usize = position_of_word(low.as_slice(), "content-length:", 0);
    if p == c.len() {
        return raw.to_string();
    }
    let mut out = string_of(slice_subrange(c.as_slice(), 0, p));
    out.push_str("Supported: timer\r\nSession-Expires: ");
    out.push_str(decimal_of(expires as u64).as_str());
    out.push_str("\r\nMin-SE: ");
    out.push_str(decimal_of(min_se as u64).as_str());
    out.push_str("\r\n");
    assert(c@.subrange(0, p as int) =~= c@.take(p as int));
    assert(out@ =~= c@.take(p as int) + timer_lines(expires as nat, min_se as nat));
    let rest = slice_subrange(c.as_slice(), p, c.len());
    assert(rest@ =~= c@.skip(p as int));
    out.push_str(string_of(rest).as_str());
    out
}

// ── The next trunk ──────────────────────────────────────────────────────

/// The parts of a request line that begins with INVITE: URI and version.
pub open spec fn invite_line(first: Seq<char>) -> Option<(Seq<char>, Seq<char>)> {
    match text::split_once(first, ' ') {
        Some((m, rest)) => if m == "INVITE"@ {
            match text::split_once(rest, ' ') {
                Some((uri, version)) => Some((uri, version)),
                None => Some((rest, "SIP/2.0"@)),
            }
        } else {
            None
        },
        None => None,
    }
}

/// The user that a URI with a scheme calls, without parameters.
pub open spec fn called_user(uri: Seq<char>) -> Option<Seq<char>> {
    if text::starts_with(uri, "sip:"@) {
        Some(text::split_char(text::split_char(uri.skip("sip:"@.len() as int), '@')[0], ';')[0])
    } else if text::starts_with(uri, "sips:"@) {
        Some(text::split_char(text::split_char(uri.skip("sips:"@.len() as int), '@')[0], ';')[0])
    } else {
        None
    }
}

/// The number that a stored INVITE calls.
pub open spec fn stored_user(raw: Seq<char>) -> Option<Seq<char>> {
    match invite_line(text::lines(raw)[0]) {
        Some((uri, _)) => called_user(uri),
        None => None,
    }
}

fn called_user_of(uri: &[char]) -> (r: Option<String>)
    ensures
        text::opt_string(r) == called_user(uri@),
{
    let n: usize;
    if has_prefix(uri, "sip:") {
        n = word_len("sip:");
    } else if has_prefix(uri, "sips:") {
        n = word_len("sips:");
    } else {
        return None;
    }
    let rest = slice_subrange(uri, n, uri.len());
    assert(rest@ =~= uri@.skip(n as int));
    let a = split_on(rest, '@');
    assert(text::views(a@)[0] == a@[0]@);
    let b = split_on(a[0], ';');
    assert(text::views(b@)[0] == b@[0]@);
    Some(string_of(b[0]))
}

fn invite_line_of<'a>(first: &'a [char]) -> (r: Option<(&'a [char], String)>)
    ensures
        match r {
            Some((uri, version)) => invite_line(first@) == Some((uri@, version@)),
            None => invite_line(first@) is None,
        },
{
    match split_once_at(first, ' ') {
        None => None,
        Some((m, rest)) => {
            if !is_exactly(m, "INVITE") {
                return None;
            }
            match split_once_at(rest, ' ') {
                Some((uri, version)) => Some((uri, string_of(version))),
                None => Some((rest, "SIP/2.0".to_string())),
            }
        },
    }
}

/// The number that a stored INVITE calls, for the form that the next trunk
/// wants; None where it is no INVITE.
pub fn retarget_number(raw_invite: &str) -> (r: Option<String>)
    ensures
        text::opt_string(r) == stored_user(raw_invite@),
{
    let c = chars_of(raw_invite);
    let ls = split_lines(c.as_slice());
    assert(text::views(ls@)[0] == ls@[0]@);
    match invite_line_of(ls[0]) {
        Some((uri, _)) => called_user_of(uri),
        None => None,
    }
}

/// The lines with a new branch in the first Via, which is looked for up to
/// the first empty line.
pub open spec fn rebranched(ls: Seq<Seq<char>>, b: Seq<char>) -> Seq<Seq<char>>
    decreases ls.len(),
{
    if ls.len() == 0 {
        ls
    } else if sip_builder::is_via_line(ls[0]) {
        seq![
            if sip_builder::branch_at(ls[0]) < ls[0].len() {
                sip_builder::with_branch(ls[0], b)
            } else {
                ls[0]
            },
        ] + ls.skip(1)
    } else if ls[0].len() == 0 {
        ls
    } else {
        seq![ls[0]] + rebranched(ls.skip(1), b)
    }
}

/// The request line for the next trunk.
pub open spec fn retargeted_line(
    number: Seq<char>,
    host: Seq<char>,
    port: u16,
    version: Seq<char>,
) -> Seq<char> {
    "INVITE sip:"@ + number + "@"@ + host + ":"@ + text::decimal(port as nat) + " "@ + version
}

/// A stored INVITE turned to the next trunk.
pub open spec fn retargeted_text(
    raw: Seq<char>,
    number: Seq<char>,
    host: Seq<char>,
    port: u16,
    b: Seq<char>,
) -> Option<Seq<char>> {
    let ls = text::lines(raw);
    match (invite_line(ls[0]), stored_user(raw)) {
        (Some((_, version)), Some(_)) => Some(
            text::join_lines(
                seq![retargeted_line(number, host, port, version)] + rebranched(ls.skip(1), b),
            ),
        ),
        _ => None,
    }
}

/// Turn a stored INVITE to another trunk under a given branch: the request
/// line names the trunk and the number in its form, the top Via gets the
/// branch, and the rest stays. None where it is no INVITE.
pub fn retarget_invite_for_trunk_with(
    raw_invite: &str,
    number: &str,
    host: &str,
    port: u16,
    branch: &str,
) -> (r: Option<String>)
    ensures
        text::opt_string(r) == retargeted_text(raw_invite@, number@, host@, port, branch@),
{
    let c = chars_of(raw_invite);
    let ls = split_lines(c.as_slice());
    let ghost vs = text::views(ls@);
    assert(vs[0] == ls@[0]@);
    let version = match invite_line_of(ls[0]) {
        Some((uri, v)) => {
            if called_user_of(uri).is_none() {
                return None;
            }
            v
        },
        None => {
            return None;
        },
    };
    let mut first = "INVITE sip:".to_string();
    first.push_str(number);
    first.push_str("@");
    first.push_str(host);
    first.push_str(":");
    first.push_str(decimal_of(port as u64).as_str());
    first.push_str(" ");
    first.push_str(version.as_str());
    let ghost line = first@;
    assert(line =~= retargeted_line(number@, host@, port, version@));
    let mut out: Vec<String> = Vec::new();
    out.push(first);
    assert(text::string_views(out@) =~= seq![line]);
    let ghost goal = seq![line] + rebranched(vs.skip(1), branch@);
    let mut looking = true;
    let mut i: usize = 1;
    while i < ls.len()
        invariant
            1 <= i <= ls@.len(),
            vs == text::views(ls@),
            looking ==> text::string_views(out@) + rebranched(vs.skip(i as int), branch@) == goal,
            !looking ==> text::string_views(out@) + vs.skip(i as int) == goal,
        decreases ls@.len() - i,
    {
        let l = ls[i];
        let ghost rest = vs.skip(i as int);
        assert(rest[0] == l@);
        assert(rest.skip(1) =~= vs.skip(i + 1));
        let ghost before = text::string_views(out@);
        let ghost prev = out@;
        let next: String;
        if looking && (has_prefix_word(l, "via:") || has_prefix_word(l, "v:")) {
            if branch_position(l) < l.len() {
                next = put_branch(l, branch);
            } else {
                next = string_of(l);
            }
            looking = false;
            assert(before + rebranched(rest, branch@) =~= before.push(next@) + vs.skip(i + 1));
        } else {
            if l.len() == 0 && looking {
                looking = false;
                assert(rebranched(rest, branch@) == rest);
            }
            next = string_of(l);
            assert(rest =~= seq![l@] + vs.skip(i + 1));
            if looking {
                assert(before + rebranched(rest, branch@) =~= before.push(next@) + rebranched(
                    vs.skip(i + 1),
                    branch@,
                ));
            } else {
                assert(before + rest =~= before.push(next@) + vs.skip(i + 1));
            }
        }
        out.push(next);
        assert(text::string_views(out@) =~= before.push(next@));
        i = i + 1;
    }
    assert(text::string_views(out@) =~= goal) by {
        assert(vs.skip(i as int) =~= Seq::empty());
        assert(rebranched(vs.skip(i as int), branch@) =~= Seq::empty());
    }
    Some(join_of(&out))
}

/// Turn a stored INVITE to another trunk under a fresh branch.
pub fn retarget_invite_for_trunk(raw_invite: &str, number: &str, host: &str, port: u16) -> (r:
    Option<String>)
    ensures
        exists|b: Seq<char>|
            sip_builder::is_fresh_branch(b) && text::opt_string(r) == #[trigger] retargeted_text(
                raw_invite@,
                number@,
                host@,
                port,
                b,
            ),
{
    let branch = new_branch();
    retarget_invite_for_trunk_with(raw_invite, number, host, port, branch.as_str())
}

/// A trunk that stands by, as far as it is known.
pub struct Candidate {
    /// It is still configured.
    pub known: bool,
    pub has_address: bool,
}

/// The first trunk that a call can fail over to.
pub open spec fn next_usable(s: Seq<Candidate>) -> Option<int>
    decreases s.len(),
{
    if s.len() == 0 {
        None
    } else if s[0].known && s[0].has_address {
        Some(0)
    } else {
        match next_usable(s.skip(1)) {
            Some(i) => Some(i + 1),
            None => None,
        }
    }
}

/// The first trunk that a call can fail over to; those that are gone or have
/// no address are passed over.
pub fn next_failover_trunk(candidates: &Vec<Candidate>) -> (r: Option<usize>)
    ensures
        match r {
            Some(i) => i < candidates@.len() && next_usable(candidates@) == Some(i as int)
                && candidates@[i as int].known && candidates@[i as int].has_address,
            None => next_usable(candidates@) is None,
        },
{
    let ghost s = candidates@;
    let mut i: usize = 0;
    assert(s.skip(0) =~= s);
    while i < candidates.len()
        invariant
            i <= s.len(),
            s == candidates@,
            next_usable(s) == (match next_usable(s.skip(i as int)) {
                Some(k) => Some(k + i),
                None => None,
            }),
        decreases s.len() - i,
    {
        assert(s.skip(i as int)[0] == s[i as int]);
        assert(s.skip(i as int).skip(1) =~= s.skip(i + 1));
        if candidates[i].known && candidates[i].has_address {
            return Some(i);
        }
        i = i + 1;
    }
    None
}

/// What a failover sends.
#[derive(Debug)]
pub struct Failover {
    /// CANCEL of the attempt that is given up.
    pub cancel: Option<String>,
    /// The INVITE for the next trunk; None where it cannot be turned to it.
    pub invite: Option<String>,
}

/// The failover gives up the stored attempt, where its destination is known,
/// and turns its INVITE to the trunk.
pub open spec fn is_failover(
    f: Failover,
    raw: Seq<char>,
    previous_known: bool,
    number: Seq<char>,
    host: Seq<char>,
    port: u16,
    branch: Seq<char>,
) -> bool {
    &&& text::opt_string(f.invite) == retargeted_text(raw, number, host, port, branch)
    &&& text::opt_string(f.cancel) == (if previous_known {
        call_handler::callee_cancel(Some(raw))
    } else {
        None
    })
}

/// What a failover to a trunk sends, under a given branch: a CANCEL for the
/// attempt before, where its destination is known, and the INVITE turned to
/// the trunk. None where no INVITE is stored.
pub fn failover_to_next_trunk_with(
    stored_invite: Option<String>,
    previous_known: bool,
    number: &str,
    host: &str,
    port: u16,
    branch: &str,
) -> (r: Option<Failover>)
    ensures
        match call_handler::not_empty(text::opt_string(stored_invite)) {
            None => r is None,
            Some(raw) => r matches Some(f) && is_failover(
                f,
                raw,
                previous_known,
                number@,
                host@,
                port,
                branch@,
            ),
        },
{
    let raw = match stored_invite {
        Some(s) => s,
        None => {
            return None;
        },
    };
    if raw.as_str().is_empty() {
        return None;
    }
    let invite = retarget_invite_for_trunk_with(raw.as_str(), number, host, port, branch);
    let cancel = if previous_known {
        build_cancel(raw.as_str())
    } else {
        None
    };
    Some(Failover { cancel, invite })
}

/// What a failover to a trunk sends, under a fresh branch.
pub fn failover_to_next_trunk(
    stored_invite: Option<String>,
    previous_known: bool,
    number: &str,
    host: &str,
    port: u16,
) -> (r: Option<Failover>)
    ensures
        match call_handler::not_empty(text::opt_string(stored_invite)) {
            None => r is None,
            Some(raw) => r matches Some(f) && exists|branch: Seq<char>|
                sip_builder::is_fresh_branch(branch) && #[trigger] is_failover(
                    f,
                    raw,
                    previous_known,
                    number@,
                    host@,
                    port,
                    branch,
                ),
        },
{
    let branch = new_branch();
    failover_to_next_trunk_with(
        stored_invite,
        previous_known,
        number,
        host,
        port,
        branch.as_str(),
    )
}

/// A call whose attempt was not answered in time.
pub struct SlowAttempt {
    pub uuid: String,
    /// It has a trunk left to try.
    pub has_next: bool,
    pub direction: String,
    pub trunk_name: Option<String>,
    pub callee_responded: bool,
}

/// The calls that have a trunk left to try, each with the trunk that gave no
/// answer at all.
pub open spec fn failing_over(s: Seq<SlowAttempt>) -> Seq<(Seq<char>, Option<Seq<char>>)>
    decreases s.len(),
{
    if s.len() == 0 {
        Seq::empty()
    } else if s.last().has_next {
        failing_over(s.drop_last()).push(
            (
                s.last().uuid@,
                trunk_state::silent_trunk(
                    s.last().direction@,
                    text::opt_string(s.last().trunk_name),
                    s.last().callee_responded,
                ),
            ),
        )
    } else {
        failing_over(s.drop_last())
    }
}

/// The calls to fail over, of those whose attempt was not answered in time,
/// and the trunks that left them without any answer, which is a failure of
/// the trunk. A call that has no trunk left to try is left to the timer of
/// its setup.
pub fn check_invite_failover(timed_out: &Vec<SlowAttempt>) -> (r: Vec<StaleCall>)
    ensures
        cdr::stale_views(r@) == failing_over(timed_out@),
{
    let mut out: Vec<StaleCall> = Vec::new();
    assert(cdr::stale_views(out@) =~= Seq::empty());
    assert(timed_out@.take(0) =~= Seq::empty());
    let mut i: usize = 0;
    while i < timed_out.len()
        invariant
            i <= timed_out@.len(),
            cdr::stale_views(out@) == failing_over(timed_out@.take(i as int)),
        decreases timed_out@.len() - i,
    {
        assert(timed_out@.take(i + 1).drop_last() =~= timed_out@.take(i as int));
        let ghost before = out@;
        let c = &timed_out[i];
        if c.has_next {
            let strike = silent_outbound_trunk_of(
                c.direction.as_str(),
                &c.trunk_name,
                c.callee_responded,
            );
            let slow = StaleCall { uuid: c.uuid.clone(), strike };
            out.push(slow);
            assert(cdr::stale_views(out@) =~= cdr::stale_views(before).push(
                (slow.uuid@, text::opt_string(slow.strike)),
            ));
        }
        i = i + 1;
    }
    assert(timed_out@.take(timed_out@.len() as int) =~= timed_out@);
    out
}

// ── Credentials for a trunk ─────────────────────────────────────────────

/// What a trunk knows of its credentials.
pub struct TrunkAuth {
    pub auth_required: bool,
    pub username: Option<String>,
    pub password: Option<String>,
}

/// First Proxy-Authenticate value of a raw response.
pub open spec fn proxy_challenge(ls: Seq<Seq<char>>) -> Option<Seq<char>> {
    message::first_value(ls, "proxy-authenticate:"@, "proxy-authenticate:"@)
}

/// Why a challenge is not met, or what it takes.
pub enum RetryPlan {
    GiveUp,
    /// Answer the challenge with these credentials for this URI.
    Answer { username: String, password: String, challenge: String, uri: String },
}

/// Whether a challenge can be met: once for a call, with a stored INVITE and
/// the credentials of a trunk that has them.
pub open spec fn retry_possible(
    stored: Option<(Seq<char>, u32)>,
    trunk: Option<TrunkAuth>,
    challenge: Option<Seq<char>>,
) -> bool {
    match (stored, trunk) {
        (Some((invite, tries)), Some(t)) => tries < 1 && invite.len() > 0 && t.auth_required
            && t.username is Some && t.password is Some && challenge is Some,
        _ => false,
    }
}

/// What a 407 of a trunk leads to.
pub fn handle_407_auth_retry(
    stored: Option<(String, u32)>,
    trunk: Option<TrunkAuth>,
    response_headers: &Vec<String>,
) -> (r: RetryPlan)
    ensures
        ({
            let challenge = proxy_challenge(text::string_views(response_headers@));
            let s = match stored {
                Some((i, n)) => Some((i@, n)),
                None => None,
            };
            match r {
                RetryPlan::GiveUp => !retry_possible(s, trunk, challenge),
                RetryPlan::Answer { username, password, challenge: c, uri } => {
                    &&& retry_possible(s, trunk, challenge)
                    &&& Some(username@) == text::opt_string(trunk->0.username)
                    &&& Some(password@) == text::opt_string(trunk->0.password)
                    &&& Some(c@) == challenge
                    &&& uri@ == (match raw_request_uri((s->0).0) {
                        Some(u) => u,
                        None => "sip:unknown@unknown"@,
                    })
                },
            }
        }),
{
    match (stored, trunk) {
        (Some((invite, tries)), Some(t)) => {
            if tries >= 1 || invite.as_str().is_empty() || !t.auth_required {
                return RetryPlan::GiveUp;
            }
            match (t.username, t.password) {
                (Some(username), Some(password)) => match value_of(
                    response_headers,
                    "proxy-authenticate:",
                    "proxy-authenticate:",
                ) {
                    Some(challenge) => {
                        let uri = match extract_request_uri_from_raw(invite.as_str()) {
                            Some(u) => u,
                            None => "sip:unknown@unknown".to_string(),
                        };
                        RetryPlan::Answer { username, password, challenge, uri }
                    },
                    None => RetryPlan::GiveUp,
                },
                _ => RetryPlan::GiveUp,
            }
        },
        _ => RetryPlan::GiveUp,
    }
}

// ── Headers of a forwarded INVITE ───────────────────────────────────────

/// A header in which a user asserts who they are, or their credentials.
pub open spec fn is_private_header(l: Seq<char>) -> bool {
    ||| headers::is_header(l, "p-asserted-identity"@, "p-preferred-identity"@)
    ||| headers::is_header(l, "remote-party-id"@, "remote-party-id"@)
    ||| headers::is_header(l, "authorization"@, "proxy-authorization"@)
}

/// A header line as it is forwarded: nothing of a user's own assertions and
/// credentials, no offer of extensions, and one hop less.
pub open spec fn forwarded_line(l: Seq<char>) -> Option<Seq<char>> {
    if is_private_header(l) || headers::is_header(l, "supported"@, "k"@) {
        None
    } else if headers::is_header(l, "max-forwards"@, "max-forwards"@) {
        match text::parse_uint(headers::header_field(l), u32::MAX as nat) {
            Some(n) => Some(
                "Max-Forwards: "@ + text::decimal(
                    if n > 0 {
                        (n - 1) as nat
                    } else {
                        0
                    },
                ),
            ),
            None => Some(l),
        }
    } else {
        Some(l)
    }
}

pub open spec fn forwarded_headers(hs: Seq<Seq<char>>) -> Seq<Seq<char>>
    decreases hs.len(),
{
    if hs.len() == 0 {
        hs
    } else {
        match forwarded_line(hs.last()) {
            Some(l) => forwarded_headers(hs.drop_last()).push(l),
            None => forwarded_headers(hs.drop_last()),
        }
    }
}

fn forward_line(line: &[char]) -> (r: Option<String>)
    ensures
        text::opt_string(r) == forwarded_line(line@),
{
    if header_is(line, "p-asserted-identity", "p-preferred-identity") || header_is(
        line,
        "remote-party-id",
        "remote-party-id",
    ) || header_is(line, "authorization", "proxy-authorization") || header_is(
        line,
        "supported",
        "k",
    ) {
        return None;
    }
    if header_is(line, "max-forwards", "max-forwards") {
        if let Some(n) = parse_u32(field_of(line)) {
            let left: u32 = if n > 0 {
                n - 1
            } else {
                0
            };
            let mut s = "Max-Forwards: ".to_string();
            s.push_str(decimal_of(left as u64).as_str());
            return Some(s);
        }
    }
    Some(string_of(line))
}

/// The headers of an INVITE of a local user as they are forwarded.
pub fn forward_headers(headers: &Vec<String>) -> (r: Vec<String>)
    ensures
        text::string_views(r@) == forwarded_headers(text::string_views(headers@)),
{
    let ghost hs = text::string_views(headers@);
    let mut out: Vec<String> = Vec::new();
    let mut i: usize = 0;
    assert(text::string_views(out@) =~= forwarded_headers(hs.take(0)));
    while i < headers.len()
        invariant
            i <= headers@.len(),
            hs == text::string_views(headers@),
            text::string_views(out@) == forwarded_headers(hs.take(i as int)),
        decreases headers@.len() - i,
    {
        let line = chars_of(headers[i].as_str());
        assert(hs.take(i + 1).drop_last() =~= hs.take(i as int));
        assert(hs.take(i + 1).last() == line@);
        if let Some(s) = forward_line(line.as_slice()) {
            let ghost before = out@;
            out.push(s);
            assert(text::string_views(out@) =~= text::string_views(before).push(s@));
        }
        i = i + 1;
    }
    assert(hs.take(hs.len() as int) =~= hs);
    out
}

// ── Laws ────────────────────────────────────────────────────────────────

/// No call is placed on a local user's account but from this host, from a
/// host where that user is registered, or with that user's credentials.
pub proof fn law_account_is_proved(hs: Seq<Seq<char>>, f: InviteFacts, user: Seq<char>)
    requires
        admission_of(hs, f) == (AdmissionView::Admitted { user: Some(user), flag: false }),
    ensures
        source_in(hs, f) is Local || source_in(hs, f) == (SourceView::Registered { user }) || (
        source_in(hs, f) is Unknown && (f.proof matches Proof::Valid { user: u } && u@ == user)),
        source_in(hs, f) is Registered ==> is_bound_at(f.bindings@, f.source_ip@, user),
        presented_user(hs) == Some(user),
{
    lemma_registered_is_bound(f.bindings@, f.source_ip@);
}

/// A trunk's call is on no local user's account, whatever it presents, and a
/// trunk is never counted as an attacker.
pub proof fn law_trunk_is_on_no_account(hs: Seq<Seq<char>>, f: InviteFacts)
    requires
        source_in(hs, f) is Trunk,
    ensures
        admission_of(hs, f) matches AdmissionView::Admitted { user, .. } ==> user is None,
        admission_of(hs, f) matches AdmissionView::Refused { strike, .. } ==> !strike,
{
}

/// Only an unknown source counts towards a ban, and a challenge does not.
pub proof fn law_only_unknown_sources_are_struck(hs: Seq<Seq<char>>, f: InviteFacts)
    requires
        admission_of(hs, f) matches AdmissionView::Refused { strike, .. } && strike,
    ensures
        source_in(hs, f) is Unknown,
        !(claims_of(hs, f).from_is_local && f.proof is Missing),
{
}

/// Every user that is registered from an address is let in from there under
/// their own From, however many share the address.
pub proof fn law_users_share_an_address(hs: Seq<Seq<char>>, f: InviteFacts, i: int)
    requires
        0 <= i < f.bindings@.len(),
        f.bindings@[i].received_ip@ == f.source_ip@,
        presented_user(hs) == Some(dialed_user(f.bindings@[i].aor@)),
        !(source_in(hs, f) is Local) && !(source_in(hs, f) is Trunk),
        !claims_of(hs, f).in_dialog,
        max_forwards(hs) != Some(0nat),
        unsupported_required(hs).len() == 0,
    ensures
        admission_of(hs, f) == (AdmissionView::Admitted { user: presented_user(hs), flag: false }),
{
    lemma_bound_is_registered(f.bindings@, f.source_ip@, i);
    assert(is_bound_at(f.bindings@, f.source_ip@, dialed_user(f.bindings@[i].aor@)));
}

/// An INVITE opens no call where its To has a tag and its call is known, and
/// is taken for part of that call in no other case.
pub proof fn law_reinvite_is_in_its_dialog(hs: Seq<Seq<char>>, f: InviteFacts)
    ensures
        admission_of(hs, f) is Reinvite <==> to_tag(hs) is Some && f.call_known,
{
}

/// A trunk's call is never routed out to a trunk again.
pub proof fn law_trunk_call_is_not_looped(f: RouteFacts)
    requires
        f.from_trunk,
    ensures
        route_of(f) != InviteRoute::Trunk,
{
}

/// Nothing that a user asserts of themselves, nor their credentials, is
/// forwarded.
pub proof fn law_private_headers_stay_here(hs: Seq<Seq<char>>, i: int)
    requires
        0 <= i < forwarded_headers(hs).len(),
    ensures
        !is_private_header(forwarded_headers(hs)[i]),
    decreases hs.len(),
{
    if hs.len() > 0 {
        let d = forwarded_headers(hs.drop_last());
        if i < d.len() {
            law_private_headers_stay_here(hs.drop_last(), i);
        } else {
            lemma_forwarded_is_public(hs.last());
        }
    }
}

proof fn lemma_forwarded_is_public(l: Seq<char>)
    requires
        forwarded_line(l) is Some,
    ensures
        !is_private_header(forwarded_line(l)->0),
{
    let r = forwarded_line(l)->0;
    if headers::is_header(l, "max-forwards"@, "max-forwards"@) && text::parse_uint(
        headers::header_field(l),
        u32::MAX as nat,
    ) is Some {
        let n = text::parse_uint(headers::header_field(l), u32::MAX as nat)->0;
        let v = text::decimal(
            if n > 0 {
                (n - 1) as nat
            } else {
                0
            },
        );
        reveal_strlit("Max-Forwards: ");
        reveal_strlit("Max-Forwards");
        reveal_strlit(": ");
        assert(r =~= "Max-Forwards"@ + ": "@ + v);
        lemma_names_of_forwarding();
        response_laws::lemma_named_line("Max-Forwards"@, v, "p-asserted-identity"@, "p-preferred-identity"@);
        response_laws::lemma_named_line("Max-Forwards"@, v, "remote-party-id"@, "remote-party-id"@);
        response_laws::lemma_named_line("Max-Forwards"@, v, "authorization"@, "proxy-authorization"@);
    }
}

proof fn lemma_names_of_forwarding()
    ensures
        sip_laws::is_name("Max-Forwards"@),
        !sip_laws::asks_for("Max-Forwards"@, "p-asserted-identity"@, "p-preferred-identity"@),
        !sip_laws::asks_for("Max-Forwards"@, "remote-party-id"@, "remote-party-id"@),
        !sip_laws::asks_for("Max-Forwards"@, "authorization"@, "proxy-authorization"@),
{
    reveal_strlit("Max-Forwards");
    reveal_strlit("p-asserted-identity");
    reveal_strlit("p-preferred-identity");
    reveal_strlit("remote-party-id");
    reveal_strlit("authorization");
    reveal_strlit("proxy-authorization");
    sip_laws::lemma_same_text_len("Max-Forwards"@, "p-asserted-identity"@);
    sip_laws::lemma_same_text_len("Max-Forwards"@, "p-preferred-identity"@);
    sip_laws::lemma_same_text_len("Max-Forwards"@, "remote-party-id"@);
    sip_laws::lemma_same_text_len("Max-Forwards"@, "authorization"@);
    sip_laws::lemma_same_text_len("Max-Forwards"@, "proxy-authorization"@);
}

/// Every hop takes one from Max-Forwards, so a loop ends.
pub proof fn law_each_hop_counts(l: Seq<char>, n: nat)
    requires
        headers::is_header(l, "max-forwards"@, "max-forwards"@),
        !is_private_header(l),
        !headers::is_header(l, "supported"@, "k"@),
        text::parse_uint(headers::header_field(l), u32::MAX as nat) == Some(n),
        n > 0,
    ensures
        forwarded_line(l) == Some("Max-Forwards: "@ + text::decimal((n - 1) as nat)),
{
}

/// Turning an INVITE to another trunk changes its request line and the
/// branch of its top Via, and no other line.
pub proof fn law_retarget_keeps_the_rest(ls: Seq<Seq<char>>, b: Seq<char>, i: int)
    requires
        0 <= i < ls.len(),
        !sip_builder::is_via_line(ls[i]),
    ensures
        rebranched(ls, b).len() == ls.len(),
        rebranched(ls, b)[i] == ls[i],
    decreases ls.len(),
{
    if !sip_builder::is_via_line(ls[0]) && ls[0].len() > 0 {
        if i > 0 {
            assert(ls.skip(1)[i - 1] == ls[i]);
            law_retarget_keeps_the_rest(ls.skip(1), b, i - 1);
        } else {
            lemma_rebranched_len(ls.skip(1), b);
        }
    }
}

proof fn lemma_rebranched_len(ls: Seq<Seq<char>>, b: Seq<char>)
    ensures
        rebranched(ls, b).len() == ls.len(),
    decreases ls.len(),
{
    if ls.len() > 0 && !sip_builder::is_via_line(ls[0]) && ls[0].len() > 0 {
        lemma_rebranched_len(ls.skip(1), b);
    }
}

} // verus!
