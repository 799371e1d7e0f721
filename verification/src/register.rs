//! Registration: which REGISTER is believed, what it binds, and how it is
//! answered.

use crate::client_tx::Transport;
use crate::headers::field_of;
use crate::headers;
use crate::identity::{IdentityPolicy, Mismatch, authorize_aor, brackets_ordered, enforces, lower_string, normalize_aor};
use crate::identity;
use crate::invite_handler::{extract_contact_uri, refusal, refusal_with};
use crate::invite_handler;
use crate::message::{SipRequest, contact_of, to_of, value_of};
use crate::message;
use crate::responses::{build_echo_response, new_tag, response_to_of, top_via_of};
use crate::responses;
use crate::security::manager::EventView;
use crate::security::manager;
use crate::text::{chars_of, clone_opt, decimal_of, has_prefix, has_prefix_word, parse_u32, same_str, split_on, string_of, trimmed, word_len};
use crate::text;
use vstd::prelude::*;
use vstd::slice::slice_subrange;

verus! {

// ── Lifetime of a binding ───────────────────────────────────────────────

/// The text without the character at its end.
pub open spec fn strip_end(s: Seq<char>, c: char) -> Seq<char>
    decreases s.len(),
{
    if s.len() > 0 && s.last() == c {
        strip_end(s.drop_last(), c)
    } else {
        s
    }
}

/// The text without the character at its start.
pub open spec fn strip_start(s: Seq<char>, c: char) -> Seq<char>
    decreases s.len(),
{
    if s.len() > 0 && s[0] == c {
        strip_start(s.skip(1), c)
    } else {
        s
    }
}

/// The seconds of an `expires=` parameter.
pub open spec fn expires_param(p: Seq<char>) -> Option<nat> {
    let t = text::trim(p);
    if text::starts_with(t, "expires="@) {
        text::parse_uint(
            strip_end(strip_start(t.skip("expires="@.len() as int), '>'), '>'),
            u32::MAX as nat,
        )
    } else {
        None
    }
}

pub open spec fn first_expires(parts: Seq<Seq<char>>) -> Option<nat>
    decreases parts.len(),
{
    if parts.len() == 0 {
        None
    } else {
        match expires_param(parts[0]) {
            Some(n) => Some(n),
            None => first_expires(parts.skip(1)),
        }
    }
}

/// The lifetime that a Contact value asks for itself.
pub open spec fn contact_lifetime(contact: Seq<char>) -> Option<nat> {
    first_expires(text::split_char(text::lower(contact), ';').skip(1))
}

fn expires_param_of(p: &[char]) -> (r: Option<u32>)
    ensures
        match r {
            Some(n) => expires_param(p@) == Some(n as nat),
            None => expires_param(p@) is None,
        },
{
    let t = trimmed(p);
    if !has_prefix(t, "expires=") {
        return None;
    }
    let ghost all = t@.skip("expires="@.len() as int);
    let mut v = slice_subrange(t, word_len("expires="), t.len());
    assert(v@ =~= all);
    while v.len() > 0 && v[0] == '>'
        invariant
            strip_start(v@, '>') == strip_start(all, '>'),
        decreases v@.len(),
    {
        let ghost before = v@;
        v = slice_subrange(v, 1, v.len());
        assert(v@ =~= before.skip(1));
    }
    assert(v@ == strip_start(all, '>'));
    let ghost mid = v@;
    while v.len() > 0 && v[v.len() - 1] == '>'
        invariant
            strip_end(v@, '>') == strip_end(mid, '>'),
        decreases v@.len(),
    {
        let ghost before = v@;
        v = slice_subrange(v, 0, v.len() - 1);
        assert(v@ =~= before.drop_last());
    }
    parse_u32(v)
}

/// The lifetime that a Contact value asks for itself (`;expires=N`).
pub fn contact_expires(contact: &str) -> (r: Option<u32>)
    ensures
        match r {
            Some(n) => contact_lifetime(contact@) == Some(n as nat),
            None => contact_lifetime(contact@) is None,
        },
{
    let c = chars_of(contact);
    let low_text = lower_string(c.as_slice());
    let low = chars_of(low_text.as_str());
    let parts = split_on(low.as_slice(), ';');
    let ghost all = text::views(parts@);
    let mut i: usize = 1;
    while i < parts.len()
        invariant
            1 <= i <= parts@.len(),
            all == text::views(parts@),
            all == text::split_char(text::lower(contact@), ';'),
            first_expires(all.skip(1)) == first_expires(all.skip(i as int)),
        decreases parts@.len() - i,
    {
        assert(all.skip(i as int)[0] == parts@[i as int]@);
        assert(all.skip(i as int).skip(1) =~= all.skip(i + 1));
        if let Some(n) = expires_param_of(parts[i]) {
            return Some(n);
        }
        i = i + 1;
    }
    None
}

/// The lifetime that a REGISTER asks for a contact: that of the contact,
/// else that of the request, else an hour.
pub open spec fn asked_lifetime(contact: Seq<char>, header: Option<nat>) -> nat {
    match contact_lifetime(contact) {
        Some(n) => n,
        None => match header {
            Some(n) => n,
            None => 3600,
        },
    }
}

/// The Expires header of a request.
pub open spec fn expires_header(hs: Seq<Seq<char>>) -> Option<nat> {
    match message::first_value(hs, "expires:"@, "expires:"@) {
        Some(v) => text::parse_uint(v, u32::MAX as nat),
        None => None,
    }
}

// ── What a REGISTER does ────────────────────────────────────────────────

/// What the credentials of a REGISTER show.
#[derive(Debug)]
pub enum RegisterAuth {
    /// None are wanted.
    NotRequired,
    Missing,
    Valid { user: String },
    /// The challenge they answer is too old.
    Stale,
    /// They were used before, in another request.
    Replay,
    /// Not of the expected form.
    Malformed,
    /// Wrong password or unknown user; with the name that was given, where
    /// one can be read.
    Failed { user: Option<String> },
}

/// The bounds on the lifetime of a binding, in seconds.
pub struct RegisterPolicy {
    pub min_expires: u32,
    pub max_expires: u32,
}

/// What a REGISTER leads to.
#[derive(Debug)]
pub enum RegisterPlan {
    /// 401 with a challenge; `stale` where the old one has run out.
    Challenge { stale: bool },
    /// 400.
    BadRequest,
    /// 403; `strike` counts against the source, under the name that wrong
    /// credentials give.
    Forbidden { strike: bool, user: Option<String> },
    /// 423: the lifetime is below the least allowed.
    TooBrief { min_expires: u32 },
    /// 200 with the bindings there are.
    Query,
    /// Remove every binding.
    RemoveAll,
    /// Set these bindings: contact value and seconds, 0 to remove one.
    Bind { bindings: Vec<(String, u32)> },
}

/// A plan by its contents.
pub enum RegisterView {
    Challenge { stale: bool },
    BadRequest,
    Forbidden { strike: bool, user: Option<Seq<char>> },
    TooBrief { min_expires: u32 },
    Query,
    RemoveAll,
    Bind { bindings: Seq<(Seq<char>, nat)> },
}

pub open spec fn binding_views(v: Seq<(String, u32)>) -> Seq<(Seq<char>, nat)> {
    v.map_values(|b: (String, u32)| (b.0@, b.1 as nat))
}

impl View for RegisterPlan {
    type V = RegisterView;

    open spec fn view(&self) -> RegisterView {
        match *self {
            RegisterPlan::Challenge { stale } => RegisterView::Challenge { stale },
            RegisterPlan::BadRequest => RegisterView::BadRequest,
            RegisterPlan::Forbidden { strike, user } => RegisterView::Forbidden {
                strike,
                user: text::opt_string(user),
            },
            RegisterPlan::TooBrief { min_expires } => RegisterView::TooBrief { min_expires },
            RegisterPlan::Query => RegisterView::Query,
            RegisterPlan::RemoveAll => RegisterView::RemoveAll,
            RegisterPlan::Bind { bindings } => RegisterView::Bind {
                bindings: binding_views(bindings@),
            },
        }
    }
}

/// The Contact values of header lines.
pub open spec fn contact_values(hs: Seq<Seq<char>>) -> Seq<Seq<char>>
    decreases hs.len(),
{
    if hs.len() == 0 {
        hs
    } else if text::starts_with_word(hs.last(), "contact:"@) || text::starts_with_word(hs.last(), "m:"@) {
        contact_values(hs.drop_last()).push(headers::header_field(hs.last()))
    } else {
        contact_values(hs.drop_last())
    }
}

/// A contact that can be called.
pub open spec fn is_contact(v: Seq<char>) -> bool {
    text::starts_with(invite_handler::contact_uri_of(v), "sip:"@) || text::starts_with(invite_handler::contact_uri_of(v), "sips:"@)
}

pub open spec fn below(n: nat, min: nat) -> bool {
    0 < n < min
}

/// A lifetime within the largest allowed.
pub open spec fn clamped(n: nat, max: nat) -> nat {
    if n > max {
        max
    } else {
        n
    }
}

/// The bindings that contacts ask for.
pub open spec fn asked_bindings(cs: Seq<Seq<char>>, header: Option<nat>, max: nat) -> Seq<
    (Seq<char>, nat),
>
    decreases cs.len(),
{
    if cs.len() == 0 {
        Seq::empty()
    } else {
        asked_bindings(cs.drop_last(), header, max).push(
            (cs.last(), clamped(asked_lifetime(cs.last(), header), max)),
        )
    }
}

pub open spec fn all_contacts(cs: Seq<Seq<char>>) -> bool {
    forall|i: int| 0 <= i < cs.len() ==> is_contact(#[trigger] cs[i])
}

pub open spec fn some_too_brief(cs: Seq<Seq<char>>, header: Option<nat>, min: nat) -> bool {
    exists|i: int| 0 <= i < cs.len() && below(asked_lifetime(#[trigger] cs[i], header), min)
}

/// What the contacts of a REGISTER ask for.
pub open spec fn contact_plan(hs: Seq<Seq<char>>, policy: RegisterPolicy) -> RegisterView {
    let cs = contact_values(hs);
    let header = expires_header(hs);
    if cs.len() == 0 {
        RegisterView::Query
    } else if cs.contains("*"@) {
        if cs.len() == 1 && header == Some(0nat) {
            RegisterView::RemoveAll
        } else {
            RegisterView::BadRequest
        }
    } else if !all_contacts(cs) {
        RegisterView::BadRequest
    } else if some_too_brief(cs, header, policy.min_expires as nat) {
        RegisterView::TooBrief { min_expires: policy.min_expires }
    } else {
        RegisterView::Bind { bindings: asked_bindings(cs, header, policy.max_expires as nat) }
    }
}

/// Whether an authenticated user is refused for an address of record.
pub open spec fn aor_refused(
    user: Seq<char>,
    aor: Seq<char>,
    served: Seq<Seq<char>>,
    enforce: bool,
    configured: nat,
) -> bool {
    match identity::aor_objection(user, aor, served) {
        Some(why) => identity::refuses(why, enforce, configured),
        None => false,
    }
}

/// What a REGISTER for an address of record leads to.
pub open spec fn register_plan(
    auth: RegisterAuth,
    aor: Seq<char>,
    hs: Seq<Seq<char>>,
    served: Seq<Seq<char>>,
    id: IdentityPolicy,
    policy: RegisterPolicy,
) -> RegisterView {
    match auth {
        RegisterAuth::Missing => RegisterView::Challenge { stale: false },
        RegisterAuth::Stale => RegisterView::Challenge { stale: true },
        RegisterAuth::Replay => RegisterView::Challenge { stale: true },
        RegisterAuth::Malformed => RegisterView::BadRequest,
        RegisterAuth::Failed { user } => RegisterView::Forbidden { strike: true, user: text::opt_string(user) },
        RegisterAuth::NotRequired => contact_plan(hs, policy),
        RegisterAuth::Valid { user } => if aor_refused(
            user@,
            aor,
            served,
            id.enforce_register_aor,
            id.served_domains@.len(),
        ) {
            RegisterView::Forbidden { strike: false, user: None }
        } else {
            contact_plan(hs, policy)
        },
    }
}

fn contacts_of(headers: &Vec<String>) -> (r: Vec<String>)
    ensures
        text::string_views(r@) == contact_values(text::string_views(headers@)),
{
    let ghost hs = text::string_views(headers@);
    let mut out: Vec<String> = Vec::new();
    let mut i: usize = 0;
    assert(text::string_views(out@) =~= contact_values(hs.take(0)));
    while i < headers.len()
        invariant
            i <= headers@.len(),
            hs == text::string_views(headers@),
            text::string_views(out@) == contact_values(hs.take(i as int)),
        decreases headers@.len() - i,
    {
        let line = chars_of(headers[i].as_str());
        assert(hs.take(i + 1).drop_last() =~= hs.take(i as int));
        assert(hs.take(i + 1).last() == line@);
        if has_prefix_word(line.as_slice(), "contact:") || has_prefix_word(line.as_slice(), "m:") {
            let ghost before = out@;
            let s = string_of(field_of(line.as_slice()));
            out.push(s);
            assert(text::string_views(out@) =~= text::string_views(before).push(s@));
        }
        i = i + 1;
    }
    assert(hs.take(hs.len() as int) =~= hs);
    out
}

fn expires_header_of(headers: &Vec<String>) -> (r: Option<u32>)
    ensures
        match r {
            Some(n) => expires_header(text::string_views(headers@)) == Some(n as nat),
            None => expires_header(text::string_views(headers@)) is None,
        },
{
    match value_of(headers, "expires:", "expires:") {
        Some(v) => {
            let c = chars_of(v.as_str());
            parse_u32(c.as_slice())
        },
        None => None,
    }
}

fn has_contact_uri(value: &str) -> (r: bool)
    ensures
        r == is_contact(value@),
{
    let u = extract_contact_uri(value);
    let c = chars_of(u.as_str());
    has_prefix(c.as_slice(), "sip:") || has_prefix(c.as_slice(), "sips:")
}

fn lifetime_of(contact: &str, header: Option<u32>) -> (r: u32)
    ensures
        r as nat == asked_lifetime(
            contact@,
            match header {
                Some(n) => Some(n as nat),
                None => None,
            },
        ),
{
    match contact_expires(contact) {
        Some(n) => n,
        None => match header {
            Some(n) => n,
            None => 3600,
        },
    }
}

/// What the contacts of a REGISTER ask for: without one the bindings are
/// listed; `*` removes them all, with a lifetime of zero only; a contact
/// that cannot be called, or a lifetime below the least, refuses the whole.
pub fn plan_contacts(headers: &Vec<String>, policy: &RegisterPolicy) -> (r: RegisterPlan)
    ensures
        r@ == contact_plan(text::string_views(headers@), *policy),
{
    let cs = contacts_of(headers);
    let ghost all = text::string_views(cs@);
    let header = expires_header_of(headers);
    let ghost h: Option<nat> = match header {
        Some(n) => Some(n as nat),
        None => None,
    };
    if cs.len() == 0 {
        return RegisterPlan::Query;
    }
    let mut star = false;
    let mut callable = true;
    let mut brief = false;
    let mut bindings: Vec<(String, u32)> = Vec::new();
    let mut i: usize = 0;
    assert(binding_views(bindings@) =~= asked_bindings(all.take(0), h, policy.max_expires as nat));
    while i < cs.len()
        invariant
            i <= cs@.len(),
            all == text::string_views(cs@),
            h == (match header {
                Some(n) => Some(n as nat),
                None => None::<nat>,
            }),
            star <==> (exists|k: int| 0 <= k < i && #[trigger] all[k] == "*"@),
            callable <==> (forall|k: int| 0 <= k < i ==> is_contact(#[trigger] all[k])),
            brief <==> (exists|k: int|
                0 <= k < i && below(asked_lifetime(#[trigger] all[k], h), policy.min_expires as nat)),
            binding_views(bindings@) == asked_bindings(
                all.take(i as int),
                h,
                policy.max_expires as nat,
            ),
        decreases cs@.len() - i,
    {
        let v = cs[i].as_str();
        assert(all[i as int] == v@);
        assert(all.take(i + 1).drop_last() =~= all.take(i as int));
        assert(all.take(i + 1).last() == v@);
        if same_str(v, "*") {
            star = true;
        }
        if !has_contact_uri(v) {
            callable = false;
        }
        let n: u32 = lifetime_of(v, header);
        if 0 < n && n < policy.min_expires {
            brief = true;
        }
        let kept: u32 = if n > policy.max_expires {
            policy.max_expires
        } else {
            n
        };
        let ghost before = bindings@;
        let b = (v.to_string(), kept);
        bindings.push(b);
        assert(binding_views(bindings@) =~= binding_views(before).push((b.0@, b.1 as nat)));
        i = i + 1;
    }
    assert(all.take(all.len() as int) =~= all);
    assert(star == all.contains("*"@)) by {
        if all.contains("*"@) {
            let k = choose|k: int| 0 <= k < all.len() && all[k] == "*"@;
            assert(all[k] == "*"@);
        }
    }
    if star {
        let zero = match header {
            Some(n) => n == 0,
            None => false,
        };
        if cs.len() == 1 && zero {
            return RegisterPlan::RemoveAll;
        }
        return RegisterPlan::BadRequest;
    }
    if !callable {
        return RegisterPlan::BadRequest;
    }
    if brief {
        return RegisterPlan::TooBrief { min_expires: policy.min_expires };
    }
    RegisterPlan::Bind { bindings }
}

/// A valid user that acts for an address of record which is not its own.
pub open spec fn register_mismatch(auth: RegisterAuth, aor: Seq<char>, served: Seq<Seq<char>>) -> Option<
    (Seq<char>, Seq<char>, Seq<char>),
> {
    match auth {
        RegisterAuth::Valid { user } => if identity::aor_objection(user@, aor, served) is Some {
            Some((user@, aor, "REGISTER"@))
        } else {
            None
        },
        _ => None,
    }
}

/// The address of record that a REGISTER is for: the To, without brackets and
/// display name. None without a To, or where its brackets are out of order.
pub open spec fn registered_aor(hs: Seq<Seq<char>>) -> Option<Seq<char>> {
    match message::to_value(hs) {
        Some(v) => if identity::brackets_in_order(v) {
            Some(identity::normalized_aor(v))
        } else {
            None
        },
        None => None,
    }
}

/// The address of record that a REGISTER is for.
pub fn register_aor(headers: &Vec<String>) -> (r: Option<String>)
    ensures
        text::opt_string(r) == registered_aor(text::string_views(headers@)),
{
    match to_of(headers) {
        Some(v) => if brackets_ordered(v.as_str()) {
            Some(normalize_aor(v.as_str()))
        } else {
            None
        },
        None => None,
    }
}

/// What a REGISTER leads to: first its credentials, then whether the user
/// may act for the address of record, then its contacts. The second part of
/// the result reports a user that acts for another address, whether that is
/// refused or not.
pub fn handle_register(
    auth: &RegisterAuth,
    aor: &str,
    headers: &Vec<String>,
    served: &Vec<String>,
    identity: &IdentityPolicy,
    policy: &RegisterPolicy,
) -> (r: (RegisterPlan, Option<Mismatch>))
    ensures
        r.0@ == register_plan(
            *auth,
            aor@,
            text::string_views(headers@),
            text::string_views(served@),
            *identity,
            *policy,
        ),
        identity::opt_mismatch(r.1) == register_mismatch(*auth, aor@, text::string_views(served@)),
{
    match auth {
        RegisterAuth::Missing => (RegisterPlan::Challenge { stale: false }, None),
        RegisterAuth::Stale => (RegisterPlan::Challenge { stale: true }, None),
        RegisterAuth::Replay => (RegisterPlan::Challenge { stale: true }, None),
        RegisterAuth::Malformed => (RegisterPlan::BadRequest, None),
        RegisterAuth::Failed { user } => (
            RegisterPlan::Forbidden { strike: true, user: clone_opt(user) },
            None,
        ),
        RegisterAuth::NotRequired => (plan_contacts(headers, policy), None),
        RegisterAuth::Valid { user } => match authorize_aor(user.as_str(), aor, served) {
            Ok(_) => (plan_contacts(headers, policy), None),
            Err(why) => {
                let plan = if enforces(identity, &why) {
                    RegisterPlan::Forbidden { strike: false, user: None }
                } else {
                    plan_contacts(headers, policy)
                };
                (
                    plan,
                    Some(
                        Mismatch {
                            user: user.clone(),
                            claimed: aor.to_string(),
                            method: "REGISTER".to_string(),
                        },
                    ),
                )
            },
        },
    }
}

/// Whether a binding keeps the connection that its REGISTER came on: a
/// client behind a NAT is reached over it only.
pub fn keeps_connection(transport: Transport) -> (r: bool)
    ensures
        r == (transport == Transport::Ws || transport == Transport::Wss || transport
            == Transport::Tls || transport == Transport::Tcp),
{
    match transport {
        Transport::Ws => true,
        Transport::Wss => true,
        Transport::Tls => true,
        Transport::Tcp => true,
        _ => false,
    }
}

// ── Answers ─────────────────────────────────────────────────────────────

/// The challenge to a REGISTER.
pub open spec fn register_401_text(hs: Seq<Seq<char>>, challenge: Seq<char>, tag: Seq<char>) -> Option<
    Seq<char>,
> {
    responses::echo_response(
        401,
        responses::echoed_pairs(
            match message::first_value(hs, "via:"@, "v:"@) {
                Some(v) => seq![("Via"@, v)],
                None => Seq::empty(),
            },
            hs,
            responses::response_to(hs, tag),
        ),
        seq![("WWW-Authenticate"@, challenge)],
    )
}

/// A 401 with a challenge, its To under a given tag.
pub fn build_register_401_with(request: &SipRequest, challenge: &str, tag: &str) -> (r: Option<
    String,
>)
    ensures
        text::opt_string(r) == register_401_text(request@.headers, challenge@, tag@),
{
    let vias = top_via_of(&request.headers);
    let to = response_to_of(&request.headers, tag);
    let mut extra: Vec<(String, String)> = Vec::new();
    extra.push(("WWW-Authenticate".to_string(), challenge.to_string()));
    assert(responses::text_pairs(extra@) =~= seq![("WWW-Authenticate"@, challenge@)]);
    build_echo_response(request, 401, &vias, to, &extra)
}

/// A 401 with a challenge.
pub fn build_register_401(request: &SipRequest, challenge: &str) -> (r: Option<String>)
    ensures
        exists|tag: Seq<char>|
            responses::is_tag(tag) && text::opt_string(r) == #[trigger] register_401_text(
                request@.headers,
                challenge@,
                tag,
            ),
{
    let tag = new_tag();
    build_register_401_with(request, challenge, tag.as_str())
}

/// The Contact headers that list bindings.
pub open spec fn binding_pairs(v: Seq<(Seq<char>, nat)>) -> Seq<(Seq<char>, Seq<char>)>
    decreases v.len(),
{
    if v.len() == 0 {
        Seq::empty()
    } else {
        binding_pairs(v.drop_last()).push(
            ("Contact"@, "<"@ + v.last().0 + ">;expires="@ + text::decimal(v.last().1)),
        )
    }
}

/// The headers of a successful REGISTER besides the echoed ones: the
/// bindings, else the contact of the request; and unless bindings were only
/// asked for, the lifetime of the first.
pub open spec fn register_200_extras(
    hs: Seq<Seq<char>>,
    bindings: Seq<(Seq<char>, nat)>,
    query: bool,
) -> Seq<(Seq<char>, Seq<char>)> {
    binding_pairs(bindings) + (if bindings.len() == 0 && message::contact_value(hs) is Some {
        seq![("Contact"@, message::contact_value(hs)->0)]
    } else {
        Seq::empty()
    }) + (if query {
        Seq::empty()
    } else {
        seq![
            (
                "Expires"@,
                text::decimal(
                    if bindings.len() > 0 {
                        bindings[0].1
                    } else {
                        3600
                    },
                ),
            ),
        ]
    })
}

/// The answer to a successful REGISTER.
pub open spec fn register_200_text(
    hs: Seq<Seq<char>>,
    bindings: Seq<(Seq<char>, nat)>,
    query: bool,
    tag: Seq<char>,
) -> Option<Seq<char>> {
    responses::echo_response(
        200,
        responses::echoed_pairs(
            match message::first_value(hs, "via:"@, "v:"@) {
                Some(v) => seq![("Via"@, v)],
                None => Seq::empty(),
            },
            hs,
            responses::response_to(hs, tag),
        ),
        register_200_extras(hs, bindings, query),
    )
}

/// A 200 that lists bindings (contact URI and seconds left), its To under a
/// given tag.
pub fn build_register_200_with(
    request: &SipRequest,
    bindings: &Vec<(String, u32)>,
    query: bool,
    tag: &str,
) -> (r: Option<String>)
    ensures
        text::opt_string(r) == register_200_text(
            request@.headers,
            binding_views(bindings@),
            query,
            tag@,
        ),
{
    let ghost bs = binding_views(bindings@);
    let ghost hs = request@.headers;
    let vias = top_via_of(&request.headers);
    let to = response_to_of(&request.headers, tag);
    let mut extra: Vec<(String, String)> = Vec::new();
    let mut i: usize = 0;
    assert(responses::text_pairs(extra@) =~= binding_pairs(bs.take(0)));
    while i < bindings.len()
        invariant
            i <= bindings@.len(),
            bs == binding_views(bindings@),
            responses::text_pairs(extra@) == binding_pairs(bs.take(i as int)),
        decreases bindings@.len() - i,
    {
        assert(bs.take(i + 1).drop_last() =~= bs.take(i as int));
        let mut v = "<".to_string();
        v.push_str(bindings[i].0.as_str());
        v.push_str(">;expires=");
        v.push_str(decimal_of(bindings[i].1 as u64).as_str());
        let ghost before = extra@;
        let name = "Contact".to_string();
        extra.push((name, v));
        assert(responses::text_pairs(extra@) =~= responses::text_pairs(before).push(("Contact"@, v@)));
        i = i + 1;
    }
    assert(bs.take(bs.len() as int) =~= bs);
    let ghost listed = responses::text_pairs(extra@);
    if bindings.len() == 0 {
        if let Some(c) = contact_of(&request.headers) {
            let ghost before = extra@;
            extra.push(("Contact".to_string(), c));
            assert(responses::text_pairs(extra@) =~= responses::text_pairs(before).push(("Contact"@, c@)));
        }
    }
    let ghost echoed = responses::text_pairs(extra@);
    assert(echoed =~= listed + (if bs.len() == 0 && message::contact_value(hs) is Some {
        seq![("Contact"@, message::contact_value(hs)->0)]
    } else {
        Seq::empty()
    }));
    if !query {
        let secs: u32 = if bindings.len() > 0 {
            bindings[0].1
        } else {
            3600
        };
        let ghost before = extra@;
        let v = decimal_of(secs as u64);
        extra.push(("Expires".to_string(), v));
        assert(responses::text_pairs(extra@) =~= responses::text_pairs(before).push(("Expires"@, v@)));
    }
    assert(responses::text_pairs(extra@) =~= register_200_extras(hs, bs, query));
    build_echo_response(request, 200, &vias, to, &extra)
}

/// A 200 that lists bindings.
pub fn build_register_200(request: &SipRequest, bindings: &Vec<(String, u32)>, query: bool) -> (r:
    Option<String>)
    ensures
        exists|tag: Seq<char>|
            responses::is_tag(tag) && text::opt_string(r) == #[trigger] register_200_text(
                request@.headers,
                binding_views(bindings@),
                query,
                tag,
            ),
{
    let tag = new_tag();
    build_register_200_with(request, bindings, query, tag.as_str())
}

/// The refusal of a lifetime that is too short, with the least allowed, given
/// the tag to add to its To.
pub fn build_register_423_with(request: &SipRequest, min_expires: u32, tag: &str) -> (r: Option<
    String,
>)
    ensures
        text::opt_string(r) == invite_handler::refusal_text(
            request@.headers,
            423,
            "Min-Expires"@,
            text::decimal(min_expires as nat),
            tag@,
        ),
{
    refusal_with(request, 423, "Min-Expires", decimal_of(min_expires as u64).as_str(), tag)
}

/// The refusal of a lifetime that is too short, with the least allowed.
pub fn build_register_423(request: &SipRequest, min_expires: u32) -> (r: Option<String>)
    ensures
        exists|tag: Seq<char>|
            responses::is_tag(tag) && text::opt_string(r) == #[trigger] invite_handler::refusal_text(
                request@.headers,
                423,
                "Min-Expires"@,
                text::decimal(min_expires as nat),
                tag,
            ),
{
    refusal(request, 423, "Min-Expires", decimal_of(min_expires as u64).as_str())
}

// ── Laws ────────────────────────────────────────────────────────────────

/// Where credentials are wanted, nothing is bound without valid ones.
pub proof fn law_binding_needs_credentials(
    auth: RegisterAuth,
    aor: Seq<char>,
    hs: Seq<Seq<char>>,
    served: Seq<Seq<char>>,
    id: IdentityPolicy,
    policy: RegisterPolicy,
)
    requires
        ({
            let p = register_plan(auth, aor, hs, served, id, policy);
            p is Bind || p is RemoveAll || p is Query
        }),
    ensures
        auth is NotRequired || auth is Valid,
{
}

/// While the check is enforced, a user binds and unbinds their own address
/// of record only.
pub proof fn law_user_binds_own_address_only(
    user: String,
    aor: Seq<char>,
    hs: Seq<Seq<char>>,
    served: Seq<Seq<char>>,
    id: IdentityPolicy,
    policy: RegisterPolicy,
)
    requires
        id.enforce_register_aor,
        ({
            let p = register_plan(RegisterAuth::Valid { user }, aor, hs, served, id, policy);
            p is Bind || p is RemoveAll || p is Query
        }),
    ensures
        identity::or_empty(identity::user_part(aor)) == user@,
{
}

/// Only wrong credentials count towards a ban, under the name that they give:
/// not a missing, an old or a repeated answer, nor a user that acts for
/// another address.
pub proof fn law_only_wrong_credentials_are_struck(
    auth: RegisterAuth,
    aor: Seq<char>,
    hs: Seq<Seq<char>>,
    served: Seq<Seq<char>>,
    id: IdentityPolicy,
    policy: RegisterPolicy,
)
    requires
        register_plan(auth, aor, hs, served, id, policy) matches RegisterView::Forbidden {
            strike,
            ..
        } && strike,
    ensures
        auth is Failed,
        register_plan(auth, aor, hs, served, id, policy) == (RegisterView::Forbidden {
            strike: true,
            user: text::opt_string(auth->Failed_user),
        }),
{
}

/// Whoever acts for an address of record of another is reported with the
/// address and the method, also where the check is not enforced; whoever acts
/// for their own is not.
pub proof fn law_mismatch_is_reported(
    user: String,
    ip: Seq<char>,
    aor: Seq<char>,
    served: Seq<Seq<char>>,
    ts: u64,
)
    ensures
        manager::mismatch_report(ip, register_mismatch(RegisterAuth::Valid { user }, aor, served), ts)
            is Some <==> identity::aor_objection(user@, aor, served) is Some,
        identity::or_empty(identity::user_part(aor)) != user@ ==> manager::mismatch_report(
            ip,
            register_mismatch(RegisterAuth::Valid { user }, aor, served),
            ts,
        ) == Some(
            EventView::IdentityMismatch {
                ip,
                user: user@,
                claimed: aor,
                method: "REGISTER"@,
                ts,
            },
        ),
{
}

/// No binding is made for longer than allowed, nor, unless it is removed,
/// for less.
pub proof fn law_lifetimes_are_bounded(hs: Seq<Seq<char>>, policy: RegisterPolicy, i: int)
    requires
        policy.min_expires <= policy.max_expires,
        contact_plan(hs, policy) is Bind,
        0 <= i < (contact_plan(hs, policy)->bindings).len(),
    ensures
        (contact_plan(hs, policy)->bindings)[i].1 <= policy.max_expires,
        (contact_plan(hs, policy)->bindings)[i].1 == 0 || (contact_plan(hs, policy)->bindings)[i].1
            >= policy.min_expires,
{
    let cs = contact_values(hs);
    lemma_asked_bindings(cs, expires_header(hs), policy.max_expires as nat, i);
    assert(!below(asked_lifetime(cs[i], expires_header(hs)), policy.min_expires as nat));
}

proof fn lemma_asked_bindings(cs: Seq<Seq<char>>, header: Option<nat>, max: nat, i: int)
    requires
        0 <= i < asked_bindings(cs, header, max).len(),
    ensures
        asked_bindings(cs, header, max).len() == cs.len(),
        asked_bindings(cs, header, max)[i] == (
            cs[i],
            clamped(asked_lifetime(cs[i], header), max),
        ),
    decreases cs.len(),
{
    if cs.len() > 0 {
        let d = asked_bindings(cs.drop_last(), header, max);
        lemma_asked_len(cs.drop_last(), header, max);
        if i < d.len() {
            lemma_asked_bindings(cs.drop_last(), header, max, i);
        }
    }
}

proof fn lemma_asked_len(cs: Seq<Seq<char>>, header: Option<nat>, max: nat)
    ensures
        asked_bindings(cs, header, max).len() == cs.len(),
    decreases cs.len(),
{
    if cs.len() > 0 {
        lemma_asked_len(cs.drop_last(), header, max);
    }
}

} // verus!
