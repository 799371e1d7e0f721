//! SIP identities: the parts of a URI, the domains served here, and who may
//! act for which address of record.

use crate::text::{chars_of, clone_strings, has_prefix, is_word, position_of, position_of_any, same_ignoring_case, same_str, split_on, split_once_at, string_of, to_lower_char, trimmed, word_len};
use crate::text;
use vstd::prelude::*;
use vstd::slice::slice_subrange;

verus! {

// ── Searching from the end ──────────────────────────────────────────────

/// Last position before `end` that holds `c`; -1 when none does.
pub open spec fn find_last(s: Seq<char>, c: char, end: int) -> int
    decreases end,
{
    if end <= 0 {
        -1
    } else if s[end - 1] == c {
        end - 1
    } else {
        find_last(s, c, end - 1)
    }
}

pub fn last_position_of(s: &[char], c: char) -> (r: Option<usize>)
    ensures
        match r {
            Some(i) => i < s@.len() && i == find_last(s@, c, s@.len() as int) && s@[i as int] == c,
            None => find_last(s@, c, s@.len() as int) == -1,
        },
{
    let mut end: usize = s.len();
    while end > 0
        invariant
            end <= s@.len(),
            find_last(s@, c, s@.len() as int) == find_last(s@, c, end as int),
        decreases end,
    {
        if s[end - 1] == c {
            return Some(end - 1);
        }
        end = end - 1;
    }
    None
}

// ── Parts of a URI ──────────────────────────────────────────────────────

/// The addr-spec of a name-addr or addr-spec value: what is between the last
/// `<` and the following `>` (a quoted display name may contain anything),
/// else the value up to its first header parameter.
pub open spec fn addr_spec_of(value: Seq<char>) -> Seq<char> {
    let s = text::trim(value);
    let a = find_last(s, '<', s.len() as int);
    let b = text::find_char(s, '>', a + 1);
    if a >= 0 && b < s.len() {
        text::trim(s.subrange(a + 1, b))
    } else {
        text::trim(text::split_char(s, ';')[0])
    }
}

pub fn addr_spec<'a>(value: &'a [char]) -> (r: &'a [char])
    ensures
        r@ == addr_spec_of(value@),
{
    let s = trimmed(value);
    if let Some(a) = last_position_of(s, '<') {
        let n: usize = s.len();
        assert(a < n);
        let b: usize = position_of(s, '>', a + 1);
        if b < s.len() {
            return trimmed(slice_subrange(s, a + 1, b));
        }
    }
    let parts = split_on(s, ';');
    assert(text::views(parts@)[0] == parts@[0]@);
    trimmed(parts[0])
}

/// The text without a leading `sips:` or `sip:`.
pub open spec fn without_scheme(s: Seq<char>) -> Seq<char> {
    if text::starts_with(s, "sips:"@) {
        s.skip("sips:"@.len() as int)
    } else if text::starts_with(s, "sip:"@) {
        s.skip("sip:"@.len() as int)
    } else {
        s
    }
}

fn strip_scheme<'a>(s: &'a [char]) -> (r: &'a [char])
    ensures
        r@ == without_scheme(s@),
{
    if has_prefix(s, "sips:") {
        let r = slice_subrange(s, word_len("sips:"), s.len());
        assert(r@ =~= s@.skip("sips:"@.len() as int));
        r
    } else if has_prefix(s, "sip:") {
        let r = slice_subrange(s, word_len("sip:"), s.len());
        assert(r@ =~= s@.skip("sip:"@.len() as int));
        r
    } else {
        s
    }
}

/// User part of a SIP URI: what precedes the first `@`, without parameters.
pub open spec fn user_part(uri: Seq<char>) -> Option<Seq<char>> {
    match text::split_once(without_scheme(addr_spec_of(uri)), '@') {
        Some((user, _)) => {
            let u = text::trim(text::split_char(user, ';')[0]);
            if u.len() > 0 {
                Some(u)
            } else {
                None
            }
        },
        None => None,
    }
}

/// User part of a SIP URI (`sip:alice@h;p` has `alice`), None without one.
pub fn uri_user(uri: &str) -> (r: Option<String>)
    ensures
        text::opt_string(r) == user_part(uri@),
{
    let c = chars_of(uri);
    let s = strip_scheme(addr_spec(c.as_slice()));
    match split_once_at(s, '@') {
        Some((user, _)) => {
            let parts = split_on(user, ';');
            assert(text::views(parts@)[0] == parts@[0]@);
            let u = trimmed(parts[0]);
            if u.len() > 0 {
                Some(string_of(u))
            } else {
                None
            }
        },
        None => None,
    }
}

/// What follows the user in a URI, up to its parameters and headers.
pub open spec fn host_port(uri: Seq<char>) -> Seq<char> {
    let s = without_scheme(addr_spec_of(uri));
    let hp = match text::split_once(s, '@') {
        Some((_, h)) => h,
        None => s,
    };
    text::trim(hp.take(text::find_any(hp, seq![';', '>', '?'], 0)))
}

/// Host of a SIP URI, without port, parameters or brackets.
pub open spec fn host_text(uri: Seq<char>) -> Seq<char> {
    let hp = host_port(uri);
    let colon = find_last(hp, ':', hp.len() as int);
    if hp.len() > 0 && hp[0] == '[' {
        text::split_char(hp.skip(1), ']')[0]
    } else if colon >= 0 {
        hp.take(colon)
    } else {
        hp
    }
}

/// Host of a SIP URI in lower case; None where it has none.
pub open spec fn host_part(uri: Seq<char>) -> Option<Seq<char>> {
    if host_text(uri).len() > 0 {
        Some(text::lower(host_text(uri)))
    } else {
        None
    }
}

/// Host of a SIP URI, lower case, without port, parameters or brackets.
pub fn uri_host(uri: &str) -> (r: Option<String>)
    ensures
        text::opt_string(r) == host_part(uri@),
{
    let c = chars_of(uri);
    let s = strip_scheme(addr_spec(c.as_slice()));
    let hp_all = match split_once_at(s, '@') {
        Some((_, h)) => h,
        None => s,
    };
    let ends: [char; 3] = [';', '>', '?'];
    assert(ends@ =~= seq![';', '>', '?']);
    let e: usize = position_of_any(hp_all, &ends, 0);
    let hp = trimmed(slice_subrange(hp_all, 0, e));
    assert(hp_all@.subrange(0, e as int) =~= hp_all@.take(e as int));
    let host: &[char];
    if hp.len() > 0 && hp[0] == '[' {
        let rest = slice_subrange(hp, 1, hp.len());
        assert(rest@ =~= hp@.skip(1));
        let parts = split_on(rest, ']');
        assert(text::views(parts@)[0] == parts@[0]@);
        host = parts[0];
    } else {
        match last_position_of(hp, ':') {
            Some(i) => {
                host = slice_subrange(hp, 0, i);
                assert(host@ =~= hp@.take(i as int));
            },
            None => {
                host = hp;
            },
        }
    }
    assert(host@ == host_text(uri@));
    if host.len() > 0 {
        Some(lower_string(host))
    } else {
        None
    }
}

/// The text in ASCII lower case.
pub fn lower_string(s: &[char]) -> (r: String)
    ensures
        r@ == text::lower(s@),
{
    let mut out = String::new();
    let mut i: usize = 0;
    assert(out@ =~= text::lower(s@).take(0));
    while i < s.len()
        invariant
            i <= s@.len(),
            out@ == text::lower(s@).take(i as int),
        decreases s@.len() - i,
    {
        out.push(to_lower_char(s[i]));
        assert(text::lower(s@).take(i + 1) =~= text::lower(s@).take(i as int).push(text::lower_char(s@[i as int])));
        i = i + 1;
    }
    assert(text::lower(s@).take(s@.len() as int) =~= text::lower(s@));
    out
}

/// Where the last `>` follows the first `<`, if both are there.
pub open spec fn brackets_in_order(raw: Seq<char>) -> bool {
    let s = text::trim(raw);
    text::find_char(s, '<', 0) < s.len() && find_last(s, '>', s.len() as int) >= 0 ==> text::find_char(
        s,
        '<',
        0,
    ) < find_last(s, '>', s.len() as int)
}

/// Whether the last `>` follows the first `<`, if both are there.
pub fn brackets_ordered(raw: &str) -> (r: bool)
    ensures
        r == brackets_in_order(raw@),
{
    let c = chars_of(raw);
    let s = trimmed(c.as_slice());
    let a: usize = position_of(s, '<', 0);
    match last_position_of(s, '>') {
        Some(b) => a >= s.len() || a < b,
        None => true,
    }
}

/// A URI without display name and angle brackets.
pub open spec fn normalized_aor(raw: Seq<char>) -> Seq<char> {
    let s = text::trim(raw);
    let a = text::find_char(s, '<', 0);
    let b = find_last(s, '>', s.len() as int);
    if a < s.len() && b >= 0 {
        text::trim(s.subrange(a + 1, b))
    } else {
        s
    }
}

/// An address of record without angle brackets and display name:
/// `Display Name <sip:user@domain>` becomes `sip:user@domain`.
pub fn normalize_aor(raw: &str) -> (r: String)
    requires
        brackets_in_order(raw@),
    ensures
        r@ == normalized_aor(raw@),
{
    let c = chars_of(raw);
    let s = trimmed(c.as_slice());
    let a: usize = position_of(s, '<', 0);
    match last_position_of(s, '>') {
        Some(b) => {
            if a < s.len() {
                return string_of(trimmed(slice_subrange(s, a + 1, b)));
            }
        },
        None => {},
    }
    string_of(s)
}

/// User of a URI that has a scheme: what precedes the first `@`.
pub open spec fn scheme_user(uri: Seq<char>) -> Option<Seq<char>> {
    if text::starts_with(uri, "sip:"@) || text::starts_with(uri, "sips:"@) {
        let u = text::split_char(without_scheme(uri), '@')[0];
        if u.len() > 0 {
            Some(u)
        } else {
            None
        }
    } else {
        None
    }
}

/// User part of a SIP URI, its scheme required:
/// `sip:+33612345678@sip.nixi.tel` has `+33612345678`.
pub fn extract_uri_user(uri: &str) -> (r: Option<String>)
    ensures
        text::opt_string(r) == scheme_user(uri@),
{
    let c = chars_of(uri);
    if !has_prefix(c.as_slice(), "sip:") && !has_prefix(c.as_slice(), "sips:") {
        return None;
    }
    let parts = split_on(strip_scheme(c.as_slice()), '@');
    assert(text::views(parts@)[0] == parts@[0]@);
    if parts[0].len() > 0 {
        Some(string_of(parts[0]))
    } else {
        None
    }
}

// ── Policy ──────────────────────────────────────────────────────────────

/// How claimed identities are policed.
#[derive(Debug)]
pub struct IdentityPolicy {
    /// 403 (true) or log-only on a REGISTER for someone else's address of
    /// record.
    pub enforce_register_aor: bool,
    /// Hosts accepted as the domain of a local identity, besides the realm,
    /// the own domain, the public address and loopback.
    pub served_domains: Vec<String>,
    /// 403 (true) or flag-and-relay an INVITE from a trunk whose From claims
    /// a local user.
    pub reject_trunk_local_from: bool,
}

impl Default for IdentityPolicy {
    fn default() -> (r: Self)
        ensures
            r.enforce_register_aor,
            r.served_domains@.len() == 0,
            !r.reject_trunk_local_from,
    {
        IdentityPolicy {
            enforce_register_aor: true,
            served_domains: Vec::new(),
            reject_trunk_local_from: false,
        }
    }
}

/// A domain as it is kept: trimmed, in lower case.
pub open spec fn domain_key(d: Seq<char>) -> Seq<char> {
    text::lower(text::trim(d))
}

/// The domains of a list that are not blank, as they are kept.
pub open spec fn domain_keys(v: Seq<Seq<char>>) -> Seq<Seq<char>>
    decreases v.len(),
{
    if v.len() == 0 {
        Seq::empty()
    } else if domain_key(v.last()).len() > 0 {
        domain_keys(v.drop_last()).push(domain_key(v.last()))
    } else {
        domain_keys(v.drop_last())
    }
}

impl IdentityPolicy {
    /// The policy that the security settings describe: the check of the
    /// address of record is enforced unless set to "log", and a local From
    /// from a trunk is refused where set to "reject".
    pub fn from_config(
        register_aor_check: &str,
        served_domains: &Vec<String>,
        trunk_local_from: &str,
    ) -> (r: Self)
        ensures
            r.enforce_register_aor == !text::same_text(register_aor_check@, "log"@),
            text::string_views(r.served_domains@) == domain_keys(text::string_views(served_domains@)),
            r.reject_trunk_local_from == text::same_text(trunk_local_from@, "reject"@),
    {
        let mut kept: Vec<String> = Vec::new();
        let ghost all = text::string_views(served_domains@);
        let mut i: usize = 0;
        assert(all.take(0) =~= Seq::empty());
        assert(text::string_views(kept@) =~= Seq::empty());
        while i < served_domains.len()
            invariant
                i <= served_domains@.len(),
                all == text::string_views(served_domains@),
                text::string_views(kept@) == domain_keys(all.take(i as int)),
            decreases served_domains@.len() - i,
        {
            let c = chars_of(served_domains[i].as_str());
            let d = lower_string(trimmed(c.as_slice()));
            assert(all.take(i + 1).drop_last() =~= all.take(i as int));
            assert(all.take(i + 1).last() == c@);
            let ghost before = kept@;
            if !d.as_str().is_empty() {
                kept.push(d);
                assert(text::string_views(kept@) =~= text::string_views(before).push(d@));
            }
            i = i + 1;
        }
        assert(all.take(all.len() as int) =~= all);
        let check = chars_of(register_aor_check);
        let from = chars_of(trunk_local_from);
        IdentityPolicy {
            enforce_register_aor: !is_word(check.as_slice(), "log"),
            served_domains: kept,
            reject_trunk_local_from: is_word(from.as_slice(), "reject"),
        }
    }
}

/// Why an authenticated user may not act for an address of record.
#[derive(Debug, Clone, PartialEq, Eq)]
pub enum AorRejection {
    /// The user part is not the authenticated user.
    User(String),
    /// The host is not a domain served here.
    Domain(String),
}

/// What a rejection holds: whether it is about the user, and the text.
pub open spec fn rejection_view(e: AorRejection) -> (bool, Seq<char>) {
    match e {
        AorRejection::User(u) => (true, u@),
        AorRejection::Domain(d) => (false, d@),
    }
}

impl AorRejection {
    /// The rejection in words.
    pub fn describe(&self) -> (r: String)
        ensures
            r@ == (match *self {
                AorRejection::User(u) => "AOR belongs to '"@ + u@ + "'"@,
                AorRejection::Domain(d) => "domain '"@ + d@ + "' is not served here"@,
            }),
    {
        match self {
            AorRejection::User(u) => {
                let mut out = "AOR belongs to '".to_string();
                out.push_str(u.as_str());
                out.push_str("'");
                out
            },
            AorRejection::Domain(d) => {
                let mut out = "domain '".to_string();
                out.push_str(d.as_str());
                out.push_str("' is not served here");
                out
            },
        }
    }
}

pub open spec fn or_empty(s: Option<Seq<char>>) -> Seq<char> {
    match s {
        Some(x) => x,
        None => Seq::empty(),
    }
}

pub open spec fn domain_served(served: Seq<Seq<char>>, host: Seq<char>) -> bool {
    exists|i: int| 0 <= i < served.len() && text::same_text(#[trigger] served[i], host)
}

/// What speaks against a user acting for an address of record: the user part
/// is another's, or the host is not served (where served domains are known).
pub open spec fn aor_objection(
    auth_user: Seq<char>,
    aor: Seq<char>,
    served: Seq<Seq<char>>,
) -> Option<(bool, Seq<char>)> {
    let user = or_empty(user_part(aor));
    let host = or_empty(host_part(aor));
    if user != auth_user {
        Some((true, user))
    } else if served.len() > 0 && !domain_served(served, host) {
        Some((false, host))
    } else {
        None
    }
}

/// A user that acts under an identity that is not its own: who it is, what
/// it claims to be, and by which method.
#[derive(Debug)]
pub struct Mismatch {
    pub user: String,
    pub claimed: String,
    pub method: String,
}

impl View for Mismatch {
    type V = (Seq<char>, Seq<char>, Seq<char>);

    open spec fn view(&self) -> (Seq<char>, Seq<char>, Seq<char>) {
        (self.user@, self.claimed@, self.method@)
    }
}

pub open spec fn opt_mismatch(m: Option<Mismatch>) -> Option<(Seq<char>, Seq<char>, Seq<char>)> {
    match m {
        Some(x) => Some(x@),
        None => None,
    }
}

pub fn text_or_empty(s: Option<String>) -> (r: String)
    ensures
        r@ == or_empty(text::opt_string(s)),
{
    match s {
        Some(x) => x,
        None => String::new(),
    }
}

pub fn is_served(served: &Vec<String>, host: &str) -> (r: bool)
    ensures
        r == domain_served(text::string_views(served@), host@),
{
    let h = chars_of(host);
    let ghost sv = text::string_views(served@);
    let mut i: usize = 0;
    while i < served.len()
        invariant
            i <= served@.len(),
            sv == text::string_views(served@),
            h@ == host@,
            forall|k: int| 0 <= k < i ==> !text::same_text(#[trigger] sv[k], host@),
        decreases served@.len() - i,
    {
        let d = chars_of(served[i].as_str());
        assert(sv[i as int] == d@);
        if same_ignoring_case(d.as_slice(), h.as_slice()) {
            return true;
        }
        i = i + 1;
    }
    false
}

/// May `auth_user` bind `aor`? The user part must be its own; the host must
/// be served (skipped when no served domain is known at all).
pub fn authorize_aor(auth_user: &str, aor: &str, served: &Vec<String>) -> (r: Result<
    (),
    AorRejection,
>)
    ensures
        match r {
            Ok(_) => aor_objection(auth_user@, aor@, text::string_views(served@)) is None,
            Err(e) => aor_objection(auth_user@, aor@, text::string_views(served@)) == Some(
                rejection_view(e),
            ),
        },
{
    let user = text_or_empty(uri_user(aor));
    if !same_str(user.as_str(), auth_user) {
        return Err(AorRejection::User(user));
    }
    if served.len() > 0 {
        let host = text_or_empty(uri_host(aor));
        if !is_served(served, host.as_str()) {
            return Err(AorRejection::Domain(host));
        }
    }
    Ok(())
}

/// Whether a rejection refuses a REGISTER: the user half under "enforce", the
/// domain half only once served domains are configured.
pub open spec fn refuses(
    rejection: (bool, Seq<char>),
    enforce: bool,
    configured_domains: nat,
) -> bool {
    enforce && (rejection.0 || configured_domains > 0)
}

/// Whether a rejection refuses a REGISTER, or is only reported.
pub fn enforces(policy: &IdentityPolicy, why: &AorRejection) -> (r: bool)
    ensures
        r == refuses(
            rejection_view(*why),
            policy.enforce_register_aor,
            policy.served_domains@.len(),
        ),
{
    match why {
        AorRejection::User(_) => policy.enforce_register_aor,
        AorRejection::Domain(_) => policy.enforce_register_aor && policy.served_domains.len() > 0,
    }
}

// ── Served domains ──────────────────────────────────────────────────────

/// The list with a domain added, unless it is blank or there already.
pub open spec fn with_domain(v: Seq<Seq<char>>, d: Seq<char>) -> Seq<Seq<char>> {
    if domain_key(d).len() > 0 && !v.contains(domain_key(d)) {
        v.push(domain_key(d))
    } else {
        v
    }
}

pub open spec fn with_domains(v: Seq<Seq<char>>, ds: Seq<Seq<char>>) -> Seq<Seq<char>>
    decreases ds.len(),
{
    if ds.len() == 0 {
        v
    } else {
        with_domain(with_domains(v, ds.drop_last()), ds.last())
    }
}

/// The candidates in order: realm, own domain and address, loopback, and
/// the configured ones.
pub open spec fn domain_candidates(
    realm: Option<Seq<char>>,
    own: Option<(Seq<char>, Seq<char>)>,
    configured: Seq<Seq<char>>,
) -> Seq<Seq<char>> {
    (match realm {
        Some(r) => seq![r],
        None => Seq::empty(),
    }) + (match own {
        Some((domain, ip)) => seq![domain, ip],
        None => Seq::empty(),
    }) + seq!["127.0.0.1"@, "localhost"@] + configured
}

fn add_domain(v: &mut Vec<String>, d: &str)
    ensures
        text::string_views(final(v)@) == with_domain(text::string_views(old(v)@), d@),
{
    let c = chars_of(d);
    let key = lower_string(trimmed(c.as_slice()));
    if key.as_str().is_empty() {
        return ;
    }
    let ghost sv = text::string_views(v@);
    let mut i: usize = 0;
    while i < v.len()
        invariant
            i <= v@.len(),
            sv == text::string_views(v@),
            v@ == old(v)@,
            key@ == domain_key(d@),
            forall|k: int| 0 <= k < i ==> #[trigger] sv[k] != key@,
        decreases v@.len() - i,
    {
        if same_str(v[i].as_str(), key.as_str()) {
            assert(sv[i as int] == key@);
            assert(key@ == domain_key(d@));
            return ;
        }
        assert(sv[i as int] == v@[i as int]@);
        i = i + 1;
    }
    let ghost before = v@;
    v.push(key);
    assert(text::string_views(v@) =~= text::string_views(before).push(key@));
}

proof fn lemma_with_domains_push(v: Seq<Seq<char>>, ds: Seq<Seq<char>>, d: Seq<char>)
    ensures
        with_domains(v, ds.push(d)) == with_domain(with_domains(v, ds), d),
{
    assert(ds.push(d).drop_last() =~= ds);
}

/// Hosts that a local identity may live on: the digest realm, the own domain
/// and public address, loopback, and the configured domains; each once.
pub fn served_domains(
    realm: Option<&str>,
    own: Option<(&str, &str)>,
    configured: &Vec<String>,
) -> (r: Vec<String>)
    ensures
        text::string_views(r@) == with_domains(
            Seq::empty(),
            domain_candidates(
                text::opt_str(realm),
                match own {
                    Some((d, i)) => Some((d@, i@)),
                    None => None,
                },
                text::string_views(configured@),
            ),
        ),
{
    let ghost own_view: Option<(Seq<char>, Seq<char>)> = match own {
        Some((d, i)) => Some((d@, i@)),
        None => None,
    };
    let ghost all = domain_candidates(text::opt_str(realm), own_view, text::string_views(configured@));
    let ghost none = Seq::<Seq<char>>::empty();
    let ghost mut done: Seq<Seq<char>> = Seq::empty();
    let mut out: Vec<String> = Vec::new();
    assert(text::string_views(out@) =~= none);
    if let Some(r) = realm {
        add_domain(&mut out, r);
        proof {
            lemma_with_domains_push(none, done, r@);
            done = done.push(r@);
        }
    }
    if let Some((domain, ip)) = own {
        add_domain(&mut out, domain);
        add_domain(&mut out, ip);
        proof {
            lemma_with_domains_push(none, done, domain@);
            lemma_with_domains_push(none, done.push(domain@), ip@);
            done = done.push(domain@).push(ip@);
        }
    }
    add_domain(&mut out, "127.0.0.1");
    add_domain(&mut out, "localhost");
    proof {
        lemma_with_domains_push(none, done, "127.0.0.1"@);
        lemma_with_domains_push(none, done.push("127.0.0.1"@), "localhost"@);
        done = done.push("127.0.0.1"@).push("localhost"@);
    }
    let ghost base = done;
    let ghost rest = text::string_views(configured@);
    let mut i: usize = 0;
    assert(base + rest.take(0) =~= base);
    while i < configured.len()
        invariant
            i <= configured@.len(),
            rest == text::string_views(configured@),
            text::string_views(out@) == with_domains(none, base + rest.take(i as int)),
        decreases configured@.len() - i,
    {
        add_domain(&mut out, configured[i].as_str());
        proof {
            lemma_with_domains_push(none, base + rest.take(i as int), rest[i as int]);
            assert(base + rest.take(i + 1) =~= (base + rest.take(i as int)).push(rest[i as int]));
        }
        i = i + 1;
    }
    assert(base + rest.take(rest.len() as int) =~= all);
    out
}

// ── Readiness ───────────────────────────────────────────────────────────

/// What the readiness probe reports: the store is open, the first hydration
/// succeeded, the listeners are bound. A later failure clears no flag.
#[derive(Debug)]
pub struct Readiness {
    pub store_open: bool,
    pub hydrated: bool,
    pub listening: bool,
}

impl Readiness {
    pub fn new() -> (r: Self)
        ensures
            !r.store_open && !r.hydrated && !r.listening,
    {
        Readiness { store_open: false, hydrated: false, listening: false }
    }

    pub fn set_store_open(&mut self)
        ensures
            *final(self) == (Readiness { store_open: true, ..*old(self) }),
    {
        self.store_open = true;
    }

    pub fn set_hydrated(&mut self)
        ensures
            *final(self) == (Readiness { hydrated: true, ..*old(self) }),
    {
        self.hydrated = true;
    }

    pub fn set_listening(&mut self)
        ensures
            *final(self) == (Readiness { listening: true, ..*old(self) }),
    {
        self.listening = true;
    }

    pub fn store_open(&self) -> (r: bool)
        ensures
            r == self.store_open,
    {
        self.store_open
    }

    pub fn hydrated(&self) -> (r: bool)
        ensures
            r == self.hydrated,
    {
        self.hydrated
    }

    pub fn listening(&self) -> (r: bool)
        ensures
            r == self.listening,
    {
        self.listening
    }

    pub fn is_ready(&self) -> (r: bool)
        ensures
            r == (self.store_open && self.hydrated && self.listening),
    {
        self.store_open && self.hydrated && self.listening
    }
}

// ── Administrative teardown ─────────────────────────────────────────────

/// Calls queued for administrative teardown, each once, in the order of the
/// requests.
#[derive(Debug)]
pub struct AdminKicks {
    queue: Vec<String>,
}

impl View for AdminKicks {
    type V = Seq<Seq<char>>;

    closed spec fn view(&self) -> Seq<Seq<char>> {
        text::string_views(self.queue@)
    }
}

/// The queue after a request.
pub open spec fn kick_queued(q: Seq<Seq<char>>, uuid: Seq<char>) -> Seq<Seq<char>> {
    if q.contains(uuid) {
        q
    } else {
        q.push(uuid)
    }
}

impl AdminKicks {
    pub fn new() -> (r: Self)
        ensures
            r@.len() == 0,
    {
        AdminKicks { queue: Vec::new() }
    }

    /// Queue a call for teardown.
    pub fn request(&mut self, uuid: String)
        ensures
            final(self)@ == kick_queued(old(self)@, uuid@),
    {
        let ghost q = text::string_views(self.queue@);
        let mut i: usize = 0;
        while i < self.queue.len()
            invariant
                i <= self.queue@.len(),
                q == text::string_views(self.queue@),
                self.queue@ == old(self).queue@,
                forall|k: int| 0 <= k < i ==> #[trigger] q[k] != uuid@,
            decreases self.queue@.len() - i,
        {
            assert(q[i as int] == self.queue@[i as int]@);
            if same_str(self.queue[i].as_str(), uuid.as_str()) {
                return ;
            }
            i = i + 1;
        }
        let ghost before = self.queue@;
        self.queue.push(uuid);
        assert(text::string_views(self.queue@) =~= text::string_views(before).push(uuid@));
    }

    /// Take every queued uuid.
    pub fn drain(&mut self) -> (r: Vec<String>)
        ensures
            text::string_views(r@) == old(self)@,
            final(self)@.len() == 0,
    {
        let mut out: Vec<String> = Vec::new();
        std::mem::swap(&mut out, &mut self.queue);
        out
    }

    /// Queued uuids that are not yet processed.
    pub fn pending(&self) -> (r: Vec<String>)
        ensures
            text::string_views(r@) == self@,
    {
        clone_strings(&self.queue)
    }
}

// ── Laws ────────────────────────────────────────────────────────────────

/// No value twice.
pub open spec fn all_distinct(v: Seq<Seq<char>>) -> bool {
    forall|i: int, j: int| 0 <= i < j < v.len() ==> #[trigger] v[i] != #[trigger] v[j]
}

/// A call is queued for teardown at most once, however often it is requested.
pub proof fn law_kick_queue_has_no_duplicates(q: Seq<Seq<char>>, uuid: Seq<char>)
    requires
        all_distinct(q),
    ensures
        all_distinct(kick_queued(q, uuid)),
        kick_queued(q, uuid).contains(uuid),
        kick_queued(kick_queued(q, uuid), uuid) == kick_queued(q, uuid),
{
    let n = kick_queued(q, uuid);
    if !q.contains(uuid) {
        assert(n[q.len() as int] == uuid);
        assert forall|i: int, j: int| 0 <= i < j < n.len() implies #[trigger] n[i] != #[trigger] n[j] by {
            if j == q.len() {
                assert(q.contains(q[i]));
            }
        }
    }
}

/// The served domains hold no domain twice and no blank one.
pub proof fn law_served_domains_are_distinct(ds: Seq<Seq<char>>)
    ensures
        all_distinct(with_domains(Seq::empty(), ds)),
        forall|i: int|
            0 <= i < with_domains(Seq::empty(), ds).len() ==> (#[trigger] with_domains(
                Seq::empty(),
                ds,
            )[i]).len() > 0,
    decreases ds.len(),
{
    if ds.len() > 0 {
        law_served_domains_are_distinct(ds.drop_last());
        let v = with_domains(Seq::empty(), ds.drop_last());
        let n = with_domains(Seq::empty(), ds);
        let key = domain_key(ds.last());
        assert forall|i: int, j: int| 0 <= i < j < n.len() implies #[trigger] n[i] != #[trigger] n[j] by {
            if j == v.len() {
                assert(v.contains(v[i]));
            }
        }
        assert forall|i: int| 0 <= i < n.len() implies (#[trigger] n[i]).len() > 0 by {
            if i < v.len() {
                assert(n[i] == v[i]);
            }
        }
    }
}

/// Authority over an address of record is a matter of its user and host
/// alone, and no user may act for an address that has another user.
pub proof fn law_only_the_owner_is_authorized(
    a: Seq<char>,
    b: Seq<char>,
    aor: Seq<char>,
    served: Seq<Seq<char>>,
)
    requires
        aor_objection(a, aor, served) is None,
        aor_objection(b, aor, served) is None,
    ensures
        a == b,
{
}

/// Where domains are known, an authorized address lies in one of them.
pub proof fn law_authorized_domain_is_served(
    user: Seq<char>,
    aor: Seq<char>,
    served: Seq<Seq<char>>,
)
    requires
        aor_objection(user, aor, served) is None,
        served.len() > 0,
    ensures
        domain_served(served, or_empty(host_part(aor))),
{
}

} // verus!
