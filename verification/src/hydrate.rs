//! Hydration: what the stored configuration makes of the running one.

use crate::invite_handler::DidMapping;
use crate::responses::fresh_uuid;
use crate::responses;
use crate::sip_builder::to_uppercase;
use crate::sip_builder;
use crate::text::{chars_of, clone_opt, is_word, same_str};
use crate::text;
use vstd::prelude::*;

verus! {

// ── Rows of the store ───────────────────────────────────────────────────

/// A stored user; `ha1` is the digest of the credentials.
#[derive(Debug, Clone)]
pub struct UserRow {
    pub username: String,
    pub ha1: String,
    pub realm: String,
    pub display_name: Option<String>,
    pub enabled: bool,
    pub max_concurrent_calls: Option<i64>,
    pub max_calls_per_minute: Option<i64>,
}

/// A stored mapping of a number to a user.
#[derive(Debug, Clone)]
pub struct DidRow {
    pub number: String,
    pub sip_user: String,
    pub display_name: Option<String>,
    pub enabled: bool,
}

/// A stored trunk. `prefix_patterns` and `allowed_codecs` hold JSON lists.
#[derive(Debug, Clone)]
pub struct TrunkRow {
    pub name: String,
    pub enabled: bool,
    pub host: String,
    pub port: i64,
    pub transport: String,
    pub auth_required: bool,
    pub username: Option<String>,
    pub password: Option<String>,
    pub realm: Option<String>,
    pub register_with_trunk: bool,
    pub registration_interval: i64,
    pub prefix_patterns: String,
    pub priority: i64,
    pub weight: i64,
    pub cost_per_minute: i64,
    pub number_format: String,
    pub country_code: Option<String>,
    pub national_prefix: Option<String>,
    pub caller_number_format: Option<String>,
    pub caller_number_override: Option<String>,
    pub caller_display_name: Option<String>,
    pub allowed_codecs: String,
    pub max_concurrent_calls: i64,
    pub tls_sni: Option<String>,
    pub tls_ca_cert: Option<String>,
    pub tls_verify: bool,
    pub tls_client_cert: Option<String>,
    pub tls_client_key: Option<String>,
}

/// A stored route: an extra prefix of a trunk.
#[derive(Debug, Clone)]
pub struct RouteRow {
    pub prefix: String,
    pub trunk_name: String,
    pub enabled: bool,
}

/// A stored access rule.
#[derive(Debug, Clone)]
pub struct AclRuleRow {
    pub id: String,
    pub cidr: String,
    pub action: String,
    pub direction: String,
    pub priority: i64,
    pub enabled: bool,
    pub comment: Option<String>,
}

// ── Users and numbers ───────────────────────────────────────────────────

pub open spec fn text_pair(p: (String, String)) -> (Seq<char>, Seq<char>) {
    (p.0@, p.1@)
}

pub open spec fn credential_views(v: Seq<(String, String)>) -> Seq<(Seq<char>, Seq<char>)> {
    v.map_values(|p: (String, String)| text_pair(p))
}

/// Names and digests of the enabled users.
pub open spec fn enabled_credentials(rows: Seq<UserRow>) -> Seq<(Seq<char>, Seq<char>)>
    decreases rows.len(),
{
    if rows.len() == 0 {
        Seq::empty()
    } else if rows.last().enabled {
        enabled_credentials(rows.drop_last()).push((rows.last().username@, rows.last().ha1@))
    } else {
        enabled_credentials(rows.drop_last())
    }
}

/// The credentials that the stored users leave valid: a disabled user can no
/// longer authenticate.
pub fn apply_users(rows: &Vec<UserRow>) -> (r: Vec<(String, String)>)
    ensures
        credential_views(r@) == enabled_credentials(rows@),
{
    let mut out: Vec<(String, String)> = Vec::new();
    assert(credential_views(out@) =~= Seq::empty());
    assert(rows@.take(0) =~= Seq::empty());
    let mut i: usize = 0;
    while i < rows.len()
        invariant
            i <= rows@.len(),
            credential_views(out@) == enabled_credentials(rows@.take(i as int)),
        decreases rows@.len() - i,
    {
        assert(rows@.take(i + 1).drop_last() =~= rows@.take(i as int));
        let ghost before = out@;
        if rows[i].enabled {
            out.push((rows[i].username.clone(), rows[i].ha1.clone()));
            assert(credential_views(out@) =~= credential_views(before).push(
                (rows@[i as int].username@, rows@[i as int].ha1@),
            ));
        }
        i = i + 1;
    }
    assert(rows@.take(rows@.len() as int) =~= rows@);
    out
}

/// Number, user and display name of a mapping.
pub open spec fn did_view(d: DidMapping) -> (Seq<char>, Seq<char>, Option<Seq<char>>) {
    (d.number@, d.user@, text::opt_string(d.display_name))
}

pub open spec fn did_views(v: Seq<DidMapping>) -> Seq<(
    Seq<char>,
    Seq<char>,
    Option<Seq<char>>,
)> {
    v.map_values(|d: DidMapping| did_view(d))
}

/// The mappings of the enabled rows.
pub open spec fn enabled_dids(rows: Seq<DidRow>) -> Seq<(Seq<char>, Seq<char>, Option<Seq<char>>)>
    decreases rows.len(),
{
    if rows.len() == 0 {
        Seq::empty()
    } else if rows.last().enabled {
        enabled_dids(rows.drop_last()).push(
            (rows.last().number@, rows.last().sip_user@, text::opt_string(rows.last().display_name)),
        )
    } else {
        enabled_dids(rows.drop_last())
    }
}

/// The numbers that are mapped from now on: the enabled rows, in order.
pub fn apply_dids(rows: &Vec<DidRow>) -> (r: Vec<DidMapping>)
    ensures
        did_views(r@) == enabled_dids(rows@),
{
    let mut out: Vec<DidMapping> = Vec::new();
    assert(did_views(out@) =~= Seq::empty());
    assert(rows@.take(0) =~= Seq::empty());
    let mut i: usize = 0;
    while i < rows.len()
        invariant
            i <= rows@.len(),
            did_views(out@) == enabled_dids(rows@.take(i as int)),
        decreases rows@.len() - i,
    {
        assert(rows@.take(i + 1).drop_last() =~= rows@.take(i as int));
        let ghost before = out@;
        if rows[i].enabled {
            out.push(
                DidMapping {
                    number: rows[i].number.clone(),
                    user: rows[i].sip_user.clone(),
                    display_name: clone_opt(&rows[i].display_name),
                },
            );
            assert(did_views(out@) =~= did_views(before).push(
                (
                    rows@[i as int].number@,
                    rows@[i as int].sip_user@,
                    text::opt_string(rows@[i as int].display_name),
                ),
            ));
        }
        i = i + 1;
    }
    assert(rows@.take(rows@.len() as int) =~= rows@);
    out
}

// ── Lists kept as text ──────────────────────────────────────────────────

/// The list of texts that a JSON text holds, if it holds one.
pub uninterp spec fn listed_texts(json: Seq<char>) -> Option<Seq<Seq<char>>>;

/// The JSON text of a list of texts.
pub uninterp spec fn list_text(list: Seq<Seq<char>>) -> Seq<char>;

pub open spec fn opt_strings(v: Option<Vec<String>>) -> Option<Seq<Seq<char>>> {
    match v {
        Some(l) => Some(text::string_views(l@)),
        None => None,
    }
}

/// Calls `serde_json::from_str` for a list of strings. None where the text is
/// no such list. The result follows from the text alone and is named.
#[verifier::external_body]
pub(crate) fn read_list(json: &str) -> (r: Option<Vec<String>>)
    ensures
        opt_strings(r) == listed_texts(json@),
{
    serde_json::from_str(json).ok()
}

/// Calls `serde_json::to_string` on a list of strings. The result follows
/// from the list alone and is named; there always is one, since neither a
/// string nor a list refuses to be written, and `serde_json::from_str` gives
/// the list back.
#[verifier::external_body]
pub(crate) fn write_list(list: &Vec<String>) -> (r: Option<String>)
    ensures
        r is Some,
        r matches Some(s) ==> s@ == list_text(text::string_views(list@)),
        r matches Some(s) ==> listed_texts(s@) == Some(text::string_views(list@)),
{
    serde_json::to_string(list).ok()
}

/// The list of a text; empty where it holds none.
pub open spec fn list_or_empty(parsed: Option<Seq<Seq<char>>>) -> Seq<Seq<char>> {
    match parsed {
        Some(l) => l,
        None => Seq::empty(),
    }
}

pub fn list_or_none(parsed: Option<Vec<String>>) -> (r: Vec<String>)
    ensures
        text::string_views(r@) == list_or_empty(opt_strings(parsed)),
{
    match parsed {
        Some(l) => l,
        None => {
            let v: Vec<String> = Vec::new();
            assert(text::string_views(v@) =~= Seq::empty());
            v
        },
    }
}

// ── Trunks ──────────────────────────────────────────────────────────────

#[derive(Debug, Clone, Copy, PartialEq, Eq, Structural)]
pub enum TransportType {
    Udp,
    Tcp,
    Tls,
    Ws,
    Wss,
}

#[derive(Debug, Clone, Copy, PartialEq, Eq, Structural)]
pub enum NumberFormat {
    E164,
    National,
    Local,
}

/// The transport that a setting names in any case; UDP for anything else.
pub open spec fn transport_named(s: Seq<char>) -> TransportType {
    if sip_builder::upper(s) == "TCP"@ {
        TransportType::Tcp
    } else if sip_builder::upper(s) == "TLS"@ {
        TransportType::Tls
    } else if sip_builder::upper(s) == "WSS"@ {
        TransportType::Wss
    } else if sip_builder::upper(s) == "WS"@ {
        TransportType::Ws
    } else {
        TransportType::Udp
    }
}

pub fn transport_type(s: &str) -> (r: TransportType)
    ensures
        r == transport_named(s@),
{
    let u = to_uppercase(s);
    if same_str(u.as_str(), "TCP") {
        TransportType::Tcp
    } else if same_str(u.as_str(), "TLS") {
        TransportType::Tls
    } else if same_str(u.as_str(), "WSS") {
        TransportType::Wss
    } else if same_str(u.as_str(), "WS") {
        TransportType::Ws
    } else {
        TransportType::Udp
    }
}

/// The number format that a setting names in any case; E.164 for anything
/// else.
pub open spec fn format_named(s: Seq<char>) -> NumberFormat {
    if text::same_text(s, "national"@) {
        NumberFormat::National
    } else if text::same_text(s, "local"@) {
        NumberFormat::Local
    } else {
        NumberFormat::E164
    }
}

pub fn number_format(s: &str) -> (r: NumberFormat)
    ensures
        r == format_named(s@),
{
    let c = chars_of(s);
    if is_word(c.as_slice(), "national") {
        NumberFormat::National
    } else if is_word(c.as_slice(), "local") {
        NumberFormat::Local
    } else {
        NumberFormat::E164
    }
}

/// A running trunk.
#[derive(Debug)]
pub struct TrunkConfig {
    pub id: String,
    pub name: String,
    pub enabled: bool,
    pub transport: TransportType,
    pub host: String,
    pub port: u16,
    /// Address and port that the host resolved to.
    pub resolved_addr: Option<(String, u16)>,
    pub auth_required: bool,
    pub username: Option<String>,
    pub password: Option<String>,
    pub realm: Option<String>,
    pub allowed_codecs: Vec<String>,
    pub max_concurrent_calls: u32,
    pub calls_per_second: u32,
    pub register_with_trunk: bool,
    /// Seconds.
    pub registration_interval: u64,
    pub cost_per_minute: u32,
    pub priority: u32,
    pub weight: u32,
    pub prefix_patterns: Vec<String>,
    pub number_format: NumberFormat,
    pub country_code: Option<String>,
    pub national_prefix: Option<String>,
    pub caller_number_format: Option<NumberFormat>,
    pub caller_number_override: Option<String>,
    pub caller_display_name: Option<String>,
    pub tls_sni: Option<String>,
    pub tls_ca_cert: Option<String>,
    pub tls_verify: bool,
    pub tls_client_cert: Option<String>,
    pub tls_client_key: Option<String>,
}

/// What a running trunk holds.
#[verifier::ext_equal]
pub struct TrunkView {
    pub id: Seq<char>,
    pub name: Seq<char>,
    pub enabled: bool,
    pub transport: TransportType,
    pub host: Seq<char>,
    pub port: u16,
    pub resolved_addr: Option<(Seq<char>, u16)>,
    pub auth_required: bool,
    pub username: Option<Seq<char>>,
    pub password: Option<Seq<char>>,
    pub realm: Option<Seq<char>>,
    pub allowed_codecs: Seq<Seq<char>>,
    pub max_concurrent_calls: u32,
    pub calls_per_second: u32,
    pub register_with_trunk: bool,
    pub registration_interval: u64,
    pub cost_per_minute: u32,
    pub priority: u32,
    pub weight: u32,
    pub prefix_patterns: Seq<Seq<char>>,
    pub number_format: NumberFormat,
    pub country_code: Option<Seq<char>>,
    pub national_prefix: Option<Seq<char>>,
    pub caller_number_format: Option<NumberFormat>,
    pub caller_number_override: Option<Seq<char>>,
    pub caller_display_name: Option<Seq<char>>,
    pub tls_sni: Option<Seq<char>>,
    pub tls_ca_cert: Option<Seq<char>>,
    pub tls_verify: bool,
    pub tls_client_cert: Option<Seq<char>>,
    pub tls_client_key: Option<Seq<char>>,
}

pub open spec fn endpoint_view(a: Option<(String, u16)>) -> Option<(Seq<char>, u16)> {
    match a {
        Some((host, port)) => Some((host@, port)),
        None => None,
    }
}

impl View for TrunkConfig {
    type V = TrunkView;

    open spec fn view(&self) -> TrunkView {
        TrunkView {
            id: self.id@,
            name: self.name@,
            enabled: self.enabled,
            transport: self.transport,
            host: self.host@,
            port: self.port,
            resolved_addr: endpoint_view(self.resolved_addr),
            auth_required: self.auth_required,
            username: text::opt_string(self.username),
            password: text::opt_string(self.password),
            realm: text::opt_string(self.realm),
            allowed_codecs: text::string_views(self.allowed_codecs@),
            max_concurrent_calls: self.max_concurrent_calls,
            calls_per_second: self.calls_per_second,
            register_with_trunk: self.register_with_trunk,
            registration_interval: self.registration_interval,
            cost_per_minute: self.cost_per_minute,
            priority: self.priority,
            weight: self.weight,
            prefix_patterns: text::string_views(self.prefix_patterns@),
            number_format: self.number_format,
            country_code: text::opt_string(self.country_code),
            national_prefix: text::opt_string(self.national_prefix),
            caller_number_format: self.caller_number_format,
            caller_number_override: text::opt_string(self.caller_number_override),
            caller_display_name: text::opt_string(self.caller_display_name),
            tls_sni: text::opt_string(self.tls_sni),
            tls_ca_cert: text::opt_string(self.tls_ca_cert),
            tls_verify: self.tls_verify,
            tls_client_cert: text::opt_string(self.tls_client_cert),
            tls_client_key: text::opt_string(self.tls_client_key),
        }
    }
}

/// A list with the texts of another that it lacks, in order.
pub open spec fn merged(list: Seq<Seq<char>>, extra: Seq<Seq<char>>) -> Seq<Seq<char>>
    decreases extra.len(),
{
    if extra.len() == 0 {
        list
    } else {
        let so_far = merged(list, extra.drop_last());
        if so_far.contains(extra.last()) {
            so_far
        } else {
            so_far.push(extra.last())
        }
    }
}

pub fn contains_text(v: &Vec<String>, s: &str) -> (r: bool)
    ensures
        r == text::string_views(v@).contains(s@),
{
    let mut i: usize = 0;
    while i < v.len()
        invariant
            i <= v@.len(),
            forall|k: int| 0 <= k < i ==> v@[k]@ != s@,
        decreases v@.len() - i,
    {
        if same_str(v[i].as_str(), s) {
            assert(text::string_views(v@)[i as int] == s@);
            return true;
        }
        i = i + 1;
    }
    assert forall|k: int| 0 <= k < text::string_views(v@).len() implies text::string_views(v@)[k] != s@ by {
        assert(v@[k]@ != s@);
    }
    false
}

fn merge(list: Vec<String>, extra: &Vec<String>) -> (r: Vec<String>)
    ensures
        text::string_views(r@) == merged(text::string_views(list@), text::string_views(extra@)),
{
    let mut out = list;
    let ghost base = text::string_views(list@);
    let ghost more = text::string_views(extra@);
    assert(more.take(0) =~= Seq::empty());
    let mut i: usize = 0;
    while i < extra.len()
        invariant
            i <= extra@.len(),
            more == text::string_views(extra@),
            text::string_views(out@) == merged(base, more.take(i as int)),
        decreases extra@.len() - i,
    {
        assert(more.take(i + 1).drop_last() =~= more.take(i as int));
        assert(more.take(i + 1).last() == extra@[i as int]@);
        let ghost before = out@;
        if !contains_text(&out, extra[i].as_str()) {
            out.push(extra[i].clone());
            assert(text::string_views(out@) =~= text::string_views(before).push(extra@[i as int]@));
        }
        i = i + 1;
    }
    assert(more.take(more.len() as int) =~= more);
    out
}

pub open spec fn not_negative(n: i64) -> u64 {
    if n < 0 {
        0
    } else {
        n as u64
    }
}

/// The running trunk that a row describes, with the prefixes of its routes
/// merged in.
pub open spec fn trunk_of(
    row: TrunkRow,
    patterns: Seq<Seq<char>>,
    codecs: Seq<Seq<char>>,
    extra: Seq<Seq<char>>,
    id: Seq<char>,
) -> TrunkView {
    TrunkView {
        id,
        name: row.name@,
        enabled: row.enabled,
        transport: transport_named(row.transport@),
        host: row.host@,
        port: row.port as u16,
        resolved_addr: None,
        auth_required: row.auth_required,
        username: text::opt_string(row.username),
        password: text::opt_string(row.password),
        realm: text::opt_string(row.realm),
        allowed_codecs: codecs,
        max_concurrent_calls: row.max_concurrent_calls as u32,
        calls_per_second: 10,
        register_with_trunk: row.register_with_trunk,
        registration_interval: not_negative(row.registration_interval),
        cost_per_minute: row.cost_per_minute as u32,
        priority: row.priority as u32,
        weight: row.weight as u32,
        prefix_patterns: merged(patterns, extra),
        number_format: format_named(row.number_format@),
        country_code: text::opt_string(row.country_code),
        national_prefix: text::opt_string(row.national_prefix),
        caller_number_format: match row.caller_number_format {
            Some(f) => Some(format_named(f@)),
            None => None,
        },
        caller_number_override: text::opt_string(row.caller_number_override),
        caller_display_name: text::opt_string(row.caller_display_name),
        tls_sni: text::opt_string(row.tls_sni),
        tls_ca_cert: text::opt_string(row.tls_ca_cert),
        tls_verify: row.tls_verify,
        tls_client_cert: text::opt_string(row.tls_client_cert),
        tls_client_key: text::opt_string(row.tls_client_key),
    }
}

/// The running trunk of a row whose lists have been read.
pub open spec fn stored_trunk(row: TrunkRow, extra: Seq<Seq<char>>, id: Seq<char>) -> TrunkView {
    trunk_of(
        row,
        list_or_empty(listed_texts(row.prefix_patterns@)),
        list_or_empty(listed_texts(row.allowed_codecs@)),
        extra,
        id,
    )
}

/// The running trunk of a row, given the lists that the row holds as text.
pub fn trunk_row_to_config_with(
    row: &TrunkRow,
    patterns: Vec<String>,
    codecs: Vec<String>,
    extra_prefixes: &Vec<String>,
    id: &str,
) -> (r: TrunkConfig)
    ensures
        r@ == trunk_of(
            *row,
            text::string_views(patterns@),
            text::string_views(codecs@),
            text::string_views(extra_prefixes@),
            id@,
        ),
{
    let interval: u64 = if row.registration_interval < 0 {
        0
    } else {
        row.registration_interval as u64
    };
    TrunkConfig {
        id: id.to_string(),
        name: row.name.clone(),
        enabled: row.enabled,
        transport: transport_type(row.transport.as_str()),
        host: row.host.clone(),
        port: row.port as u16,
        resolved_addr: None,
        auth_required: row.auth_required,
        username: clone_opt(&row.username),
        password: clone_opt(&row.password),
        realm: clone_opt(&row.realm),
        allowed_codecs: codecs,
        max_concurrent_calls: row.max_concurrent_calls as u32,
        calls_per_second: 10,
        register_with_trunk: row.register_with_trunk,
        registration_interval: interval,
        cost_per_minute: row.cost_per_minute as u32,
        priority: row.priority as u32,
        weight: row.weight as u32,
        prefix_patterns: merge(patterns, extra_prefixes),
        number_format: number_format(row.number_format.as_str()),
        country_code: clone_opt(&row.country_code),
        national_prefix: clone_opt(&row.national_prefix),
        caller_number_format: match &row.caller_number_format {
            Some(f) => Some(number_format(f.as_str())),
            None => None,
        },
        caller_number_override: clone_opt(&row.caller_number_override),
        caller_display_name: clone_opt(&row.caller_display_name),
        tls_sni: clone_opt(&row.tls_sni),
        tls_ca_cert: clone_opt(&row.tls_ca_cert),
        tls_verify: row.tls_verify,
        tls_client_cert: clone_opt(&row.tls_client_cert),
        tls_client_key: clone_opt(&row.tls_client_key),
    }
}

/// Convert a stored trunk row, with its route prefixes merged in, to the
/// running trunk. Its identifier is fresh.
pub fn trunk_row_to_config(row: &TrunkRow, extra_prefixes: &Vec<String>) -> (r: TrunkConfig)
    ensures
        r@ == stored_trunk(*row, text::string_views(extra_prefixes@), r@.id),
        responses::is_uuid_text(r@.id),
{
    let id = fresh_uuid();
    let patterns = list_or_none(read_list(row.prefix_patterns.as_str()));
    let codecs = list_or_none(read_list(row.allowed_codecs.as_str()));
    trunk_row_to_config_with(row, patterns, codecs, extra_prefixes, id.as_str())
}

// ── Synchronising the trunk table ───────────────────────────────────────

pub open spec fn trunk_views(v: Seq<TrunkConfig>) -> Seq<TrunkView> {
    v.map_values(|t: TrunkConfig| t@)
}

/// Position of the first trunk of that name at or after `from`; the length
/// where there is none.
pub open spec fn trunk_at(ts: Seq<TrunkView>, name: Seq<char>, from: int) -> int
    decreases ts.len() - from,
{
    if 0 <= from && from < ts.len() {
        if ts[from].name == name {
            from
        } else {
            trunk_at(ts, name, from + 1)
        }
    } else {
        ts.len() as int
    }
}

/// The table with a trunk in the place of the one of its name, whose
/// identifier stays, or else at the end.
pub open spec fn upserted(ts: Seq<TrunkView>, t: TrunkView) -> Seq<TrunkView> {
    let i = trunk_at(ts, t.name, 0);
    if i < ts.len() {
        ts.update(i, TrunkView { id: ts[i].id, ..t })
    } else {
        ts.push(t)
    }
}

/// The prefixes of the enabled routes of a trunk, in order.
pub open spec fn route_prefixes(routes: Seq<RouteRow>, name: Seq<char>) -> Seq<Seq<char>>
    decreases routes.len(),
{
    if routes.len() == 0 {
        Seq::empty()
    } else {
        let so_far = route_prefixes(routes.drop_last(), name);
        if routes.last().enabled && routes.last().trunk_name@ == name {
            so_far.push(routes.last().prefix@)
        } else {
            so_far
        }
    }
}

/// The table after the first `n` rows; the trunk of row `i` has the
/// identifier `ids[i]` where it is new.
pub open spec fn upserted_rows(
    ts: Seq<TrunkView>,
    rows: Seq<TrunkRow>,
    routes: Seq<RouteRow>,
    ids: Seq<Seq<char>>,
    n: nat,
) -> Seq<TrunkView>
    decreases n,
{
    if n == 0 {
        ts
    } else {
        let row = rows[n - 1];
        upserted(
            upserted_rows(ts, rows, routes, ids, (n - 1) as nat),
            stored_trunk(row, route_prefixes(routes, row.name@), ids[n - 1]),
        )
    }
}

/// How many of the first `n` rows name a trunk that the table lacks.
pub open spec fn added_rows(
    ts: Seq<TrunkView>,
    rows: Seq<TrunkRow>,
    routes: Seq<RouteRow>,
    ids: Seq<Seq<char>>,
    n: nat,
) -> nat
    decreases n,
{
    if n == 0 {
        0
    } else {
        let before = upserted_rows(ts, rows, routes, ids, (n - 1) as nat);
        added_rows(ts, rows, routes, ids, (n - 1) as nat) + if trunk_at(
            before,
            rows[n - 1].name@,
            0,
        ) < before.len() {
            0nat
        } else {
            1nat
        }
    }
}

/// A row of that name is stored.
pub open spec fn is_stored(rows: Seq<TrunkRow>, name: Seq<char>) -> bool {
    exists|i: int| 0 <= i < rows.len() && (#[trigger] rows[i]).name@ == name
}

/// The trunk, disabled where no row names it.
pub open spec fn only_stored(rows: Seq<TrunkRow>, t: TrunkView) -> TrunkView {
    if is_stored(rows, t.name) {
        t
    } else {
        TrunkView { enabled: false, ..t }
    }
}

/// How many of the first `n` trunks are enabled and no longer stored.
pub open spec fn lost_trunks(rows: Seq<TrunkRow>, ts: Seq<TrunkView>, n: nat) -> nat
    decreases n,
{
    if n == 0 {
        0
    } else {
        lost_trunks(rows, ts, (n - 1) as nat) + if ts[n - 1].enabled && !is_stored(
            rows,
            ts[n - 1].name,
        ) {
            1nat
        } else {
            0nat
        }
    }
}

/// The table after a synchronisation with the store.
pub open spec fn synced(
    ts: Seq<TrunkView>,
    rows: Seq<TrunkRow>,
    routes: Seq<RouteRow>,
    ids: Seq<Seq<char>>,
) -> Seq<TrunkView> {
    upserted_rows(ts, rows, routes, ids, rows.len()).map_values(
        |t: TrunkView| only_stored(rows, t),
    )
}

/// Added, updated and disabled trunks of a synchronisation.
pub open spec fn sync_counts(
    ts: Seq<TrunkView>,
    rows: Seq<TrunkRow>,
    routes: Seq<RouteRow>,
    ids: Seq<Seq<char>>,
) -> (nat, nat, nat) {
    let added = added_rows(ts, rows, routes, ids, rows.len());
    let table = upserted_rows(ts, rows, routes, ids, rows.len());
    (added, (rows.len() - added) as nat, lost_trunks(rows, table, table.len()))
}

pub proof fn lemma_trunk_at(ts: Seq<TrunkView>, name: Seq<char>, from: int)
    requires
        0 <= from <= ts.len(),
    ensures
        from <= trunk_at(ts, name, from) <= ts.len(),
        trunk_at(ts, name, from) < ts.len() ==> ts[trunk_at(ts, name, from)].name == name,
        forall|k: int| from <= k < trunk_at(ts, name, from) ==> ts[k].name != name,
    decreases ts.len() - from,
{
    if from < ts.len() && ts[from].name != name {
        lemma_trunk_at(ts, name, from + 1);
    }
}

/// Position of the first trunk of that name; the length where there is none.
pub fn find_trunk(ts: &Vec<TrunkConfig>, name: &str) -> (r: usize)
    ensures
        r == trunk_at(trunk_views(ts@), name@, 0),
        r <= ts@.len(),
{
    let mut i: usize = 0;
    while i < ts.len()
        invariant
            i <= ts@.len(),
            trunk_at(trunk_views(ts@), name@, 0) == trunk_at(trunk_views(ts@), name@, i as int),
        decreases ts@.len() - i,
    {
        assert(trunk_views(ts@)[i as int] == ts@[i as int]@);
        if same_str(ts[i].name.as_str(), name) {
            return i;
        }
        i = i + 1;
    }
    i
}

fn prefixes_of(routes: &Vec<RouteRow>, name: &str) -> (r: Vec<String>)
    ensures
        text::string_views(r@) == route_prefixes(routes@, name@),
{
    let mut out: Vec<String> = Vec::new();
    assert(text::string_views(out@) =~= Seq::empty());
    assert(routes@.take(0) =~= Seq::empty());
    let mut i: usize = 0;
    while i < routes.len()
        invariant
            i <= routes@.len(),
            text::string_views(out@) == route_prefixes(routes@.take(i as int), name@),
        decreases routes@.len() - i,
    {
        assert(routes@.take(i + 1).drop_last() =~= routes@.take(i as int));
        let ghost before = out@;
        if routes[i].enabled && same_str(routes[i].trunk_name.as_str(), name) {
            out.push(routes[i].prefix.clone());
            assert(text::string_views(out@) =~= text::string_views(before).push(routes@[i as int].prefix@));
        }
        i = i + 1;
    }
    assert(routes@.take(routes@.len() as int) =~= routes@);
    out
}

fn row_stored(rows: &Vec<TrunkRow>, name: &str) -> (r: bool)
    ensures
        r == is_stored(rows@, name@),
{
    let mut i: usize = 0;
    while i < rows.len()
        invariant
            i <= rows@.len(),
            forall|k: int| 0 <= k < i ==> (#[trigger] rows@[k]).name@ != name@,
        decreases rows@.len() - i,
    {
        if same_str(rows[i].name.as_str(), name) {
            return true;
        }
        i = i + 1;
    }
    false
}

fn disable_lost(trunks: &mut Vec<TrunkConfig>, rows: &Vec<TrunkRow>) -> (r: usize)
    ensures
        trunk_views(final(trunks)@) == trunk_views(old(trunks)@).map_values(
            |t: TrunkView| only_stored(rows@, t),
        ),
        r == lost_trunks(rows@, trunk_views(old(trunks)@), old(trunks)@.len()),
{
    let ghost before = trunk_views(trunks@);
    let mut lost: usize = 0;
    let mut i: usize = 0;
    while i < trunks.len()
        invariant
            i <= trunks@.len(),
            lost <= i,
            before.len() == trunks@.len(),
            before == trunk_views(old(trunks)@),
            lost == lost_trunks(rows@, before, i as nat),
            forall|k: int| 0 <= k < i ==> #[trigger] trunks@[k]@ == only_stored(rows@, before[k]),
            forall|k: int| i <= k < trunks@.len() ==> #[trigger] trunks@[k]@ == before[k],
        decreases trunks@.len() - i,
    {
        assert(trunks@[i as int]@ == before[i as int]);
        let stored = row_stored(rows, trunks[i].name.as_str());
        if !stored {
            if trunks[i].enabled {
                lost = lost + 1;
            }
            trunks[i].enabled = false;
        }
        i = i + 1;
    }
    assert(trunk_views(trunks@) =~= before.map_values(|t: TrunkView| only_stored(rows@, t)));
    lost
}

/// Synchronise the running trunks with the stored trunks and routes, given an
/// identifier for each row whose trunk is new. Trunks are matched by name; one
/// that is no longer stored is disabled, not removed, since calls may refer
/// to it. Returns how many were added, updated and disabled.
pub fn apply_trunks_and_routes_with(
    trunks: &mut Vec<TrunkConfig>,
    rows: &Vec<TrunkRow>,
    routes: &Vec<RouteRow>,
    ids: &Vec<String>,
) -> (r: (usize, usize, usize))
    requires
        ids@.len() == rows@.len(),
    ensures
        trunk_views(final(trunks)@) == synced(
            trunk_views(old(trunks)@),
            rows@,
            routes@,
            text::string_views(ids@),
        ),
        (r.0 as nat, r.1 as nat, r.2 as nat) == sync_counts(
            trunk_views(old(trunks)@),
            rows@,
            routes@,
            text::string_views(ids@),
        ),
{
    let ghost ts = trunk_views(trunks@);
    let ghost idv = text::string_views(ids@);
    let mut added: usize = 0;
    let mut i: usize = 0;
    while i < rows.len()
        invariant
            i <= rows@.len(),
            added <= i,
            ids@.len() == rows@.len(),
            idv == text::string_views(ids@),
            trunk_views(trunks@) == upserted_rows(ts, rows@, routes@, idv, i as nat),
            added == added_rows(ts, rows@, routes@, idv, i as nat),
        decreases rows@.len() - i,
    {
        let extra = prefixes_of(routes, rows[i].name.as_str());
        let patterns = list_or_none(read_list(rows[i].prefix_patterns.as_str()));
        let codecs = list_or_none(read_list(rows[i].allowed_codecs.as_str()));
        let mut t = trunk_row_to_config_with(
            &rows[i],
            patterns,
            codecs,
            &extra,
            ids[i].as_str(),
        );
        assert(idv[i as int] == ids@[i as int]@);
        let ghost tv = t@;
        assert(tv == stored_trunk(
            rows@[i as int],
            route_prefixes(routes@, rows@[i as int].name@),
            idv[i as int],
        ));
        let at = find_trunk(trunks, rows[i].name.as_str());
        let ghost before = trunk_views(trunks@);
        if at < trunks.len() {
            t.id = trunks[at].id.clone();
            assert(t@ == TrunkView { id: before[at as int].id, ..tv });
            trunks.set(at, t);
            assert(trunk_views(trunks@) =~= before.update(at as int, t@));
        } else {
            added = added + 1;
            trunks.push(t);
            assert(trunk_views(trunks@) =~= before.push(tv));
        }
        i = i + 1;
    }
    let ghost table = trunk_views(trunks@);
    let lost = disable_lost(trunks, rows);
    (added, rows.len() - added, lost)
}

/// Synchronise the running trunks with the store. New trunks have fresh
/// identifiers.
pub fn apply_trunks_and_routes(
    trunks: &mut Vec<TrunkConfig>,
    rows: &Vec<TrunkRow>,
    routes: &Vec<RouteRow>,
) -> (r: (usize, usize, usize))
    ensures
        exists|ids: Seq<Seq<char>>| #[trigger]
            synced(trunk_views(old(trunks)@), rows@, routes@, ids) == trunk_views(final(trunks)@)
                && sync_counts(trunk_views(old(trunks)@), rows@, routes@, ids) == (
                r.0 as nat,
                r.1 as nat,
                r.2 as nat,
            ) && ids.len() == rows@.len() && forall|i: int|
                0 <= i < ids.len() ==> responses::is_uuid_text(#[trigger] ids[i]),
{
    let mut ids: Vec<String> = Vec::new();
    let mut i: usize = 0;
    while i < rows.len()
        invariant
            i <= rows@.len(),
            ids@.len() == i,
            forall|k: int| 0 <= k < i ==> responses::is_uuid_text(#[trigger] ids@[k]@),
        decreases rows@.len() - i,
    {
        ids.push(fresh_uuid());
        i = i + 1;
    }
    let ghost ts = trunk_views(trunks@);
    let r = apply_trunks_and_routes_with(trunks, rows, routes, &ids);
    proof {
        let idv = text::string_views(ids@);
        assert(synced(ts, rows@, routes@, idv) == trunk_views(trunks@));
        assert forall|k: int| 0 <= k < idv.len() implies responses::is_uuid_text(#[trigger] idv[k]) by {
            assert(responses::is_uuid_text(ids@[k]@));
        }
    }
    r
}

proof fn lemma_upserted(ts: Seq<TrunkView>, t: TrunkView)
    ensures
        upserted(ts, t).len() >= ts.len(),
        forall|k: int| 0 <= k < ts.len() ==> (#[trigger] upserted(ts, t)[k]).id == ts[k].id
            && upserted(ts, t)[k].name == ts[k].name,
        forall|k: int| 0 <= k < ts.len() && ts[k].name != t.name ==> #[trigger] upserted(ts, t)[k]
            == ts[k],
        exists|k: int| 0 <= k < upserted(ts, t).len() && (#[trigger] upserted(ts, t)[k]).name
            == t.name,
{
    lemma_trunk_at(ts, t.name, 0);
    let i = trunk_at(ts, t.name, 0);
    if i < ts.len() {
        assert(upserted(ts, t)[i].name == t.name);
    } else {
        assert(upserted(ts, t)[ts.len() as int].name == t.name);
    }
}

proof fn lemma_upserted_rows(
    ts: Seq<TrunkView>,
    rows: Seq<TrunkRow>,
    routes: Seq<RouteRow>,
    ids: Seq<Seq<char>>,
    n: nat,
)
    requires
        n <= rows.len(),
    ensures
        upserted_rows(ts, rows, routes, ids, n).len() >= ts.len(),
        forall|k: int| 0 <= k < ts.len() ==> (#[trigger] upserted_rows(ts, rows, routes, ids, n)[k]).id
            == ts[k].id && upserted_rows(ts, rows, routes, ids, n)[k].name == ts[k].name,
        forall|k: int| 0 <= k < ts.len() && !is_stored(rows, ts[k].name) ==>
            #[trigger] upserted_rows(ts, rows, routes, ids, n)[k] == ts[k],
        forall|i: int| 0 <= i < n ==> exists|k: int| 0 <= k < upserted_rows(
            ts,
            rows,
            routes,
            ids,
            n,
        ).len() && (#[trigger] upserted_rows(ts, rows, routes, ids, n)[k]).name
            == (#[trigger] rows[i]).name@,
    decreases n,
{
    if n > 0 {
        let m = (n - 1) as nat;
        lemma_upserted_rows(ts, rows, routes, ids, m);
        let before = upserted_rows(ts, rows, routes, ids, m);
        let row = rows[n - 1];
        let t = stored_trunk(row, route_prefixes(routes, row.name@), ids[n - 1]);
        let after = upserted_rows(ts, rows, routes, ids, n);
        lemma_upserted(before, t);
        assert(is_stored(rows, row.name@));
        assert forall|k: int| 0 <= k < ts.len() implies (#[trigger] after[k]).id == ts[k].id
            && after[k].name == ts[k].name by {
            assert(before[k].id == ts[k].id);
            assert(after[k].id == before[k].id);
        }
        assert forall|k: int| 0 <= k < ts.len() && !is_stored(rows, ts[k].name) implies
            #[trigger] after[k] == ts[k] by {
            assert(before[k] == ts[k]);
        }
        assert forall|i: int| 0 <= i < n implies exists|k: int|
            0 <= k < after.len() && (#[trigger] after[k]).name == (#[trigger] rows[i]).name@ by {
            if i < m {
                let k = choose|k: int|
                    0 <= k < before.len() && (#[trigger] before[k]).name == rows[i].name@;
                assert(after[k].name == before[k].name);
            }
        }
    }
}

/// A synchronisation removes no trunk and changes no identifier, and every
/// trunk that is no longer stored ends disabled with nothing else changed.
pub proof fn law_lost_trunks_are_disabled(
    ts: Seq<TrunkView>,
    rows: Seq<TrunkRow>,
    routes: Seq<RouteRow>,
    ids: Seq<Seq<char>>,
)
    ensures
        synced(ts, rows, routes, ids).len() >= ts.len(),
        forall|k: int| 0 <= k < ts.len() ==> (#[trigger] synced(ts, rows, routes, ids)[k]).id
            == ts[k].id && synced(ts, rows, routes, ids)[k].name == ts[k].name,
        forall|k: int| 0 <= k < ts.len() && !is_stored(rows, ts[k].name) ==>
            #[trigger] synced(ts, rows, routes, ids)[k] == (TrunkView { enabled: false, ..ts[k] }),
{
    lemma_upserted_rows(ts, rows, routes, ids, rows.len());
    let table = upserted_rows(ts, rows, routes, ids, rows.len());
    assert forall|k: int| 0 <= k < ts.len() implies (#[trigger] synced(ts, rows, routes, ids)[k]).id
        == ts[k].id && synced(ts, rows, routes, ids)[k].name == ts[k].name by {
        assert(table[k].id == ts[k].id);
    }
    assert forall|k: int| 0 <= k < ts.len() && !is_stored(rows, ts[k].name) implies
        #[trigger] synced(ts, rows, routes, ids)[k] == (TrunkView { enabled: false, ..ts[k] }) by {
        assert(table[k] == ts[k]);
    }
}

proof fn lemma_nothing_added(
    ts: Seq<TrunkView>,
    rows: Seq<TrunkRow>,
    routes: Seq<RouteRow>,
    ids: Seq<Seq<char>>,
    n: nat,
)
    requires
        n <= rows.len(),
        forall|i: int| 0 <= i < rows.len() ==> exists|k: int|
            0 <= k < ts.len() && (#[trigger] ts[k]).name == (#[trigger] rows[i]).name@,
    ensures
        added_rows(ts, rows, routes, ids, n) == 0,
        upserted_rows(ts, rows, routes, ids, n).len() == ts.len(),
    decreases n,
{
    if n > 0 {
        let m = (n - 1) as nat;
        lemma_nothing_added(ts, rows, routes, ids, m);
        lemma_upserted_rows(ts, rows, routes, ids, m);
        let before = upserted_rows(ts, rows, routes, ids, m);
        let row = rows[n - 1];
        let k = choose|k: int| 0 <= k < ts.len() && (#[trigger] ts[k]).name == row.name@;
        assert(before[k].name == row.name@);
        lemma_trunk_at(before, row.name@, 0);
    }
}

/// A second synchronisation with the same store adds nothing: every stored
/// trunk is updated in place and keeps its identifier.
pub proof fn law_second_sync_adds_nothing(
    ts: Seq<TrunkView>,
    rows: Seq<TrunkRow>,
    routes: Seq<RouteRow>,
    ids: Seq<Seq<char>>,
    later: Seq<Seq<char>>,
)
    ensures
        sync_counts(synced(ts, rows, routes, ids), rows, routes, later).0 == 0,
        sync_counts(synced(ts, rows, routes, ids), rows, routes, later).1 == rows.len(),
        synced(synced(ts, rows, routes, ids), rows, routes, later).len() == synced(
            ts,
            rows,
            routes,
            ids,
        ).len(),
        forall|k: int| 0 <= k < synced(ts, rows, routes, ids).len() ==> (#[trigger] synced(
            synced(ts, rows, routes, ids),
            rows,
            routes,
            later,
        )[k]).id == synced(ts, rows, routes, ids)[k].id,
{
    lemma_upserted_rows(ts, rows, routes, ids, rows.len());
    let table = upserted_rows(ts, rows, routes, ids, rows.len());
    let once = synced(ts, rows, routes, ids);
    assert forall|i: int| 0 <= i < rows.len() implies exists|k: int|
        0 <= k < once.len() && (#[trigger] once[k]).name == (#[trigger] rows[i]).name@ by {
        let k = choose|k: int| 0 <= k < table.len() && (#[trigger] table[k]).name == rows[i].name@;
        assert(once[k].name == table[k].name);
    }
    lemma_nothing_added(once, rows, routes, later, rows.len());
    law_lost_trunks_are_disabled(once, rows, routes, later);
}

/// The rows name different trunks.
pub open spec fn distinct_rows(rows: Seq<TrunkRow>) -> bool {
    forall|i: int, j: int|
        0 <= i < j < rows.len() ==> (#[trigger] rows[i]).name@ != (#[trigger] rows[j]).name@
}

/// The trunk is what the row describes, its identifier aside.
pub open spec fn follows_row(t: TrunkView, row: TrunkRow, routes: Seq<RouteRow>) -> bool {
    t == stored_trunk(row, route_prefixes(routes, row.name@), t.id)
}

proof fn lemma_rows_followed(
    ts: Seq<TrunkView>,
    rows: Seq<TrunkRow>,
    routes: Seq<RouteRow>,
    ids: Seq<Seq<char>>,
    n: nat,
)
    requires
        n <= rows.len(),
        distinct_rows(rows),
    ensures
        forall|i: int| 0 <= i < n ==> exists|k: int| 0 <= k < upserted_rows(
            ts,
            rows,
            routes,
            ids,
            n,
        ).len() && follows_row(
            #[trigger] upserted_rows(ts, rows, routes, ids, n)[k],
            #[trigger] rows[i],
            routes,
        ),
    decreases n,
{
    if n > 0 {
        let m = (n - 1) as nat;
        lemma_rows_followed(ts, rows, routes, ids, m);
        let before = upserted_rows(ts, rows, routes, ids, m);
        let row = rows[n - 1];
        let t = stored_trunk(row, route_prefixes(routes, row.name@), ids[n - 1]);
        let after = upserted_rows(ts, rows, routes, ids, n);
        lemma_upserted(before, t);
        lemma_trunk_at(before, t.name, 0);
        let at = trunk_at(before, t.name, 0);
        assert(0 <= at < after.len() && follows_row(after[at], row, routes));
        assert forall|i: int| 0 <= i < n implies exists|k: int|
            0 <= k < after.len() && follows_row(#[trigger] after[k], #[trigger] rows[i], routes) by {
            if i < m {
                let k = choose|k: int|
                    0 <= k < before.len() && follows_row(#[trigger] before[k], rows[i], routes);
                assert(rows[i].name@ != rows[n - 1].name@);
                assert(after[k] == before[k]);
            }
        }
    }
}

/// After a synchronisation every stored trunk runs as its row describes, with
/// the prefixes of its enabled routes.
pub proof fn law_stored_trunks_run(
    ts: Seq<TrunkView>,
    rows: Seq<TrunkRow>,
    routes: Seq<RouteRow>,
    ids: Seq<Seq<char>>,
    i: int,
)
    requires
        distinct_rows(rows),
        0 <= i < rows.len(),
    ensures
        exists|k: int| 0 <= k < synced(ts, rows, routes, ids).len() && follows_row(
            #[trigger] synced(ts, rows, routes, ids)[k],
            rows[i],
            routes,
        ),
{
    lemma_rows_followed(ts, rows, routes, ids, rows.len());
    let table = upserted_rows(ts, rows, routes, ids, rows.len());
    let row = rows[i];
    let k = choose|k: int| 0 <= k < table.len() && follows_row(#[trigger] table[k], row, routes);
    assert(is_stored(rows, row.name@));
    assert(synced(ts, rows, routes, ids)[k] == table[k]);
}

// ── Access rules ────────────────────────────────────────────────────────

#[derive(Debug, Clone, Copy, PartialEq, Eq, Structural)]
pub enum AclAction {
    Allow,
    Deny,
}

#[derive(Debug, Clone, Copy, PartialEq, Eq, Structural)]
pub enum Direction {
    Inbound,
    Outbound,
    Both,
}

/// An access rule as it runs.
#[derive(Debug)]
pub struct AclRule {
    pub id: String,
    pub cidr: String,
    pub action: AclAction,
    pub direction: Direction,
    pub priority: i32,
    pub enabled: bool,
    pub comment: Option<String>,
}

/// The action that a setting names: everything but "deny" allows.
pub open spec fn action_named(s: Seq<char>) -> AclAction {
    if s == "deny"@ {
        AclAction::Deny
    } else {
        AclAction::Allow
    }
}

pub fn acl_action(s: &str) -> (r: AclAction)
    ensures
        r == action_named(s@),
{
    if same_str(s, "deny") {
        AclAction::Deny
    } else {
        AclAction::Allow
    }
}

pub open spec fn direction_named(s: Seq<char>) -> Direction {
    if s == "inbound"@ {
        Direction::Inbound
    } else if s == "outbound"@ {
        Direction::Outbound
    } else {
        Direction::Both
    }
}

fn acl_direction(s: &str) -> (r: Direction)
    ensures
        r == direction_named(s@),
{
    if same_str(s, "inbound") {
        Direction::Inbound
    } else if same_str(s, "outbound") {
        Direction::Outbound
    } else {
        Direction::Both
    }
}

/// The rule is what the row describes.
pub open spec fn rule_follows(rule: AclRule, row: AclRuleRow) -> bool {
    &&& rule.id@ == row.id@
    &&& rule.cidr@ == row.cidr@
    &&& rule.action == action_named(row.action@)
    &&& rule.direction == direction_named(row.direction@)
    &&& rule.priority == row.priority as i32
    &&& rule.enabled == row.enabled
    &&& text::opt_string(rule.comment) == text::opt_string(row.comment)
}

/// The rows whose network is valid, by position.
pub open spec fn valid_rows(valid: Seq<bool>) -> Seq<int>
    decreases valid.len(),
{
    if valid.len() == 0 {
        Seq::empty()
    } else if valid.last() {
        valid_rows(valid.drop_last()).push(valid.len() - 1)
    } else {
        valid_rows(valid.drop_last())
    }
}

proof fn lemma_valid_rows(valid: Seq<bool>)
    ensures
        valid_rows(valid).len() <= valid.len(),
        forall|k: int| 0 <= k < valid_rows(valid).len() ==> 0 <= #[trigger] valid_rows(valid)[k]
            < valid.len(),
    decreases valid.len(),
{
    if valid.len() > 0 {
        lemma_valid_rows(valid.drop_last());
    }
}

/// The access rules that run from now on: those of the rows whose network is
/// valid, in order. `valid` tells for each row whether it is.
pub fn apply_acl(rows: &Vec<AclRuleRow>, valid: &Vec<bool>) -> (r: Vec<AclRule>)
    requires
        valid@.len() == rows@.len(),
    ensures
        r@.len() == valid_rows(valid@).len(),
        forall|k: int| 0 <= k < r@.len() ==> rule_follows(
            #[trigger] r@[k],
            rows@[valid_rows(valid@)[k]],
        ),
{
    let mut out: Vec<AclRule> = Vec::new();
    assert(valid@.take(0) =~= Seq::empty());
    let mut i: usize = 0;
    while i < rows.len()
        invariant
            i <= rows@.len(),
            valid@.len() == rows@.len(),
            out@.len() == valid_rows(valid@.take(i as int)).len(),
            forall|k: int| 0 <= k < out@.len() ==> rule_follows(
                #[trigger] out@[k],
                rows@[valid_rows(valid@.take(i as int))[k]],
            ),
        decreases rows@.len() - i,
    {
        proof {
            assert(valid@.take(i + 1).drop_last() =~= valid@.take(i as int));
            lemma_valid_rows(valid@.take(i as int));
        }
        if valid[i] {
            let row = &rows[i];
            out.push(
                AclRule {
                    id: row.id.clone(),
                    cidr: row.cidr.clone(),
                    action: acl_action(row.action.as_str()),
                    direction: acl_direction(row.direction.as_str()),
                    priority: row.priority as i32,
                    enabled: row.enabled,
                    comment: clone_opt(&row.comment),
                },
            );
        }
        i = i + 1;
    }
    assert(valid@.take(valid@.len() as int) =~= valid@);
    out
}

// ── Addresses of the trunks ─────────────────────────────────────────────

/// The sources of one trunk: its resolved address, then its host.
pub open spec fn trunk_sources(t: TrunkView) -> Seq<Seq<char>> {
    match t.resolved_addr {
        Some((ip, _)) => seq![ip, t.host],
        None => seq![t.host],
    }
}

pub open spec fn all_sources(ts: Seq<TrunkView>) -> Seq<Seq<char>>
    decreases ts.len(),
{
    if ts.len() == 0 {
        Seq::empty()
    } else {
        all_sources(ts.drop_last()) + trunk_sources(ts.last())
    }
}

/// Rebuild the list of sources that count as trunks: of each trunk its
/// resolved address, where it has one, and its host.
pub fn refresh_trunk_ips(trunks: &Vec<TrunkConfig>) -> (r: Vec<String>)
    ensures
        text::string_views(r@) == all_sources(trunk_views(trunks@)),
{
    let mut out: Vec<String> = Vec::new();
    let ghost ts = trunk_views(trunks@);
    assert(text::string_views(out@) =~= Seq::empty());
    assert(ts.take(0) =~= Seq::empty());
    let mut i: usize = 0;
    while i < trunks.len()
        invariant
            i <= trunks@.len(),
            ts == trunk_views(trunks@),
            text::string_views(out@) == all_sources(ts.take(i as int)),
        decreases trunks@.len() - i,
    {
        assert(ts.take(i + 1).drop_last() =~= ts.take(i as int));
        assert(ts.take(i + 1).last() == trunks@[i as int]@);
        let ghost before = text::string_views(out@);
        if let Some((ip, _)) = &trunks[i].resolved_addr {
            out.push(ip.clone());
            assert(text::string_views(out@) =~= before.push(ip@));
        }
        let ghost mid = text::string_views(out@);
        out.push(trunks[i].host.clone());
        assert(text::string_views(out@) =~= mid.push(trunks@[i as int].host@));
        assert(text::string_views(out@) =~= before + trunk_sources(trunks@[i as int]@));
        i = i + 1;
    }
    assert(ts.take(ts.len() as int) =~= ts);
    out
}

/// What an outbound TLS connection to a trunk needs.
#[derive(Debug)]
pub struct TlsClientParams {
    pub sni: String,
    pub ca_cert: Option<String>,
    pub verify: bool,
    pub client_cert: Option<String>,
    pub client_key: Option<String>,
}

/// What the parameters hold.
pub struct TlsView {
    pub sni: Seq<char>,
    pub ca_cert: Option<Seq<char>>,
    pub verify: bool,
    pub client_cert: Option<Seq<char>>,
    pub client_key: Option<Seq<char>>,
}

pub open spec fn tls_of(t: TrunkView) -> TlsView {
    TlsView {
        sni: match t.tls_sni {
            Some(s) => s,
            None => t.host,
        },
        ca_cert: t.tls_ca_cert,
        verify: t.tls_verify,
        client_cert: t.tls_client_cert,
        client_key: t.tls_client_key,
    }
}

impl View for TlsClientParams {
    type V = TlsView;

    open spec fn view(&self) -> TlsView {
        TlsView {
            sni: self.sni@,
            ca_cert: text::opt_string(self.ca_cert),
            verify: self.verify,
            client_cert: text::opt_string(self.client_cert),
            client_key: text::opt_string(self.client_key),
        }
    }
}

pub open spec fn destination_view(d: ((String, u16), TlsClientParams)) -> (
    (Seq<char>, u16),
    TlsView,
) {
    ((d.0.0@, d.0.1), d.1@)
}

pub open spec fn destination_views(v: Seq<((String, u16), TlsClientParams)>) -> Seq<
    ((Seq<char>, u16), TlsView),
> {
    v.map_values(|d: ((String, u16), TlsClientParams)| destination_view(d))
}

/// The destinations of the TLS trunks that have one, with their parameters.
pub open spec fn tls_destinations(ts: Seq<TrunkView>) -> Seq<((Seq<char>, u16), TlsView)>
    decreases ts.len(),
{
    if ts.len() == 0 {
        Seq::empty()
    } else {
        let so_far = tls_destinations(ts.drop_last());
        match ts.last().resolved_addr {
            Some(dest) => if ts.last().transport == TransportType::Tls {
                so_far.push((dest, tls_of(ts.last())))
            } else {
                so_far
            },
            None => so_far,
        }
    }
}

/// The outbound TLS parameters to register: one destination for each TLS
/// trunk that has a resolved address. Destinations that are not registered
/// are refused, never reached in clear.
pub fn register_trunk_tls_configs(trunks: &Vec<TrunkConfig>) -> (r: Vec<
    ((String, u16), TlsClientParams),
>)
    ensures
        destination_views(r@) == tls_destinations(trunk_views(trunks@)),
{
    let mut out: Vec<((String, u16), TlsClientParams)> = Vec::new();
    let ghost ts = trunk_views(trunks@);
    assert(destination_views(out@) =~= Seq::empty());
    assert(ts.take(0) =~= Seq::empty());
    let mut i: usize = 0;
    while i < trunks.len()
        invariant
            i <= trunks@.len(),
            ts == trunk_views(trunks@),
            destination_views(out@) == tls_destinations(ts.take(i as int)),
        decreases trunks@.len() - i,
    {
        assert(ts.take(i + 1).drop_last() =~= ts.take(i as int));
        assert(ts.take(i + 1).last() == trunks@[i as int]@);
        let ghost before = destination_views(out@);
        let t = &trunks[i];
        if let Some((ip, port)) = &t.resolved_addr {
            if t.transport == TransportType::Tls {
                let sni: String = match &t.tls_sni {
                    Some(s) => s.clone(),
                    None => t.host.clone(),
                };
                let params = TlsClientParams {
                    sni,
                    ca_cert: clone_opt(&t.tls_ca_cert),
                    verify: t.tls_verify,
                    client_cert: clone_opt(&t.tls_client_cert),
                    client_key: clone_opt(&t.tls_client_key),
                };
                assert(params@ == tls_of(t@));
                let at: u16 = *port;
                out.push(((ip.clone(), at), params));
                assert(destination_views(out@) =~= before.push(((ip@, at), tls_of(t@))));
            }
        }
        i = i + 1;
    }
    assert(ts.take(ts.len() as int) =~= ts);
    out
}

} // verus!
