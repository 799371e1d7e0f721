//! What is promised of what runs from the store and from the files: users,
//! numbers, trunks, access rules and settings.

use crate::ban_store::BanRow;
use crate::ban_store;
use crate::config::{ConfigView, RuntimeView, SbcConfig};
use crate::config;
use crate::hydrate::{AclAction, AclRule, AclRuleRow, DidRow, Direction, NumberFormat, RouteRow, TlsView, TransportType, TrunkRow, TrunkView, UserRow};
use crate::hydrate;
use crate::identity;
use crate::import::{ImportPlan, Seeds, TrunkToml};
use crate::import;
use crate::net::AddressView;
use crate::rfc3339;
use crate::runtime_config::{ReloadSource, ReloadVerdict, ReportView, StateView};
use crate::runtime_config;
use crate::security::destination::DestinationsConfig;
use crate::security::destination;
use crate::security::user_limits::UserLimitsConfig;
use crate::security::user_limits;
use crate::sip_builder;
use crate::text;
use vstd::prelude::*;

verus! {

// ── Users and numbers ───────────────────────────────────────────────────

/// The users that may register are those that are enabled, in their order.
pub proof fn law_enabled_users(rows: Seq<UserRow>)
    ensures
        hydrate::enabled_credentials(rows) == rows.filter(|r: UserRow| r.enabled).map_values(
            |r: UserRow| (r.username@, r.ha1@),
        ),
    decreases rows.len(),
{
    reveal(Seq::filter);
    if rows.len() > 0 {
        law_enabled_users(rows.drop_last());
    }
    assert(hydrate::enabled_credentials(rows) =~= rows.filter(|r: UserRow| r.enabled).map_values(
        |r: UserRow| (r.username@, r.ha1@),
    ));
}

/// The numbers that are mapped are those that are enabled, in their order.
pub proof fn law_enabled_numbers(rows: Seq<DidRow>)
    ensures
        hydrate::enabled_dids(rows) == rows.filter(|r: DidRow| r.enabled).map_values(
            |r: DidRow| (r.number@, r.sip_user@, text::opt_string(r.display_name)),
        ),
    decreases rows.len(),
{
    reveal(Seq::filter);
    if rows.len() > 0 {
        law_enabled_numbers(rows.drop_last());
    }
    assert(hydrate::enabled_dids(rows) =~= rows.filter(|r: DidRow| r.enabled).map_values(
        |r: DidRow| (r.number@, r.sip_user@, text::opt_string(r.display_name)),
    ));
}

// ── Trunks ──────────────────────────────────────────────────────────────

/// A transport is known by its name in any case; any other name is UDP.
pub proof fn law_transport_of_each_name(s: Seq<char>)
    ensures
        hydrate::transport_named(s) == TransportType::Tcp <==> sip_builder::upper(s) == "TCP"@,
        hydrate::transport_named(s) == TransportType::Tls <==> sip_builder::upper(s) == "TLS"@,
        hydrate::transport_named(s) == TransportType::Wss <==> sip_builder::upper(s) == "WSS"@,
        hydrate::transport_named(s) == TransportType::Ws <==> sip_builder::upper(s) == "WS"@,
        hydrate::transport_named(s) == TransportType::Udp <==> sip_builder::upper(s) != "TCP"@ && sip_builder::upper(s) != "TLS"@
            && sip_builder::upper(s) != "WSS"@ && sip_builder::upper(s) != "WS"@,
{
    reveal_strlit("TCP");
    reveal_strlit("TLS");
    reveal_strlit("WSS");
    reveal_strlit("WS");
    assert("TCP"@[1] == 'C' && "TLS"@[1] == 'L' && "WSS"@[1] == 'S');
    assert("TCP"@.len() == 3 && "WS"@.len() == 2);
}

/// A number format is known by its name in any case; any other name is the
/// international one.
pub proof fn law_format_of_each_name(s: Seq<char>)
    ensures
        hydrate::format_named(s) == NumberFormat::National <==> text::same_text(s, "national"@),
        hydrate::format_named(s) == NumberFormat::Local <==> text::same_text(s, "local"@) && !text::same_text(
            s,
            "national"@,
        ),
        hydrate::format_named(s) == NumberFormat::E164 <==> !text::same_text(s, "local"@) && !text::same_text(
            s,
            "national"@,
        ),
{
}

/// Prefixes of routes join those of the trunk: its own come first and stay,
/// none comes twice, and no other comes.
pub proof fn law_prefixes_are_merged(list: Seq<Seq<char>>, extra: Seq<Seq<char>>, x: Seq<char>)
    ensures
        hydrate::merged(list, extra).len() >= list.len(),
        hydrate::merged(list, extra).take(list.len() as int) == list,
        hydrate::merged(list, extra).contains(x) <==> list.contains(x) || extra.contains(x),
        forall|i: int, j: int|
            0 <= i < j < hydrate::merged(list, extra).len() && list.len() <= j ==> #[trigger] hydrate::merged(
                list,
                extra,
            )[i] != #[trigger] hydrate::merged(list, extra)[j],
    decreases extra.len(),
{
    let m = hydrate::merged(list, extra);
    if extra.len() > 0 {
        let e = extra.drop_last();
        law_prefixes_are_merged(list, e, x);
        let before = hydrate::merged(list, e);
        let y = extra.last();
        assert(extra =~= e.push(y));
        assert(extra.contains(x) <==> e.contains(x) || x == y) by {
            if e.contains(x) {
                let i = choose|i: int| 0 <= i < e.len() && e[i] == x;
                assert(extra[i] == x);
            }
            if x == y {
                assert(extra[extra.len() - 1] == x);
            }
            if extra.contains(x) {
                let i = choose|i: int| 0 <= i < extra.len() && extra[i] == x;
                if i < e.len() {
                    assert(e[i] == x);
                }
            }
        }
        if !before.contains(y) {
            assert(m == before.push(y));
            assert(m.take(list.len() as int) =~= before.take(list.len() as int));
            assert(m.contains(x) <==> before.contains(x) || x == y) by {
                if before.contains(x) {
                    let i = choose|i: int| 0 <= i < before.len() && before[i] == x;
                    assert(m[i] == x);
                }
                assert(m[before.len() as int] == y);
                if m.contains(x) {
                    let i = choose|i: int| 0 <= i < m.len() && m[i] == x;
                    if i < before.len() {
                        assert(before[i] == x);
                    }
                }
            }
            assert forall|i: int, j: int| 0 <= i < j < m.len() && list.len() <= j implies
                #[trigger] m[i] != #[trigger] m[j] by {
                if j == before.len() {
                    assert(before[i] == m[i]);
                    assert(before.contains(before[i]));
                } else {
                    assert(before[i] == m[i] && before[j] == m[j]);
                }
            }
        }
    } else {
        assert(m.take(list.len() as int) =~= list);
    }
}

/// The prefixes of a trunk's routes are those of its enabled ones, in their
/// order.
pub proof fn law_prefixes_of_a_trunk(routes: Seq<RouteRow>, name: Seq<char>)
    ensures
        hydrate::route_prefixes(routes, name) == routes.filter(
            |r: RouteRow| r.enabled && r.trunk_name@ == name,
        ).map_values(|r: RouteRow| r.prefix@),
    decreases routes.len(),
{
    reveal(Seq::filter);
    if routes.len() > 0 {
        law_prefixes_of_a_trunk(routes.drop_last(), name);
    }
    assert(hydrate::route_prefixes(routes, name) =~= routes.filter(
        |r: RouteRow| r.enabled && r.trunk_name@ == name,
    ).map_values(|r: RouteRow| r.prefix@));
}

/// A trunk runs with what its row says, ten calls a second at most, and no
/// address until it is resolved.
pub proof fn law_trunk_of_a_row(row: TrunkRow, extra: Seq<Seq<char>>, id: Seq<char>)
    ensures
        ({
            let t = hydrate::stored_trunk(row, extra, id);
            &&& t.id == id && t.name == row.name@ && t.enabled == row.enabled && t.host == row.host@
            &&& 0 <= row.port <= u16::MAX ==> t.port == row.port
            &&& t.transport == hydrate::transport_named(row.transport@)
            &&& t.resolved_addr is None
            &&& t.auth_required == row.auth_required
            &&& t.username == text::opt_string(row.username) && t.password == text::opt_string(row.password)
            &&& t.realm == text::opt_string(row.realm)
            &&& t.register_with_trunk == row.register_with_trunk
            &&& row.registration_interval >= 0 ==> t.registration_interval
                == row.registration_interval
            &&& row.registration_interval < 0 ==> t.registration_interval == 0
            &&& t.calls_per_second == 10
            &&& 0 <= row.max_concurrent_calls <= u32::MAX ==> t.max_concurrent_calls
                == row.max_concurrent_calls
            &&& 0 <= row.priority <= u32::MAX ==> t.priority == row.priority
            &&& 0 <= row.weight <= u32::MAX ==> t.weight == row.weight
            &&& 0 <= row.cost_per_minute <= u32::MAX ==> t.cost_per_minute == row.cost_per_minute
            &&& t.number_format == hydrate::format_named(row.number_format@)
            &&& t.country_code == text::opt_string(row.country_code)
            &&& t.national_prefix == text::opt_string(row.national_prefix)
            &&& t.caller_number_format is Some <==> row.caller_number_format is Some
            &&& row.caller_number_format matches Some(f) ==> t.caller_number_format == Some(
                hydrate::format_named(f@),
            )
            &&& t.caller_number_override == text::opt_string(row.caller_number_override)
            &&& t.caller_display_name == text::opt_string(row.caller_display_name)
            &&& t.tls_sni == text::opt_string(row.tls_sni) && t.tls_ca_cert == text::opt_string(row.tls_ca_cert)
            &&& t.tls_verify == row.tls_verify
            &&& t.tls_client_cert == text::opt_string(row.tls_client_cert)
            &&& t.tls_client_key == text::opt_string(row.tls_client_key)
            &&& hydrate::listed_texts(row.allowed_codecs@) matches Some(l) ==> t.allowed_codecs == l
            &&& hydrate::listed_texts(row.allowed_codecs@) is None ==> t.allowed_codecs.len() == 0
            &&& hydrate::listed_texts(row.prefix_patterns@) matches Some(l) ==> t.prefix_patterns == hydrate::merged(
                l,
                extra,
            )
        }),
{
}

/// A trunk that is known by its name keeps its place and its identifier and
/// takes everything else from the new one; one that is not is added last.
pub proof fn law_trunk_is_put_in(ts: Seq<TrunkView>, t: TrunkView, k: int)
    requires
        0 <= k <= ts.len(),
        k < ts.len() ==> ts[k].name == t.name,
        forall|i: int| 0 <= i < k ==> (#[trigger] ts[i]).name != t.name,
    ensures
        k < ts.len() ==> hydrate::upserted(ts, t) == ts.update(k, TrunkView { id: ts[k].id, ..t }),
        k == ts.len() ==> hydrate::upserted(ts, t) == ts.push(t),
{
    lemma_trunk_place(ts, t.name, 0, k);
}

proof fn lemma_trunk_place(ts: Seq<TrunkView>, name: Seq<char>, from: int, k: int)
    requires
        0 <= from <= k <= ts.len(),
        k < ts.len() ==> ts[k].name == name,
        forall|i: int| from <= i < k ==> (#[trigger] ts[i]).name != name,
    ensures
        hydrate::trunk_at(ts, name, from) == k,
    decreases k - from,
{
    if from < k {
        lemma_trunk_place(ts, name, from + 1, k);
    }
}

/// What a synchronisation counts: every row added one trunk or updated one,
/// the added ones are those by which the table grew, and the disabled ones
/// those that ran and are stored no more.
pub proof fn law_counts_of_a_synchronisation(
    ts: Seq<TrunkView>,
    rows: Seq<TrunkRow>,
    routes: Seq<RouteRow>,
    ids: Seq<Seq<char>>,
)
    ensures
        ({
            let (added, updated, disabled) = hydrate::sync_counts(ts, rows, routes, ids);
            let table = hydrate::upserted_rows(ts, rows, routes, ids, rows.len());
            &&& added + updated == rows.len()
            &&& added == hydrate::synced(ts, rows, routes, ids).len() - ts.len()
            &&& disabled == table.filter(
                |t: TrunkView|
                    t.enabled && !(exists|i: int|
                        0 <= i < rows.len() && (#[trigger] rows[i]).name@ == t.name),
            ).len()
        }),
{
    let table = hydrate::upserted_rows(ts, rows, routes, ids, rows.len());
    lemma_added(ts, rows, routes, ids, rows.len());
    lemma_lost(rows, table, table.len());
    assert(table.take(table.len() as int) =~= table);
}

proof fn lemma_added(
    ts: Seq<TrunkView>,
    rows: Seq<TrunkRow>,
    routes: Seq<RouteRow>,
    ids: Seq<Seq<char>>,
    n: nat,
)
    requires
        n <= rows.len(),
    ensures
        hydrate::added_rows(ts, rows, routes, ids, n) <= n,
        hydrate::upserted_rows(ts, rows, routes, ids, n).len() == ts.len() + hydrate::added_rows(
            ts,
            rows,
            routes,
            ids,
            n,
        ),
    decreases n,
{
    if n > 0 {
        lemma_added(ts, rows, routes, ids, (n - 1) as nat);
        let before = hydrate::upserted_rows(ts, rows, routes, ids, (n - 1) as nat);
        hydrate::lemma_trunk_at(before, rows[n - 1].name@, 0);
    }
}

proof fn lemma_lost(rows: Seq<TrunkRow>, ts: Seq<TrunkView>, n: nat)
    requires
        n <= ts.len(),
    ensures
        hydrate::lost_trunks(rows, ts, n) == ts.take(n as int).filter(
            |t: TrunkView|
                t.enabled && !(exists|i: int|
                    0 <= i < rows.len() && (#[trigger] rows[i]).name@ == t.name),
        ).len(),
    decreases n,
{
    reveal(Seq::filter);
    let s = ts.take(n as int);
    if n > 0 {
        lemma_lost(rows, ts, (n - 1) as nat);
        assert(s.drop_last() =~= ts.take(n - 1));
        assert(s.last() == ts[n - 1]);
    }
}

/// A trunk that is stored no more is disabled and otherwise left alone; one
/// that is stored is left as it is.
pub proof fn law_only_stored_trunks_run(rows: Seq<TrunkRow>, t: TrunkView)
    ensures
        (exists|i: int| 0 <= i < rows.len() && (#[trigger] rows[i]).name@ == t.name) ==> hydrate::only_stored(
            rows,
            t,
        ) == t,
        !(exists|i: int| 0 <= i < rows.len() && (#[trigger] rows[i]).name@ == t.name)
            ==> hydrate::only_stored(rows, t) == (TrunkView { enabled: false, ..t }),
{
}

/// The addresses that calls of trunks come from: the host of each and the
/// address that it resolved to, and no other.
pub proof fn law_sources_of_trunks(ts: Seq<TrunkView>, x: Seq<char>)
    ensures
        hydrate::all_sources(ts).contains(x) <==> exists|i: int|
            0 <= i < ts.len() && ((#[trigger] ts[i]).host == x || (ts[i].resolved_addr is Some && (
            ts[i].resolved_addr->0).0 == x)),
    decreases ts.len(),
{
    if ts.len() > 0 {
        let d = ts.drop_last();
        let t = ts.last();
        law_sources_of_trunks(d, x);
        let a = hydrate::all_sources(d);
        let b = hydrate::trunk_sources(t);
        let s = a + b;
        assert(s.contains(x) <==> a.contains(x) || b.contains(x)) by {
            if a.contains(x) {
                let i = choose|i: int| 0 <= i < a.len() && a[i] == x;
                assert(s[i] == x);
            }
            if b.contains(x) {
                let i = choose|i: int| 0 <= i < b.len() && b[i] == x;
                assert(s[a.len() + i] == x);
            }
            if s.contains(x) {
                let i = choose|i: int| 0 <= i < s.len() && s[i] == x;
                if i < a.len() {
                    assert(a[i] == x);
                } else {
                    assert(b[i - a.len()] == x);
                }
            }
        }
        assert(b.contains(x) <==> t.host == x || (t.resolved_addr is Some && (t.resolved_addr->0).0
            == x)) by {
            match t.resolved_addr {
                Some((ip, _)) => {
                    assert(b[0] == ip && b[1] == t.host);
                },
                None => {
                    assert(b[0] == t.host);
                },
            }
        }
        if a.contains(x) {
            let i = choose|i: int|
                0 <= i < d.len() && ((#[trigger] d[i]).host == x || (d[i].resolved_addr is Some && (
                d[i].resolved_addr->0).0 == x));
            assert(ts[i] == d[i]);
        }
        if b.contains(x) {
            assert(ts[ts.len() - 1] == t);
        }
        if exists|i: int|
            0 <= i < ts.len() && ((#[trigger] ts[i]).host == x || (ts[i].resolved_addr is Some && (
            ts[i].resolved_addr->0).0 == x)) {
            let i = choose|i: int|
                0 <= i < ts.len() && ((#[trigger] ts[i]).host == x || (ts[i].resolved_addr is Some
                    && (ts[i].resolved_addr->0).0 == x));
            if i < d.len() {
                assert(d[i] == ts[i]);
            }
        }
    }
}

/// The secured destinations are the trunks over TLS that resolved; each
/// presents its own name, or its host where it has none.
pub proof fn law_secured_trunks(ts: Seq<TrunkView>)
    ensures
        hydrate::tls_destinations(ts) == ts.filter(
            |t: TrunkView| t.resolved_addr is Some && t.transport == TransportType::Tls,
        ).map_values(
            |t: TrunkView|
                (
                    t.resolved_addr->0,
                    TlsView {
                        sni: if t.tls_sni is Some {
                            t.tls_sni->0
                        } else {
                            t.host
                        },
                        ca_cert: t.tls_ca_cert,
                        verify: t.tls_verify,
                        client_cert: t.tls_client_cert,
                        client_key: t.tls_client_key,
                    },
                ),
        ),
    decreases ts.len(),
{
    reveal(Seq::filter);
    let keep = |t: TrunkView| t.resolved_addr is Some && t.transport == TransportType::Tls;
    let tell = |t: TrunkView|
        (
            t.resolved_addr->0,
            TlsView {
                sni: if t.tls_sni is Some {
                    t.tls_sni->0
                } else {
                    t.host
                },
                ca_cert: t.tls_ca_cert,
                verify: t.tls_verify,
                client_cert: t.tls_client_cert,
                client_key: t.tls_client_key,
            },
        );
    if ts.len() > 0 {
        law_secured_trunks(ts.drop_last());
    }
    assert(hydrate::tls_destinations(ts) =~= ts.filter(keep).map_values(tell));
}

// ── Access rules ────────────────────────────────────────────────────────

/// What an access rule says: it denies only where its row says so, and holds
/// both ways unless its row names one.
pub proof fn law_rule_of_a_row(rule: AclRule, row: AclRuleRow)
    requires
        hydrate::rule_follows(rule, row),
    ensures
        rule.action == AclAction::Deny <==> row.action@ == "deny"@,
        rule.action == AclAction::Allow <==> row.action@ != "deny"@,
        rule.direction == Direction::Inbound <==> row.direction@ == "inbound"@,
        rule.direction == Direction::Outbound <==> row.direction@ == "outbound"@,
        rule.direction == Direction::Both <==> row.direction@ != "inbound"@ && row.direction@
            != "outbound"@,
        rule.id@ == row.id@ && rule.cidr@ == row.cidr@ && rule.enabled == row.enabled,
        i32::MIN <= row.priority <= i32::MAX ==> rule.priority == row.priority,
        text::opt_string(rule.comment) == text::opt_string(row.comment),
{
    reveal_strlit("inbound");
    reveal_strlit("outbound");
    assert("inbound"@[0] == 'i' && "outbound"@[0] == 'o');
}

/// The rows that become rules are those with a valid network, all of them
/// and in their order.
pub proof fn law_valid_rows_become_rules(valid: Seq<bool>, i: int)
    ensures
        hydrate::valid_rows(valid).contains(i) <==> 0 <= i < valid.len() && valid[i],
        forall|a: int, b: int|
            0 <= a < b < hydrate::valid_rows(valid).len() ==> #[trigger] hydrate::valid_rows(valid)[a]
                < #[trigger] hydrate::valid_rows(valid)[b],
        forall|a: int|
            0 <= a < hydrate::valid_rows(valid).len() ==> 0 <= #[trigger] hydrate::valid_rows(valid)[a] < valid.len(),
    decreases valid.len(),
{
    if valid.len() > 0 {
        let d = valid.drop_last();
        law_valid_rows_become_rules(d, i);
        let before = hydrate::valid_rows(d);
        let v = hydrate::valid_rows(valid);
        if valid.last() {
            assert(v == before.push(valid.len() - 1));
            assert(v[before.len() as int] == valid.len() - 1);
            if before.contains(i) {
                let k = choose|k: int| 0 <= k < before.len() && before[k] == i;
                assert(v[k] == i);
            }
            if v.contains(i) {
                let k = choose|k: int| 0 <= k < v.len() && v[k] == i;
                if k < before.len() {
                    assert(before[k] == i);
                }
            }
            assert forall|a: int, b: int| 0 <= a < b < v.len() implies #[trigger] v[a]
                < #[trigger] v[b] by {
                assert(before[a] == v[a]);
                if b < before.len() {
                    assert(before[b] == v[b]);
                }
            }
        }
    }
}

// ── Import ──────────────────────────────────────────────────────────────

/// What an import stores: every user, number and trunk of the file, where
/// the table is known to be empty, as the file has them and enabled.
pub proof fn law_what_is_imported(
    plan: ImportPlan,
    seeds: Seeds,
    users_empty: Option<bool>,
    dids_empty: Option<bool>,
    trunks_empty: Option<bool>,
    i: int,
)
    requires
        import::imports(plan, seeds, users_empty, dids_empty, trunks_empty),
    ensures
        users_empty == Some(true) ==> plan.users@.len() == seeds.users@.len(),
        dids_empty == Some(true) ==> plan.dids@.len() == seeds.dids@.len(),
        trunks_empty == Some(true) ==> plan.trunks@.len() == seeds.trunks@.len(),
        0 <= i < plan.users@.len() ==> plan.users@[i].username@ == seeds.users@[i].username@
            && plan.users@[i].ha1@ == seeds.users@[i].ha1@ && plan.users@[i].realm@ == seeds.realm@
            && plan.users@[i].enabled && plan.users@[i].max_concurrent_calls is None
            && plan.users@[i].max_calls_per_minute is None,
        0 <= i < plan.dids@.len() ==> plan.dids@[i].number@ == seeds.dids@[i].number@
            && plan.dids@[i].sip_user@ == seeds.dids@[i].user@ && plan.dids@[i].enabled
            && text::opt_string(plan.dids@[i].display_name) == text::opt_string(seeds.dids@[i].display_name),
        0 <= i < plan.trunks@.len() ==> ({
            let row = plan.trunks@[i];
            let tc = seeds.trunks@[i];
            &&& row.name@ == tc.name@ && row.enabled == tc.enabled && row.host@ == tc.host@
            &&& row.port == tc.port && row.transport@ == tc.transport@
            &&& row.auth_required == tc.auth_required
            &&& text::opt_string(row.username) == text::opt_string(tc.username)
            &&& text::opt_string(row.password) == text::opt_string(tc.password)
            &&& text::opt_string(row.realm) == text::opt_string(tc.realm)
            &&& row.priority == tc.priority && row.weight == tc.weight
            &&& row.cost_per_minute == tc.cost_per_minute
            &&& row.max_concurrent_calls == tc.max_concurrent_calls
            &&& row.number_format@ == tc.number_format@
            &&& row.tls_verify
            &&& hydrate::listed_texts(row.prefix_patterns@) == Some(text::string_views(tc.prefix_patterns@))
            &&& hydrate::listed_texts(row.allowed_codecs@) == Some(text::string_views(tc.allowed_codecs@))
        }),
{
}

/// The trunks of a file join the table one by one: each that is enabled, and
/// on a reload only where no trunk has its name.
pub proof fn law_trunks_of_a_file_join(
    table: Seq<TrunkView>,
    file: Seq<TrunkToml>,
    ids: Seq<Seq<char>>,
    reload: bool,
    n: nat,
)
    requires
        n < file.len(),
    ensures
        ({
            let before = import::joined(table, file, ids, reload, n);
            let after = import::joined(table, file, ids, reload, n + 1);
            let named = exists|i: int|
                0 <= i < before.len() && (#[trigger] before[i]).name == file[n as int].name@;
            &&& file[n as int].enabled && !(reload && named) ==> after == before.push(
                import::file_trunk(file[n as int], ids[n as int]),
            )
            &&& !file[n as int].enabled || (reload && named) ==> after == before
        }),
        import::joined(table, file, ids, reload, 0) == table,
{
    let before = import::joined(table, file, ids, reload, n);
    let name = file[n as int].name@;
    hydrate::lemma_trunk_at(before, name, 0);
    let k = hydrate::trunk_at(before, name, 0);
    if k < before.len() {
        assert(before[k].name == name);
    }
}

/// A trunk of a file runs as the file says, verified over TLS.
pub proof fn law_trunk_of_a_file(tc: TrunkToml, id: Seq<char>)
    ensures
        ({
            let t = import::file_trunk(tc, id);
            &&& t.id == id && t.name == tc.name@ && t.host == tc.host@ && t.port == tc.port
            &&& t.enabled && t.tls_verify && t.resolved_addr is None && t.calls_per_second == 10
            &&& t.transport == hydrate::transport_named(tc.transport@)
            &&& t.auth_required == tc.auth_required && t.username == text::opt_string(tc.username)
            &&& t.password == text::opt_string(tc.password) && t.realm == text::opt_string(tc.realm)
            &&& t.max_concurrent_calls == tc.max_concurrent_calls
            &&& t.register_with_trunk == tc.register_with_trunk
            &&& t.registration_interval == tc.registration_interval
            &&& t.priority == tc.priority && t.weight == tc.weight
            &&& t.cost_per_minute == tc.cost_per_minute
            &&& t.number_format == hydrate::format_named(tc.number_format@)
            &&& t.country_code == text::opt_string(tc.country_code)
            &&& t.national_prefix == text::opt_string(tc.national_prefix)
            &&& t.prefix_patterns == text::string_views(tc.prefix_patterns@)
            &&& t.allowed_codecs == text::string_views(tc.allowed_codecs@)
        }),
{
}

// ── Settings ────────────────────────────────────────────────────────────

/// The settings that run: those of the file, no timeout below its floor, no
/// limit on a call where the file says zero, and twice the rate in a burst.
pub proof fn law_settings_that_run(c: ConfigView, stored: (Option<u32>, Option<u32>))
    ensures
        ({
            let r = config::running(c, stored);
            let s = c.security;
            &&& r.requests_per_second == s.rate_limit_per_ip
            &&& r.burst_size == 2 * s.rate_limit_per_ip
            &&& r.rtp_timeout >= 10 && (s.rtp_timeout >= 10 ==> r.rtp_timeout == s.rtp_timeout) && (
            s.rtp_timeout < 10 ==> r.rtp_timeout == 10)
            &&& s.invite_timeout >= 1 ==> r.invite_timeout == s.invite_timeout
            &&& s.invite_timeout == 0 ==> r.invite_timeout == 1
            &&& s.call_setup_timeout >= 10 ==> r.call_setup_timeout == s.call_setup_timeout
            &&& s.call_setup_timeout < 10 ==> r.call_setup_timeout == 10
            &&& r.max_call_duration is None <==> s.max_call_duration == 0
            &&& 0 < s.max_call_duration < 60 ==> r.max_call_duration == Some(60u64)
            &&& s.max_call_duration >= 60 ==> r.max_call_duration == Some(s.max_call_duration)
            &&& r.session_timer is Some <==> s.session_timer_enabled
            &&& s.session_timer_enabled && s.min_se <= s.session_expires <= u32::MAX
                ==> r.session_timer == Some((s.session_expires as u32, s.min_se as u32))
            &&& s.session_timer_enabled && s.session_expires < s.min_se <= u32::MAX
                ==> r.session_timer == Some((s.min_se as u32, s.min_se as u32))
            &&& r.identity.0 <==> !text::same_text(s.register_aor_check, "log"@)
            &&& r.identity.2 <==> text::same_text(s.trunk_local_from, "reject"@)
            &&& r.identity.1 == identity::domain_keys(s.served_domains)
            &&& r.ban == s.ban && r.destinations == s.destinations
            &&& stored.0 matches Some(n) ==> r.user_limits.defaults.0 == n
            &&& stored.0 is None ==> r.user_limits.defaults.0 == s.user_limits.defaults.0
            &&& stored.1 matches Some(n) ==> r.user_limits.defaults.1 == n
            &&& stored.1 is None ==> r.user_limits.defaults.1 == s.user_limits.defaults.1
            &&& r.user_limits.enabled == s.user_limits.enabled
            &&& r.user_limits.overrides == s.user_limits.overrides
        }),
{
}

pub open spec fn one_if(b: bool) -> nat {
    if b {
        1
    } else {
        0
    }
}

/// What a reload names as applied: each setting that runs differently, and
/// nothing where none does.
pub proof fn law_changes_are_named(a: RuntimeView, b: RuntimeView)
    ensures
        a.requests_per_second != b.requests_per_second ==> config::differing(a, b).contains(
            "security.rate_limit_per_ip"@,
        ),
        a.rtp_timeout != b.rtp_timeout ==> config::differing(a, b).contains("security.rtp_timeout"@),
        a.invite_timeout != b.invite_timeout ==> config::differing(a, b).contains("security.invite_timeout"@),
        a.max_call_duration != b.max_call_duration ==> config::differing(a, b).contains(
            "security.max_call_duration"@,
        ),
        a.call_setup_timeout != b.call_setup_timeout ==> config::differing(a, b).contains(
            "security.call_setup_timeout"@,
        ),
        a.session_timer != b.session_timer ==> config::differing(a, b).contains("security.session_timer"@),
        a.identity != b.identity ==> config::differing(a, b).contains("security.identity"@),
        a.ban != b.ban ==> config::differing(a, b).contains("security.ban"@),
        a.destinations != b.destinations ==> config::differing(a, b).contains("security.destinations"@),
        a.user_limits != b.user_limits ==> config::differing(a, b).contains("security.user_limits"@),
        config::differing(a, b).len() == one_if(a.requests_per_second != b.requests_per_second) + one_if(
            a.rtp_timeout != b.rtp_timeout,
        ) + one_if(a.invite_timeout != b.invite_timeout) + one_if(
            a.max_call_duration != b.max_call_duration,
        ) + one_if(a.call_setup_timeout != b.call_setup_timeout) + one_if(
            a.session_timer != b.session_timer,
        ) + one_if(a.identity != b.identity) + one_if(a.ban != b.ban) + one_if(
            a.destinations != b.destinations,
        ) + one_if(a.user_limits != b.user_limits),
{
    let s1 = config::key_if(a.requests_per_second != b.requests_per_second, "security.rate_limit_per_ip"@);
    let s2 = s1 + config::key_if(a.rtp_timeout != b.rtp_timeout, "security.rtp_timeout"@);
    let s3 = s2 + config::key_if(a.invite_timeout != b.invite_timeout, "security.invite_timeout"@);
    let s4 = s3 + config::key_if(
        a.max_call_duration != b.max_call_duration,
        "security.max_call_duration"@,
    );
    let s5 = s4 + config::key_if(
        a.call_setup_timeout != b.call_setup_timeout,
        "security.call_setup_timeout"@,
    );
    let s6 = s5 + config::key_if(a.session_timer != b.session_timer, "security.session_timer"@);
    let s7 = s6 + config::key_if(a.identity != b.identity, "security.identity"@);
    let s8 = s7 + config::key_if(a.ban != b.ban, "security.ban"@);
    let s9 = s8 + config::key_if(a.destinations != b.destinations, "security.destinations"@);
    let d = s9 + config::key_if(a.user_limits != b.user_limits, "security.user_limits"@);
    assert(d == config::differing(a, b));
    let none = Seq::<Seq<char>>::empty();
    assert(none + s1 =~= s1);
    lemma_named(none, a.requests_per_second != b.requests_per_second, "security.rate_limit_per_ip"@);
    lemma_named(s1, a.rtp_timeout != b.rtp_timeout, "security.rtp_timeout"@);
    lemma_named(s2, a.invite_timeout != b.invite_timeout, "security.invite_timeout"@);
    lemma_named(s3, a.max_call_duration != b.max_call_duration, "security.max_call_duration"@);
    lemma_named(s4, a.call_setup_timeout != b.call_setup_timeout, "security.call_setup_timeout"@);
    lemma_named(s5, a.session_timer != b.session_timer, "security.session_timer"@);
    lemma_named(s6, a.identity != b.identity, "security.identity"@);
    lemma_named(s7, a.ban != b.ban, "security.ban"@);
    lemma_named(s8, a.destinations != b.destinations, "security.destinations"@);
    lemma_named(s9, a.user_limits != b.user_limits, "security.user_limits"@);
    lemma_name_in(d, "security.rate_limit_per_ip"@);
    lemma_name_in(d, "security.rtp_timeout"@);
    lemma_name_in(d, "security.invite_timeout"@);
    lemma_name_in(d, "security.max_call_duration"@);
    lemma_name_in(d, "security.call_setup_timeout"@);
    lemma_name_in(d, "security.session_timer"@);
    lemma_name_in(d, "security.identity"@);
    lemma_name_in(d, "security.ban"@);
    lemma_name_in(d, "security.destinations"@);
    lemma_name_in(d, "security.user_limits"@);
}

#[verifier::opaque]
spec fn names(s: Seq<Seq<char>>, x: Seq<char>) -> bool {
    s.contains(x)
}

proof fn lemma_name_in(s: Seq<Seq<char>>, x: Seq<char>)
    ensures
        names(s, x) ==> s.contains(x),
{
    reveal(names);
}

proof fn lemma_named(s: Seq<Seq<char>>, changed: bool, key: Seq<char>)
    ensures
        (s + config::key_if(changed, key)).len() == s.len() + one_if(changed),
        changed ==> names(s + config::key_if(changed, key), key),
        forall|x: Seq<char>| #[trigger] names(s, x) ==> names(s + config::key_if(changed, key), x),
{
    reveal(names);
    let t = s + config::key_if(changed, key);
    if changed {
        assert(t[s.len() as int] == key);
    }
    assert forall|x: Seq<char>| #[trigger] names(s, x) implies names(t, x) by {
        let i = choose|i: int| 0 <= i < s.len() && s[i] == x;
        assert(t[i] == x);
    }
}

/// What needs a restart is named too: the port of the interface, digest
/// authentication and the realm, each where the file changes it.
pub proof fn law_restarts_are_named(effective: ConfigView, loaded: ConfigView)
    ensures
        effective.api_port != loaded.api_port ==> config::restart_keys(effective, loaded).contains(
            "management.api_port"@,
        ),
        effective.security.enable_digest_auth != loaded.security.enable_digest_auth ==> config::restart_keys(
            effective,
            loaded,
        ).contains("security.enable_digest_auth"@),
        effective.security.sip_realm != loaded.security.sip_realm ==> config::restart_keys(
            effective,
            loaded,
        ).contains("security.sip_realm"@),
        config::restart_keys(effective, loaded).len() == one_if(effective.api_port != loaded.api_port)
            + one_if(effective.security.enable_digest_auth != loaded.security.enable_digest_auth)
            + one_if(effective.security.sip_realm != loaded.security.sip_realm),
{
    let s1 = config::key_if(effective.api_port != loaded.api_port, "management.api_port"@);
    let s2 = s1 + config::key_if(
        effective.security.enable_digest_auth != loaded.security.enable_digest_auth,
        "security.enable_digest_auth"@,
    );
    let d = s2 + config::key_if(
        effective.security.sip_realm != loaded.security.sip_realm,
        "security.sip_realm"@,
    );
    assert(d == config::restart_keys(effective, loaded));
    if effective.api_port != loaded.api_port {
        assert(d[0] == "management.api_port"@);
    }
    if effective.security.enable_digest_auth != loaded.security.enable_digest_auth {
        assert(d[s1.len() as int] == "security.enable_digest_auth"@);
    }
    if effective.security.sip_realm != loaded.security.sip_realm {
        assert(d[s2.len() as int] == "security.sip_realm"@);
    }
}

/// What a reload comes to: it needs a path, a file that can be read, and a
/// store that can be read where there is one.
pub proof fn law_when_a_reload_succeeds(
    path: Option<Seq<char>>,
    loaded: Result<SbcConfig, String>,
    hydrated: Option<Result<(), String>>,
)
    ensures
        ({
            let v = runtime_config::reload_verdict(path, loaded, hydrated);
            &&& v is NoPath <==> path is None
            &&& v is Good <==> path is Some && loaded is Ok && !(hydrated is Some && hydrated->0 is Err)
            &&& v is Good ==> v == ReloadVerdict::Good((loaded->Ok_0)@)
            &&& path is Some && loaded is Err ==> v == ReloadVerdict::Failed((loaded->Err_0)@)
            &&& path is Some && loaded is Ok && hydrated is Some && hydrated->0 is Err ==> v
                == ReloadVerdict::Failed((hydrated->0->Err_0)@)
        }),
{
}

/// What is reported of a reload: whether it succeeded and why not, what was
/// applied and what waits for a restart.
pub proof fn law_reports_of_reloads(
    ts: u64,
    source: ReloadSource,
    why: Seq<char>,
    effective: ConfigView,
    loaded: ConfigView,
    stored: (Option<u32>, Option<u32>),
    hydrated: bool,
)
    ensures
        ({
            let f = runtime_config::failed_report(ts, source, why);
            &&& !f.ok && f.error == Some(why) && f.applied.len() == 0 && f.restart_required.len() == 0
            &&& !f.hydrated && f.ts == ts && f.source == source
        }),
        ({
            let g = runtime_config::good_report(ts, source, effective, loaded, stored, hydrated);
            &&& g.ok && g.error is None && g.ts == ts && g.source == source && g.hydrated == hydrated
            &&& g.applied == config::differing(config::running(effective, stored), config::running(loaded, stored))
            &&& g.restart_required == config::restart_keys(effective, loaded)
        }),
{
}

/// A reload that succeeded takes effect: what was loaded runs, but for what
/// needs a restart, and the time and the source of it are kept.
pub proof fn law_good_reload_takes_effect(s: StateView, report: ReportView, new: ConfigView)
    requires
        report.ok,
        s.generation < u64::MAX,
    ensures
        ({
            let r = runtime_config::recorded(s, report, Some(new));
            let e = r.snapshot.effective;
            &&& r.snapshot.last_loaded == new && r.snapshot.loaded_at == report.ts
            &&& r.snapshot.source == report.source && r.snapshot.last_reload == Some(report)
            &&& r.snapshot.boot == s.snapshot.boot && r.snapshot.path == s.snapshot.path
            &&& r.generation == s.generation + 1
            &&& e.api_port == s.snapshot.effective.api_port
            &&& e.security.enable_digest_auth == s.snapshot.effective.security.enable_digest_auth
            &&& e.security.sip_realm == s.snapshot.effective.security.sip_realm
            &&& e.security.rate_limit_per_ip == new.security.rate_limit_per_ip
            &&& e.security.rtp_timeout == new.security.rtp_timeout
            &&& e.security.invite_timeout == new.security.invite_timeout
            &&& e.security.max_call_duration == new.security.max_call_duration
            &&& e.security.call_setup_timeout == new.security.call_setup_timeout
            &&& e.security.session_timer_enabled == new.security.session_timer_enabled
            &&& e.security.session_expires == new.security.session_expires
            &&& e.security.min_se == new.security.min_se
            &&& e.security.register_aor_check == new.security.register_aor_check
            &&& e.security.served_domains == new.security.served_domains
            &&& e.security.trunk_local_from == new.security.trunk_local_from
            &&& e.security.ban == new.security.ban
            &&& e.security.destinations == new.security.destinations
            &&& e.security.user_limits == new.security.user_limits
        }),
{
}

// ── Defaults ────────────────────────────────────────────────────────────

/// What runs where nothing is configured.
pub proof fn law_defaults(d: DestinationsConfig, l: UserLimitsConfig)
    requires
        destination::default_destinations(d),
        user_limits::default_limits(l),
    ensures
        ({
            let c = config::default_config();
            let s = c.security;
            &&& c.api_port == 8080 && s.rate_limit_per_ip == 100 && s.rtp_timeout == 60
            &&& s.invite_timeout == 5 && s.max_call_duration == 14400 && s.call_setup_timeout == 60
            &&& !s.session_timer_enabled && s.session_expires == 1800 && s.min_se == 90
            &&& s.register_aor_check == "enforce"@ && s.trunk_local_from == "flag"@
            &&& s.served_domains.len() == 0 && !s.enable_digest_auth && s.sip_realm == "sbc.local"@
            &&& s.destinations.enabled && s.destinations.default_action == "allow"@
            &&& s.destinations.default_country_code == "33"@ && s.destinations.seed_irsf_rules
            &&& s.destinations.rules.len() == 0
            &&& s.user_limits.enabled && s.user_limits.defaults == (4u32, 10u32)
            &&& s.user_limits.overrides.len() == 0
            &&& s.ban.enabled && s.ban.max_failures == 5 && s.ban.window_secs == 60
            &&& s.ban.ban_duration_secs == 3600 && s.ban.repeat_offender_multiplier == 4
            &&& s.ban.max_ban_secs == 86400 && s.ban.silent_drop && s.ban.whitelist.len() == 0
        }),
        d.enabled && d.default_action@ == "allow"@ && d.default_country_code@ == "33"@
            && d.rules@.len() == 0 && d.seed_irsf_rules,
        l.enabled && l.default_max_concurrent_calls == 4 && l.default_max_calls_per_minute == 10
            && l.overrides@.len() == 0,
{
}

/// A list that cannot be written is stored as an empty one.
pub proof fn law_list_as_it_is_stored(s: Seq<char>)
    ensures
        import::stored_list(Some(s)) == s,
        import::stored_list(None) == "[]"@,
{
}

/// The rows of a synchronisation are put in one after the other, each with
/// the prefixes of its own routes and the identifier that was made for it.
pub proof fn law_rows_are_put_in(
    ts: Seq<TrunkView>,
    rows: Seq<TrunkRow>,
    routes: Seq<RouteRow>,
    ids: Seq<Seq<char>>,
    n: nat,
)
    ensures
        hydrate::upserted_rows(ts, rows, routes, ids, 0) == ts,
        hydrate::upserted_rows(ts, rows, routes, ids, n + 1) == hydrate::upserted(
            hydrate::upserted_rows(ts, rows, routes, ids, n),
            hydrate::stored_trunk(
                rows[n as int],
                hydrate::route_prefixes(routes, rows[n as int].name@),
                ids[n as int],
            ),
        ),
{
}

/// A stored ban is read with its times in milliseconds, and a row whose
/// address cannot be read is none.
pub proof fn law_ban_of_a_row(row: BanRow, a: AddressView, from: nat, until: nat)
    requires
        rfc3339::timestamp_seconds(row.banned_at@) == Some(from),
        rfc3339::timestamp_seconds(row.expires_at@) == Some(until),
        from * 1000 <= u128::MAX,
        until * 1000 <= u128::MAX,
    ensures
        ban_store::ban_of(row, None) is None,
        ban_store::ban_of(row, Some(a)) is Some,
        ban_store::ban_of(row, Some(a))->0.ip == a.text && ban_store::ban_of(row, Some(a))->0.reason == row.reason@,
        ban_store::ban_of(row, Some(a))->0.banned_at == 1000 * from,
        ban_store::ban_of(row, Some(a))->0.expires_at == 1000 * until,
        ban_store::ban_of(row, Some(a))->0.manual == row.manual,
{
}

} // verus!
