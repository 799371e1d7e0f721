//! First-boot import: the entries of the configuration file seed the tables
//! of the store that are empty. A table that holds anything is left alone, so
//! the store stays the source of truth.

use crate::hydrate::{DidRow, TrunkConfig, TrunkRow, TrunkView, UserRow, find_trunk, number_format, transport_type, write_list};
use crate::hydrate;
use crate::invite_handler::DidMapping;
use crate::responses::fresh_uuid;
use crate::rfc3339::systemtime_rfc3339;
use crate::rfc3339;
use crate::text::{clone_opt, clone_strings};
use crate::text;
use vstd::prelude::*;

verus! {

/// A user of the file: name and credential digest.
#[derive(Debug)]
pub struct SeedUser {
    pub username: String,
    pub ha1: String,
}

/// A trunk of the file.
#[derive(Debug)]
pub struct TrunkToml {
    pub name: String,
    pub enabled: bool,
    pub transport: String,
    pub host: String,
    pub port: u16,
    pub auth_required: bool,
    pub username: Option<String>,
    pub password: Option<String>,
    pub realm: Option<String>,
    pub allowed_codecs: Vec<String>,
    pub max_concurrent_calls: u32,
    pub register_with_trunk: bool,
    /// Seconds.
    pub registration_interval: u64,
    pub cost_per_minute: u32,
    pub priority: u32,
    pub weight: u32,
    pub prefix_patterns: Vec<String>,
    pub number_format: String,
    pub country_code: Option<String>,
    pub national_prefix: Option<String>,
    pub caller_number_format: Option<String>,
    pub caller_number_override: Option<String>,
    pub caller_display_name: Option<String>,
}

/// What the file seeds.
#[derive(Debug)]
pub struct Seeds {
    pub realm: String,
    pub users: Vec<SeedUser>,
    pub dids: Vec<DidMapping>,
    pub trunks: Vec<TrunkToml>,
}

/// The rows to store.
#[derive(Debug)]
pub struct ImportPlan {
    pub users: Vec<UserRow>,
    pub dids: Vec<DidRow>,
    pub trunks: Vec<TrunkRow>,
}

// ── Rows of the seeds ───────────────────────────────────────────────────

/// The row stores the user of the file.
pub open spec fn seeds_user(row: UserRow, user: SeedUser, realm: Seq<char>) -> bool {
    &&& row.username@ == user.username@
    &&& row.ha1@ == user.ha1@
    &&& row.realm@ == realm
    &&& row.display_name is None
    &&& row.enabled
    &&& row.max_concurrent_calls is None
    &&& row.max_calls_per_minute is None
}

/// The row stores the mapping of the file.
pub open spec fn seeds_did(row: DidRow, did: DidMapping) -> bool {
    &&& row.number@ == did.number@
    &&& row.sip_user@ == did.user@
    &&& text::opt_string(row.display_name) == text::opt_string(did.display_name)
    &&& row.enabled
}

/// The text that stores a list: its JSON text, or an empty list where it has
/// none.
pub open spec fn stored_list(written: Option<Seq<char>>) -> Seq<char> {
    match written {
        Some(s) => s,
        None => "[]"@,
    }
}

/// The row stores the trunk of the file. Its lists are told apart.
pub open spec fn seeds_trunk(row: TrunkRow, tc: TrunkToml) -> bool {
    &&& row.name@ == tc.name@
    &&& row.enabled == tc.enabled
    &&& row.host@ == tc.host@
    &&& row.port == tc.port
    &&& row.transport@ == tc.transport@
    &&& row.auth_required == tc.auth_required
    &&& text::opt_string(row.username) == text::opt_string(tc.username)
    &&& text::opt_string(row.password) == text::opt_string(tc.password)
    &&& text::opt_string(row.realm) == text::opt_string(tc.realm)
    &&& row.register_with_trunk == tc.register_with_trunk
    &&& row.registration_interval == tc.registration_interval as i64
    &&& row.priority == tc.priority
    &&& row.weight == tc.weight
    &&& row.cost_per_minute == tc.cost_per_minute
    &&& row.number_format@ == tc.number_format@
    &&& text::opt_string(row.country_code) == text::opt_string(tc.country_code)
    &&& text::opt_string(row.national_prefix) == text::opt_string(tc.national_prefix)
    &&& text::opt_string(row.caller_number_format) == text::opt_string(tc.caller_number_format)
    &&& text::opt_string(row.caller_number_override) == text::opt_string(tc.caller_number_override)
    &&& text::opt_string(row.caller_display_name) == text::opt_string(tc.caller_display_name)
    &&& row.max_concurrent_calls == tc.max_concurrent_calls
    &&& row.tls_sni is None
    &&& row.tls_ca_cert is None
    &&& row.tls_verify
    &&& row.tls_client_cert is None
    &&& row.tls_client_key is None
}

/// A text stores a list: it is the JSON text of the list and reads back as
/// it.
pub open spec fn stores_list(stored: Seq<char>, list: Seq<Seq<char>>) -> bool {
    stored == hydrate::list_text(list) && hydrate::listed_texts(stored) == Some(list)
}

/// The row of a trunk, given the JSON texts of its lists.
pub fn trunk_row_with(tc: &TrunkToml, patterns: Option<String>, codecs: Option<String>) -> (r:
    TrunkRow)
    ensures
        seeds_trunk(r, *tc),
        r.prefix_patterns@ == stored_list(text::opt_string(patterns)),
        r.allowed_codecs@ == stored_list(text::opt_string(codecs)),
{
    let prefix_patterns: String = match patterns {
        Some(s) => s,
        None => "[]".to_string(),
    };
    let allowed_codecs: String = match codecs {
        Some(s) => s,
        None => "[]".to_string(),
    };
    TrunkRow {
        name: tc.name.clone(),
        enabled: tc.enabled,
        host: tc.host.clone(),
        port: tc.port as i64,
        transport: tc.transport.clone(),
        auth_required: tc.auth_required,
        username: clone_opt(&tc.username),
        password: clone_opt(&tc.password),
        realm: clone_opt(&tc.realm),
        register_with_trunk: tc.register_with_trunk,
        registration_interval: tc.registration_interval as i64,
        prefix_patterns,
        priority: tc.priority as i64,
        weight: tc.weight as i64,
        cost_per_minute: tc.cost_per_minute as i64,
        number_format: tc.number_format.clone(),
        country_code: clone_opt(&tc.country_code),
        national_prefix: clone_opt(&tc.national_prefix),
        caller_number_format: clone_opt(&tc.caller_number_format),
        caller_number_override: clone_opt(&tc.caller_number_override),
        caller_display_name: clone_opt(&tc.caller_display_name),
        allowed_codecs,
        max_concurrent_calls: tc.max_concurrent_calls as i64,
        tls_sni: None,
        tls_ca_cert: None,
        tls_verify: true,
        tls_client_cert: None,
        tls_client_key: None,
    }
}

/// The row that stores a trunk of the file.
pub fn trunk_row(tc: &TrunkToml) -> (r: TrunkRow)
    ensures
        seeds_trunk(r, *tc),
        stores_list(r.prefix_patterns@, text::string_views(tc.prefix_patterns@)),
        stores_list(r.allowed_codecs@, text::string_views(tc.allowed_codecs@)),
{
    let patterns = write_list(&tc.prefix_patterns);
    let codecs = write_list(&tc.allowed_codecs);
    trunk_row_with(tc, patterns, codecs)
}

// ── Import ──────────────────────────────────────────────────────────────

/// A table is seeded where the store says that it is empty; an error counts
/// as not empty.
pub open spec fn seeds_table(empty: Option<bool>) -> bool {
    empty == Some(true)
}

fn user_rows(seeds: &Seeds) -> (r: Vec<UserRow>)
    ensures
        r@.len() == seeds.users@.len(),
        forall|i: int| 0 <= i < r@.len() ==> seeds_user(
            #[trigger] r@[i],
            seeds.users@[i],
            seeds.realm@,
        ),
{
    let mut out: Vec<UserRow> = Vec::new();
    let mut i: usize = 0;
    while i < seeds.users.len()
        invariant
            i <= seeds.users@.len(),
            out@.len() == i,
            forall|k: int| 0 <= k < i ==> seeds_user(
                #[trigger] out@[k],
                seeds.users@[k],
                seeds.realm@,
            ),
        decreases seeds.users@.len() - i,
    {
        let u = &seeds.users[i];
        out.push(
            UserRow {
                username: u.username.clone(),
                ha1: u.ha1.clone(),
                realm: seeds.realm.clone(),
                display_name: None,
                enabled: true,
                max_concurrent_calls: None,
                max_calls_per_minute: None,
            },
        );
        i = i + 1;
    }
    out
}

fn did_rows(dids: &Vec<DidMapping>) -> (r: Vec<DidRow>)
    ensures
        r@.len() == dids@.len(),
        forall|i: int| 0 <= i < r@.len() ==> seeds_did(#[trigger] r@[i], dids@[i]),
{
    let mut out: Vec<DidRow> = Vec::new();
    let mut i: usize = 0;
    while i < dids.len()
        invariant
            i <= dids@.len(),
            out@.len() == i,
            forall|k: int| 0 <= k < i ==> seeds_did(#[trigger] out@[k], dids@[k]),
        decreases dids@.len() - i,
    {
        let d = &dids[i];
        out.push(
            DidRow {
                number: d.number.clone(),
                sip_user: d.user.clone(),
                display_name: clone_opt(&d.display_name),
                enabled: true,
            },
        );
        i = i + 1;
    }
    out
}

/// The row stores the trunk of the file with its lists.
pub open spec fn stores_trunk(row: TrunkRow, tc: TrunkToml) -> bool {
    &&& seeds_trunk(row, tc)
    &&& stores_list(row.prefix_patterns@, text::string_views(tc.prefix_patterns@))
    &&& stores_list(row.allowed_codecs@, text::string_views(tc.allowed_codecs@))
}

fn trunk_rows(trunks: &Vec<TrunkToml>) -> (r: Vec<TrunkRow>)
    ensures
        r@.len() == trunks@.len(),
        forall|i: int| 0 <= i < r@.len() ==> stores_trunk(#[trigger] r@[i], trunks@[i]),
{
    let mut out: Vec<TrunkRow> = Vec::new();
    let mut i: usize = 0;
    while i < trunks.len()
        invariant
            i <= trunks@.len(),
            out@.len() == i,
            forall|k: int| 0 <= k < i ==> stores_trunk(#[trigger] out@[k], trunks@[k]),
        decreases trunks@.len() - i,
    {
        out.push(trunk_row(&trunks[i]));
        i = i + 1;
    }
    out
}

/// The plan stores these seeds where the tables are empty.
pub open spec fn imports(
    plan: ImportPlan,
    seeds: Seeds,
    users_empty: Option<bool>,
    dids_empty: Option<bool>,
    trunks_empty: Option<bool>,
) -> bool {
    &&& plan.users@.len() == (if seeds_table(users_empty) {
        seeds.users@.len()
    } else {
        0
    })
    &&& plan.dids@.len() == (if seeds_table(dids_empty) {
        seeds.dids@.len()
    } else {
        0
    })
    &&& plan.trunks@.len() == (if seeds_table(trunks_empty) {
        seeds.trunks@.len()
    } else {
        0
    })
    &&& forall|i: int|
        0 <= i < plan.users@.len() ==> seeds_user(
            #[trigger] plan.users@[i],
            seeds.users@[i],
            seeds.realm@,
        )
    &&& forall|i: int|
        0 <= i < plan.dids@.len() ==> seeds_did(#[trigger] plan.dids@[i], seeds.dids@[i])
    &&& forall|i: int|
        0 <= i < plan.trunks@.len() ==> stores_trunk(
            #[trigger] plan.trunks@[i],
            seeds.trunks@[i],
        )
}

/// What to store on boot. Of each table the store tells whether it is empty
/// (None where that failed).
pub fn first_boot_import(
    seeds: &Seeds,
    users_empty: Option<bool>,
    dids_empty: Option<bool>,
    trunks_empty: Option<bool>,
) -> (r: ImportPlan)
    ensures
        imports(r, *seeds, users_empty, dids_empty, trunks_empty),
{
    let users: Vec<UserRow> = match users_empty {
        Some(true) => user_rows(seeds),
        _ => Vec::new(),
    };
    let dids: Vec<DidRow> = match dids_empty {
        Some(true) => did_rows(&seeds.dids),
        _ => Vec::new(),
    };
    let trunks: Vec<TrunkRow> = match trunks_empty {
        Some(true) => trunk_rows(&seeds.trunks),
        _ => Vec::new(),
    };
    ImportPlan { users, dids, trunks }
}

/// Names and digests of the users of the file.
pub open spec fn file_credentials(users: Seq<SeedUser>) -> Seq<(Seq<char>, Seq<char>)> {
    users.map_values(|u: SeedUser| (u.username@, u.ha1@))
}

/// Take the users of the file over in place of those in force, which stay
/// where the file names none. Tells whether they were replaced.
pub fn reload_users(users: &mut Vec<(String, String)>, file: &Vec<SeedUser>) -> (r: bool)
    ensures
        r == (file@.len() > 0),
        hydrate::credential_views(final(users)@) == (if r {
            file_credentials(file@)
        } else {
            hydrate::credential_views(old(users)@)
        }),
{
    if file.len() == 0 {
        return false;
    }
    let mut out: Vec<(String, String)> = Vec::new();
    let mut i: usize = 0;
    let ghost all = file_credentials(file@);
    while i < file.len()
        invariant
            i <= file@.len(),
            all == file_credentials(file@),
            hydrate::credential_views(out@) == all.take(i as int),
        decreases file@.len() - i,
    {
        let ghost before = out@;
        let pair = (file[i].username.clone(), file[i].ha1.clone());
        out.push(pair);
        assert(hydrate::credential_views(out@) =~= hydrate::credential_views(before).push(all[i as int]));
        assert(all.take(i + 1) =~= all.take(i as int).push(all[i as int]));
        i = i + 1;
    }
    assert(all.take(all.len() as int) =~= all);
    *users = out;
    true
}

/// The moment to keep as the time of the import, where anything was stored.
pub fn import_stamp(stored: (usize, usize, usize), now: u64) -> (r: Option<String>)
    ensures
        match r {
            Some(t) => rfc3339::is_timestamp(t@, now as nat) && (stored.0 > 0 || stored.1 > 0 || stored.2
                > 0),
            None => stored == (0usize, 0usize, 0usize),
        },
{
    if stored.0 == 0 && stored.1 == 0 && stored.2 == 0 {
        None
    } else {
        Some(systemtime_rfc3339(now))
    }
}

// ── Trunks straight from the file ───────────────────────────────────────

/// The running trunk of a trunk of the file.
pub open spec fn file_trunk(tc: TrunkToml, id: Seq<char>) -> TrunkView {
    TrunkView {
        id,
        name: tc.name@,
        enabled: true,
        transport: hydrate::transport_named(tc.transport@),
        host: tc.host@,
        port: tc.port,
        resolved_addr: None,
        auth_required: tc.auth_required,
        username: text::opt_string(tc.username),
        password: text::opt_string(tc.password),
        realm: text::opt_string(tc.realm),
        allowed_codecs: text::string_views(tc.allowed_codecs@),
        max_concurrent_calls: tc.max_concurrent_calls,
        calls_per_second: 10,
        register_with_trunk: tc.register_with_trunk,
        registration_interval: tc.registration_interval,
        cost_per_minute: tc.cost_per_minute,
        priority: tc.priority,
        weight: tc.weight,
        prefix_patterns: text::string_views(tc.prefix_patterns@),
        number_format: hydrate::format_named(tc.number_format@),
        country_code: text::opt_string(tc.country_code),
        national_prefix: text::opt_string(tc.national_prefix),
        caller_number_format: None,
        caller_number_override: None,
        caller_display_name: None,
        tls_sni: None,
        tls_ca_cert: None,
        tls_verify: true,
        tls_client_cert: None,
        tls_client_key: None,
    }
}

/// The running trunk of a trunk of the file.
pub fn trunk_from_file(tc: &TrunkToml, id: &str) -> (r: TrunkConfig)
    ensures
        r@ == file_trunk(*tc, id@),
{
    TrunkConfig {
        id: id.to_string(),
        name: tc.name.clone(),
        enabled: true,
        transport: transport_type(tc.transport.as_str()),
        host: tc.host.clone(),
        port: tc.port,
        resolved_addr: None,
        auth_required: tc.auth_required,
        username: clone_opt(&tc.username),
        password: clone_opt(&tc.password),
        realm: clone_opt(&tc.realm),
        allowed_codecs: clone_strings(&tc.allowed_codecs),
        max_concurrent_calls: tc.max_concurrent_calls,
        calls_per_second: 10,
        register_with_trunk: tc.register_with_trunk,
        registration_interval: tc.registration_interval,
        cost_per_minute: tc.cost_per_minute,
        priority: tc.priority,
        weight: tc.weight,
        prefix_patterns: clone_strings(&tc.prefix_patterns),
        number_format: number_format(tc.number_format.as_str()),
        country_code: clone_opt(&tc.country_code),
        national_prefix: clone_opt(&tc.national_prefix),
        caller_number_format: None,
        caller_number_override: None,
        caller_display_name: None,
        tls_sni: None,
        tls_ca_cert: None,
        tls_verify: true,
        tls_client_cert: None,
        tls_client_key: None,
    }
}

/// Whether the trunk of the file joins the table: it is enabled and, on a
/// reload, the table has none of its name.
pub open spec fn joins(table: Seq<TrunkView>, tc: TrunkToml, reload: bool) -> bool {
    tc.enabled && (reload ==> hydrate::trunk_at(table, tc.name@, 0) == table.len())
}

/// The table after the first `n` trunks of the file; a new trunk `i` has the
/// identifier `ids[i]`.
pub open spec fn joined(
    table: Seq<TrunkView>,
    file: Seq<TrunkToml>,
    ids: Seq<Seq<char>>,
    reload: bool,
    n: nat,
) -> Seq<TrunkView>
    decreases n,
{
    if n == 0 {
        table
    } else {
        let before = joined(table, file, ids, reload, (n - 1) as nat);
        if joins(before, file[n - 1], reload) {
            before.push(file_trunk(file[n - 1], ids[n - 1]))
        } else {
            before
        }
    }
}

/// Add the enabled trunks of the file to the table, given an identifier for
/// each. At boot every one is added; on a reload only those whose name the
/// table lacks, and none is removed, since calls may refer to it. Returns how
/// many were added.
pub fn add_file_trunks_with(
    table: &mut Vec<TrunkConfig>,
    file: &Vec<TrunkToml>,
    ids: &Vec<String>,
    reload: bool,
) -> (r: usize)
    requires
        ids@.len() == file@.len(),
    ensures
        hydrate::trunk_views(final(table)@) == joined(
            hydrate::trunk_views(old(table)@),
            file@,
            text::string_views(ids@),
            reload,
            file@.len(),
        ),
        r == final(table)@.len() - old(table)@.len(),
{
    let ghost start = hydrate::trunk_views(table@);
    let ghost idv = text::string_views(ids@);
    let mut added: usize = 0;
    let mut i: usize = 0;
    while i < file.len()
        invariant
            i <= file@.len(),
            added <= i,
            ids@.len() == file@.len(),
            idv == text::string_views(ids@),
            start == hydrate::trunk_views(old(table)@),
            hydrate::trunk_views(table@) == joined(start, file@, idv, reload, i as nat),
            table@.len() == start.len() + added,
        decreases file@.len() - i,
    {
        let ghost before = hydrate::trunk_views(table@);
        let known: usize = find_trunk(table, file[i].name.as_str());
        if file[i].enabled && (!reload || known == table.len()) {
            let t = trunk_from_file(&file[i], ids[i].as_str());
            assert(idv[i as int] == ids@[i as int]@);
            table.push(t);
            assert(hydrate::trunk_views(table@) =~= before.push(t@));
            added = added + 1;
        }
        i = i + 1;
    }
    added
}

/// Add the enabled trunks of the file to the table under fresh identifiers.
pub fn add_file_trunks(
    table: &mut Vec<TrunkConfig>,
    file: &Vec<TrunkToml>,
    reload: bool,
) -> (r: usize)
    ensures
        r == final(table)@.len() - old(table)@.len(),
        exists|ids: Seq<Seq<char>>|
            ids.len() == file@.len() && hydrate::trunk_views(final(table)@) == #[trigger] joined(
                hydrate::trunk_views(old(table)@),
                file@,
                ids,
                reload,
                file@.len(),
            ),
{
    let mut ids: Vec<String> = Vec::new();
    let mut i: usize = 0;
    while i < file.len()
        invariant
            i <= file@.len(),
            ids@.len() == i,
        decreases file@.len() - i,
    {
        ids.push(fresh_uuid());
        i = i + 1;
    }
    let ghost start = hydrate::trunk_views(table@);
    let r = add_file_trunks_with(table, file, &ids, reload);
    assert(hydrate::trunk_views(table@) == joined(start, file@, text::string_views(ids@), reload, file@.len()));
    r
}

// ── Laws ────────────────────────────────────────────────────────────────

/// Importing again stores nothing: a table that holds something is left
/// alone.
pub proof fn law_import_leaves_filled_tables(
    plan: ImportPlan,
    seeds: Seeds,
    users_empty: Option<bool>,
    dids_empty: Option<bool>,
    trunks_empty: Option<bool>,
)
    requires
        imports(plan, seeds, users_empty, dids_empty, trunks_empty),
    ensures
        users_empty != Some(true) ==> plan.users@.len() == 0,
        dids_empty != Some(true) ==> plan.dids@.len() == 0,
        trunks_empty != Some(true) ==> plan.trunks@.len() == 0,
{
}

/// An imported trunk that is read back from the store runs as the file
/// describes it: the same trunk as one taken straight from the file, apart
/// from the presentation of the caller, which only the store carries.
pub proof fn law_imported_trunk_runs_as_written(row: TrunkRow, tc: TrunkToml, id: Seq<char>)
    requires
        seeds_trunk(row, tc),
        tc.enabled,
        tc.registration_interval <= i64::MAX,
        hydrate::listed_texts(row.prefix_patterns@) == Some(text::string_views(tc.prefix_patterns@)),
        hydrate::listed_texts(row.allowed_codecs@) == Some(text::string_views(tc.allowed_codecs@)),
    ensures
        hydrate::stored_trunk(row, Seq::empty(), id) == (TrunkView {
            caller_number_format: hydrate::stored_trunk(row, Seq::empty(), id).caller_number_format,
            caller_number_override: text::opt_string(tc.caller_number_override),
            caller_display_name: text::opt_string(tc.caller_display_name),
            ..file_trunk(tc, id)
        }),
{
}

} // verus!
