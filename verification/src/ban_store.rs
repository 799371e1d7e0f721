//! Bans in the store, so that a restart does not pardon anyone.

use crate::net::{Address, AddressView, parse_address};
use crate::net;
use crate::rfc3339::{parse_timestamp, systemtime_rfc3339};
use crate::rfc3339;
use crate::security::ban::{BanEntry, BanManager, BanView, BansView};
use crate::security::ban;
use vstd::prelude::*;

verus! {

/// A stored ban.
#[derive(Debug, Clone)]
pub struct BanRow {
    pub ip: String,
    pub reason: String,
    pub banned_at: String,
    pub expires_at: String,
    pub failures: i64,
    pub manual: bool,
    pub offense_count: i64,
}

/// The seconds of a wall clock in milliseconds.
pub open spec fn whole_seconds(ms: u128) -> nat {
    (ms / 1000) as nat
}

/// The row stores the ban.
pub open spec fn stores_ban(row: BanRow, b: BanView) -> bool {
    &&& row.ip@ == b.ip
    &&& row.reason@ == b.reason
    &&& rfc3339::is_timestamp(row.banned_at@, whole_seconds(b.banned_at))
    &&& rfc3339::is_timestamp(row.expires_at@, whole_seconds(b.expires_at))
    &&& row.failures == b.failures
    &&& row.manual == b.manual
    &&& row.offense_count == b.offense_count
}

/// The moments of a ban fit a timestamp.
pub open spec fn datable(b: BanView) -> bool {
    b.banned_at / 1000 <= u64::MAX && b.expires_at / 1000 <= u64::MAX
}

/// The row of a ban, to the second.
pub fn persist_ban(entry: &BanEntry) -> (r: BanRow)
    requires
        datable(entry@),
    ensures
        stores_ban(r, entry@),
{
    BanRow {
        ip: entry.ip.clone(),
        reason: entry.reason.clone(),
        banned_at: systemtime_rfc3339((entry.banned_at / 1000) as u64),
        expires_at: systemtime_rfc3339((entry.expires_at / 1000) as u64),
        failures: entry.failures as i64,
        manual: entry.manual,
        offense_count: entry.offense_count as i64,
    }
}

/// The ban that a row stores, given the address that its text denotes; None
/// where it denotes none or a moment does not read.
pub open spec fn ban_of(row: BanRow, address: Option<AddressView>) -> Option<BanView> {
    match (
        address,
        rfc3339::timestamp_seconds(row.banned_at@),
        rfc3339::timestamp_seconds(row.expires_at@),
    ) {
        (Some(a), Some(from), Some(until)) => Some(
            BanView {
                ip: a.text,
                reason: row.reason@,
                banned_at: (from * 1000) as u128,
                expires_at: (until * 1000) as u128,
                failures: row.failures as u32,
                manual: row.manual,
                offense_count: row.offense_count as u32,
            },
        ),
        _ => None,
    }
}

/// Convert a stored ban back, given the address that its text denotes.
pub fn ban_row_to_entry_with(row: &BanRow, address: Option<Address>) -> (r: Option<BanEntry>)
    ensures
        ban::entry_view(r) == ban_of(*row, net::opt_address(address)),
{
    match (
        address,
        parse_timestamp(row.banned_at.as_str()),
        parse_timestamp(row.expires_at.as_str()),
    ) {
        (Some(a), Some(from), Some(until)) => Some(
            BanEntry {
                ip: a.text,
                reason: row.reason.clone(),
                banned_at: from * 1000,
                expires_at: until * 1000,
                failures: row.failures as u32,
                manual: row.manual,
                offense_count: row.offense_count as u32,
            },
        ),
        _ => None,
    }
}

/// Convert a stored ban back to a live entry.
pub fn ban_row_to_entry(row: &BanRow) -> (r: Option<BanEntry>)
    ensures
        ban::entry_view(r) == ban_of(*row, net::parsed_address(row.ip@)),
{
    ban_row_to_entry_with(row, parse_address(row.ip.as_str()))
}

/// The bans after the first `n` rows are restored.
pub open spec fn restored(s: BansView, rows: Seq<BanRow>, wall_ms: u64, n: nat) -> BansView
    decreases n,
{
    if n == 0 {
        s
    } else {
        let before = restored(s, rows, wall_ms, (n - 1) as nat);
        match ban_of(rows[n - 1], net::parsed_address(rows[n - 1].ip@)) {
            Some(b) => with_restored(before, b, wall_ms),
            None => before,
        }
    }
}

/// The bans with one that was stored, unless it has run out.
pub open spec fn with_restored(s: BansView, b: BanView, wall_ms: u64) -> BansView {
    if ban::expired(b, wall_ms) {
        s
    } else {
        BansView {
            offenses: s.offenses.insert(b.ip, b.offense_count),
            bans: s.bans.insert(b.ip, b),
            ..s
        }
    }
}

/// Restore the stored bans. A row that does not read is passed over, and so is
/// a ban that has run out.
pub fn restore_bans(bans: &mut BanManager, rows: &Vec<BanRow>, wall_ms: u64)
    ensures
        final(bans)@ == restored(old(bans)@, rows@, wall_ms, rows@.len()),
{
    let ghost start = bans@;
    let mut i: usize = 0;
    while i < rows.len()
        invariant
            i <= rows@.len(),
            bans@ == restored(start, rows@, wall_ms, i as nat),
        decreases rows@.len() - i,
    {
        if let Some(entry) = ban_row_to_entry(&rows[i]) {
            bans.restore(entry, wall_ms);
        }
        i = i + 1;
    }
}

/// A stored ban reads back as the ban that was stored, its moments cut to the
/// second, where its address is written as addresses are. Where its moments
/// are whole seconds, it is the same ban in every part.
pub proof fn law_stored_ban_reads_back(row: BanRow, b: BanView, address: AddressView)
    requires
        stores_ban(row, b),
        datable(b),
        address.text == b.ip,
    ensures
        ban_of(row, Some(address)) == Some(to_the_second(b)),
        b.banned_at % 1000 == 0 && b.expires_at % 1000 == 0 ==> ban_of(row, Some(address)) == Some(
            b,
        ),
{
    rfc3339::law_timestamp_reads_back(row.banned_at@, whole_seconds(b.banned_at));
    rfc3339::law_timestamp_reads_back(row.expires_at@, whole_seconds(b.expires_at));
}

/// A row whose address or one of whose moments does not read stores no ban.
pub proof fn law_unreadable_row_is_no_ban(row: BanRow, address: Option<AddressView>)
    requires
        address is None || rfc3339::timestamp_seconds(row.banned_at@) is None || rfc3339::timestamp_seconds(
            row.expires_at@,
        ) is None,
    ensures
        ban_of(row, address) is None,
{
}

/// The ban with its moments cut to the second.
pub open spec fn to_the_second(b: BanView) -> BanView {
    BanView {
        banned_at: (b.banned_at / 1000 * 1000) as u128,
        expires_at: (b.expires_at / 1000 * 1000) as u128,
        ..b
    }
}

/// A restart pardons no one: a ban that was stored and has not run out to the
/// second is in force again once its row is restored.
pub proof fn law_restart_keeps_the_ban(
    s: BansView,
    row: BanRow,
    b: BanView,
    address: AddressView,
    wall_ms: u64,
)
    requires
        stores_ban(row, b),
        datable(b),
        net::parsed_address(row.ip@) == Some(address),
        address.text == b.ip,
        !ban::expired(to_the_second(b), wall_ms),
    ensures
        ban::banned(restored(s, seq![row], wall_ms, 1), b.ip, wall_ms),
        restored(s, seq![row], wall_ms, 1).offenses.contains_pair(b.ip, b.offense_count),
{
    law_stored_ban_reads_back(row, b, address);
    reveal_with_fuel(restored, 2);
}

} // verus!
