//! Banning of sources that keep failing: failures in a sliding window per
//! address, and a ban that gets longer for repeat offenders.
//!
//! An address is given in its canonical textual form.

use dashmap::DashMap;
use std::collections::VecDeque;
use crate::security::tables::{bans_get, bans_insert, bans_new, bans_pairs, bans_remove, counters_get, counters_insert, counters_new, windows_insert, windows_new, windows_remove};
use crate::security::tables;
use crate::security::user_limits;
use crate::security::window::{Moment, prune_window};
use crate::security::window;
use crate::text::{chars_of, clone_strings, has_prefix, is_exactly, same_str};
use crate::text;
use vstd::prelude::*;

verus! {

/// `u32::saturating_pow`: the power, or the largest `u32` where it is larger.
pub assume_specification[ u32::saturating_pow ](x: u32, exp: u32) -> (r: u32)
    ensures
        r == (if vstd::arithmetic::power::pow(x as int, exp as nat) <= u32::MAX {
            vstd::arithmetic::power::pow(x as int, exp as nat)
        } else {
            u32::MAX as int
        }),
;

#[derive(Debug)]
pub struct BanConfig {
    pub enabled: bool,
    /// Strikes within `window_secs` that trigger a ban.
    pub max_failures: u32,
    pub window_secs: u64,
    pub ban_duration_secs: u64,
    /// Each repeat offense multiplies the duration (capped at `max_ban_secs`).
    pub repeat_offender_multiplier: u32,
    pub max_ban_secs: u64,
    /// true: drop packets silently; false: answer 403.
    pub silent_drop: bool,
    /// Addresses and networks never banned (loopback is always one of them).
    pub whitelist: Vec<String>,
}

/// What a configuration holds.
#[verifier::ext_equal]
pub struct BanConfigView {
    pub enabled: bool,
    pub max_failures: u32,
    pub window_secs: u64,
    pub ban_duration_secs: u64,
    pub repeat_offender_multiplier: u32,
    pub max_ban_secs: u64,
    pub silent_drop: bool,
    pub whitelist: Seq<Seq<char>>,
}

impl View for BanConfig {
    type V = BanConfigView;

    open spec fn view(&self) -> BanConfigView {
        BanConfigView {
            enabled: self.enabled,
            max_failures: self.max_failures,
            window_secs: self.window_secs,
            ban_duration_secs: self.ban_duration_secs,
            repeat_offender_multiplier: self.repeat_offender_multiplier,
            max_ban_secs: self.max_ban_secs,
            silent_drop: self.silent_drop,
            whitelist: text::string_views(self.whitelist@),
        }
    }
}

/// Five failures in a minute ban for an hour, up to a day for a repeated
/// offender.
pub open spec fn default_ban() -> BanConfigView {
    BanConfigView {
        enabled: true,
        max_failures: 5,
        window_secs: 60,
        ban_duration_secs: 3600,
        repeat_offender_multiplier: 4,
        max_ban_secs: 86400,
        silent_drop: true,
        whitelist: Seq::empty(),
    }
}

impl Default for BanConfig {
    fn default() -> (r: Self)
        ensures
            r@ == default_ban(),
    {
        let whitelist: Vec<String> = Vec::new();
        assert(text::string_views(whitelist@) =~= Seq::empty());
        BanConfig {
            enabled: true,
            max_failures: 5,
            window_secs: 60,
            ban_duration_secs: 3600,
            repeat_offender_multiplier: 4,
            max_ban_secs: 86400,
            silent_drop: true,
            whitelist,
        }
    }
}

impl Clone for BanConfig {
    fn clone(&self) -> (r: Self)
        ensures
            r@ == self@,
    {
        BanConfig {
            enabled: self.enabled,
            max_failures: self.max_failures,
            window_secs: self.window_secs,
            ban_duration_secs: self.ban_duration_secs,
            repeat_offender_multiplier: self.repeat_offender_multiplier,
            max_ban_secs: self.max_ban_secs,
            silent_drop: self.silent_drop,
            whitelist: clone_strings(&self.whitelist),
        }
    }
}

#[derive(Debug)]
pub struct BanEntry {
    pub ip: String,
    pub reason: String,
    /// Wall clock in milliseconds since the Unix epoch, so that bans survive
    /// a restart.
    pub banned_at: u128,
    pub expires_at: u128,
    pub failures: u32,
    pub manual: bool,
    pub offense_count: u32,
}

/// What an entry holds.
#[verifier::ext_equal]
pub struct BanView {
    pub ip: Seq<char>,
    pub reason: Seq<char>,
    pub banned_at: u128,
    pub expires_at: u128,
    pub failures: u32,
    pub manual: bool,
    pub offense_count: u32,
}

impl View for BanEntry {
    type V = BanView;

    open spec fn view(&self) -> BanView {
        BanView {
            ip: self.ip@,
            reason: self.reason@,
            banned_at: self.banned_at,
            expires_at: self.expires_at,
            failures: self.failures,
            manual: self.manual,
            offense_count: self.offense_count,
        }
    }
}

impl Clone for BanEntry {
    fn clone(&self) -> (r: Self)
        ensures
            r@ == self@,
    {
        BanEntry {
            ip: self.ip.clone(),
            reason: self.reason.clone(),
            banned_at: self.banned_at,
            expires_at: self.expires_at,
            failures: self.failures,
            manual: self.manual,
            offense_count: self.offense_count,
        }
    }
}

/// The ban has run out at wall clock `wall_ms`.
pub open spec fn expired(b: BanView, wall_ms: u64) -> bool {
    wall_ms >= b.expires_at
}

/// Whole seconds left of a ban.
pub open spec fn seconds_left(b: BanView, wall_ms: u64) -> int {
    if expired(b, wall_ms) {
        0
    } else {
        (b.expires_at - wall_ms) / 1000
    }
}

impl BanEntry {
    pub fn is_expired(&self, wall_ms: u64) -> (r: bool)
        ensures
            r == expired(self@, wall_ms),
    {
        wall_ms as u128 >= self.expires_at
    }

    /// Whole seconds left, 0 once expired.
    pub fn remaining_secs(&self, wall_ms: u64) -> (r: u64)
        ensures
            r == at_most(seconds_left(self@, wall_ms), u64::MAX as int),
    {
        if self.is_expired(wall_ms) {
            return 0;
        }
        let left: u128 = (self.expires_at - wall_ms as u128) / 1000;
        if left > u64::MAX as u128 {
            u64::MAX
        } else {
            left as u64
        }
    }

    /// Whole seconds since the Unix epoch of a wall clock reading.
    pub fn ts_rfc_secs(wall_ms: u128) -> (r: u128)
        ensures
            r == wall_ms / 1000,
    {
        wall_ms / 1000
    }
}

// ── Whitelist ───────────────────────────────────────────────────────────

/// Verdict of a network on an address: None when the text is no network.
pub uninterp spec fn network_contains(network: Seq<char>, ip: Seq<char>) -> Option<bool>;

/// Calls `IpNetwork::from_str` on the entry and `IpNetwork::contains` on the
/// address: None when the entry is no network, else whether the address lies
/// in it (a text that is no address lies in none). The result follows from
/// the two texts alone and is named.
#[verifier::external_body]
fn ask_network(network: &str, ip: &str) -> (r: Option<bool>)
    ensures
        r == network_contains(network@, ip@),
{
    match network.parse::<ipnetwork::IpNetwork>() {
        Ok(net) => match ip.parse() {
            Ok(addr) => Some(net.contains(addr)),
            Err(_) => Some(false),
        },
        Err(_) => None,
    }
}

/// The address is one of this host: 127.0.0.0/8 or ::1.
pub open spec fn is_loopback(ip: Seq<char>) -> bool {
    text::starts_with(ip, "127."@) || ip == "::1"@
}

/// What an entry of the whitelist says of an address, given the verdict of
/// the entry read as a network: that verdict, and where the entry is no
/// network, whether it is the address itself.
pub open spec fn entry_covers(verdict: Option<bool>, entry: Seq<char>, ip: Seq<char>) -> bool {
    match verdict {
        Some(v) => v,
        None => entry == ip,
    }
}

pub open spec fn whitelisted(list: Seq<Seq<char>>, ip: Seq<char>) -> bool {
    is_loopback(ip) || exists|i: int|
        0 <= i < list.len() && entry_covers(
            network_contains(#[trigger] list[i], ip),
            list[i],
            ip,
        )
}

/// Whether an entry of the whitelist covers an address.
pub fn covers(verdict: Option<bool>, entry: &str, ip: &str) -> (r: bool)
    ensures
        r == entry_covers(verdict, entry@, ip@),
{
    match verdict {
        Some(v) => v,
        None => same_str(entry, ip),
    }
}

// ── State ───────────────────────────────────────────────────────────────

pub struct BanManager {
    config: BanConfig,
    /// Failure instants per address (pruned to the window on insert).
    failures: DashMap<String, VecDeque<u64>>,
    bans: DashMap<String, BanEntry>,
    /// Past offense counts, kept after expiry.
    offenses: DashMap<String, u32>,
}

/// What the manager holds.
#[verifier::ext_equal]
pub struct BansView {
    pub config: BanConfigView,
    pub failures: Map<Seq<char>, Seq<u64>>,
    pub bans: Map<Seq<char>, BanView>,
    pub offenses: Map<Seq<char>, u32>,
}

impl View for BanManager {
    type V = BansView;

    closed spec fn view(&self) -> BansView {
        BansView {
            config: self.config@,
            failures: tables::windows(self.failures),
            bans: tables::bans(self.bans),
            offenses: tables::counters(self.offenses),
        }
    }
}

pub open spec fn banned(s: BansView, ip: Seq<char>, wall_ms: u64) -> bool {
    s.bans.contains_key(ip) && !expired(s.bans[ip], wall_ms)
}

/// The state without the ban of an address that has run out.
pub open spec fn forget_expired(s: BansView, ip: Seq<char>, wall_ms: u64) -> BansView {
    if s.bans.contains_key(ip) && expired(s.bans[ip], wall_ms) {
        BansView { bans: s.bans.remove(ip), ..s }
    } else {
        s
    }
}

pub open spec fn offenses_of(s: BansView, ip: Seq<char>) -> u32 {
    if s.offenses.contains_key(ip) {
        s.offenses[ip]
    } else {
        0
    }
}

pub open spec fn at_most(a: int, b: int) -> int {
    if a <= b {
        a
    } else {
        b
    }
}

/// Seconds of the ban for the n-th offense: the configured duration times the
/// multiplier to the power n - 1, never above the configured maximum.
pub open spec fn ban_seconds(c: BanConfigView, offense: u32) -> int {
    let power = at_most(
        vstd::arithmetic::power::pow(c.repeat_offender_multiplier as int, (offense - 1) as nat),
        u32::MAX as int,
    );
    let factor = if power >= 1 {
        power
    } else {
        1
    };
    at_most(at_most(c.ban_duration_secs * factor, u64::MAX as int), c.max_ban_secs as int)
}

/// The entry of an automatic ban.
pub open spec fn automatic_ban(
    s: BansView,
    ip: Seq<char>,
    reason: Seq<char>,
    failures: u32,
    at: Moment,
) -> BanView {
    let offense = (offenses_of(s, ip) + 1) as u32;
    BanView {
        ip,
        reason,
        banned_at: at.wall_ms as u128,
        expires_at: (at.wall_ms + ban_seconds(s.config, offense) * 1000) as u128,
        failures,
        manual: false,
        offense_count: offense,
    }
}

/// The strikes of an address in the window, the new one included.
pub open spec fn strikes(s: BansView, ip: Seq<char>, at: Moment) -> Seq<u64> {
    window::drop_older(user_limits::window_of(s.failures, ip), at.mono_ms, s.config.window_secs).push(at.mono_ms)
}

/// What becomes of a failure of an address: the ban that it triggers, if any,
/// and the state after it.
pub open spec fn failure_outcome(s: BansView, ip: Seq<char>, reason: Seq<char>, at: Moment) -> (
    Option<BanView>,
    BansView,
) {
    if !s.config.enabled || whitelisted(s.config.whitelist, ip) {
        (None, s)
    } else if banned(s, ip, at.wall_ms) {
        (None, s)
    } else {
        let t = forget_expired(s, ip, at.wall_ms);
        let w = strikes(t, ip, at);
        if (w.len() as u32) < s.config.max_failures {
            (None, BansView { failures: t.failures.insert(ip, w), ..t })
        } else {
            let b = automatic_ban(t, ip, reason, w.len() as u32, at);
            (
                Some(b),
                BansView {
                    failures: t.failures.remove(ip),
                    offenses: t.offenses.insert(ip, b.offense_count),
                    bans: t.bans.insert(ip, b),
                    ..t
                },
            )
        }
    }
}

pub open spec fn entry_view(b: Option<BanEntry>) -> Option<BanView> {
    match b {
        Some(x) => Some(x@),
        None => None,
    }
}

/// The addresses whose ban has run out.
pub open spec fn expired_keys(m: Map<Seq<char>, BanView>, wall_ms: u64) -> Set<Seq<char>> {
    Set::new(|k: Seq<char>| m.contains_key(k) && expired(m[k], wall_ms))
}

/// The bans that have not run out.
pub open spec fn live_bans(m: Map<Seq<char>, BanView>, wall_ms: u64) -> Map<Seq<char>, BanView> {
    m.remove_keys(expired_keys(m, wall_ms))
}

impl BanManager {
    pub fn new(config: BanConfig) -> (r: Self)
        ensures
            r@ == (BansView {
                config: config@,
                failures: Map::empty(),
                bans: Map::empty(),
                offenses: Map::empty(),
            }),
    {
        BanManager {
            config,
            failures: windows_new(),
            bans: bans_new(),
            offenses: counters_new(),
        }
    }

    pub fn config(&self) -> (r: BanConfig)
        ensures
            r@ == self@.config,
    {
        self.config.clone()
    }

    pub fn set_config(&mut self, config: BanConfig)
        ensures
            final(self)@ == (BansView { config: config@, ..old(self)@ }),
    {
        self.config = config;
    }

    /// Loopback, or covered by an entry of the whitelist.
    pub fn is_whitelisted(&self, ip: &str) -> (r: bool)
        ensures
            r == whitelisted(self@.config.whitelist, ip@),
    {
        let addr = chars_of(ip);
        if has_prefix(addr.as_slice(), "127.") || is_exactly(addr.as_slice(), "::1") {
            return true;
        }
        let ghost list = text::string_views(self.config.whitelist@);
        let mut i: usize = 0;
        while i < self.config.whitelist.len()
            invariant
                i <= self.config.whitelist@.len(),
                list == text::string_views(self.config.whitelist@),
                forall|k: int|
                    0 <= k < i ==> !entry_covers(
                        network_contains(#[trigger] list[k], ip@),
                        list[k],
                        ip@,
                    ),
            decreases self.config.whitelist@.len() - i,
        {
            let entry = self.config.whitelist[i].as_str();
            assert(list[i as int] == entry@);
            if covers(ask_network(entry, ip), entry, ip) {
                return true;
            }
            i = i + 1;
        }
        false
    }

    /// Is this source banned right now? A ban found expired is forgotten.
    pub fn is_banned(&mut self, ip: &str, wall_ms: u64) -> (r: bool)
        ensures
            r == banned(old(self)@, ip@, wall_ms),
            final(self)@ == forget_expired(old(self)@, ip@, wall_ms),
    {
        let gone: bool = match bans_get(&self.bans, ip) {
            Some(entry) => {
                if !entry.is_expired(wall_ms) {
                    return true;
                }
                true
            },
            None => false,
        };
        if gone {
            let _ = bans_remove(&mut self.bans, ip);
        }
        false
    }

    /// How many bans an address has been given.
    pub fn offense_count(&self, ip: &str) -> (r: u32)
        ensures
            r == offenses_of(self@, ip@),
    {
        match counters_get(&self.offenses, ip) {
            Some(n) => n,
            None => 0,
        }
    }

    /// Whether banned traffic should be dropped silently (vs 403).
    pub fn silent_drop(&self) -> (r: bool)
        ensures
            r == self@.config.silent_drop,
    {
        self.config.silent_drop
    }

    /// Record a failure strike; returns the new ban when the threshold is hit.
    pub fn record_failure(&mut self, ip: &str, reason: &str, at: Moment) -> (r: Option<BanEntry>)
        requires
            offenses_of(old(self)@, ip@) < u32::MAX,
        ensures
            (entry_view(r), final(self)@) == failure_outcome(old(self)@, ip@, reason@, at),
    {
        if !self.config.enabled || self.is_whitelisted(ip) {
            return None;
        }
        if self.is_banned(ip, at.wall_ms) {
            assert(self@ == old(self)@);
            return None;
        }
        let ghost t = self@;
        let window_secs: u64 = self.config.window_secs;
        let mut w: VecDeque<u64> = match windows_remove(&mut self.failures, ip) {
            Some(w) => w,
            None => VecDeque::new(),
        };
        assert(w@ =~= user_limits::window_of(t.failures, ip@));
        prune_window(&mut w, at.mono_ms, window_secs);
        w.push_back(at.mono_ms);
        assert(w@ == strikes(t, ip@, at));
        let count: u32 = w.len() as u32;
        if count < self.config.max_failures {
            windows_insert(&mut self.failures, ip, w);
            assert(t.failures.remove(ip@).insert(ip@, w@) =~= t.failures.insert(ip@, w@));
            return None;
        }
        let offense: u32 = match counters_get(&self.offenses, ip) {
            Some(n) => n + 1,
            None => 1,
        };
        counters_insert(&mut self.offenses, ip, offense);
        let power: u32 = self.config.repeat_offender_multiplier.saturating_pow(offense - 1);
        let factor: u64 = if power >= 1 {
            power as u64
        } else {
            1
        };
        let ghost base = self.config.ban_duration_secs;
        assert(0 <= base * factor <= 0xffff_ffff_ffff_ffff * 0xffff_ffff) by (nonlinear_arith)
            requires
                0 <= base <= 0xffff_ffff_ffff_ffff,
                0 <= factor <= 0xffff_ffff,
        ;
        let product: u128 = (self.config.ban_duration_secs as u128) * (factor as u128);
        let mut duration: u64 = if product > u64::MAX as u128 {
            u64::MAX
        } else {
            product as u64
        };
        if duration > self.config.max_ban_secs {
            duration = self.config.max_ban_secs;
        }
        assert(duration == ban_seconds(t.config, offense));
        let entry = BanEntry {
            ip: ip.to_string(),
            reason: reason.to_string(),
            banned_at: at.wall_ms as u128,
            expires_at: at.wall_ms as u128 + (duration as u128) * 1000,
            failures: count,
            manual: false,
            offense_count: offense,
        };
        assert(entry@ == automatic_ban(t, ip@, reason@, count, at));
        bans_insert(&mut self.bans, ip, entry.clone());
        Some(entry)
    }

    /// Manual ban.
    pub fn ban(&mut self, ip: &str, duration_ms: u128, reason: &str, wall_ms: u64) -> (r: BanEntry)
        requires
            wall_ms + duration_ms <= u128::MAX,
            offenses_of(old(self)@, ip@) < u32::MAX,
        ensures
            r@ == (BanView {
                ip: ip@,
                reason: reason@,
                banned_at: wall_ms as u128,
                expires_at: (wall_ms + duration_ms) as u128,
                failures: 0,
                manual: true,
                offense_count: (offenses_of(old(self)@, ip@) + 1) as u32,
            }),
            final(self)@ == (BansView { bans: old(self)@.bans.insert(ip@, r@), ..old(self)@ }),
    {
        let past: u32 = match counters_get(&self.offenses, ip) {
            Some(n) => n,
            None => 0,
        };
        let entry = BanEntry {
            ip: ip.to_string(),
            reason: reason.to_string(),
            banned_at: wall_ms as u128,
            expires_at: wall_ms as u128 + duration_ms,
            failures: 0,
            manual: true,
            offense_count: past + 1,
        };
        bans_insert(&mut self.bans, ip, entry.clone());
        entry
    }

    /// Lift a ban; tells whether there was one.
    pub fn unban(&mut self, ip: &str) -> (r: bool)
        ensures
            r == old(self)@.bans.contains_key(ip@),
            final(self)@ == (BansView { bans: old(self)@.bans.remove(ip@), ..old(self)@ }),
    {
        bans_remove(&mut self.bans, ip)
    }

    /// The bans that have not run out, each once, in no particular order.
    pub fn list(&self, wall_ms: u64) -> (r: Vec<BanEntry>)
        ensures
            exists|keys: Seq<Seq<char>>| #[trigger]
                keyed_list(keys, r@, live_bans(self@.bans, wall_ms)),
    {
        let pairs = bans_pairs(&self.bans);
        let mut out: Vec<BanEntry> = Vec::new();
        let ghost mut keys: Seq<Seq<char>> = Seq::empty();
        let ghost m = tables::bans(self.bans);
        let ghost live = live_bans(m, wall_ms);
        let mut i: usize = 0;
        while i < pairs.len()
            invariant
                i <= pairs@.len(),
                m == tables::bans(self.bans),
                live == live_bans(m, wall_ms),
                tables::lists_bans(pairs@, m),
                keys.len() == out@.len(),
                forall|j: int|
                    0 <= j < keys.len() ==> live.contains_key(#[trigger] keys[j]) && live[keys[j]]
                        == out@[j]@,
                forall|j: int|
                    0 <= j < keys.len() ==> exists|p: int|
                        0 <= p < i && (#[trigger] pairs@[p]).0@ == #[trigger] keys[j],
                forall|j: int, k: int|
                    0 <= j < k < keys.len() ==> #[trigger] keys[j] != #[trigger] keys[k],
                forall|p: int|
                    0 <= p < i && live.contains_key((#[trigger] pairs@[p]).0@) ==> keys.contains(
                        pairs@[p].0@,
                    ),
            decreases pairs@.len() - i,
        {
            let ghost before = keys;
            let ghost key = pairs@[i as int].0@;
            assert(m.contains_key(key));
            if !pairs[i].1.is_expired(wall_ms) {
                out.push(pairs[i].1.clone());
                proof {
                    keys = before.push(key);
                    assert(live.contains_key(key));
                    assert(keys[before.len() as int] == key);
                    assert forall|p: int|
                        0 <= p < i + 1 && live.contains_key((#[trigger] pairs@[p]).0@) implies keys.contains(
                    pairs@[p].0@) by {
                        if p < i {
                            let q = choose|q: int|
                                0 <= q < before.len() && before[q] == pairs@[p].0@;
                            assert(keys[q] == pairs@[p].0@);
                        }
                    }
                }
            }
            i = i + 1;
        }
        assert forall|k: Seq<char>| #[trigger] live.contains_key(k) implies keys.contains(k) by {
            assert(m.contains_key(k));
            let p = choose|p: int| 0 <= p < pairs@.len() && (#[trigger] pairs@[p]).0@ == k;
            assert(live.contains_key(pairs@[p].0@));
        }
        assert(keyed_list(keys, out@, live_bans(self@.bans, wall_ms)));
        out
    }

    /// Forget the bans that have run out; returns how many there were.
    pub fn cleanup_expired(&mut self, wall_ms: u64) -> (r: usize)
        ensures
            final(self)@ == (BansView {
                bans: live_bans(old(self)@.bans, wall_ms),
                ..old(self)@
            }),
            exists|gone: Seq<Seq<char>>|
                r == gone.len() && #[trigger] lists_keys(
                    gone,
                    expired_keys(old(self)@.bans, wall_ms),
                ),
    {
        let pairs = bans_pairs(&self.bans);
        let ghost m = tables::bans(self.bans);
        let ghost dead = expired_keys(m, wall_ms);
        let ghost mut gone: Seq<Seq<char>> = Seq::empty();
        let mut count: usize = 0;
        let mut i: usize = 0;
        while i < pairs.len()
            invariant
                i <= pairs@.len(),
                count <= i,
                tables::lists_bans(pairs@, m),
                m == tables::bans(old(self).bans),
                dead == expired_keys(m, wall_ms),
                self.config == old(self).config,
                self.failures == old(self).failures,
                self.offenses == old(self).offenses,
                count == gone.len(),
                forall|j: int| 0 <= j < gone.len() ==> dead.contains(#[trigger] gone[j]),
                forall|j: int|
                    0 <= j < gone.len() ==> exists|p: int|
                        0 <= p < i && (#[trigger] pairs@[p]).0@ == #[trigger] gone[j],
                forall|j: int, k: int|
                    0 <= j < k < gone.len() ==> #[trigger] gone[j] != #[trigger] gone[k],
                forall|p: int|
                    0 <= p < i && dead.contains((#[trigger] pairs@[p]).0@) ==> gone.contains(
                        pairs@[p].0@,
                    ),
                forall|k: Seq<char>|
                    #![trigger tables::bans(self.bans).contains_key(k)]
                    tables::bans(self.bans).contains_key(k) <==> m.contains_key(k) && !gone.contains(k),
                forall|k: Seq<char>|
                    tables::bans(self.bans).contains_key(k) ==> #[trigger] tables::bans(self.bans)[k] == m[k],
            decreases pairs@.len() - i,
        {
            let ghost before = gone;
            let ghost key = pairs@[i as int].0@;
            assert(m.contains_key(key));
            if pairs[i].1.is_expired(wall_ms) {
                let _ = bans_remove(&mut self.bans, pairs[i].0.as_str());
                count = count + 1;
                proof {
                    gone = before.push(key);
                    assert(dead.contains(key));
                    assert(gone[before.len() as int] == key);
                    assert forall|k: Seq<char>| gone.contains(k) <==> before.contains(k) || k
                        == key by {
                        if before.contains(k) {
                            let q = choose|q: int| 0 <= q < before.len() && before[q] == k;
                            assert(gone[q] == k);
                        }
                    }
                }
            }
            i = i + 1;
        }
        proof {
            assert forall|k: Seq<char>| dead.contains(k) implies gone.contains(k) by {
                assert(m.contains_key(k));
            }
            assert(lists_keys(gone, dead));
            assert(tables::bans(self.bans) =~= live_bans(m, wall_ms)) by {
                assert forall|k: Seq<char>| tables::bans(self.bans).contains_key(k) <==> live_bans(
                    m,
                    wall_ms,
                ).contains_key(k) by {
                    if gone.contains(k) {
                        let q = choose|q: int| 0 <= q < gone.len() && gone[q] == k;
                        assert(dead.contains(gone[q]));
                    }
                }
            }
        }
        count
    }

    /// Restore a persisted ban, unless it has run out.
    pub fn restore(&mut self, entry: BanEntry, wall_ms: u64)
        ensures
            final(self)@ == (if expired(entry@, wall_ms) {
                old(self)@
            } else {
                (BansView {
                    offenses: old(self)@.offenses.insert(entry.ip@, entry.offense_count),
                    bans: old(self)@.bans.insert(entry.ip@, entry@),
                    ..old(self)@
                })
            }),
    {
        if !entry.is_expired(wall_ms) {
            let ip = entry.ip.clone();
            counters_insert(&mut self.offenses, ip.as_str(), entry.offense_count);
            bans_insert(&mut self.bans, ip.as_str(), entry);
        }
    }
}

/// `keys` name the entries of a list: together they are the map.
pub open spec fn keyed_list(
    keys: Seq<Seq<char>>,
    v: Seq<BanEntry>,
    m: Map<Seq<char>, BanView>,
) -> bool {
    &&& keys.len() == v.len()
    &&& forall|i: int|
        0 <= i < keys.len() ==> m.contains_key(#[trigger] keys[i]) && m[keys[i]] == v[i]@
    &&& forall|i: int, j: int| 0 <= i < j < keys.len() ==> #[trigger] keys[i] != #[trigger] keys[j]
    &&& forall|k: Seq<char>| #[trigger] m.contains_key(k) ==> keys.contains(k)
}

/// `v` lists the set: its members, each once.
pub open spec fn lists_keys(v: Seq<Seq<char>>, s: Set<Seq<char>>) -> bool {
    &&& forall|i: int| 0 <= i < v.len() ==> s.contains(#[trigger] v[i])
    &&& forall|i: int, j: int| 0 <= i < j < v.len() ==> #[trigger] v[i] != #[trigger] v[j]
    &&& forall|k: Seq<char>| #[trigger] s.contains(k) ==> v.contains(k)
}

// ── Laws ────────────────────────────────────────────────────────────────

/// Loopback and whitelisted addresses are never banned for their failures.
pub proof fn law_whitelisted_never_banned(s: BansView, ip: Seq<char>, reason: Seq<char>, at: Moment)
    requires
        whitelisted(s.config.whitelist, ip),
    ensures
        failure_outcome(s, ip, reason, at) == (None::<BanView>, s),
{
}

/// A ban that a failure triggers holds at once, and as long as it was issued
/// for.
pub proof fn law_ban_holds_until_it_expires(
    s: BansView,
    ip: Seq<char>,
    reason: Seq<char>,
    at: Moment,
    wall_ms: u64,
)
    requires
        failure_outcome(s, ip, reason, at).0 is Some,
    ensures
        banned(failure_outcome(s, ip, reason, at).1, ip, wall_ms) <==> wall_ms
            < failure_outcome(s, ip, reason, at).0->0.expires_at,
{
}

/// A failure of one address bans no other.
pub proof fn law_bans_are_per_address(
    s: BansView,
    ip: Seq<char>,
    other: Seq<char>,
    reason: Seq<char>,
    at: Moment,
    wall_ms: u64,
)
    requires
        ip != other,
    ensures
        banned(failure_outcome(s, ip, reason, at).1, other, wall_ms) == banned(s, other, wall_ms),
{
}

/// Fewer failures in the window than the threshold ban nobody; the failure
/// that reaches the threshold bans.
pub proof fn law_threshold_triggers_the_ban(
    s: BansView,
    ip: Seq<char>,
    reason: Seq<char>,
    at: Moment,
)
    requires
        s.config.enabled,
        !whitelisted(s.config.whitelist, ip),
        !banned(s, ip, at.wall_ms),
    ensures
        failure_outcome(s, ip, reason, at).0 is Some <==> strikes(s, ip, at).len() as u32
            >= s.config.max_failures,
{
}

/// A lifted ban is gone.
pub proof fn law_unbanned_is_not_banned(s: BansView, ip: Seq<char>, wall_ms: u64)
    ensures
        !banned((BansView { bans: s.bans.remove(ip), ..s }), ip, wall_ms),
{
}

/// The ban of a later offense is never shorter than that of an earlier one,
/// and none is longer than the configured maximum.
pub proof fn law_repeat_offender_escalates(c: BanConfigView, earlier: u32, later: u32)
    requires
        1 <= earlier <= later,
    ensures
        ban_seconds(c, earlier) <= ban_seconds(c, later) <= c.max_ban_secs,
{
    let m = c.repeat_offender_multiplier as int;
    let a = (earlier - 1) as nat;
    let b = (later - 1) as nat;
    let pa = at_most(vstd::arithmetic::power::pow(m, a), u32::MAX as int);
    let pb = at_most(vstd::arithmetic::power::pow(m, b), u32::MAX as int);
    let fa = if pa >= 1 {
        pa
    } else {
        1
    };
    let fb = if pb >= 1 {
        pb
    } else {
        1
    };
    if m > 0 {
        vstd::arithmetic::power::lemma_pow_increases(m as nat, a, b);
    } else if a > 0 {
        vstd::arithmetic::power::lemma0_pow(a);
    } else {
        vstd::arithmetic::power::lemma_pow0(m);
    }
    assert(fa <= fb);
    let d = c.ban_duration_secs as int;
    assert(d * fa <= d * fb) by (nonlinear_arith)
        requires
            0 <= d,
            fa <= fb,
    ;
}

/// After the sweep no ban that has run out is left, and no other is lost.
pub proof fn law_sweep_keeps_live_bans(s: BansView, ip: Seq<char>, wall_ms: u64)
    ensures
        banned((BansView { bans: live_bans(s.bans, wall_ms), ..s }), ip, wall_ms) == banned(
            s,
            ip,
            wall_ms,
        ),
        live_bans(s.bans, wall_ms).contains_key(ip) ==> banned(s, ip, wall_ms),
{
}

} // verus!
