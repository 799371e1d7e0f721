//! The concurrent maps that hold the state of the policies.
//!
//! `dashmap::DashMap` is opaque; what a map holds is named, and each
//! operation says what it does to the contents. Keys are text: an account
//! name, or an address in its canonical textual form.

use dashmap::DashMap;
use std::collections::VecDeque;
use crate::security::ban::{BanEntry, BanView};
use crate::security::user_limits::UserLimits;
use vstd::prelude::*;

verus! {

/// `dashmap::DashMap`.
#[verifier::external_type_specification]
#[verifier::external_body]
#[verifier::reject_recursive_types(K)]
#[verifier::reject_recursive_types(V)]
#[verifier::reject_recursive_types(S)]
pub struct ExDashMap<K, V, S>(DashMap<K, V, S>);

// ── Sliding windows: key to instants ────────────────────────────────────

/// What a map of windows holds.
pub uninterp spec fn windows(m: DashMap<String, VecDeque<u64>>) -> Map<Seq<char>, Seq<u64>>;

/// `DashMap::new` on a map of windows: empty.
#[verifier::external_body]
pub(crate) fn windows_new() -> (r: DashMap<String, VecDeque<u64>>)
    ensures
        (windows(r) == Map::<Seq<char>, Seq<u64>>::empty()),
{
    DashMap::new()
}

/// `DashMap::remove` on a map of windows: takes the window of the key out and
/// returns it, None when there is none.
#[verifier::external_body]
pub(crate) fn windows_remove(m: &mut DashMap<String, VecDeque<u64>>, key: &str) -> (r: Option<
    VecDeque<u64>,
>)
    ensures
        windows(*final(m)) == windows(*old(m)).remove(key@),
        match r {
            Some(v) => windows(*old(m)).contains_key(key@) && windows(*old(m))[key@] == v@,
            None => !windows(*old(m)).contains_key(key@),
        },
{
    m.remove(key).map(|e| e.1)
}

/// `DashMap::insert` on a map of windows: the key has this window from now on.
#[verifier::external_body]
pub(crate) fn windows_insert(m: &mut DashMap<String, VecDeque<u64>>, key: &str, v: VecDeque<u64>)
    ensures
        windows(*final(m)) == windows(*old(m)).insert(key@, v@),
{
    m.insert(key.to_string(), v);
}

// ── Counters: key to count ──────────────────────────────────────────────

/// What a map of counters holds.
pub uninterp spec fn counters(m: DashMap<String, u32>) -> Map<Seq<char>, u32>;

/// `DashMap::new` on a map of counters: empty.
#[verifier::external_body]
pub(crate) fn counters_new() -> (r: DashMap<String, u32>)
    ensures
        (counters(r) == Map::<Seq<char>, u32>::empty()),
{
    DashMap::new()
}

/// `DashMap::get` on a map of counters: the count of the key.
#[verifier::external_body]
pub(crate) fn counters_get(m: &DashMap<String, u32>, key: &str) -> (r: Option<u32>)
    ensures
        match r {
            Some(v) => counters(*m).contains_key(key@) && counters(*m)[key@] == v,
            None => !counters(*m).contains_key(key@),
        },
{
    m.get(key).map(|e| *e.value())
}

/// `DashMap::insert` on a map of counters: the key has this count from now on.
#[verifier::external_body]
pub(crate) fn counters_insert(m: &mut DashMap<String, u32>, key: &str, v: u32)
    ensures
        counters(*final(m)) == counters(*old(m)).insert(key@, v),
{
    m.insert(key.to_string(), v);
}

// ── Bans: address to entry ──────────────────────────────────────────────

/// What a map of bans holds.
pub uninterp spec fn bans(m: DashMap<String, BanEntry>) -> Map<Seq<char>, BanView>;

/// `DashMap::new` on a map of bans: empty.
#[verifier::external_body]
pub(crate) fn bans_new() -> (r: DashMap<String, BanEntry>)
    ensures
        (bans(r) == Map::<Seq<char>, BanView>::empty()),
{
    DashMap::new()
}

/// `DashMap::get` on a map of bans: a copy of the entry of the key.
#[verifier::external_body]
pub(crate) fn bans_get(m: &DashMap<String, BanEntry>, key: &str) -> (r: Option<BanEntry>)
    ensures
        match r {
            Some(v) => bans(*m).contains_key(key@) && bans(*m)[key@] == v@,
            None => !bans(*m).contains_key(key@),
        },
{
    m.get(key).map(|e| e.value().clone())
}

/// `DashMap::insert` on a map of bans: the key has this entry from now on.
#[verifier::external_body]
pub(crate) fn bans_insert(m: &mut DashMap<String, BanEntry>, key: &str, v: BanEntry)
    ensures
        bans(*final(m)) == bans(*old(m)).insert(key@, v@),
{
    m.insert(key.to_string(), v);
}

/// `DashMap::remove` on a map of bans: takes the entry of the key out; tells
/// whether there was one.
#[verifier::external_body]
pub(crate) fn bans_remove(m: &mut DashMap<String, BanEntry>, key: &str) -> (r: bool)
    ensures
        bans(*final(m)) == bans(*old(m)).remove(key@),
        r == bans(*old(m)).contains_key(key@),
{
    m.remove(key).is_some()
}

/// The pairs list the map: each pair is in it, no key twice, no key missing.
pub open spec fn lists_bans(v: Seq<(String, BanEntry)>, m: Map<Seq<char>, BanView>) -> bool {
    &&& forall|i: int|
        0 <= i < v.len() ==> m.contains_key((#[trigger] v[i]).0@) && m[v[i].0@] == v[i].1@
    &&& forall|i: int, j: int|
        0 <= i < j < v.len() ==> (#[trigger] v[i]).0@ != (#[trigger] v[j]).0@
    &&& forall|k: Seq<char>| #[trigger]
        m.contains_key(k) ==> exists|i: int| 0 <= i < v.len() && (#[trigger] v[i]).0@ == k
}

/// `DashMap::iter` on a map of bans: every key with a copy of its entry, once,
/// in no particular order.
#[verifier::external_body]
pub(crate) fn bans_pairs(m: &DashMap<String, BanEntry>) -> (r: Vec<(String, BanEntry)>)
    ensures
        lists_bans(r@, bans(*m)),
{
    m.iter().map(|e| (e.key().clone(), e.value().clone())).collect()
}

// ── Overrides: user to limits ───────────────────────────────────────────

/// What a map of overrides holds.
pub uninterp spec fn overrides(m: DashMap<String, UserLimits>) -> Map<Seq<char>, UserLimits>;

/// `DashMap::new` on a map of overrides: empty.
#[verifier::external_body]
pub(crate) fn overrides_new() -> (r: DashMap<String, UserLimits>)
    ensures
        (overrides(r) == Map::<Seq<char>, UserLimits>::empty()),
{
    DashMap::new()
}

/// `DashMap::get` on a map of overrides: the limits of the key.
#[verifier::external_body]
pub(crate) fn overrides_get(m: &DashMap<String, UserLimits>, key: &str) -> (r: Option<UserLimits>)
    ensures
        match r {
            Some(v) => overrides(*m).contains_key(key@) && overrides(*m)[key@] == v,
            None => !overrides(*m).contains_key(key@),
        },
{
    m.get(key).map(|e| *e.value())
}

/// `DashMap::insert` on a map of overrides: the key has these limits from now
/// on.
#[verifier::external_body]
pub(crate) fn overrides_insert(m: &mut DashMap<String, UserLimits>, key: &str, v: UserLimits)
    ensures
        overrides(*final(m)) == overrides(*old(m)).insert(key@, v),
{
    m.insert(key.to_string(), v);
}

/// `DashMap::remove` on a map of overrides: takes the limits of the key out;
/// tells whether there were any.
#[verifier::external_body]
pub(crate) fn overrides_remove(m: &mut DashMap<String, UserLimits>, key: &str) -> (r: bool)
    ensures
        overrides(*final(m)) == overrides(*old(m)).remove(key@),
        r == overrides(*old(m)).contains_key(key@),
{
    m.remove(key).is_some()
}

/// The pairs list the map: each pair is in it, no key twice, no key missing.
pub open spec fn lists_overrides(
    v: Seq<(String, UserLimits)>,
    m: Map<Seq<char>, UserLimits>,
) -> bool {
    &&& forall|i: int|
        0 <= i < v.len() ==> m.contains_key((#[trigger] v[i]).0@) && m[v[i].0@] == v[i].1
    &&& forall|i: int, j: int|
        0 <= i < j < v.len() ==> (#[trigger] v[i]).0@ != (#[trigger] v[j]).0@
    &&& forall|k: Seq<char>| #[trigger]
        m.contains_key(k) ==> exists|i: int| 0 <= i < v.len() && (#[trigger] v[i]).0@ == k
}

/// `DashMap::iter` on a map of overrides: every key with its limits, once, in
/// no particular order.
#[verifier::external_body]
pub(crate) fn overrides_pairs(m: &DashMap<String, UserLimits>) -> (r: Vec<(String, UserLimits)>)
    ensures
        lists_overrides(r@, overrides(*m)),
{
    m.iter().map(|e| (e.key().clone(), *e.value())).collect()
}

} // verus!
