//! Trunk state fed by real calls: active calls per trunk, which answers are
//! a trunk's own failure, and when a change of health is published.

use crate::cdr::{CallOutcome, CallSnapshot, CallTable};
use crate::cdr;
use crate::headers::values_of;
use crate::headers;
use crate::message::until_blank_of;
use crate::message;
use crate::text::{chars_of, clone_opt, parse_u64, same_opt, same_str, split_lines};
use crate::text;
use vstd::prelude::*;
use vstd::slice::slice_subrange;

verus! {

// ── Failures ────────────────────────────────────────────────────────────

/// Finals that mean that the trunk failed: a timeout, an internal error, a
/// bad gateway, an unavailable service or a gateway timeout.
pub open spec fn strikes_trunk(status: u16) -> bool {
    status == 408 || status == 500 || status == 502 || status == 503 || status == 504
}

/// Finals that mean that the trunk failed. Everything else is the callee's
/// or the request's problem and never cools the trunk.
pub fn is_trunk_strike_code(status: u16) -> (r: bool)
    ensures
        r == strikes_trunk(status),
{
    status == 408 || status == 500 || status == 502 || status == 503 || status == 504
}

/// The digits at the head of a text.
pub open spec fn digits_end(s: Seq<char>, from: int) -> int
    decreases s.len() - from,
{
    if 0 <= from && from < s.len() && text::is_digit(s[from]) {
        digits_end(s, from + 1)
    } else {
        from
    }
}

/// Seconds of a Retry-After value: its leading digits, from 1 to 3600.
pub open spec fn sane_delay(value: Seq<char>) -> Option<nat> {
    match text::parse_uint(value.take(digits_end(value, 0)), u64::MAX as nat) {
        Some(n) => if 1 <= n <= 3600 {
            Some(n)
        } else {
            None
        },
        None => None,
    }
}

/// `Retry-After` of a raw response in seconds, where it has one that is sane.
pub open spec fn retry_delay(raw: Seq<char>) -> Option<nat> {
    let v = headers::header_values(message::text_lines(raw), "Retry-After"@, "Retry-After"@);
    if v.len() > 0 {
        sane_delay(v[0])
    } else {
        None
    }
}

/// `Retry-After` of a response in seconds, when present and sane (one second
/// to one hour; a comment or parameter behind the number is ignored).
pub fn retry_after_secs(raw: &str) -> (r: Option<u64>)
    ensures
        match r {
            Some(n) => retry_delay(raw@) == Some(n as nat),
            None => retry_delay(raw@) is None,
        },
{
    let c = chars_of(raw);
    let ls = split_lines(c.as_slice());
    let hs = until_blank_of(&ls);
    let v = values_of(&hs, "Retry-After", "Retry-After");
    if v.len() == 0 {
        return None;
    }
    assert(text::views(v@)[0] == v@[0]@);
    let value = v[0];
    let mut end: usize = 0;
    while end < value.len() && '0' <= value[end] && value[end] <= '9'
        invariant
            end <= value@.len(),
            digits_end(value@, 0) == digits_end(value@, end as int),
        decreases value@.len() - end,
    {
        end = end + 1;
    }
    let digits = slice_subrange(value, 0, end);
    assert(digits@ =~= value@.take(end as int));
    match parse_u64(digits) {
        Some(n) => if 1 <= n && n <= 3600 {
            Some(n)
        } else {
            None
        },
        None => None,
    }
}

/// Label of a finished call in the per-trunk counters.
pub open spec fn outcome_label(o: CallOutcome, answered: bool) -> Seq<char> {
    if answered {
        "answered"@
    } else {
        match o {
            CallOutcome::Cancelled => "cancelled"@,
            CallOutcome::SetupTimeout => "timeout"@,
            CallOutcome::Rejected { code } => if strikes_trunk(code) {
                "failed"@
            } else {
                "rejected"@
            },
            _ => "failed"@,
        }
    }
}

/// Label of a finished call in the per-trunk counters.
pub fn trunk_outcome_label(outcome: &CallOutcome, answered: bool) -> (r: &'static str)
    ensures
        r@ == outcome_label(*outcome, answered),
{
    if answered {
        return "answered";
    }
    match outcome {
        CallOutcome::Cancelled => "cancelled",
        CallOutcome::SetupTimeout => "timeout",
        CallOutcome::Rejected { code } => if is_trunk_strike_code(*code) {
            "failed"
        } else {
            "rejected"
        },
        _ => "failed",
    }
}

// ── The trunk of a call ─────────────────────────────────────────────────

/// The trunk that a call's outbound leg is on: none for a call from a trunk
/// to a local user.
pub fn outbound_trunk_of(direction: &str, trunk_name: &Option<String>) -> (r: Option<String>)
    ensures
        text::opt_string(r) == outbound_trunk(direction@, text::opt_string(*trunk_name)),
{
    if same_str(direction, "inbound") {
        None
    } else {
        clone_opt(trunk_name)
    }
}

/// The outbound trunk of a call that got no answer at all: the one to strike
/// when the attempt times out.
pub fn silent_outbound_trunk_of(
    direction: &str,
    trunk_name: &Option<String>,
    callee_responded: bool,
) -> (r: Option<String>)
    ensures
        text::opt_string(r) == silent_trunk(direction@, text::opt_string(*trunk_name), callee_responded),
{
    if callee_responded || same_str(direction, "inbound") {
        None
    } else {
        clone_opt(trunk_name)
    }
}

/// A trunk's health has changed for the routing of calls.
#[derive(Debug)]
pub struct TrunkHealth {
    pub trunk: String,
    pub status: String,
    pub consecutive_failures: u32,
}

/// Whether a trunk could take calls before a failure (None where it is not
/// known), and after it: its label and count where it no longer can.
pub open spec fn failure_news(before: Option<bool>, unavailable_now: Option<(Seq<char>, u32)>) -> Option<
    (Seq<char>, u32),
> {
    if before == Some(false) {
        unavailable_now
    } else {
        None
    }
}

/// What is published after a failure on a trunk: only the step from
/// available to unavailable. `before` says whether the trunk was unavailable
/// (None where the trunk is not known).
pub fn note_trunk_failure(
    name: &str,
    before: Option<bool>,
    unavailable_now: Option<(String, u32)>,
) -> (r: Option<TrunkHealth>)
    ensures
        match r {
            Some(h) => h.trunk@ == name@ && failure_news(
                before,
                match unavailable_now {
                    Some((l, n)) => Some((l@, n)),
                    None => None,
                },
            ) == Some((h.status@, h.consecutive_failures)),
            None => failure_news(
                before,
                match unavailable_now {
                    Some((l, n)) => Some((l@, n)),
                    None => None,
                },
            ) is None,
        },
{
    match before {
        Some(b) => if !b {
            match unavailable_now {
                Some((label, n)) => Some(
                    TrunkHealth { trunk: name.to_string(), status: label, consecutive_failures: n },
                ),
                None => None,
            }
        } else {
            None
        },
        None => None,
    }
}

/// What is published after a trunk answered 200: that it is up, where a
/// cooldown was lifted and no park holds it.
pub fn note_trunk_success(name: &str, was_cooling: bool, still_parked: bool) -> (r: Option<
    TrunkHealth,
>)
    ensures
        match r {
            Some(h) => was_cooling && !still_parked && h.trunk@ == name@ && h.status@ == "up"@
                && h.consecutive_failures == 0,
            None => !was_cooling || still_parked,
        },
{
    if was_cooling && !still_parked {
        Some(
            TrunkHealth {
                trunk: name.to_string(),
                status: "up".to_string(),
                consecutive_failures: 0,
            },
        )
    } else {
        None
    }
}

// ── Steps of a trunk's health ───────────────────────────────────────────

/// What a call does to the health of its trunk.
#[derive(Debug, Clone, Copy, PartialEq, Eq, Structural)]
pub enum TrunkStep {
    /// It answered: its failures are forgotten.
    Up,
    /// It failed: one more consecutive failure.
    Strike,
    /// It asked for a pause of this many seconds.
    Park { secs: u64 },
}

/// A failure parks the trunk for as long as it asked for, and is a strike
/// where it asked for nothing.
pub open spec fn failure_of(retry_after: Option<u64>) -> TrunkStep {
    match retry_after {
        Some(secs) => TrunkStep::Park { secs },
        None => TrunkStep::Strike,
    }
}

/// What a failure does to a trunk that asked for a pause, or for none.
pub fn failure_step(retry_after: Option<u64>) -> (r: TrunkStep)
    ensures
        r == failure_of(retry_after),
{
    match retry_after {
        Some(secs) => TrunkStep::Park { secs },
        None => TrunkStep::Strike,
    }
}

/// What a final of a trunk does to its health: an answer lifts its failures,
/// a failure of its own counts, and only a 503 can ask for a pause.
pub open spec fn final_step(status: u16, raw: Seq<char>) -> Option<TrunkStep> {
    if 200 <= status <= 299 {
        Some(TrunkStep::Up)
    } else if !strikes_trunk(status) {
        None
    } else if status == 503 {
        Some(
            failure_of(
                match retry_delay(raw) {
                    Some(n) => Some(n as u64),
                    None => None,
                },
            ),
        )
    } else {
        Some(TrunkStep::Strike)
    }
}

/// What a final of a trunk does to its health.
pub fn step_of_final(status: u16, raw: &str) -> (r: Option<TrunkStep>)
    ensures
        r == final_step(status, raw@),
{
    if 200 <= status && status <= 299 {
        Some(TrunkStep::Up)
    } else if !is_trunk_strike_code(status) {
        None
    } else if status == 503 {
        Some(failure_step(retry_after_secs(raw)))
    } else {
        Some(TrunkStep::Strike)
    }
}

/// A step of the health of a trunk.
#[derive(Debug)]
pub struct TrunkEffect {
    pub trunk: String,
    pub step: TrunkStep,
}

pub open spec fn opt_effect(e: Option<TrunkEffect>) -> Option<(Seq<char>, TrunkStep)> {
    match e {
        Some(t) => Some((t.trunk@, t.step)),
        None => None,
    }
}

/// The outbound trunk of a call: none for a call from a trunk to a local
/// user.
pub open spec fn outbound_trunk(direction: Seq<char>, trunk_name: Option<Seq<char>>) -> Option<
    Seq<char>,
> {
    if direction == "inbound"@ {
        None
    } else {
        trunk_name
    }
}

/// The trunk that gave no answer at all.
pub open spec fn silent_trunk(
    direction: Seq<char>,
    trunk_name: Option<Seq<char>>,
    callee_responded: bool,
) -> Option<Seq<char>> {
    if callee_responded {
        None
    } else {
        outbound_trunk(direction, trunk_name)
    }
}

// ── Active calls ────────────────────────────────────────────────────────

/// A trunk, and how many calls are on it.
#[derive(Debug)]
pub struct TrunkCount {
    pub name: String,
    pub active: usize,
}

/// How many calls are counted on a trunk.
pub open spec fn calls_on(s: Seq<CallSnapshot>, name: Seq<char>) -> nat
    decreases s.len(),
{
    if s.len() == 0 {
        0
    } else {
        calls_on(s.drop_last(), name) + one_if_on(s.last(), name)
    }
}

pub open spec fn one_if_on(c: CallSnapshot, name: Seq<char>) -> nat {
    if text::opt_string(c.trunk_counted) == Some(name) {
        1
    } else {
        0
    }
}

/// What moving a call between trunks tells the counters: the trunk that it
/// left, and whether it left for another one.
#[derive(Debug)]
pub struct TrunkMove {
    pub left: Option<String>,
    pub failover: bool,
}

/// The label under which a trunk counts a call that left it for another one.
pub fn move_label(m: &TrunkMove) -> (r: Option<&'static str>)
    ensures
        match r {
            Some(l) => m.failover && l@ == "failover"@,
            None => !m.failover,
        },
{
    if m.failover {
        Some("failover")
    } else {
        None
    }
}

/// Every counter is the number of calls on its trunk.
pub open spec fn counters_ok(calls: Seq<CallSnapshot>, trunks: Seq<TrunkCount>) -> bool {
    forall|i: int|
        0 <= i < trunks.len() ==> (#[trigger] trunks[i]).active == calls_on(
            calls,
            trunks[i].name@,
        )
}

/// The same trunks, whatever is on them.
pub open spec fn same_trunks(a: Seq<TrunkCount>, b: Seq<TrunkCount>) -> bool {
    a.len() == b.len() && forall|i: int| 0 <= i < a.len() ==> (#[trigger] a[i]).name@ == b[i].name@
}

proof fn lemma_calls_on_update(s: Seq<CallSnapshot>, at: int, c: CallSnapshot, name: Seq<char>)
    requires
        0 <= at < s.len(),
    ensures
        calls_on(s.update(at, c), name) + one_if_on(s[at], name) == calls_on(s, name) + one_if_on(
            c,
            name,
        ),
        calls_on(s, name) <= s.len(),
        one_if_on(s[at], name) == 1 ==> calls_on(s, name) > 0,
        one_if_on(s[at], name) == 0 ==> calls_on(s, name) < s.len(),
    decreases s.len(),
{
    let u = s.update(at, c);
    if at == s.len() - 1 {
        assert(u.drop_last() =~= s.drop_last());
        lemma_calls_on_len(s.drop_last(), name);
    } else {
        lemma_calls_on_update(s.drop_last(), at, c, name);
        assert(u.drop_last() =~= s.drop_last().update(at, c));
    }
}

proof fn lemma_calls_on_len(s: Seq<CallSnapshot>, name: Seq<char>)
    ensures
        calls_on(s, name) <= s.len(),
    decreases s.len(),
{
    if s.len() > 0 {
        lemma_calls_on_len(s.drop_last(), name);
    }
}

/// A call that is counted nowhere can go without a trace.
pub proof fn lemma_calls_on_remove(s: Seq<CallSnapshot>, at: int, name: Seq<char>)
    requires
        0 <= at < s.len(),
    ensures
        calls_on(s.remove(at), name) + one_if_on(s[at], name) == calls_on(s, name),
    decreases s.len(),
{
    let u = s.remove(at);
    if at == s.len() - 1 {
        assert(u =~= s.drop_last());
    } else {
        lemma_calls_on_remove(s.drop_last(), at, name);
        assert(u.drop_last() =~= s.drop_last().remove(at));
        assert(u.last() == s.last());
    }
}

/// Calls that differ in other things than where they are counted.
pub proof fn lemma_calls_on_same(s: Seq<CallSnapshot>, t: Seq<CallSnapshot>, name: Seq<char>)
    requires
        s.len() == t.len(),
        forall|i: int|
            0 <= i < s.len() ==> text::opt_string((#[trigger] s[i]).trunk_counted) == text::opt_string(
                t[i].trunk_counted,
            ),
    ensures
        calls_on(s, name) == calls_on(t, name),
    decreases s.len(),
{
    if s.len() > 0 {
        lemma_calls_on_same(s.drop_last(), t.drop_last(), name);
        assert(s.last() == s[s.len() - 1]);
    }
}

/// The call counted on a trunk, or on none; everything else of it stays.
pub open spec fn counted_at(was: CallSnapshot, is: CallSnapshot, trunk: Option<Seq<char>>) -> bool {
    is == (CallSnapshot { trunk_counted: is.trunk_counted, ..was }) && text::opt_string(is.trunk_counted)
        == trunk
}

/// The calls once one of them is counted elsewhere.
pub open spec fn recounted(
    was: Seq<CallSnapshot>,
    is: Seq<CallSnapshot>,
    at: int,
    trunk: Option<Seq<char>>,
) -> bool {
    &&& was.len() == is.len()
    &&& forall|i: int| 0 <= i < was.len() && i != at ==> (#[trigger] is[i]) == was[i]
    &&& counted_at(was[at], is[at], trunk)
}

impl CallTable {
    /// A trunk whose calls are counted from now on; nothing changes where it
    /// is counted already.
    pub fn add_trunk(&mut self, name: &str)
        requires
            old(self).wf(),
        ensures
            final(self).wf(),
            final(self).calls@ == old(self).calls@,
            exists|i: int|
                0 <= i < final(self).trunks@.len() && (#[trigger] final(self).trunks@[i]).name@
                    == name@,
            old(self).trunks@.is_prefix_of(final(self).trunks@),
            final(self).trunks@.len() <= old(self).trunks@.len() + 1,
            (exists|i: int|
                0 <= i < old(self).trunks@.len() && (#[trigger] old(self).trunks@[i]).name@
                    == name@) ==> final(self).trunks@ == old(self).trunks@,
    {
        let mut i: usize = 0;
        while i < self.trunks.len()
            invariant
                self.wf(),
                *self == *old(self),
                i <= self.trunks@.len(),
                forall|k: int| 0 <= k < i ==> (#[trigger] self.trunks@[k]).name@ != name@,
            decreases self.trunks@.len() - i,
        {
            if same_str(self.trunks[i].name.as_str(), name) {
                return;
            }
            i = i + 1;
        }
        let mut active: usize = 0;
        let mut k: usize = 0;
        assert(self.calls@.take(0) =~= Seq::empty());
        let own = Some(name.to_string());
        assert(text::opt_string(own) == Some(name@));
        while k < self.calls.len()
            invariant
                k <= self.calls@.len(),
                *self == *old(self),
                text::opt_string(own) == Some(name@),
                active <= k,
                active == calls_on(self.calls@.take(k as int), name@),
            decreases self.calls@.len() - k,
        {
            assert(self.calls@.take(k + 1).drop_last() =~= self.calls@.take(k as int));
            if same_opt(&self.calls[k].trunk_counted, &own) {
                active = active + 1;
            }
            k = k + 1;
        }
        assert(self.calls@.take(self.calls@.len() as int) =~= self.calls@);
        let ghost before = self.trunks@;
        self.trunks.push(TrunkCount { name: name.to_string(), active });
        assert(self.trunks@[before.len() as int].name@ == name@);
    }

    /// Make `trunk` the only trunk whose counter includes this call; None
    /// releases it. Nothing happens for a call that is not known or is
    /// counted there already.
    pub fn count_call_on_trunk(&mut self, uuid: &str, trunk: Option<String>) -> (r: Option<TrunkMove>)
        requires
            old(self).wf(),
        ensures
            final(self).wf(),
            same_trunks(old(self).trunks@, final(self).trunks@),
            ({
                let at = cdr::call_index(old(self).calls@, uuid@);
                let known = cdr::in_progress(old(self).calls@, uuid@);
                let here = text::opt_string(trunk);
                let before = text::opt_string(old(self).calls@[at].trunk_counted);
                match r {
                    None => (!known || before == here) && *final(self) == *old(self),
                    Some(m) => {
                        &&& known
                        &&& before != here
                        &&& recounted(old(self).calls@, final(self).calls@, at, here)
                        &&& text::opt_string(m.left) == before
                        &&& m.failover == (before is Some && here is Some)
                    },
                }
            }),
    {
        let ghost s = self.calls@;
        let at: usize = self.find(uuid);
        proof {
            cdr::lemma_call_index(s, uuid@);
        }
        if at == self.calls.len() {
            return None;
        }
        if same_opt(&self.calls[at].trunk_counted, &trunk) {
            return None;
        }
        let left = clone_opt(&self.calls[at].trunk_counted);
        let joined = clone_opt(&trunk);
        let failover = left.is_some() && trunk.is_some();
        let mut entry = self.calls.remove(at);
        entry.trunk_counted = trunk;
        self.calls.insert(at, entry);
        assert(self.calls@ =~= s.update(at as int, entry));
        let ghost names = self.trunks@;
        let mut i: usize = 0;
        while i < self.trunks.len()
            invariant
                at < s.len(),
                s.len() <= usize::MAX,
                self.calls@ == s.update(at as int, entry),
                text::opt_string(left) == text::opt_string(s[at as int].trunk_counted),
                text::opt_string(joined) == text::opt_string(entry.trunk_counted),
                text::opt_string(left) != text::opt_string(joined),
                i <= self.trunks@.len(),
                same_trunks(names, self.trunks@),
                forall|k: int|
                    0 <= k < i ==> (#[trigger] self.trunks@[k]).active == calls_on(
                        self.calls@,
                        self.trunks@[k].name@,
                    ),
                forall|k: int|
                    i <= k < names.len() ==> (#[trigger] self.trunks@[k]).active == calls_on(
                        s,
                        self.trunks@[k].name@,
                    ),
            decreases self.trunks@.len() - i,
        {
            let name = self.trunks[i].name.clone();
            let mut active: usize = self.trunks[i].active;
            proof {
                lemma_calls_on_update(s, at as int, entry, name@);
            }
            let own = Some(name.clone());
            assert(text::opt_string(own) == Some(name@));
            if same_opt(&left, &own) {
                active = active - 1;
            }
            if same_opt(&joined, &own) {
                active = active + 1;
            }
            let ghost before = self.trunks@;
            self.trunks.set(i, TrunkCount { name, active });
            assert forall|k: int| 0 <= k < names.len() implies (#[trigger] names[k]).name@
                == self.trunks@[k].name@ by {
                assert(before[k].name@ == names[k].name@);
            }
            i = i + 1;
        }
        proof {
            assert forall|a: int, b: int| 0 <= a < b < self.calls@.len() implies (
            #[trigger] self.calls@[a]).uuid@ != (#[trigger] self.calls@[b]).uuid@ by {
                assert(s[a].uuid@ != s[b].uuid@);
            }
        }
        Some(TrunkMove { left, failover })
    }

    /// Put a call on another trunk: it is recorded and counted there.
    pub fn move_to_trunk(&mut self, uuid: &str, trunk: &str) -> (r: Option<TrunkMove>)
        requires
            old(self).wf(),
        ensures
            final(self).wf(),
            same_trunks(old(self).trunks@, final(self).trunks@),
            final(self).calls@.len() == old(self).calls@.len(),
            ({
                let at = cdr::call_index(old(self).calls@, uuid@);
                let known = cdr::in_progress(old(self).calls@, uuid@);
                let was = old(self).calls@[at];
                let is = final(self).calls@[at];
                &&& !known ==> r is None && final(self).calls@ == old(self).calls@
                &&& known ==> {
                    &&& is == (CallSnapshot {
                        trunk_name: is.trunk_name,
                        trunk_counted: is.trunk_counted,
                        ..was
                    })
                    &&& text::opt_string(is.trunk_name) == Some(trunk@)
                    &&& text::opt_string(is.trunk_counted) == Some(trunk@)
                    &&& forall|i: int|
                        0 <= i < old(self).calls@.len() && i != at ==> (
                        #[trigger] final(self).calls@[i]) == old(self).calls@[i]
                    &&& match r {
                        None => text::opt_string(was.trunk_counted) == Some(trunk@),
                        Some(m) => {
                            &&& text::opt_string(m.left) == text::opt_string(was.trunk_counted)
                            &&& text::opt_string(m.left) != Some(trunk@)
                            &&& m.failover == (was.trunk_counted is Some)
                        },
                    }
                }
            }),
    {
        let ghost s = self.calls@;
        let at: usize = self.find(uuid);
        proof {
            cdr::lemma_call_index(s, uuid@);
        }
        if at == self.calls.len() {
            return None;
        }
        let mut entry = self.calls.remove(at);
        entry.trunk_name = Some(trunk.to_string());
        self.calls.insert(at, entry);
        assert(self.calls@ =~= s.update(at as int, entry));
        proof {
            assert forall|a: int, b: int| 0 <= a < b < self.calls@.len() implies (
            #[trigger] self.calls@[a]).uuid@ != (#[trigger] self.calls@[b]).uuid@ by {
                assert(s[a].uuid@ != s[b].uuid@);
            }
            assert forall|i: int| 0 <= i < self.trunks@.len() implies (
            #[trigger] self.trunks@[i]).active == calls_on(self.calls@, self.trunks@[i].name@) by {
                lemma_calls_on_same(s, self.calls@, self.trunks@[i].name@);
            }
            cdr::lemma_call_index_is(self.calls@, uuid@, at as int);
        }
        let ghost t = self.calls@;
        let r = self.count_call_on_trunk(uuid, Some(trunk.to_string()));
        assert forall|i: int| 0 <= i < s.len() && i != at implies (#[trigger] self.calls@[i])
            == s[i] by {
            assert(t[i] == s[i]);
        }
        r
    }

    /// How many calls are on a trunk; None where the trunk is not known.
    pub fn active_calls(&self, name: &str) -> (r: Option<usize>)
        requires
            self.wf(),
        ensures
            match r {
                Some(n) => n == calls_on(self.calls@, name@),
                None => forall|i: int|
                    0 <= i < self.trunks@.len() ==> (#[trigger] self.trunks@[i]).name@ != name@,
            },
    {
        let mut i: usize = 0;
        while i < self.trunks.len()
            invariant
                self.wf(),
                i <= self.trunks@.len(),
                forall|k: int| 0 <= k < i ==> (#[trigger] self.trunks@[k]).name@ != name@,
            decreases self.trunks@.len() - i,
        {
            if same_str(self.trunks[i].name.as_str(), name) {
                return Some(self.trunks[i].active);
            }
            i = i + 1;
        }
        None
    }
}

// ── Laws ────────────────────────────────────────────────────────────────

/// A trunk's own failures are exactly the codes that count against it: every
/// such call without an answer is labelled as failed, and no busy, declined
/// or unknown number is.
pub proof fn law_only_strike_codes_fail_a_trunk(code: u16)
    ensures
        strikes_trunk(code) ==> outcome_label(CallOutcome::Rejected { code }, false) == "failed"@,
        !strikes_trunk(code) ==> outcome_label(CallOutcome::Rejected { code }, false)
            == "rejected"@,
{
}

/// Ending a call takes it off the counter of the trunk that it was counted
/// on, once, and leaves every other counter alone.
pub proof fn law_ending_a_call_releases_its_trunk(
    s: Seq<CallSnapshot>,
    uuid: Seq<char>,
    name: Seq<char>,
)
    requires
        cdr::calls_ok(s),
        cdr::in_progress(s, uuid),
    ensures
        calls_on(cdr::calls_without(s, uuid), name) + one_if_on(s[cdr::call_index(s, uuid)], name)
            == calls_on(s, name),
        cdr::calls_without(cdr::calls_without(s, uuid), uuid) == cdr::calls_without(s, uuid),
{
    cdr::lemma_call_index(s, uuid);
    lemma_calls_on_remove(s, cdr::call_index(s, uuid), name);
    cdr::law_call_ends_once(s, uuid, uuid);
}

/// A call that moves from one trunk to another is taken off the first and
/// added to the second, and to no other.
pub proof fn law_failover_moves_the_call(
    was: Seq<CallSnapshot>,
    is: Seq<CallSnapshot>,
    at: int,
    from: Seq<char>,
    to: Seq<char>,
    other: Seq<char>,
)
    requires
        0 <= at < was.len(),
        recounted(was, is, at, Some(to)),
        text::opt_string(was[at].trunk_counted) == Some(from),
        from != to,
        other != from && other != to,
    ensures
        calls_on(is, from) + 1 == calls_on(was, from),
        calls_on(is, to) == calls_on(was, to) + 1,
        calls_on(is, other) == calls_on(was, other),
{
    assert(is =~= was.update(at, is[at]));
    lemma_calls_on_update(was, at, is[at], from);
    lemma_calls_on_update(was, at, is[at], to);
    lemma_calls_on_update(was, at, is[at], other);
}

/// Only a 503 parks a trunk, for the seconds that it asks for; every other
/// failure of a trunk is a strike, and no refusal by the callee touches it.
pub proof fn law_only_a_503_parks(status: u16, raw: Seq<char>)
    ensures
        final_step(status, raw) matches Some(TrunkStep::Park { secs }) ==> status == 503
            && retry_delay(raw) == Some(secs as nat) && 1 <= secs <= 3600,
        strikes_trunk(status) ==> final_step(status, raw) is Some && final_step(status, raw) != Some(
            TrunkStep::Up,
        ),
        300 <= status && !strikes_trunk(status) ==> final_step(status, raw) is None,
{
}

} // verus!
