//! Client transactions (RFC 3261 section 17.1): requests sent over UDP are
//! sent again until they are answered.
//!
//! An INVITE doubles its interval without a cap, any other request up to
//! `TIMER_T2`, both until `TRANSACTION_TIMEOUT`. A response with the
//! transaction's branch and method stops it, and so does sending a CANCEL
//! for it. Reliable transports resend by themselves, and an ACK has no
//! response: neither is tracked. All times are milliseconds of one clock.

use crate::invite_tx::copy_bytes;
use crate::sip_builder::{branch_param_of, top_via_branch};
use crate::sip_builder;
use crate::text::{chars_of, decimal_of, has_prefix, has_suffix, position_of, same_str, split_tokens, string_of};
use crate::text;
use vstd::prelude::*;
use vstd::slice::slice_subrange;

verus! {

/// First interval.
pub const TIMER_T1: u64 = 500;

/// Cap on the interval of a request that is no INVITE.
pub const TIMER_T2: u64 = 4_000;

/// Past this the request has failed.
pub const TRANSACTION_TIMEOUT: u64 = 32_000;

/// Most transactions that are tracked at a time.
pub const MAX_ENTRIES: usize = 4096;

/// How a message travels.
#[derive(Clone, Copy, Debug, PartialEq, Eq, Structural)]
pub enum Transport {
    Udp,
    Tcp,
    Tls,
    TlsSctp,
    Sctp,
    Ws,
    Wss,
}

// ── Reading a message ───────────────────────────────────────────────────

/// Calls `std::str::from_utf8`: the text that the bytes encode where they are
/// valid UTF-8, None where they are not.
#[verifier::external_body]
pub(crate) fn utf8_text<'a>(bytes: &'a [u8]) -> (r: Option<&'a str>)
    ensures
        match r {
            Some(s) => vstd::utf8::valid_utf8(bytes@) && s@ == vstd::utf8::decode_utf8(bytes@),
            None => !vstd::utf8::valid_utf8(bytes@),
        },
{
    std::str::from_utf8(bytes).ok()
}

/// The letters `a` to `z` as `A` to `Z`.
pub open spec fn capitals(s: Seq<char>) -> Seq<char> {
    s.map_values(|c: char| sip_builder::upper_char(c))
}

/// The text with its ASCII letters in upper case.
pub fn capitals_of(s: &[char]) -> (r: String)
    ensures
        r@ == capitals(s@),
{
    let mut out = String::new();
    let mut i: usize = 0;
    assert(out@ =~= capitals(s@).take(0));
    while i < s.len()
        invariant
            i <= s@.len(),
            out@ == capitals(s@).take(i as int),
        decreases s@.len() - i,
    {
        let c: char = s[i];
        let d: char = if 'a' <= c && c <= 'z' {
            ((c as u8) - 32u8) as char
        } else {
            c
        };
        out.push(d);
        assert(capitals(s@).take(i + 1) =~= capitals(s@).take(i as int).push(sip_builder::upper_char(s@[i as int])));
        i = i + 1;
    }
    assert(capitals(s@).take(s@.len() as int) =~= capitals(s@));
    out
}

/// First line of a text, without its end of line.
pub open spec fn first_line(s: Seq<char>) -> Seq<char> {
    let l = s.take(text::find_char(s, '\n', 0));
    if l.len() > 0 && l.len() < s.len() && l.last() == '\r' {
        l.drop_last()
    } else {
        l
    }
}

/// Method of a request's start line, in upper case; None for anything else.
pub open spec fn start_method(raw: Seq<char>) -> Option<Seq<char>> {
    let first = first_line(raw);
    if text::ends_with(first, "SIP/2.0"@) && text::tokens(first).len() > 0 && !text::starts_with(
        text::tokens(first)[0],
        "SIP/"@,
    ) {
        Some(capitals(text::tokens(first)[0]))
    } else {
        None
    }
}

/// Method of a raw request; None where the text is no request.
pub fn request_method(raw: &str) -> (r: Option<String>)
    ensures
        text::opt_string(r) == start_method(raw@),
{
    let c = chars_of(raw);
    let mut end: usize = position_of(c.as_slice(), '\n', 0);
    let ghost l = c@.take(end as int);
    if end > 0 && end < c.len() && c[end - 1] == '\r' {
        end = end - 1;
        assert(c@.take(end as int) =~= l.drop_last());
    }
    let first = slice_subrange(c.as_slice(), 0, end);
    assert(first@ =~= first_line(raw@));
    let version = chars_of("SIP/2.0");
    if !has_suffix(first, version.as_slice()) {
        return None;
    }
    let w = split_tokens(first);
    if w.len() == 0 {
        return None;
    }
    assert(text::views(w@)[0] == w@[0]@);
    if has_prefix(w[0], "SIP/") {
        return None;
    }
    Some(capitals_of(w[0]))
}

/// The `branch` parameter of one Via value (`SIP/2.0/UDP
/// host;branch=z9hG4bKx`). A folded Via has the top one first.
pub fn branch_param(via_value: &str) -> (r: Option<String>)
    ensures
        text::opt_string(r) == sip_builder::via_branch_param(via_value@),
{
    let c = chars_of(via_value);
    match branch_param_of(c.as_slice()) {
        Some(b) => Some(string_of(b)),
        None => None,
    }
}

/// `branch|METHOD`: what a response brings back in its top Via and CSeq.
pub open spec fn client_key(branch: Seq<char>, method: Seq<char>) -> Seq<char> {
    branch + "|"@ + capitals(method)
}

fn write_client_key(branch: &str, method: &str) -> (r: String)
    ensures
        r@ == client_key(branch@, method@),
{
    let m = chars_of(method);
    let mut k = branch.to_string();
    k.push_str("|");
    k.push_str(capitals_of(m.as_slice()).as_str());
    k
}

// ── The table ───────────────────────────────────────────────────────────

struct ClientTx {
    key: String,
    raw: Vec<u8>,
    dest: String,
    is_invite: bool,
    next_at: u64,
    interval: u64,
    give_up_at: u64,
    attempts: u32,
    reply: Option<u64>,
    what: String,
}

/// A request in flight. `reply` is the number of the connection it went out
/// on, where it has one.
pub struct ClientTxView {
    pub key: Seq<char>,
    pub raw: Seq<u8>,
    pub dest: Seq<char>,
    pub is_invite: bool,
    pub next_at: u64,
    pub interval: u64,
    pub give_up_at: u64,
    pub attempts: u32,
    pub reply: Option<u64>,
    pub what: Seq<char>,
}

spec fn tx_view(t: ClientTx) -> ClientTxView {
    ClientTxView {
        key: t.key@,
        raw: t.raw@,
        dest: t.dest@,
        is_invite: t.is_invite,
        next_at: t.next_at,
        interval: t.interval,
        give_up_at: t.give_up_at,
        attempts: t.attempts,
        reply: t.reply,
        what: t.what@,
    }
}

/// One retransmission to perform.
#[derive(Debug)]
pub struct DueRequest {
    /// What was being sent.
    pub what: String,
    /// The bytes as they were sent the first time.
    pub raw: Vec<u8>,
    pub dest: String,
    pub reply: Option<u64>,
    /// How many times this one has been sent again.
    pub attempt: u32,
}

/// A retransmission, by its contents.
pub struct DueView {
    pub what: Seq<char>,
    pub raw: Seq<u8>,
    pub dest: Seq<char>,
    pub reply: Option<u64>,
    pub attempt: u32,
}

impl View for DueRequest {
    type V = DueView;

    open spec fn view(&self) -> DueView {
        DueView {
            what: self.what@,
            raw: self.raw@,
            dest: self.dest@,
            reply: self.reply,
            attempt: self.attempt,
        }
    }
}

/// The views of a list of retransmissions.
pub open spec fn due_views(v: Seq<DueRequest>) -> Seq<DueView> {
    v.map_values(|d: DueRequest| d@)
}

/// Within its limits: the interval has not yet outgrown the time that has
/// passed since the request was sent.
pub open spec fn client_tx_ok(t: ClientTxView) -> bool {
    let start = t.give_up_at - TRANSACTION_TIMEOUT;
    &&& start >= 0
    &&& t.give_up_at <= u64::MAX - 64_000
    &&& TIMER_T1 <= t.interval
    &&& start + t.interval <= t.next_at < t.give_up_at + 64_000
    &&& 500 * (t.attempts + 1) <= t.next_at - start
}

/// No key twice, no more entries than allowed, each within its limits.
pub open spec fn client_table_ok(s: Seq<ClientTxView>) -> bool {
    &&& s.len() <= MAX_ENTRIES
    &&& forall|i: int| 0 <= i < s.len() ==> client_tx_ok(#[trigger] s[i])
    &&& forall|i: int, j: int|
        0 <= i < j < s.len() ==> (#[trigger] s[i]).key != (#[trigger] s[j]).key
}

/// The entries with another key.
pub open spec fn without_key(s: Seq<ClientTxView>, key: Seq<char>) -> Seq<ClientTxView>
    decreases s.len(),
{
    if s.len() == 0 {
        s
    } else if s.last().key == key {
        without_key(s.drop_last(), key)
    } else {
        without_key(s.drop_last(), key).push(s.last())
    }
}

/// The entries that have not run out of time.
pub open spec fn unexpired(s: Seq<ClientTxView>, now: u64) -> Seq<ClientTxView>
    decreases s.len(),
{
    if s.len() == 0 {
        s
    } else if s.last().give_up_at > now {
        unexpired(s.drop_last(), now).push(s.last())
    } else {
        unexpired(s.drop_last(), now)
    }
}

pub open spec fn tracks(s: Seq<ClientTxView>, key: Seq<char>) -> bool {
    exists|i: int| 0 <= i < s.len() && (#[trigger] s[i]).key == key
}

/// The branch and method under which a request that was sent is tracked:
/// None for what is not sent again.
pub open spec fn tracked_parts(raw: Seq<u8>, transport: Transport) -> Option<
    (Seq<char>, Seq<char>),
> {
    if transport != Transport::Udp || !vstd::utf8::valid_utf8(raw) {
        None
    } else {
        let t = vstd::utf8::decode_utf8(raw);
        match (start_method(t), sip_builder::top_branch(t)) {
            (Some(method), Some(branch)) => if method == "ACK"@ {
                None
            } else {
                Some((branch, method))
            },
            _ => None,
        }
    }
}

/// The table as a new entry finds it: where it is full, what has run out of
/// time is dropped first.
pub open spec fn with_room(s: Seq<ClientTxView>, now: u64) -> Seq<ClientTxView> {
    if s.len() >= MAX_ENTRIES {
        unexpired(s, now)
    } else {
        s
    }
}

/// The entry of a request that was just sent.
pub open spec fn fresh_client_tx(
    branch: Seq<char>,
    method: Seq<char>,
    raw: Seq<u8>,
    dest: Seq<char>,
    reply: Option<u64>,
    what: Seq<char>,
    now: u64,
) -> ClientTxView {
    ClientTxView {
        key: client_key(branch, method),
        raw,
        dest,
        is_invite: method == "INVITE"@,
        next_at: (now + TIMER_T1) as u64,
        interval: TIMER_T1,
        give_up_at: (now + TRANSACTION_TIMEOUT) as u64,
        attempts: 0,
        reply,
        what,
    }
}

/// The table once a tracked request was sent: a CANCEL stops the INVITE of
/// its branch, and an entry with the same key gives way.
pub open spec fn with_sent(s: Seq<ClientTxView>, branch: Seq<char>, t: ClientTxView, is_cancel: bool) -> Seq<
    ClientTxView,
> {
    let kept = if is_cancel {
        without_key(s, client_key(branch, "INVITE"@))
    } else {
        s
    };
    without_key(kept, t.key).push(t)
}

/// The key under which a request that was sent is now tracked, and the table
/// after it.
pub open spec fn recorded_sent(
    s: Seq<ClientTxView>,
    what: Seq<char>,
    raw: Seq<u8>,
    dest: Seq<char>,
    transport: Transport,
    reply: Option<u64>,
    now: u64,
) -> (Option<Seq<char>>, Seq<ClientTxView>) {
    match tracked_parts(raw, transport) {
        None => (None, s),
        Some((branch, method)) => {
            let room = with_room(s, now);
            let t = fresh_client_tx(branch, method, raw, dest, reply, what, now);
            if room.len() >= MAX_ENTRIES {
                (None, room)
            } else {
                (Some(t.key), with_sent(room, branch, t, method == "CANCEL"@))
            }
        },
    }
}

/// The interval after the next one.
pub open spec fn next_interval(t: ClientTxView) -> int {
    if t.is_invite || 2 * t.interval <= TIMER_T2 {
        2 * t.interval
    } else {
        TIMER_T2 as int
    }
}

pub open spec fn is_due(t: ClientTxView, now: u64) -> bool {
    now < t.give_up_at && t.next_at <= now
}

/// An entry after it was looked at: sent once more where it is due.
pub open spec fn after_tick(t: ClientTxView, now: u64) -> ClientTxView {
    if is_due(t, now) {
        ClientTxView {
            attempts: (t.attempts + 1) as u32,
            interval: next_interval(t) as u64,
            next_at: (now + next_interval(t)) as u64,
            ..t
        }
    } else {
        t
    }
}

/// What is sent again at `now`, in the order of the table.
pub open spec fn due_list(s: Seq<ClientTxView>, now: u64) -> Seq<DueView>
    decreases s.len(),
{
    if s.len() == 0 {
        Seq::empty()
    } else if is_due(s.last(), now) {
        due_list(s.drop_last(), now).push(
            DueView {
                what: s.last().what,
                raw: s.last().raw,
                dest: s.last().dest,
                reply: s.last().reply,
                attempt: (s.last().attempts + 1) as u32,
            },
        )
    } else {
        due_list(s.drop_last(), now)
    }
}

pub open spec fn expiry_note(t: ClientTxView) -> Seq<char> {
    t.what + " ("@ + text::decimal(t.attempts as nat) + " attempts)"@
}

/// What is given up at `now`, in the order of the table.
pub open spec fn expired_list(s: Seq<ClientTxView>, now: u64) -> Seq<Seq<char>>
    decreases s.len(),
{
    if s.len() == 0 {
        Seq::empty()
    } else if s.last().give_up_at <= now {
        expired_list(s.drop_last(), now).push(expiry_note(s.last()))
    } else {
        expired_list(s.drop_last(), now)
    }
}

/// The table after it was looked at.
pub open spec fn ticked(s: Seq<ClientTxView>, now: u64) -> Seq<ClientTxView> {
    unexpired(s, now).map_values(|t: ClientTxView| after_tick(t, now))
}

/// The requests in flight over UDP, in the order in which they were sent.
pub struct ClientTxCache {
    txs: Vec<ClientTx>,
}

impl View for ClientTxCache {
    type V = Seq<ClientTxView>;

    closed spec fn view(&self) -> Seq<ClientTxView> {
        self.txs@.map_values(|t: ClientTx| tx_view(t))
    }
}

// ── Lemmas ──────────────────────────────────────────────────────────────

proof fn lemma_without_key(s: Seq<ClientTxView>, key: Seq<char>)
    ensures
        without_key(s, key).len() <= s.len(),
        !tracks(without_key(s, key), key),
        !tracks(s, key) ==> without_key(s, key) == s,
        tracks(s, key) ==> without_key(s, key).len() < s.len(),
        forall|t: ClientTxView| #[trigger]
            without_key(s, key).contains(t) <==> s.contains(t) && t.key != key,
        client_table_ok(s) ==> client_table_ok(without_key(s, key)),
    decreases s.len(),
{
    let v = without_key(s, key);
    if s.len() > 0 {
        let d = s.drop_last();
        let w = without_key(d, key);
        lemma_without_key(d, key);
        assert(s =~= d.push(s.last()));
        if !tracks(s, key) {
            assert(s[s.len() - 1].key != key);
            assert forall|i: int| 0 <= i < d.len() implies (#[trigger] d[i]).key != key by {
                assert(s[i] == d[i]);
            }
            assert(!tracks(d, key));
        } else if s.last().key != key {
            let i = choose|i: int| 0 <= i < s.len() && (#[trigger] s[i]).key == key;
            assert(d[i] == s[i]);
            assert(tracks(d, key));
        }
        assert(!tracks(v, key)) by {
            if tracks(v, key) {
                let i = choose|i: int| 0 <= i < v.len() && (#[trigger] v[i]).key == key;
                if i < w.len() {
                    assert(w[i].key == key);
                }
            }
        }
        lemma_pushed(s, d, v, w, key);
    } else {
        assert(!tracks(s, key));
    }
}

proof fn lemma_pushed(
    s: Seq<ClientTxView>,
    d: Seq<ClientTxView>,
    v: Seq<ClientTxView>,
    w: Seq<ClientTxView>,
    key: Seq<char>,
)
    requires
        s.len() > 0,
        d == s.drop_last(),
        v == if s.last().key == key {
            w
        } else {
            w.push(s.last())
        },
        forall|t: ClientTxView| #[trigger] w.contains(t) <==> d.contains(t) && t.key != key,
        client_table_ok(d) ==> client_table_ok(w),
        w.len() <= d.len(),
    ensures
        forall|t: ClientTxView| #[trigger] v.contains(t) <==> s.contains(t) && t.key != key,
        client_table_ok(s) ==> client_table_ok(v),
{
    assert forall|t: ClientTxView| #[trigger] v.contains(t) <==> s.contains(t) && t.key != key by {
        if v.contains(t) {
            let i = choose|i: int| 0 <= i < v.len() && v[i] == t;
            if i < w.len() {
                assert(w.contains(w[i]));
                let j = choose|j: int| 0 <= j < d.len() && d[j] == t;
                assert(s[j] == t);
            } else {
                assert(s[s.len() - 1] == t);
            }
        }
        if s.contains(t) && t.key != key {
            let i = choose|i: int| 0 <= i < s.len() && s[i] == t;
            if i < d.len() {
                assert(d[i] == t);
                assert(w.contains(t));
                let j = choose|j: int| 0 <= j < w.len() && w[j] == t;
                assert(v[j] == t);
            } else {
                assert(v[v.len() - 1] == t);
            }
        }
    }
    if client_table_ok(s) {
        assert(client_table_ok(d)) by {
            assert forall|i: int, j: int| 0 <= i < j < d.len() implies (#[trigger] d[i]).key != (
            #[trigger] d[j]).key by {
                assert(d[i] == s[i] && d[j] == s[j]);
            }
            assert forall|i: int| 0 <= i < d.len() implies client_tx_ok(#[trigger] d[i]) by {
                assert(d[i] == s[i]);
            }
        }
        assert forall|i: int| 0 <= i < v.len() implies client_tx_ok(#[trigger] v[i]) by {
            if i < w.len() {
                assert(v[i] == w[i]);
            } else {
                assert(v[i] == s[s.len() - 1]);
            }
        }
        assert forall|i: int, j: int| 0 <= i < j < v.len() implies (#[trigger] v[i]).key != (
        #[trigger] v[j]).key by {
            assert(v[i] == w[i]);
            if j == w.len() {
                assert(w.contains(w[i]));
                let k = choose|k: int| 0 <= k < d.len() && d[k] == w[i];
                assert(s[k] == w[i]);
                assert(s[s.len() - 1] == v[j]);
            } else {
                assert(v[j] == w[j]);
            }
        }
    }
}

proof fn lemma_unexpired(s: Seq<ClientTxView>, now: u64)
    ensures
        unexpired(s, now).len() <= s.len(),
        forall|t: ClientTxView| #[trigger]
            unexpired(s, now).contains(t) <==> s.contains(t) && t.give_up_at > now,
        client_table_ok(s) ==> client_table_ok(unexpired(s, now)),
    decreases s.len(),
{
    let v = unexpired(s, now);
    if s.len() > 0 {
        let d = s.drop_last();
        let w = unexpired(d, now);
        lemma_unexpired(d, now);
        assert forall|t: ClientTxView| #[trigger] v.contains(t) <==> s.contains(t) && t.give_up_at
            > now by {
            if v.contains(t) {
                let i = choose|i: int| 0 <= i < v.len() && v[i] == t;
                if i < w.len() {
                    assert(w.contains(w[i]));
                    let j = choose|j: int| 0 <= j < d.len() && d[j] == t;
                    assert(s[j] == t);
                } else {
                    assert(s[s.len() - 1] == t);
                }
            }
            if s.contains(t) && t.give_up_at > now {
                let i = choose|i: int| 0 <= i < s.len() && s[i] == t;
                if i < d.len() {
                    assert(d[i] == t);
                    assert(w.contains(t));
                    let j = choose|j: int| 0 <= j < w.len() && w[j] == t;
                    assert(v[j] == t);
                } else {
                    assert(v[v.len() - 1] == t);
                }
            }
        }
        if client_table_ok(s) {
            assert(client_table_ok(d)) by {
                assert forall|i: int, j: int| 0 <= i < j < d.len() implies (#[trigger] d[i]).key
                    != (#[trigger] d[j]).key by {
                    assert(d[i] == s[i] && d[j] == s[j]);
                }
                assert forall|i: int| 0 <= i < d.len() implies client_tx_ok(#[trigger] d[i]) by {
                    assert(d[i] == s[i]);
                }
            }
            assert forall|i: int| 0 <= i < v.len() implies client_tx_ok(#[trigger] v[i]) by {
                if i < w.len() {
                    assert(v[i] == w[i]);
                } else {
                    assert(v[i] == s[s.len() - 1]);
                }
            }
            assert forall|i: int, j: int| 0 <= i < j < v.len() implies (#[trigger] v[i]).key != (
            #[trigger] v[j]).key by {
                assert(v[i] == w[i]);
                if j == w.len() {
                    assert(w.contains(w[i]));
                    let k = choose|k: int| 0 <= k < d.len() && d[k] == w[i];
                    assert(s[k] == w[i]);
                    assert(s[s.len() - 1] == v[j]);
                } else {
                    assert(v[j] == w[j]);
                }
            }
        }
    }
}

/// A look at an entry keeps it within its limits.
proof fn lemma_tick_ok(t: ClientTxView, now: u64)
    requires
        client_tx_ok(t),
        now < t.give_up_at,
    ensures
        client_tx_ok(after_tick(t, now)),
        is_due(t, now) ==> t.attempts < u32::MAX && next_interval(t) <= 64_000 && now
            + next_interval(t) <= u64::MAX,
        after_tick(t, now).key == t.key,
{
}

proof fn lemma_ticked_ok(s: Seq<ClientTxView>, now: u64)
    requires
        client_table_ok(s),
        forall|k: int| 0 <= k < s.len() ==> (#[trigger] s[k]).give_up_at > now,
    ensures
        client_table_ok(s.map_values(|t: ClientTxView| after_tick(t, now))),
{
    let goal = s.map_values(|t: ClientTxView| after_tick(t, now));
    assert forall|k: int| 0 <= k < goal.len() implies client_tx_ok(#[trigger] goal[k]) by {
        lemma_tick_ok(s[k], now);
    }
    assert forall|a: int, b: int| 0 <= a < b < goal.len() implies (#[trigger] goal[a]).key != (
    #[trigger] goal[b]).key by {
        assert(s[a].key != s[b].key);
    }
}

proof fn lemma_advance(goal: Seq<ClientTxView>, s: Seq<ClientTxView>, i: int)
    requires
        0 <= i < s.len(),
        goal.len() == s.len(),
    ensures
        (goal.take(i) + s.skip(i)).update(i, goal[i]) == goal.take(i + 1) + s.skip(i + 1),
        goal[i] == s[i] ==> goal.take(i) + s.skip(i) == goal.take(i + 1) + s.skip(i + 1),
{
    assert((goal.take(i) + s.skip(i)).update(i, goal[i]) =~= goal.take(i + 1) + s.skip(i + 1));
    if goal[i] == s[i] {
        assert(goal.take(i) + s.skip(i) =~= goal.take(i + 1) + s.skip(i + 1));
    }
}

/// An entry that is due, with its next interval armed.
fn rearmed(tx: &ClientTx, now: u64) -> (r: ClientTx)
    requires
        client_tx_ok(tx_view(*tx)),
        is_due(tx_view(*tx), now),
    ensures
        tx_view(r) == after_tick(tx_view(*tx), now),
{
    proof {
        lemma_tick_ok(tx_view(*tx), now);
    }
    let doubled: u64 = 2 * tx.interval;
    let interval: u64 = if tx.is_invite || doubled <= TIMER_T2 {
        doubled
    } else {
        TIMER_T2
    };
    ClientTx {
        key: tx.key.clone(),
        raw: copy_bytes(tx.raw.as_slice()),
        dest: tx.dest.clone(),
        is_invite: tx.is_invite,
        next_at: now + interval,
        interval,
        give_up_at: tx.give_up_at,
        attempts: tx.attempts + 1,
        reply: tx.reply,
        what: tx.what.clone(),
    }
}

// ── Operations ──────────────────────────────────────────────────────────

impl ClientTxCache {
    /// No key twice, no more entries than allowed, each within its limits.
    pub open spec fn wf(&self) -> bool {
        client_table_ok(self@)
    }

    pub fn new() -> (r: Self)
        ensures
            r.wf(),
            r@.len() == 0,
    {
        ClientTxCache { txs: Vec::new() }
    }

    fn drop_key(&mut self, key: &String) -> (r: bool)
        ensures
            final(self)@ == without_key(old(self)@, key@),
            r == tracks(old(self)@, key@),
    {
        let ghost s = self@;
        let ghost mut done: int = 0;
        let mut found = false;
        let mut i: usize = 0;
        assert(self@ =~= without_key(s.take(0), key@) + s.skip(0));
        while i < self.txs.len()
            invariant
                0 <= done <= s.len(),
                i == without_key(s.take(done), key@).len(),
                self@ == without_key(s.take(done), key@) + s.skip(done),
                self@.len() == self.txs@.len(),
                found == tracks(s.take(done), key@),
            decreases s.len() - done,
        {
            let ghost all = self@;
            let ghost kept = without_key(s.take(done), key@);
            let ghost d = s.take(done);
            let ghost e = s.take(done + 1);
            assert(e.drop_last() =~= d);
            assert(all[i as int] == s[done]);
            assert(all[i as int] == tx_view(self.txs@[i as int]));
            proof {
                if tracks(d, key@) {
                    let k = choose|k: int| 0 <= k < d.len() && (#[trigger] d[k]).key == key@;
                    assert(e[k].key == key@);
                }
                if tracks(e, key@) {
                    let k = choose|k: int| 0 <= k < e.len() && (#[trigger] e[k]).key == key@;
                    if k < done {
                        assert(d[k].key == key@);
                    }
                }
            }
            if self.txs[i].key == *key {
                found = true;
                assert(e[done].key == key@);
                self.txs.remove(i);
                assert(self@ =~= all.remove(i as int));
                assert(self@ =~= kept + s.skip(done + 1));
            } else {
                i = i + 1;
                assert(kept + s.skip(done) =~= kept.push(s[done]) + s.skip(done + 1));
            }
            proof {
                done = done + 1;
            }
        }
        assert(done == s.len());
        assert(s.take(done) =~= s);
        assert(self@ =~= without_key(s.take(done), key@));
        found
    }

    fn drop_expired(&mut self, now: u64)
        ensures
            final(self)@ == unexpired(old(self)@, now),
    {
        let ghost s = self@;
        let ghost mut done: int = 0;
        let mut i: usize = 0;
        assert(self@ =~= unexpired(s.take(0), now) + s.skip(0));
        while i < self.txs.len()
            invariant
                0 <= done <= s.len(),
                i == unexpired(s.take(done), now).len(),
                self@ == unexpired(s.take(done), now) + s.skip(done),
                self@.len() == self.txs@.len(),
            decreases s.len() - done,
        {
            let ghost all = self@;
            let ghost kept = unexpired(s.take(done), now);
            assert(s.take(done + 1).drop_last() =~= s.take(done));
            assert(all[i as int] == s[done]);
            assert(all[i as int] == tx_view(self.txs@[i as int]));
            if self.txs[i].give_up_at > now {
                i = i + 1;
                assert(kept + s.skip(done) =~= kept.push(s[done]) + s.skip(done + 1));
            } else {
                self.txs.remove(i);
                assert(self@ =~= all.remove(i as int));
                assert(self@ =~= kept + s.skip(done + 1));
            }
            proof {
                done = done + 1;
            }
        }
        assert(done == s.len());
        assert(s.take(done) =~= s);
        assert(self@ =~= unexpired(s.take(done), now));
    }

    /// Remember a request that was just sent, if it is one to send again.
    /// Returns its key when it is now tracked: not on a reliable transport,
    /// not an ACK, not without a method and a branch, and not while the
    /// table is full of requests that still have time.
    pub fn record_sent(
        &mut self,
        what: &str,
        raw: &[u8],
        dest: &str,
        transport: Transport,
        reply: Option<u64>,
        now: u64,
    ) -> (r: Option<String>)
        requires
            old(self).wf(),
            now <= u64::MAX - 96_000,
        ensures
            final(self).wf(),
            (text::opt_string(r), final(self)@) == recorded_sent(
                old(self)@,
                what@,
                raw@,
                dest@,
                transport,
                reply,
                now,
            ),
    {
        if transport != Transport::Udp {
            return None;
        }
        let text = match utf8_text(raw) {
            Some(t) => t,
            None => {
                return None;
            },
        };
        let method = match request_method(text) {
            Some(m) => m,
            None => {
                return None;
            },
        };
        if same_str(method.as_str(), "ACK") {
            return None;
        }
        let branch = match top_via_branch(text) {
            Some(b) => b,
            None => {
                return None;
            },
        };
        let ghost room = with_room(self@, now);
        if self.txs.len() >= MAX_ENTRIES {
            proof {
                lemma_unexpired(self@, now);
            }
            self.drop_expired(now);
            assert(self@ == room);
            if self.txs.len() >= MAX_ENTRIES {
                return None;
            }
        }
        assert(self@ == room);
        let is_cancel = same_str(method.as_str(), "CANCEL");
        if is_cancel {
            proof {
                lemma_without_key(self@, client_key(branch@, "INVITE"@));
            }
            let invite_key = write_client_key(branch.as_str(), "INVITE");
            self.drop_key(&invite_key);
        }
        let k = write_client_key(branch.as_str(), method.as_str());
        proof {
            lemma_without_key(self@, k@);
        }
        self.drop_key(&k);
        let ghost kept = self@;
        let tx = ClientTx {
            key: k.clone(),
            raw: copy_bytes(raw),
            dest: dest.to_string(),
            is_invite: same_str(method.as_str(), "INVITE"),
            next_at: now + TIMER_T1,
            interval: TIMER_T1,
            give_up_at: now + TRANSACTION_TIMEOUT,
            attempts: 0,
            reply,
            what: what.to_string(),
        };
        let ghost t = fresh_client_tx(branch@, method@, raw@, dest@, reply, what@, now);
        assert(tx_view(tx) == t);
        self.txs.push(tx);
        assert(self@ =~= kept.push(t));
        Some(k)
    }

    /// A response arrived: the transaction that it answers is not sent
    /// again. Returns whether there was one.
    pub fn answered_parts(&mut self, branch: &str, cseq_method: &str) -> (r: bool)
        requires
            old(self).wf(),
        ensures
            final(self).wf(),
            r == tracks(old(self)@, client_key(branch@, cseq_method@)),
            final(self)@ == without_key(old(self)@, client_key(branch@, cseq_method@)),
    {
        let k = write_client_key(branch, cseq_method);
        proof {
            lemma_without_key(self@, k@);
        }
        self.drop_key(&k)
    }

    /// Whether nothing is in flight.
    pub fn is_empty(&self) -> (r: bool)
        ensures
            r == (self@.len() == 0),
    {
        self.txs.len() == 0
    }

    /// The retransmissions due at `now`, with their next interval armed, and
    /// a note for each transaction that has run out of time and was dropped.
    pub fn due(&mut self, now: u64) -> (r: (Vec<DueRequest>, Vec<String>))
        requires
            old(self).wf(),
        ensures
            final(self).wf(),
            final(self)@ == ticked(old(self)@, now),
            due_views(r.0@) == due_list(old(self)@, now),
            text::string_views(r.1@) == expired_list(old(self)@, now),
    {
        let ghost s = self@;
        let mut out: Vec<DueRequest> = Vec::new();
        let mut expired: Vec<String> = Vec::new();
        let mut i: usize = 0;
        assert(due_views(out@) =~= due_list(s.take(0), now));
        assert(text::string_views(expired@) =~= expired_list(s.take(0), now));
        while i < self.txs.len()
            invariant
                i <= s.len(),
                s == self@,
                s.len() == self.txs@.len(),
                client_table_ok(s),
                due_views(out@) == due_list(s.take(i as int), now),
                text::string_views(expired@) == expired_list(s.take(i as int), now),
            decreases self.txs@.len() - i,
        {
            assert(s.take(i + 1).drop_last() =~= s.take(i as int));
            let tx = &self.txs[i];
            assert(s[i as int] == tx_view(*tx));
            if tx.give_up_at <= now {
                let mut note = tx.what.clone();
                note.push_str(" (");
                note.push_str(decimal_of(tx.attempts as u64).as_str());
                note.push_str(" attempts)");
                let ghost before = expired@;
                expired.push(note);
                assert(text::string_views(expired@) =~= text::string_views(before).push(note@));
            } else if tx.next_at <= now {
                proof {
                    lemma_tick_ok(s[i as int], now);
                }
                let d = DueRequest {
                    what: tx.what.clone(),
                    raw: copy_bytes(tx.raw.as_slice()),
                    dest: tx.dest.clone(),
                    reply: tx.reply,
                    attempt: tx.attempts + 1,
                };
                let ghost before = out@;
                out.push(d);
                assert(due_views(out@) =~= due_views(before).push(d@));
            }
            i = i + 1;
        }
        assert(s.take(s.len() as int) =~= s);
        proof {
            lemma_unexpired(s, now);
        }
        self.drop_expired(now);
        assert forall|k: int| 0 <= k < self@.len() implies (#[trigger] self@[k]).give_up_at > now by {
            assert(unexpired(s, now).contains(self@[k]));
        }
        self.rearm(now);
        (out, expired)
    }

    /// Arm the next interval of every entry that is due.
    fn rearm(&mut self, now: u64)
        requires
            old(self).wf(),
            forall|i: int| 0 <= i < old(self)@.len() ==> (#[trigger] old(self)@[i]).give_up_at > now,
        ensures
            final(self).wf(),
            final(self)@ == old(self)@.map_values(|t: ClientTxView| after_tick(t, now)),
    {
        let ghost s = self@;
        let ghost goal = s.map_values(|t: ClientTxView| after_tick(t, now));
        let mut i: usize = 0;
        assert(self@ =~= goal.take(0) + s.skip(0));
        while i < self.txs.len()
            invariant
                i <= s.len(),
                self.txs@.len() == s.len(),
                client_table_ok(s),
                forall|k: int| 0 <= k < s.len() ==> (#[trigger] s[k]).give_up_at > now,
                goal == s.map_values(|t: ClientTxView| after_tick(t, now)),
                self@ == goal.take(i as int) + s.skip(i as int),
            decreases s.len() - i,
        {
            let ghost all = self@;
            assert(all[i as int] == s[i as int]);
            assert(all[i as int] == tx_view(self.txs@[i as int]));
            proof {
                lemma_tick_ok(s[i as int], now);
            }
            if self.txs[i].next_at <= now {
                let next = rearmed(&self.txs[i], now);
                self.txs.set(i, next);
                assert(self@ =~= all.update(i as int, goal[i as int]));
            }
            assert(goal[i as int] == after_tick(s[i as int], now));
            proof {
                lemma_advance(goal, s, i as int);
            }
            i = i + 1;
        }
        assert(self@ =~= goal);
        proof {
            lemma_ticked_ok(s, now);
        }
    }

    /// Transactions in flight.
    pub fn len(&self) -> (r: usize)
        ensures
            r == self@.len(),
    {
        self.txs.len()
    }
}

// ── Laws ────────────────────────────────────────────────────────────────

/// Any response stops the retransmissions of the request that it answers,
/// and no other: afterwards that key is not tracked, and every entry with
/// another key is still there as it was.
pub proof fn law_any_answer_stops_the_request(s: Seq<ClientTxView>, key: Seq<char>)
    ensures
        !tracks(without_key(s, key), key),
        forall|t: ClientTxView|
            t.key != key ==> (#[trigger] without_key(s, key).contains(t) <==> s.contains(t)),
{
    lemma_without_key(s, key);
}

/// Sending a CANCEL stops the INVITE of its branch and tracks the CANCEL.
pub proof fn law_cancel_stops_the_invite(
    s: Seq<ClientTxView>,
    branch: Seq<char>,
    t: ClientTxView,
)
    requires
        t.key == client_key(branch, "CANCEL"@),
    ensures
        !tracks(with_sent(s, branch, t, true), client_key(branch, "INVITE"@)),
        tracks(with_sent(s, branch, t, true), t.key),
{
    let ik = client_key(branch, "INVITE"@);
    let kept = without_key(s, ik);
    let rest = without_key(kept, t.key);
    let n = with_sent(s, branch, t, true);
    lemma_without_key(s, ik);
    lemma_without_key(kept, t.key);
    assert(ik != t.key) by {
        reveal_strlit("INVITE");
        reveal_strlit("CANCEL");
        reveal_strlit("|");
        let at = branch.len() + 1;
        assert(ik[at as int] == capitals("INVITE"@)[0]);
        assert(t.key[at as int] == capitals("CANCEL"@)[0]);
    }
    assert(n[rest.len() as int].key == t.key);
    if tracks(n, ik) {
        let i = choose|i: int| 0 <= i < n.len() && (#[trigger] n[i]).key == ik;
        assert(rest.contains(n[i]));
        assert(kept.contains(n[i]));
        let j = choose|j: int| 0 <= j < kept.len() && kept[j] == n[i];
        assert(tracks(kept, ik));
    }
}

/// An INVITE doubles its interval each time it is sent again; any other
/// request doubles it until it reaches `TIMER_T2` and then stays there.
pub proof fn law_interval_doubles_up_to_t2(t: ClientTxView, now: u64)
    requires
        client_tx_ok(t),
        is_due(t, now),
    ensures
        after_tick(t, now).attempts == t.attempts + 1,
        after_tick(t, now).next_at == now + after_tick(t, now).interval,
        after_tick(t, now).raw == t.raw,
        t.is_invite ==> after_tick(t, now).interval == 2 * t.interval,
        !t.is_invite ==> after_tick(t, now).interval <= TIMER_T2,
        !t.is_invite && 2 * t.interval <= TIMER_T2 ==> after_tick(t, now).interval == 2
            * t.interval,
{
}

/// A request is given up once its time has passed, and is neither sent again
/// nor kept; until then it stays in the table.
pub proof fn law_expired_is_dropped(s: Seq<ClientTxView>, t: ClientTxView, now: u64)
    requires
        client_table_ok(s),
        s.contains(t),
    ensures
        t.give_up_at <= now ==> !tracks(ticked(s, now), t.key),
        t.give_up_at > now ==> ticked(s, now).contains(after_tick(t, now)),
{
    lemma_unexpired(s, now);
    let u = unexpired(s, now);
    let n = ticked(s, now);
    if t.give_up_at <= now {
        if tracks(n, t.key) {
            let i = choose|i: int| 0 <= i < n.len() && (#[trigger] n[i]).key == t.key;
            assert(u.contains(u[i]));
            let a = choose|a: int| 0 <= a < s.len() && s[a] == u[i];
            let b = choose|b: int| 0 <= b < s.len() && s[b] == t;
            assert(s[a].key == s[b].key);
        }
    } else {
        assert(u.contains(t));
        let i = choose|i: int| 0 <= i < u.len() && u[i] == t;
        assert(n[i] == after_tick(t, now));
    }
}

/// A request that was sent is tracked where and only where it went over UDP,
/// is text, has the start line of a request other than an ACK and a branch in
/// its first Via, and fewer requests than the cap still have time. Its key is
/// then made of branch and method. The table never outgrows its cap, and a
/// tracked CANCEL takes the INVITE of its branch out of it, so that the INVITE
/// is not sent again.
pub proof fn law_what_is_tracked(
    s: Seq<ClientTxView>,
    what: Seq<char>,
    raw: Seq<u8>,
    dest: Seq<char>,
    transport: Transport,
    reply: Option<u64>,
    now: u64,
)
    requires
        client_table_ok(s),
        now <= u64::MAX - 96_000,
    ensures
        ({
            let text = vstd::utf8::decode_utf8(raw);
            let (key, after) = recorded_sent(s, what, raw, dest, transport, reply, now);
            &&& key is Some <==> {
                &&& transport == Transport::Udp
                &&& vstd::utf8::valid_utf8(raw)
                &&& start_method(text) is Some && start_method(text) != Some("ACK"@)
                &&& sip_builder::top_branch(text) is Some
                &&& unexpired(s, now).len() < MAX_ENTRIES
            }
            &&& key is Some ==> {
                let (branch, method) = (sip_builder::top_branch(text)->0, start_method(text)->0);
                &&& key == Some(branch + "|"@ + method)
                &&& tracks(after, key->0)
                &&& method == "CANCEL"@ ==> !tracks(after, client_key(branch, "INVITE"@))
            }
            &&& after.len() <= MAX_ENTRIES
        }),
{
    let text = vstd::utf8::decode_utf8(raw);
    let (key, after) = recorded_sent(s, what, raw, dest, transport, reply, now);
    lemma_unexpired(s, now);
    let room = with_room(s, now);
    if let Some((branch, method)) = tracked_parts(raw, transport) {
        let words = text::tokens(first_line(text));
        assert(capitals(method) =~= method) by {
            assert forall|i: int| 0 <= i < method.len() implies sip_builder::upper_char(method[i])
                == method[i] by {
                assert(method[i] == sip_builder::upper_char(words[0][i]));
            }
        }
        assert(client_key(branch, method) == branch + "|"@ + method);
        if room.len() < MAX_ENTRIES {
            let t = fresh_client_tx(branch, method, raw, dest, reply, what, now);
            let ik = client_key(branch, "INVITE"@);
            lemma_without_key(room, ik);
            let kept = if method == "CANCEL"@ {
                without_key(room, ik)
            } else {
                room
            };
            lemma_without_key(kept, t.key);
            assert(after[after.len() - 1] == t);
            if method == "CANCEL"@ {
                law_cancel_stops_the_invite(room, branch, t);
            }
        }
    }
}

} // verus!
