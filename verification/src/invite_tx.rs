//! Memory of INVITE server transactions (RFC 3261 section 17.2.1): a
//! retransmitted INVITE gets the last response again and nothing else.
//!
//! Transactions are keyed by top Via branch, Call-ID, From tag and CSeq
//! number. An entry lives 32 s past its final response, or three minutes
//! while none was sent. All times are milliseconds of one clock.

use crate::client_tx::{TIMER_T1, TIMER_T2};
use crate::headers::{header_lines_of, values_of};
use crate::headers;
use crate::identity::{lower_string, text_or_empty};
use crate::identity;
use crate::message::{SipRequest, call_id_of, from_of, status_code_of, value_of};
use crate::message;
use crate::text::{chars_of, has_prefix, is_word, position_of_any, position_of_word, split_lines, split_tokens, string_of, trimmed, word_len};
use crate::text;
use vstd::prelude::*;
use vstd::slice::slice_subrange;

verus! {

/// How long a completed transaction keeps replaying its final response.
pub const FINAL_ABSORB: u64 = 32_000;

/// How long a transaction without a final response is remembered.
pub const PENDING_ABSORB: u64 = 180_000;

/// Most transactions that are remembered at a time.
pub const MAX_ENTRIES: usize = 10_000;

// ── Keys ────────────────────────────────────────────────────────────────

/// Value of parameter `name` in a header value: what follows the first
/// `name=` (in any case) up to a semicolon, a comma, a space or `>`; None
/// where nothing is left.
pub open spec fn param_value(value: Seq<char>, name: Seq<char>) -> Option<Seq<char>> {
    let p = text::find_str(text::lower(value), name + "="@, 0);
    let start = p + (name + "="@).len();
    let v = text::trim(value.subrange(start, text::find_any(value, seq![';', ',', ' ', '>'], start)));
    if p < value.len() && v.len() > 0 {
        Some(v)
    } else {
        None
    }
}

/// Value of a header parameter; the name is given in lower case.
pub fn param_of(value: &str, name: &str) -> (r: Option<String>)
    ensures
        text::opt_string(r) == param_value(value@, name@),
{
    let c = chars_of(value);
    let low_text = lower_string(c.as_slice());
    let low = chars_of(low_text.as_str());
    let mut needle = name.to_string();
    needle.push_str("=");
    assert(low@.len() == c@.len());
    let p: usize = position_of_word(low.as_slice(), needle.as_str(), 0);
    if p == c.len() {
        return None;
    }
    let start: usize = p + word_len(needle.as_str());
    let ends: [char; 4] = [';', ',', ' ', '>'];
    assert(ends@ =~= seq![';', ',', ' ', '>']);
    let end: usize = position_of_any(c.as_slice(), &ends, start);
    let v = trimmed(slice_subrange(c.as_slice(), start, end));
    if v.len() > 0 {
        Some(string_of(v))
    } else {
        None
    }
}

/// The key of a transaction.
pub open spec fn tx_key(
    branch: Seq<char>,
    call_id: Seq<char>,
    from_tag: Seq<char>,
    cseq: Seq<char>,
) -> Seq<char> {
    branch + "|"@ + call_id + "|"@ + from_tag + "|"@ + cseq
}

fn write_key(branch: &str, call_id: &str, from_tag: &str, cseq: &str) -> (r: String)
    ensures
        r@ == tx_key(branch@, call_id@, from_tag@, cseq@),
{
    let mut k = branch.to_string();
    k.push_str("|");
    k.push_str(call_id);
    k.push_str("|");
    k.push_str(from_tag);
    k.push_str("|");
    k.push_str(cseq);
    k
}

/// First word of a text.
pub open spec fn first_word(s: Seq<char>) -> Option<Seq<char>> {
    if text::tokens(s).len() > 0 {
        Some(text::tokens(s)[0])
    } else {
        None
    }
}

fn first_word_of(s: &str) -> (r: Option<String>)
    ensures
        text::opt_string(r) == first_word(s@),
{
    let c = chars_of(s);
    let w = split_tokens(c.as_slice());
    if w.len() == 0 {
        return None;
    }
    assert(text::views(w@)[0] == w@[0]@);
    Some(string_of(w[0]))
}

/// Key of the transaction that a request with these headers opens.
pub open spec fn request_tx_key(hs: Seq<Seq<char>>) -> Option<Seq<char>> {
    match (
        message::first_value(hs, "via:"@, "v:"@),
        message::call_id_value(hs),
        message::from_value(hs),
        message::cseq_value(hs),
    ) {
        (Some(via_text), Some(call_id), Some(from), Some(cseq)) => match (
            param_value(via_text, "branch"@),
            first_word(cseq),
        ) {
            (Some(branch), Some(number)) => Some(
                tx_key(branch, call_id, identity::or_empty(param_value(from, "tag"@)), number),
            ),
            _ => None,
        },
        _ => None,
    }
}

/// First value of the header `name` of a raw message.
pub open spec fn raw_value(raw: Seq<char>, name: Seq<char>) -> Option<Seq<char>> {
    let v = headers::header_values(headers::header_lines(raw), name, name);
    if v.len() > 0 {
        Some(v[0])
    } else {
        None
    }
}

/// First value of the header `name` of a raw message.
pub fn raw_value_of(raw: &str, name: &str) -> (r: Option<String>)
    ensures
        text::opt_string(r) == raw_value(raw@, name@),
{
    let t = chars_of(raw);
    let ls = split_lines(t.as_slice());
    let hs = header_lines_of(&ls);
    let v = values_of(&hs, name, name);
    if v.len() == 0 {
        return None;
    }
    assert(text::views(v@)[0] == v@[0]@);
    Some(string_of(v[0]))
}

/// Key of the INVITE transaction that a raw response answers, and whether
/// the response is final.
pub open spec fn response_tx_key(raw: Seq<char>) -> Option<(Seq<char>, bool)> {
    if !text::starts_with(raw, "SIP/2.0 "@) {
        None
    } else {
        match (raw_value(raw, "cseq"@), raw_value(raw, "via"@), raw_value(raw, "call-id"@)) {
            (Some(cseq), Some(via_text), Some(call_id)) => match (
                param_value(via_text, "branch"@),
                message::status_code(raw),
            ) {
                (Some(branch), Some(status)) => if text::tokens(cseq).len() >= 2 && text::same_text(
                    text::tokens(cseq)[1],
                    "INVITE"@,
                ) {
                    Some(
                        (
                            tx_key(
                                branch,
                                call_id,
                                identity::or_empty(
                                    match raw_value(raw, "from"@) {
                                        Some(f) => param_value(f, "tag"@),
                                        None => None,
                                    },
                                ),
                                text::tokens(cseq)[0],
                            ),
                            status >= 200,
                        ),
                    )
                } else {
                    None
                },
                _ => None,
            },
            _ => None,
        }
    }
}

// ── The table ───────────────────────────────────────────────────────────

struct TxEntry {
    key: String,
    last_response: Option<Vec<u8>>,
    first_seen: u64,
    final_at: Option<u64>,
    resend: Option<(u64, u64)>,
}

/// A remembered transaction.
pub struct TxView {
    pub key: Seq<char>,
    pub last_response: Option<Seq<u8>>,
    pub first_seen: u64,
    pub final_at: Option<u64>,
    /// When its final is sent again while no ACK comes, and the interval
    /// that led there.
    pub resend: Option<(u64, u64)>,
}

spec fn entry_view(e: TxEntry) -> TxView {
    TxView {
        key: e.key@,
        last_response: match e.last_response {
            Some(b) => Some(b@),
            None => None,
        },
        first_seen: e.first_seen,
        final_at: e.final_at,
        resend: e.resend,
    }
}

/// The INVITE transactions in memory, in the order in which they came.
pub struct InviteTxCache {
    entries: Vec<TxEntry>,
}

impl View for InviteTxCache {
    type V = Seq<TxView>;

    closed spec fn view(&self) -> Seq<TxView> {
        self.entries@.map_values(|e: TxEntry| entry_view(e))
    }
}

/// First entry with the key, or the length where there is none.
pub open spec fn tx_index(s: Seq<TxView>, key: Seq<char>) -> int
    decreases s.len(),
{
    if s.len() == 0 {
        0
    } else if s[0].key == key {
        0
    } else {
        1 + tx_index(s.skip(1), key)
    }
}

pub open spec fn tx_known(s: Seq<TxView>, key: Seq<char>) -> bool {
    tx_index(s, key) < s.len()
}

pub proof fn lemma_tx_index(s: Seq<TxView>, key: Seq<char>)
    ensures
        0 <= tx_index(s, key) <= s.len(),
        tx_index(s, key) < s.len() ==> s[tx_index(s, key)].key == key,
        forall|i: int| 0 <= i < tx_index(s, key) ==> (#[trigger] s[i]).key != key,
    decreases s.len(),
{
    if s.len() > 0 && s[0].key != key {
        lemma_tx_index(s.skip(1), key);
        assert forall|i: int| 0 <= i < tx_index(s, key) implies (#[trigger] s[i]).key != key by {
            if i > 0 {
                assert(s.skip(1)[i - 1] == s[i]);
            }
        }
    }
}

pub proof fn lemma_tx_index_is(s: Seq<TxView>, key: Seq<char>, at: int)
    requires
        0 <= at <= s.len(),
        at < s.len() ==> s[at].key == key,
        forall|i: int| 0 <= i < at ==> (#[trigger] s[i]).key != key,
    ensures
        tx_index(s, key) == at,
{
    lemma_tx_index(s, key);
    let n = tx_index(s, key);
    if n < at {
        assert(s[n].key == key);
    }
    if at < n {
        assert(s[at].key == key);
    }
}

/// The first of the entries that were seen earliest.
pub open spec fn oldest_tx(s: Seq<TxView>) -> int
    recommends
        s.len() > 0,
    decreases s.len(),
{
    if s.len() <= 1 {
        0
    } else {
        let k = oldest_tx(s.drop_last());
        if s.last().first_seen < s[k].first_seen {
            s.len() - 1
        } else {
            k
        }
    }
}

/// The entry of a transaction that was just seen.
pub open spec fn fresh_tx(key: Seq<char>, now: u64) -> TxView {
    TxView { key, last_response: None, first_seen: now, final_at: None, resend: None }
}

/// The table once a new transaction has begun: the oldest entry makes room
/// where the table is full.
pub open spec fn tx_begun(s: Seq<TxView>, key: Seq<char>, now: u64) -> Seq<TxView> {
    if s.len() >= MAX_ENTRIES {
        s.remove(oldest_tx(s)).push(fresh_tx(key, now))
    } else {
        s.push(fresh_tx(key, now))
    }
}

/// An entry once a response was sent for it; the first final response sets
/// the time from which it expires.
pub open spec fn tx_answered(e: TxView, response: Seq<u8>, is_final: bool, now: u64) -> TxView {
    TxView {
        last_response: Some(response),
        final_at: if is_final && e.final_at is None {
            Some(now)
        } else {
            e.final_at
        },
        ..e
    }
}

pub open spec fn tx_recorded(
    s: Seq<TxView>,
    key: Seq<char>,
    response: Seq<u8>,
    is_final: bool,
    now: u64,
) -> Seq<TxView> {
    if tx_known(s, key) {
        s.update(tx_index(s, key), tx_answered(s[tx_index(s, key)], response, is_final, now))
    } else {
        s
    }
}

/// Whether an entry is still within its window.
pub open spec fn tx_live(e: TxView, now: u64) -> bool {
    match e.final_at {
        Some(f) => now - f < FINAL_ABSORB,
        None => now - e.first_seen < PENDING_ABSORB,
    }
}

pub open spec fn live_txs(s: Seq<TxView>, now: u64) -> Seq<TxView>
    decreases s.len(),
{
    if s.len() == 0 {
        s
    } else if tx_live(s.last(), now) {
        live_txs(s.drop_last(), now).push(s.last())
    } else {
        live_txs(s.drop_last(), now)
    }
}

/// The interval after this one: twice as long, up to `TIMER_T2`.
pub open spec fn next_resend(interval: u64) -> u64 {
    if 2 * interval >= TIMER_T2 {
        TIMER_T2
    } else {
        (2 * interval) as u64
    }
}

/// The table once a final went out on a transport that may lose it: it is
/// sent again until its ACK comes.
pub open spec fn tx_awaiting(s: Seq<TxView>, key: Seq<char>, now: u64) -> Seq<TxView> {
    let at = tx_index(s, key);
    if tx_known(s, key) && s[at].final_at is Some {
        s.update(at, TxView { resend: Some(((now + TIMER_T1) as u64, TIMER_T1)), ..s[at] })
    } else {
        s
    }
}

/// The table once the ACK for a final came.
pub open spec fn tx_acked(s: Seq<TxView>, key: Seq<char>) -> Seq<TxView> {
    let at = tx_index(s, key);
    if tx_known(s, key) {
        s.update(at, TxView { resend: None, ..s[at] })
    } else {
        s
    }
}

/// How many finals wait for their ACK.
pub open spec fn awaiting_acks(s: Seq<TxView>) -> nat
    decreases s.len(),
{
    if s.len() == 0 {
        0
    } else {
        awaiting_acks(s.drop_last()) + (if s.last().resend is Some {
            1nat
        } else {
            0
        })
    }
}

/// The final of an entry is to be sent again.
pub open spec fn final_due(e: TxView, now: u64) -> bool {
    e.resend is Some && (e.resend->0).0 <= now && tx_live(e, now)
}

/// An entry after it was looked at.
pub open spec fn after_resend(e: TxView, now: u64) -> TxView {
    if final_due(e, now) {
        let next = next_resend((e.resend->0).1);
        TxView { resend: Some(((now + next) as u64, next)), ..e }
    } else {
        e
    }
}

pub open spec fn resent(s: Seq<TxView>, now: u64) -> Seq<TxView> {
    s.map_values(|e: TxView| after_resend(e, now))
}

/// The finals to send again.
pub open spec fn due_finals_of(s: Seq<TxView>, now: u64) -> Seq<Seq<u8>>
    decreases s.len(),
{
    if s.len() == 0 {
        Seq::empty()
    } else {
        let before = due_finals_of(s.drop_last(), now);
        match s.last().last_response {
            Some(b) => if final_due(s.last(), now) {
                before.push(b)
            } else {
                before
            },
            None => before,
        }
    }
}

pub open spec fn byte_views(v: Seq<Vec<u8>>) -> Seq<Seq<u8>> {
    v.map_values(|b: Vec<u8>| b@)
}

/// No key twice, and no more entries than allowed.
pub open spec fn tx_table_ok(s: Seq<TxView>) -> bool {
    &&& s.len() <= MAX_ENTRIES
    &&& forall|i: int, j: int|
        0 <= i < j < s.len() ==> (#[trigger] s[i]).key != (#[trigger] s[j]).key
}

pub fn copy_bytes(v: &[u8]) -> (r: Vec<u8>)
    ensures
        r@ == v@,
{
    let mut out: Vec<u8> = Vec::new();
    let mut i: usize = 0;
    while i < v.len()
        invariant
            i <= v@.len(),
            out@ == v@.take(i as int),
        decreases v@.len() - i,
    {
        out.push(v[i]);
        assert(v@.take(i + 1) =~= v@.take(i as int).push(v@[i as int]));
        i = i + 1;
    }
    assert(v@.take(v@.len() as int) =~= v@);
    out
}

/// The bytes of an optional buffer.
pub open spec fn opt_bytes(b: Option<Vec<u8>>) -> Option<Seq<u8>> {
    match b {
        Some(v) => Some(v@),
        None => None,
    }
}

impl InviteTxCache {
    /// No key twice, and no more entries than allowed.
    pub open spec fn wf(&self) -> bool {
        tx_table_ok(self@)
    }

    pub fn new() -> (r: Self)
        ensures
            r.wf(),
            r@.len() == 0,
    {
        InviteTxCache { entries: Vec::new() }
    }

    /// Transaction key of an incoming INVITE; None where it lacks the
    /// headers that identify it.
    pub fn key_of_request(request: &SipRequest) -> (r: Option<String>)
        ensures
            text::opt_string(r) == request_tx_key(request@.headers),
    {
        let hs = &request.headers;
        match (
            value_of(hs, "via:", "v:"),
            call_id_of(hs),
            from_of(hs),
            value_of(hs, "cseq:", "cseq:"),
        ) {
            (Some(via_text), Some(call_id), Some(from), Some(cseq)) => match (
                param_of(via_text.as_str(), "branch"),
                first_word_of(cseq.as_str()),
            ) {
                (Some(branch), Some(number)) => {
                    let tag = text_or_empty(param_of(from.as_str(), "tag"));
                    Some(
                        write_key(
                            branch.as_str(),
                            call_id.as_str(),
                            tag.as_str(),
                            number.as_str(),
                        ),
                    )
                },
                _ => None,
            },
            _ => None,
        }
    }

    /// Transaction key of an outgoing response, when it answers an INVITE,
    /// and whether the response is final.
    pub fn key_of_response(raw: &str) -> (r: Option<(String, bool)>)
        ensures
            match r {
                Some((k, f)) => response_tx_key(raw@) == Some((k@, f)),
                None => response_tx_key(raw@) is None,
            },
    {
        let c = chars_of(raw);
        if !has_prefix(c.as_slice(), "SIP/2.0 ") {
            return None;
        }
        match (raw_value_of(raw, "cseq"), raw_value_of(raw, "via"), raw_value_of(raw, "call-id")) {
            (Some(cseq), Some(via_text), Some(call_id)) => {
                let cc = chars_of(cseq.as_str());
                let w = split_tokens(cc.as_slice());
                if w.len() < 2 {
                    return None;
                }
                assert(text::views(w@)[0] == w@[0]@);
                assert(text::views(w@)[1] == w@[1]@);
                if !is_word(w[1], "INVITE") {
                    return None;
                }
                match (param_of(via_text.as_str(), "branch"), status_code_of(raw)) {
                    (Some(branch), Some(status)) => {
                        let tag = match raw_value_of(raw, "from") {
                            Some(f) => text_or_empty(param_of(f.as_str(), "tag")),
                            None => String::new(),
                        };
                        let number = string_of(w[0]);
                        let k = write_key(
                            branch.as_str(),
                            call_id.as_str(),
                            tag.as_str(),
                            number.as_str(),
                        );
                        Some((k, status >= 200))
                    },
                    _ => None,
                }
            },
            _ => None,
        }
    }

    fn find(&self, key: &str) -> (r: usize)
        ensures
            r == tx_index(self@, key@),
            r <= self@.len(),
    {
        let wanted = key.to_string();
        let mut i: usize = 0;
        while i < self.entries.len()
            invariant
                i <= self.entries@.len(),
                wanted@ == key@,
                forall|k: int| 0 <= k < i ==> (#[trigger] self@[k]).key != key@,
            decreases self.entries@.len() - i,
        {
            assert(self@[i as int].key == self.entries@[i as int].key@);
            if self.entries[i].key == wanted {
                proof {
                    lemma_tx_index_is(self@, key@, i as int);
                }
                return i;
            }
            i = i + 1;
        }
        proof {
            lemma_tx_index_is(self@, key@, i as int);
        }
        i
    }

    fn find_oldest(&self) -> (r: usize)
        requires
            self@.len() > 0,
        ensures
            r == oldest_tx(self@),
            r < self@.len(),
    {
        let ghost s = self@;
        let mut best: usize = 0;
        let mut i: usize = 1;
        assert(s.take(1).len() == 1);
        while i < self.entries.len()
            invariant
                s == self@,
                1 <= i <= self.entries@.len(),
                best < i,
                best == oldest_tx(s.take(i as int)),
            decreases self.entries@.len() - i,
        {
            assert(s.take(i + 1).drop_last() =~= s.take(i as int));
            assert(s.take(i + 1)[best as int] == s[best as int]);
            assert(s[best as int].first_seen == self.entries@[best as int].first_seen);
            assert(s[i as int].first_seen == self.entries@[i as int].first_seen);
            if self.entries[i].first_seen < self.entries[best].first_seen {
                best = i;
            }
            i = i + 1;
        }
        assert(s.take(s.len() as int) =~= s);
        best
    }

    /// Register a transaction. `Err` says that it is already known (a
    /// retransmission) and holds the response to replay, None while the
    /// first copy is still being processed.
    pub fn begin(&mut self, key: &str, now: u64) -> (r: Result<(), Option<Vec<u8>>>)
        requires
            old(self).wf(),
        ensures
            final(self).wf(),
            match r {
                Ok(_) => !tx_known(old(self)@, key@) && final(self)@ == tx_begun(
                    old(self)@,
                    key@,
                    now,
                ),
                Err(last) => tx_known(old(self)@, key@) && final(self)@ == old(self)@ && opt_bytes(
                    last,
                ) == old(self)@[tx_index(old(self)@, key@)].last_response,
            },
    {
        let ghost s = self@;
        let at: usize = self.find(key);
        if at < self.entries.len() {
            assert(s[at as int] == entry_view(self.entries@[at as int]));
            let last: Option<Vec<u8>> = match &self.entries[at].last_response {
                Some(b) => Some(copy_bytes(b.as_slice())),
                None => None,
            };
            return Err(last);
        }
        proof {
            lemma_tx_index(s, key@);
        }
        if self.entries.len() >= MAX_ENTRIES {
            let oldest: usize = self.find_oldest();
            self.entries.remove(oldest);
            assert(self@ =~= s.remove(oldest as int));
        }
        let ghost kept = self@;
        let entry = TxEntry {
            key: key.to_string(),
            last_response: None,
            first_seen: now,
            final_at: None,
            resend: None,
        };
        assert(entry_view(entry) == fresh_tx(key@, now));
        self.entries.push(entry);
        assert(self@ =~= kept.push(fresh_tx(key@, now)));
        proof {
            law_tx_table_is_bounded(s, key@, now);
        }
        Ok(())
    }

    /// Remember the last response sent for a transaction.
    pub fn record(&mut self, key: &str, response: &[u8], is_final: bool, now: u64)
        requires
            old(self).wf(),
        ensures
            final(self).wf(),
            final(self)@ == tx_recorded(old(self)@, key@, response@, is_final, now),
    {
        let ghost s = self@;
        let at: usize = self.find(key);
        proof {
            lemma_tx_index(s, key@);
        }
        if at < self.entries.len() {
            assert(s[at as int] == entry_view(self.entries@[at as int]));
            let k = self.entries[at].key.clone();
            let first_seen: u64 = self.entries[at].first_seen;
            let resend: Option<(u64, u64)> = self.entries[at].resend;
            let mut final_at: Option<u64> = self.entries[at].final_at;
            if is_final && final_at.is_none() {
                final_at = Some(now);
            }
            let entry = TxEntry {
                key: k,
                last_response: Some(copy_bytes(response)),
                first_seen,
                final_at,
                resend,
            };
            assert(entry_view(entry) == tx_answered(s[at as int], response@, is_final, now));
            self.entries.set(at, entry);
            assert(self@ =~= s.update(
                at as int,
                tx_answered(s[at as int], response@, is_final, now),
            ));
        }
    }

    fn set_resend(&mut self, at: usize, resend: Option<(u64, u64)>)
        requires
            at < old(self)@.len(),
        ensures
            final(self)@ == old(self)@.update(
                at as int,
                TxView { resend, ..old(self)@[at as int] },
            ),
    {
        let ghost s = self@;
        let mut entry = self.entries.remove(at);
        assert(s[at as int] == entry_view(entry));
        entry.resend = resend;
        self.entries.insert(at, entry);
        assert(self@ =~= s.update(at as int, TxView { resend, ..s[at as int] }));
    }

    /// A final of a transaction went out on a transport that may lose it: it
    /// is sent again until its ACK comes.
    pub fn await_ack(&mut self, key: &str, now: u64)
        requires
            old(self).wf(),
            now <= u64::MAX - 4_000,
        ensures
            final(self).wf(),
            final(self)@ == tx_awaiting(old(self)@, key@, now),
    {
        let ghost s = self@;
        let at: usize = self.find(key);
        if at < self.entries.len() {
            assert(s[at as int] == entry_view(self.entries@[at as int]));
            if self.entries[at].final_at.is_some() {
                self.set_resend(at, Some((now + TIMER_T1, TIMER_T1)));
            }
        }
        assert(keys_kept(s, self@));
        proof {
            lemma_same_keys(s, self@);
        }
    }

    /// The ACK for a final came: it is not sent again.
    pub fn acked(&mut self, key: &str)
        requires
            old(self).wf(),
        ensures
            final(self).wf(),
            final(self)@ == tx_acked(old(self)@, key@),
    {
        let ghost s = self@;
        let at: usize = self.find(key);
        if at < self.entries.len() {
            self.set_resend(at, None);
        }
        assert(keys_kept(s, self@));
        proof {
            lemma_same_keys(s, self@);
        }
    }

    /// How many finals wait for their ACK.
    pub fn pending_retransmissions(&self) -> (r: usize)
        ensures
            r == awaiting_acks(self@),
    {
        let ghost s = self@;
        let mut n: usize = 0;
        let mut i: usize = 0;
        assert(s.take(0) =~= Seq::empty());
        while i < self.entries.len()
            invariant
                s == self@,
                i <= self.entries@.len(),
                n <= i,
                n == awaiting_acks(s.take(i as int)),
            decreases self.entries@.len() - i,
        {
            assert(s.take(i + 1).drop_last() =~= s.take(i as int));
            assert(s[i as int] == entry_view(self.entries@[i as int]));
            if self.entries[i].resend.is_some() {
                n = n + 1;
            }
            i = i + 1;
        }
        assert(s.take(s.len() as int) =~= s);
        n
    }

    /// The finals to send again, each after twice the interval before up to
    /// `TIMER_T2`, while their window lasts.
    pub fn due_finals(&mut self, now: u64) -> (r: Vec<Vec<u8>>)
        requires
            old(self).wf(),
            now <= u64::MAX - 4_000,
        ensures
            final(self).wf(),
            final(self)@ == resent(old(self)@, now),
            byte_views(r@) == due_finals_of(old(self)@, now),
    {
        let ghost s = self@;
        let mut out: Vec<Vec<u8>> = Vec::new();
        let mut i: usize = 0;
        assert(s.take(0) =~= Seq::empty());
        assert(byte_views(out@) =~= Seq::empty());
        while i < self.entries.len()
            invariant
                now <= u64::MAX - 4_000,
                self@.len() == s.len(),
                self@.len() == self.entries@.len(),
                i <= s.len(),
                forall|k: int| 0 <= k < i ==> (#[trigger] self@[k]) == after_resend(s[k], now),
                forall|k: int| i <= k < s.len() ==> (#[trigger] self@[k]) == s[k],
                byte_views(out@) == due_finals_of(s.take(i as int), now),
            decreases s.len() - i,
        {
            assert(s.take(i + 1).drop_last() =~= s.take(i as int));
            assert(self@[i as int] == entry_view(self.entries@[i as int]));
            let live = match self.entries[i].final_at {
                Some(f) => now < f || now - f < FINAL_ABSORB,
                None => now < self.entries[i].first_seen || now - self.entries[i].first_seen
                    < PENDING_ABSORB,
            };
            if let Some((at, interval)) = self.entries[i].resend {
                if at <= now && live {
                    let ghost before = byte_views(out@);
                    if let Some(b) = &self.entries[i].last_response {
                        let c = copy_bytes(b.as_slice());
                        out.push(c);
                        assert(byte_views(out@) =~= before.push(c@));
                    }
                    let next: u64 = if interval >= TIMER_T2 / 2 {
                        TIMER_T2
                    } else {
                        2 * interval
                    };
                    self.set_resend(i, Some((now + next, next)));
                }
            }
            i = i + 1;
        }
        assert(s.take(s.len() as int) =~= s);
        assert(self@ =~= resent(s, now));
        assert(keys_kept(s, self@));
        proof {
            lemma_same_keys(s, self@);
        }
        out
    }

    /// Drop the transactions past their window and say how many there were.
    pub fn prune_at(&mut self, now: u64) -> (r: usize)
        requires
            old(self).wf(),
        ensures
            final(self).wf(),
            final(self)@ == live_txs(old(self)@, now),
            r == old(self)@.len() - final(self)@.len(),
    {
        let ghost s = self@;
        let before: usize = self.entries.len();
        let ghost mut done: int = 0;
        let mut i: usize = 0;
        assert(self@ =~= live_txs(s.take(0), now) + s.skip(0));
        while i < self.entries.len()
            invariant
                0 <= done <= s.len(),
                i == live_txs(s.take(done), now).len(),
                self@ == live_txs(s.take(done), now) + s.skip(done),
                self@.len() == self.entries@.len(),
            decreases s.len() - done,
        {
            let ghost now_all = self@;
            let ghost kept = live_txs(s.take(done), now);
            assert(s.take(done + 1).drop_last() =~= s.take(done));
            assert(now_all[i as int] == s[done]);
            assert(now_all[i as int] == entry_view(self.entries@[i as int]));
            let keep = match self.entries[i].final_at {
                Some(f) => now < f || now - f < FINAL_ABSORB,
                None => now < self.entries[i].first_seen || now - self.entries[i].first_seen
                    < PENDING_ABSORB,
            };
            if keep {
                i = i + 1;
                assert(kept + s.skip(done) =~= kept.push(s[done]) + s.skip(done + 1));
            } else {
                self.entries.remove(i);
                assert(self@ =~= now_all.remove(i as int));
                assert(self@ =~= kept + s.skip(done + 1));
            }
            proof {
                done = done + 1;
            }
        }
        assert(done == s.len());
        assert(self@ =~= live_txs(s.take(done), now));
        assert(s.take(s.len() as int) =~= s);
        proof {
            law_pruning_keeps_the_live(s, now);
        }
        before - self.entries.len()
    }

    /// Whether a transaction is in memory.
    pub fn knows(&self, key: &str) -> (r: bool)
        ensures
            r == tx_known(self@, key@),
    {
        let at: usize = self.find(key);
        at < self.entries.len()
    }

    /// Transactions in memory.
    pub fn len(&self) -> (r: usize)
        ensures
            r == self@.len(),
    {
        self.entries.len()
    }
}

/// The same transactions in the same order.
spec fn keys_kept(s: Seq<TxView>, t: Seq<TxView>) -> bool {
    s.len() == t.len() && forall|i: int| 0 <= i < s.len() ==> (#[trigger] t[i]).key == s[i].key
}

proof fn lemma_same_keys(s: Seq<TxView>, t: Seq<TxView>)
    requires
        tx_table_ok(s),
        keys_kept(s, t),
    ensures
        tx_table_ok(t),
{
    assert forall|i: int, j: int| 0 <= i < j < t.len() implies (#[trigger] t[i]).key != (
    #[trigger] t[j]).key by {
        assert(s[i].key != s[j].key);
    }
}

// ── Laws ────────────────────────────────────────────────────────────────

/// However many transactions begin, the table stays within its cap and holds
/// no key twice.
pub proof fn law_tx_table_is_bounded(s: Seq<TxView>, key: Seq<char>, now: u64)
    requires
        tx_table_ok(s),
        !tx_known(s, key),
    ensures
        tx_table_ok(tx_begun(s, key, now)),
        tx_known(tx_begun(s, key, now), key),
{
    let n = tx_begun(s, key, now);
    lemma_tx_index(s, key);
    if s.len() >= MAX_ENTRIES {
        lemma_oldest_tx(s);
        let k = oldest_tx(s);
        assert forall|i: int, j: int| 0 <= i < j < n.len() implies (#[trigger] n[i]).key != (
        #[trigger] n[j]).key by {
            let a = if i < k {
                i
            } else {
                i + 1
            };
            let b = if j < k {
                j
            } else {
                j + 1
            };
            assert(n[i] == s[a]);
            if j < n.len() - 1 {
                assert(n[j] == s[b]);
            }
        }
    }
    lemma_tx_index(n, key);
    assert(n[n.len() - 1].key == key);
}

/// The entry that makes room is one of those seen earliest.
pub proof fn lemma_oldest_tx(s: Seq<TxView>)
    requires
        s.len() > 0,
    ensures
        0 <= oldest_tx(s) < s.len(),
        forall|i: int| 0 <= i < s.len() ==> s[oldest_tx(s)].first_seen <= (#[trigger] s[i]).first_seen,
    decreases s.len(),
{
    if s.len() > 1 {
        lemma_oldest_tx(s.drop_last());
        assert forall|i: int| 0 <= i < s.len() implies s[oldest_tx(s)].first_seen <= (
        #[trigger] s[i]).first_seen by {
            if i < s.len() - 1 {
                assert(s.drop_last()[i] == s[i]);
            }
        }
    }
}

/// A retransmission is answered with the response sent last: after a
/// response was recorded for a known transaction, its entry holds that one.
pub proof fn law_retransmission_replays_the_last_response(
    s: Seq<TxView>,
    key: Seq<char>,
    response: Seq<u8>,
    is_final: bool,
    now: u64,
)
    requires
        tx_known(s, key),
    ensures
        ({
            let n = tx_recorded(s, key, response, is_final, now);
            &&& tx_known(n, key)
            &&& tx_index(n, key) == tx_index(s, key)
            &&& n[tx_index(n, key)].last_response == Some(response)
        }),
{
    let n = tx_recorded(s, key, response, is_final, now);
    lemma_tx_index(s, key);
    lemma_tx_index_is(n, key, tx_index(s, key));
}

/// Pruning keeps exactly the entries within their window: the rest is as it
/// was, in its order.
pub proof fn law_pruning_keeps_the_live(s: Seq<TxView>, now: u64)
    ensures
        live_txs(s, now).len() <= s.len(),
        forall|e: TxView| #[trigger]
            live_txs(s, now).contains(e) <==> s.contains(e) && tx_live(e, now),
        tx_table_ok(s) ==> tx_table_ok(live_txs(s, now)),
    decreases s.len(),
{
    let v = live_txs(s, now);
    if s.len() > 0 {
        let d = s.drop_last();
        let w = live_txs(d, now);
        law_pruning_keeps_the_live(d, now);
        assert forall|e: TxView| #[trigger] v.contains(e) <==> s.contains(e) && tx_live(e, now) by {
            if v.contains(e) {
                let i = choose|i: int| 0 <= i < v.len() && v[i] == e;
                if i < w.len() {
                    assert(w.contains(w[i]));
                    let j = choose|j: int| 0 <= j < d.len() && d[j] == e;
                    assert(s[j] == e);
                } else {
                    assert(s[s.len() - 1] == e);
                }
            }
            if s.contains(e) && tx_live(e, now) {
                let i = choose|i: int| 0 <= i < s.len() && s[i] == e;
                if i < d.len() {
                    assert(d[i] == e);
                    assert(w.contains(e));
                    let j = choose|j: int| 0 <= j < w.len() && w[j] == e;
                    assert(v[j] == e);
                } else {
                    assert(v[v.len() - 1] == e);
                }
            }
        }
        if tx_table_ok(s) {
            assert(tx_table_ok(d)) by {
                assert forall|i: int, j: int| 0 <= i < j < d.len() implies (#[trigger] d[i]).key != (
                #[trigger] d[j]).key by {
                    assert(d[i] == s[i] && d[j] == s[j]);
                }
            }
            assert forall|i: int, j: int| 0 <= i < j < v.len() implies (#[trigger] v[i]).key != (
            #[trigger] v[j]).key by {
                assert(v[i] == w[i]);
                if j == w.len() {
                    assert(w.contains(w[i]));
                    let k = choose|k: int| 0 <= k < d.len() && d[k] == w[i];
                    assert(s[k] == w[i]);
                    assert(s[s.len() - 1] == v[j]);
                } else {
                    assert(v[j] == w[j]);
                }
            }
        }
    }
}

/// A final response opens a window of its own; until it has passed, the
/// entry is kept.
pub proof fn law_final_response_is_kept(
    e: TxView,
    response: Seq<u8>,
    sent: u64,
    now: u64,
)
    requires
        e.final_at is None,
        sent <= now,
    ensures
        tx_live(tx_answered(e, response, true, sent), now) <==> now - sent < FINAL_ABSORB,
{
}

/// The ACK for a final stops its retransmissions, whenever the table is
/// looked at, and those of no other transaction.
pub proof fn law_ack_stops_the_final(s: Seq<TxView>, key: Seq<char>, other: int, now: u64)
    requires
        tx_known(s, key),
        0 <= other < s.len(),
    ensures
        ({
            let n = tx_acked(s, key);
            let at = tx_index(s, key);
            &&& n.len() == s.len()
            &&& n[at].resend is None && !final_due(n[at], now)
            &&& n[at].last_response == s[at].last_response
            &&& other != at ==> n[other] == s[other]
        }),
{
    lemma_tx_index(s, key);
}

/// A final that waits for its ACK is sent again with growing pauses: each is
/// twice the one before, and none longer than `TIMER_T2`.
pub proof fn law_final_backs_off(e: TxView, now: u64)
    requires
        final_due(e, now),
        now <= u64::MAX - 4_000,
    ensures
        ({
            let (at, pause) = after_resend(e, now).resend->0;
            &&& at == now + pause
            &&& pause <= TIMER_T2
            &&& 2 * (e.resend->0).1 <= TIMER_T2 ==> pause == 2 * (e.resend->0).1
        }),
{
}

} // verus!
