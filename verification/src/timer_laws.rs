//! What is promised of transactions and of time: what is sent again and when,
//! what is kept, and how dates are counted.

use crate::backup;
use crate::client_tx::{ClientTxView, DueView};
use crate::client_tx;
use crate::invite_tx::TxView;
use crate::invite_tx;
use crate::message;
use crate::rfc3339;
use crate::text;
use crate::text_laws;
use vstd::prelude::*;

verus! {

// ── Requests of this side ───────────────────────────────────────────────

/// A request that is tracked is sent again after half a second and given up
/// after thirty-two; it is what was sent, to where it was sent.
pub proof fn law_first_timers_of_a_request(
    branch: Seq<char>,
    method: Seq<char>,
    raw: Seq<u8>,
    dest: Seq<char>,
    reply: Option<u64>,
    what: Seq<char>,
    now: u64,
)
    requires
        now <= u64::MAX - 96_000,
    ensures
        ({
            let t = client_tx::fresh_client_tx(branch, method, raw, dest, reply, what, now);
            &&& t.next_at == now + 500 && t.interval == 500 && t.give_up_at == now + 32_000
            &&& t.attempts == 0 && t.raw == raw && t.dest == dest && t.reply == reply && t.what == what
            &&& t.is_invite <==> method == "INVITE"@
            &&& t.key == branch + "|"@ + client_tx::capitals(method)
        }),
{
}

/// A request is due once its time has come and it is not given up; it is
/// sent again as it was, and the pause after it doubles, but for an INVITE
/// only up to four seconds.
pub proof fn law_when_a_request_is_due(t: ClientTxView, now: u64)
    requires
        client_tx::client_tx_ok(t),
    ensures
        client_tx::is_due(t, now) <==> t.next_at <= now && now < t.give_up_at,
        !client_tx::is_due(t, now) ==> client_tx::after_tick(t, now) == t,
        client_tx::is_due(t, now) ==> client_tx::after_tick(t, now).attempts == t.attempts + 1,
        client_tx::is_due(t, now) ==> client_tx::after_tick(t, now).next_at == now + client_tx::after_tick(t, now).interval,
        client_tx::is_due(t, now) && t.is_invite ==> client_tx::after_tick(t, now).interval == 2 * t.interval,
        client_tx::is_due(t, now) && !t.is_invite && t.interval <= 2_000 ==> client_tx::after_tick(t, now).interval == 2
            * t.interval,
        client_tx::is_due(t, now) && !t.is_invite && t.interval > 2_000 ==> client_tx::after_tick(t, now).interval == 4_000,
        client_tx::after_tick(t, now).key == t.key && client_tx::after_tick(t, now).raw == t.raw && client_tx::after_tick(
            t,
            now,
        ).give_up_at == t.give_up_at && client_tx::after_tick(t, now).dest == t.dest,
{
}

/// What is sent again are the requests that are due, in their order, each
/// with the number of the attempt that it is.
pub proof fn law_what_is_sent_again(s: Seq<ClientTxView>, now: u64)
    ensures
        client_tx::due_list(s, now) == s.filter(
            |t: ClientTxView| t.next_at <= now && now < t.give_up_at,
        ).map_values(
            |t: ClientTxView|
                DueView {
                    what: t.what,
                    raw: t.raw,
                    dest: t.dest,
                    reply: t.reply,
                    attempt: (t.attempts + 1) as u32,
                },
        ),
    decreases s.len(),
{
    reveal(Seq::filter);
    let keep = |t: ClientTxView| t.next_at <= now && now < t.give_up_at;
    let tell = |t: ClientTxView|
        DueView {
            what: t.what,
            raw: t.raw,
            dest: t.dest,
            reply: t.reply,
            attempt: (t.attempts + 1) as u32,
        };
    if s.len() > 0 {
        law_what_is_sent_again(s.drop_last(), now);
    }
    assert(client_tx::due_list(s, now) =~= s.filter(keep).map_values(tell));
}

/// What is given up are the requests whose time has passed, each told with
/// its attempts; the others stay.
pub proof fn law_what_is_given_up(s: Seq<ClientTxView>, now: u64)
    ensures
        client_tx::expired_list(s, now) == s.filter(|t: ClientTxView| t.give_up_at <= now).map_values(
            |t: ClientTxView| t.what + " ("@ + text::decimal(t.attempts as nat) + " attempts)"@,
        ),
        client_tx::unexpired(s, now) == s.filter(|t: ClientTxView| now < t.give_up_at),
    decreases s.len(),
{
    reveal(Seq::filter);
    let gone = |t: ClientTxView| t.give_up_at <= now;
    let tell = |t: ClientTxView| t.what + " ("@ + text::decimal(t.attempts as nat) + " attempts)"@;
    let keep = |t: ClientTxView| now < t.give_up_at;
    if s.len() > 0 {
        law_what_is_given_up(s.drop_last(), now);
    }
    assert(client_tx::expired_list(s, now) =~= s.filter(gone).map_values(tell));
    assert(client_tx::unexpired(s, now) =~= s.filter(keep));
}

/// A request that is sent anew takes the place of the one with its key, and
/// a CANCEL that of its INVITE too; all others stay, in their order.
pub proof fn law_sent_request_is_tracked(
    s: Seq<ClientTxView>,
    branch: Seq<char>,
    t: ClientTxView,
    is_cancel: bool,
)
    ensures
        client_tx::with_sent(s, branch, t, is_cancel).last() == t,
        !is_cancel ==> client_tx::with_sent(s, branch, t, is_cancel) == s.filter(
            |e: ClientTxView| e.key != t.key,
        ).push(t),
        is_cancel ==> client_tx::with_sent(s, branch, t, is_cancel) == s.filter(
            |e: ClientTxView| e.key != branch + "|"@ + client_tx::capitals("INVITE"@),
        ).filter(|e: ClientTxView| e.key != t.key).push(t),
{
    lemma_without_key_filters(s, t.key);
    lemma_without_key_filters(s, client_tx::client_key(branch, "INVITE"@));
    lemma_without_key_filters(client_tx::without_key(s, client_tx::client_key(branch, "INVITE"@)), t.key);
    let ik = branch + "|"@ + client_tx::capitals("INVITE"@);
    assert(client_tx::client_key(branch, "INVITE"@) == ik);
}

proof fn lemma_without_key_filters(s: Seq<ClientTxView>, key: Seq<char>)
    ensures
        client_tx::without_key(s, key) == s.filter(|e: ClientTxView| e.key != key),
    decreases s.len(),
{
    reveal(Seq::filter);
    if s.len() > 0 {
        lemma_without_key_filters(s.drop_last(), key);
    }
    assert(client_tx::without_key(s, key) =~= s.filter(|e: ClientTxView| e.key != key));
}

/// Room is made only where the table is full, and only of requests whose
/// time has passed.
pub proof fn law_room_for_a_request(s: Seq<ClientTxView>, now: u64)
    ensures
        s.len() < 4096 ==> client_tx::with_room(s, now) == s,
        s.len() >= 4096 ==> client_tx::with_room(s, now) == client_tx::unexpired(s, now),
{
}

// ── INVITEs of others ───────────────────────────────────────────────────

/// An INVITE is known again by the branch of its Via, its Call-ID, the tag of
/// its From and its number.
pub proof fn law_what_tells_invites_apart(
    hs: Seq<Seq<char>>,
    v: Seq<char>,
    call_id: Seq<char>,
    from: Seq<char>,
    cseq: Seq<char>,
    branch: Seq<char>,
)
    requires
        message::first_value(hs, "via:"@, "v:"@) == Some(v),
        message::call_id_value(hs) == Some(call_id),
        message::from_value(hs) == Some(from),
        message::cseq_value(hs) == Some(cseq),
        invite_tx::param_value(v, "branch"@) == Some(branch),
        text::tokens(cseq).len() > 0,
    ensures
        invite_tx::param_value(from, "tag"@) matches Some(t) ==> invite_tx::request_tx_key(hs) == Some(
            branch + "|"@ + call_id + "|"@ + t + "|"@ + text::tokens(cseq)[0],
        ),
        invite_tx::param_value(from, "tag"@) is None ==> invite_tx::request_tx_key(hs) == Some(
            branch + "|"@ + call_id + "|"@ + Seq::empty() + "|"@ + text::tokens(cseq)[0],
        ),
{
}

/// A response belongs to the INVITE with the same Via branch, Call-ID, From
/// tag and number, and is a final from 200 on; a response to anything else
/// belongs to none.
pub proof fn law_response_finds_its_invite(
    raw: Seq<char>,
    v: Seq<char>,
    call_id: Seq<char>,
    from: Seq<char>,
    cseq: Seq<char>,
    branch: Seq<char>,
    tag: Seq<char>,
    status: nat,
)
    requires
        text::starts_with(raw, "SIP/2.0 "@),
        invite_tx::raw_value(raw, "via"@) == Some(v),
        invite_tx::raw_value(raw, "call-id"@) == Some(call_id),
        invite_tx::raw_value(raw, "from"@) == Some(from),
        invite_tx::raw_value(raw, "cseq"@) == Some(cseq),
        invite_tx::param_value(v, "branch"@) == Some(branch),
        invite_tx::param_value(from, "tag"@) == Some(tag),
        message::status_code(raw) == Some(status),
        text::tokens(cseq).len() >= 2,
    ensures
        text::same_text(text::tokens(cseq)[1], "INVITE"@) ==> invite_tx::response_tx_key(raw) == Some(
            (branch + "|"@ + call_id + "|"@ + tag + "|"@ + text::tokens(cseq)[0], status >= 200),
        ),
        !text::same_text(text::tokens(cseq)[1], "INVITE"@) ==> invite_tx::response_tx_key(raw) is None,
{
}

/// What a parameter of a header says: what stands between its equals sign and
/// the next mark, and nothing where it stands nowhere.
pub proof fn law_value_of_a_parameter(a: Seq<char>, name: Seq<char>, v: Seq<char>, b: Seq<char>)
    requires
        v.len() > 0,
        !text::is_space(v[0]),
        !text::is_space(v.last()),
        forall|i: int|
            0 <= i < v.len() ==> #[trigger] v[i] != ';' && v[i] != ',' && v[i] != ' ' && v[i] != '>',
        b.len() > 0 ==> b[0] == ';' || b[0] == ',' || b[0] == ' ' || b[0] == '>',
        text::lower(name) == name,
        forall|k: int|
            0 <= k < a.len() ==> !text::occurs_at(text::lower(a + name + "="@ + v + b), name + "="@, k),
    ensures
        invite_tx::param_value(a + name + "="@ + v + b, name) == Some(v),
{
    let s = a + name + "="@ + v + b;
    let p = name + "="@;
    reveal_strlit("=");
    let l = text::lower(s);
    let n = a.len() as int;
    assert(l.len() == s.len());
    assert(l.subrange(n, n + p.len()) =~= p) by {
        assert forall|i: int| 0 <= i < p.len() implies l[n + i] == p[i] by {
            if i < name.len() {
                assert(s[n + i] == name[i]);
                assert(text::lower(name)[i] == name[i]);
            } else {
                assert(s[n + i] == '=');
            }
        }
    }
    text::lemma_find_str_is(l, p, 0, n);
    let start = n + p.len();
    let marks = seq![';', ',', ' ', '>'];
    let e = text::find_any(s, marks, start);
    text::lemma_find_any(s, marks, start);
    let stop = start + v.len();
    assert forall|k: int| start <= k < stop implies !marks.contains(s[k]) by {
        assert(s[k] == v[k - start]);
    }
    if b.len() > 0 {
        assert(s[stop] == b[0]);
        assert(marks[0] == ';' && marks[1] == ',' && marks[2] == ' ' && marks[3] == '>');
        assert(marks.contains(s[stop]));
    }
    assert(e == stop);
    assert(s.subrange(start, stop) =~= v);
    text_laws::law_space_around_is_dropped(Seq::empty(), v, Seq::empty());
    assert(Seq::<char>::empty() + v + Seq::<char>::empty() =~= v);
}

/// An INVITE that begins is kept unanswered; where the table is full, one of
/// those seen earliest makes room.
pub proof fn law_begun_invite_is_kept(s: Seq<TxView>, key: Seq<char>, now: u64)
    requires
        s.len() > 0,
    ensures
        invite_tx::tx_begun(s, key, now).last() == (TxView {
            key,
            last_response: None,
            first_seen: now,
            final_at: None,
            resend: None,
        }),
        s.len() < 10_000 ==> invite_tx::tx_begun(s, key, now).drop_last() == s,
        s.len() >= 10_000 ==> exists|k: int|
            0 <= k < s.len() && invite_tx::tx_begun(s, key, now).drop_last() == #[trigger] s.remove(k)
                && forall|i: int| 0 <= i < s.len() ==> s[k].first_seen <= (#[trigger] s[i]).first_seen,
{
    invite_tx::lemma_oldest_tx(s);
    if s.len() < 10_000 {
        assert(invite_tx::tx_begun(s, key, now).drop_last() =~= s);
    } else {
        assert(invite_tx::tx_begun(s, key, now).drop_last() =~= s.remove(invite_tx::oldest_tx(s)));
    }
}

/// How long an INVITE is kept: half a minute and two seconds after its final,
/// three minutes without one.
pub proof fn law_how_long_an_invite_is_kept(e: TxView, now: u64)
    ensures
        e.final_at matches Some(f) ==> (invite_tx::tx_live(e, now) <==> now - f < 32_000),
        e.final_at is None ==> (invite_tx::tx_live(e, now) <==> now - e.first_seen < 180_000),
{
}

/// The invites that are kept, in their order.
pub proof fn law_kept_invites(s: Seq<TxView>, now: u64)
    ensures
        invite_tx::live_txs(s, now) == s.filter(|e: TxView| invite_tx::tx_live(e, now)),
    decreases s.len(),
{
    reveal(Seq::filter);
    if s.len() > 0 {
        law_kept_invites(s.drop_last(), now);
    }
    assert(invite_tx::live_txs(s, now) =~= s.filter(|e: TxView| invite_tx::tx_live(e, now)));
}

/// A response is kept as the one to answer with again; the first final starts
/// the time after which the INVITE is forgotten, and no later one does.
pub proof fn law_answer_is_kept(e: TxView, response: Seq<u8>, is_final: bool, now: u64)
    ensures
        ({
            let t = invite_tx::tx_answered(e, response, is_final, now);
            &&& t.last_response == Some(response)
            &&& e.final_at is Some ==> t.final_at == e.final_at
            &&& e.final_at is None && is_final ==> t.final_at == Some(now)
            &&& e.final_at is None && !is_final ==> t.final_at is None
            &&& t.key == e.key && t.first_seen == e.first_seen && t.resend == e.resend
        }),
{
}

/// A final that waits for its ACK is sent again first after half a second;
/// an INVITE without a final waits for none, and no other entry changes.
pub proof fn law_final_waits_for_its_ack(s: Seq<TxView>, key: Seq<char>, now: u64, i: int)
    requires
        0 <= i < s.len(),
        s[i].key == key,
        forall|j: int| 0 <= j < i ==> (#[trigger] s[j]).key != key,
        now <= u64::MAX - 4_000,
    ensures
        s[i].final_at is Some ==> invite_tx::tx_awaiting(s, key, now) == s.update(
            i,
            TxView { resend: Some(((now + 500) as u64, 500u64)), ..s[i] },
        ),
        s[i].final_at is None ==> invite_tx::tx_awaiting(s, key, now) == s,
{
    invite_tx::lemma_tx_index_is(s, key, i);
}

/// The pause before a final is sent again doubles up to four seconds; it is
/// sent again only while it waits and is kept.
pub proof fn law_pause_of_a_final(e: TxView, now: u64)
    requires
        now <= u64::MAX - 4_000,
    ensures
        invite_tx::final_due(e, now) <==> e.resend is Some && (e.resend->0).0 <= now && invite_tx::tx_live(e, now),
        !invite_tx::final_due(e, now) ==> invite_tx::after_resend(e, now) == e,
        invite_tx::final_due(e, now) && (e.resend->0).1 <= 2_000 ==> invite_tx::after_resend(e, now).resend == Some(
            ((now + 2 * (e.resend->0).1) as u64, (2 * (e.resend->0).1) as u64),
        ),
        invite_tx::final_due(e, now) && (e.resend->0).1 >= 2_000 ==> invite_tx::after_resend(e, now).resend == Some(
            ((now + 4_000) as u64, 4_000u64),
        ),
        invite_tx::after_resend(e, now).last_response == e.last_response && invite_tx::after_resend(e, now).final_at
            == e.final_at,
{
}

/// The finals that are sent again are those that are due and have something
/// to send, in their order.
pub proof fn law_finals_sent_again(s: Seq<TxView>, now: u64)
    ensures
        invite_tx::due_finals_of(s, now) == s.filter(
            |e: TxView| e.last_response is Some && invite_tx::final_due(e, now),
        ).map_values(|e: TxView| e.last_response->0),
        invite_tx::awaiting_acks(s) == s.filter(|e: TxView| e.resend is Some).len(),
    decreases s.len(),
{
    reveal(Seq::filter);
    let keep = |e: TxView| e.last_response is Some && invite_tx::final_due(e, now);
    let tell = |e: TxView| e.last_response->0;
    if s.len() > 0 {
        law_finals_sent_again(s.drop_last(), now);
    }
    assert(invite_tx::due_finals_of(s, now) =~= s.filter(keep).map_values(tell));
}

// ── Dates ───────────────────────────────────────────────────────────────

/// The days before a year: a year has three hundred and sixty-five, one more
/// every fourth year, but not every hundredth, and again every
/// four-hundredth.
pub proof fn law_days_before_each_year(y: nat)
    requires
        y >= 1970,
    ensures
        rfc3339::days_before_year(y) == 365 * (y - 1970) + (y - 1969) / 4 - (y - 1901) / 100 + (y - 1601)
            / 400,
    decreases y,
{
    if y > 1970 {
        law_days_before_each_year((y - 1) as nat);
        lemma_quotient_steps((y - 2) as int);
    }
}

proof fn lemma_quotient_steps(n: int)
    requires
        n >= 1968,
    ensures
        ({
            let z = n + 1;
            let more = (z - 1968) / 4 - (z - 1900) / 100 + (z - 1600) / 400;
            let less = (n - 1968) / 4 - (n - 1900) / 100 + (n - 1600) / 400;
            more - less == if (z % 4 == 0 && z % 100 != 0) || z % 400 == 0 {
                1int
            } else {
                0int
            }
        }),
{
    let z = n + 1;
    lemma_by_four(n - 1968);
    lemma_by_hundred(n - 1900);
    lemma_by_four_hundred(n - 1600);
    lemma_multiples(z);
}

proof fn lemma_by_four(n: int)
    requires
        n >= 0,
    ensures
        (n + 1) / 4 - n / 4 == if (n + 1 + 1968) % 4 == 0 {
            1int
        } else {
            0int
        },
{
}

proof fn lemma_by_hundred(n: int)
    requires
        n >= 0,
    ensures
        (n + 1) / 100 - n / 100 == if (n + 1 + 1900) % 100 == 0 {
            1int
        } else {
            0int
        },
{
}

proof fn lemma_by_four_hundred(n: int)
    requires
        n >= 0,
    ensures
        (n + 1) / 400 - n / 400 == if (n + 1 + 1600) % 400 == 0 {
            1int
        } else {
            0int
        },
{
}

proof fn lemma_multiples(z: int)
    ensures
        z % 400 == 0 ==> z % 100 == 0,
        z % 100 == 0 ==> z % 4 == 0,
{
    if z % 100 == 0 {
        let q = z / 100;
        assert(z == 100 * q);
        assert((4 * (25 * q)) % 4 == 0);
    }
    if z % 400 == 0 {
        let q = z / 400;
        assert(z == 400 * q);
        assert((100 * (4 * q)) % 100 == 0);
    }
}

/// The days before each month of a year, and the days of the year.
pub proof fn law_days_before_each_month(y: nat)
    ensures
        ({
            let leap: nat = if y % 400 == 0 || (y % 4 == 0 && y % 100 != 0) {
                1
            } else {
                0
            };
            &&& rfc3339::days_before_month(y, 0) == 0
            &&& rfc3339::days_before_month(y, 1) == 31
            &&& rfc3339::days_before_month(y, 2) == 59 + leap
            &&& rfc3339::days_before_month(y, 3) == 90 + leap
            &&& rfc3339::days_before_month(y, 4) == 120 + leap
            &&& rfc3339::days_before_month(y, 5) == 151 + leap
            &&& rfc3339::days_before_month(y, 6) == 181 + leap
            &&& rfc3339::days_before_month(y, 7) == 212 + leap
            &&& rfc3339::days_before_month(y, 8) == 243 + leap
            &&& rfc3339::days_before_month(y, 9) == 273 + leap
            &&& rfc3339::days_before_month(y, 10) == 304 + leap
            &&& rfc3339::days_before_month(y, 11) == 334 + leap
            &&& rfc3339::days_before_month(y, 12) == 365 + leap
            &&& rfc3339::days_before_month(y, 12) == rfc3339::days_before_year(y + 1) - rfc3339::days_before_year(y) || y < 1970
        }),
{
    reveal_with_fuel(rfc3339::days_before_month, 14);
}

/// A date lies within its month, and the next day is the next date.
pub proof fn law_dates_follow_each_other(days: nat, y: nat, m: nat, d: nat)
    requires
        rfc3339::is_date(days, y, m, d),
    ensures
        d + 1 < rfc3339::month_days(y, m) ==> rfc3339::is_date(days + 1, y, m, d + 1),
        d + 1 == rfc3339::month_days(y, m) && m < 11 ==> rfc3339::is_date(days + 1, y, m + 1, 0),
        d + 1 == rfc3339::month_days(y, m) && m == 11 ==> rfc3339::is_date(days + 1, y + 1, 0, 0),
        28 <= rfc3339::month_days(y, m) <= 31,
        m < 12 && d < rfc3339::month_days(y, m) && y >= 1970,
{
    if m == 11 {
        law_days_before_each_month(y);
    }
}

/// The first day is that of the year 1970.
pub proof fn law_first_date(days: nat, y: nat, m: nat, d: nat)
    requires
        rfc3339::is_date(days, y, m, d),
    ensures
        days == 0 <==> y == 1970 && m == 0 && d == 0,
{
    law_days_before_each_year(y);
    if y > 1970 {
        law_days_before_each_month(1970);
    }
    if m > 0 {
        law_days_before_each_month(y);
    }
}

/// A backup runs when its interval has passed since the newest one, and at
/// least a minute from now.
pub proof fn law_when_a_backup_runs(newest: Option<u128>, now: u128, interval: u128)
    ensures
        newest is None ==> backup::run_delay(newest, now, interval) == 60_000_000_000,
        newest matches Some(t) ==> (t <= now && interval - (now - t) > 60_000_000_000 ==> backup::run_delay(
            newest,
            now,
            interval,
        ) == interval - (now - t)),
        newest matches Some(t) ==> (t <= now && interval - (now - t) <= 60_000_000_000 ==> backup::run_delay(
            newest,
            now,
            interval,
        ) == 60_000_000_000),
        newest matches Some(t) ==> (t > now && interval > 60_000_000_000 ==> backup::run_delay(
            newest,
            now,
            interval,
        ) == interval),
{
}

// ── What is tracked ─────────────────────────────────────────────────────

/// A parameter that stands nowhere has no value.
pub proof fn law_absent_parameter(value: Seq<char>, name: Seq<char>)
    requires
        forall|k: int| 0 <= k < value.len() ==> !text::occurs_at(text::lower(value), name + "="@, k),
    ensures
        invite_tx::param_value(value, name) is None,
{
    assert(text::lower(value).len() == value.len());
    text::lemma_find_str_is(text::lower(value), name + "="@, 0, value.len() as int);
}

/// The method of a request is the first word of its first line, in capitals;
/// what does not end in the version is no request, nor is a response.
pub proof fn law_method_of_a_request(method: Seq<char>, rest: Seq<char>, raw: Seq<char>)
    requires
        method.len() > 0,
        forall|i: int| 0 <= i < method.len() ==> !text::is_space(#[trigger] method[i]),
        client_tx::first_line(raw) == method + seq![' '] + rest,
    ensures
        text::ends_with(client_tx::first_line(raw), "SIP/2.0"@) && !text::starts_with(method, "SIP/"@) ==> client_tx::start_method(raw)
            == Some(client_tx::capitals(method)),
        !text::ends_with(client_tx::first_line(raw), "SIP/2.0"@) || text::starts_with(method, "SIP/"@) ==> client_tx::start_method(raw)
            is None,
{
    text_laws::law_words_of_a_text(method, ' ', rest);
}

/// The first line ends before the first line feed, and without the return
/// before it.
pub proof fn law_first_line_of_a_message(a: Seq<char>, b: Seq<char>)
    requires
        !a.contains('\n'),
        a.len() > 0 ==> a.last() != '\r',
    ensures
        client_tx::first_line(a + seq!['\r', '\n'] + b) == a,
        client_tx::first_line(a + seq!['\n'] + b) == a,
        client_tx::first_line(a) == a,
{
    assert forall|k: int| 0 <= k < a.len() implies a[k] != '\n' by {
        assert(a.contains(a[k]));
    }
    let n = a.len() as int;
    let s = a + seq!['\r', '\n'] + b;
    assert(s[n] == '\r' && s[n + 1] == '\n');
    assert forall|k: int| 0 <= k < n + 1 implies s[k] != '\n' by {
        if k < n {
            assert(s[k] == a[k]);
        }
    }
    text::lemma_find_char_is(s, '\n', 0, n + 1);
    assert(s.take(n + 1).drop_last() =~= a);
    let t = a + seq!['\n'] + b;
    assert(t[n] == '\n');
    assert forall|k: int| 0 <= k < n implies t[k] != '\n' by {
        assert(t[k] == a[k]);
    }
    text::lemma_find_char_is(t, '\n', 0, n);
    assert(t.take(n) =~= a);
    text::lemma_find_char_is(a, '\n', 0, n);
    assert(a.take(n) =~= a);
}

/// A response is kept with the INVITE that it answers, and changes no other;
/// one for an INVITE that is not known changes none.
pub proof fn law_response_is_kept_with_its_invite(
    s: Seq<TxView>,
    key: Seq<char>,
    response: Seq<u8>,
    is_final: bool,
    now: u64,
    i: int,
)
    requires
        0 <= i <= s.len(),
        i < s.len() ==> s[i].key == key,
        forall|j: int| 0 <= j < i ==> (#[trigger] s[j]).key != key,
    ensures
        i < s.len() ==> invite_tx::tx_recorded(s, key, response, is_final, now) == s.update(
            i,
            invite_tx::tx_answered(s[i], response, is_final, now),
        ),
        i == s.len() ==> invite_tx::tx_recorded(s, key, response, is_final, now) == s,
{
    invite_tx::lemma_tx_index_is(s, key, i);
}

} // verus!
