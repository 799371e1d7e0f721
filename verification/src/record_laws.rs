//! What is promised of the records of calls, of the health of trunks, and of
//! the calls that are ended for their age.

use crate::cdr::{CallAge, CallOutcome, CallSnapshot, CallState, MediaCounts};
use crate::cdr;
use crate::identity;
use crate::sip_builder::DialogInfo;
use crate::sip_builder;
use crate::text;
use crate::trunk_state::TrunkStep;
use crate::trunk_state;
use vstd::prelude::*;

verus! {

// ── The health of trunks ────────────────────────────────────────────────

/// Five codes are a trunk's own failure, and no other is.
pub proof fn law_codes_that_strike(status: u16)
    ensures
        trunk_state::strikes_trunk(status) <==> (status == 408 || status == 500 || status == 502 || status == 503
            || status == 504),
{
}

/// What a final does to a trunk: an answer lifts its failures; a failure of
/// its own is a strike, but for a 503 that names a pause, which is kept.
pub proof fn law_step_of_each_final(status: u16, raw: Seq<char>)
    ensures
        trunk_state::final_step(status, raw) == Some(TrunkStep::Up) <==> 200 <= status <= 299,
        trunk_state::final_step(status, raw) == Some(TrunkStep::Strike) <==> status == 408 || status == 500
            || status == 502 || status == 504 || (status == 503 && trunk_state::retry_delay(raw) is None),
        status == 503 && trunk_state::retry_delay(raw) is Some && trunk_state::retry_delay(raw)->0 <= u64::MAX ==> trunk_state::final_step(
            status,
            raw,
        ) == Some(TrunkStep::Park { secs: trunk_state::retry_delay(raw)->0 as u64 }),
        trunk_state::final_step(status, raw) is None <==> !(200 <= status <= 299) && status != 408 && status != 500
            && status != 502 && status != 503 && status != 504,
        trunk_state::failure_of(None) == TrunkStep::Strike,
        forall|n: u64| #[trigger] trunk_state::failure_of(Some(n)) == (TrunkStep::Park { secs: n }),
{
}

proof fn lemma_digits_end(s: Seq<char>, from: int, at: int)
    requires
        0 <= from <= at <= s.len(),
        forall|i: int| from <= i < at ==> text::is_digit(#[trigger] s[i]),
        at < s.len() ==> !text::is_digit(s[at]),
    ensures
        trunk_state::digits_end(s, from) == at,
    decreases at - from,
{
    if from < at {
        lemma_digits_end(s, from + 1, at);
    }
}

/// A pause is the number at the head of its value, whatever follows, where it
/// is from one second to one hour; any other is no pause.
pub proof fn law_pause_of_a_trunk(n: nat, rest: Seq<char>)
    requires
        n <= u64::MAX,
        rest.len() > 0 ==> !('0' <= rest[0] <= '9'),
    ensures
        trunk_state::sane_delay(text::decimal(n) + rest) == (if 1 <= n <= 3600 {
            Some(n)
        } else {
            None
        }),
        trunk_state::sane_delay(rest) is None,
{
    let d = text::decimal(n);
    let v = d + rest;
    text::lemma_decimal_digits(n);
    assert forall|i: int| 0 <= i < d.len() implies text::is_digit(#[trigger] v[i]) by {
        assert(v[i] == d[i]);
    }
    lemma_digits_end(v, 0, d.len() as int);
    assert(v.take(d.len() as int) =~= d);
    text::law_decimal_reads_back(n, u64::MAX as nat);
    lemma_digits_end(rest, 0, 0);
    assert(rest.take(0) =~= Seq::empty());
}

/// The counters of a trunk label a finished call: an answered one so, one
/// that its caller gave up as cancelled, one without an answer as timed out,
/// one that the callee refused as rejected, and every other as failed.
pub proof fn law_labels_of_calls(o: CallOutcome)
    ensures
        trunk_state::outcome_label(o, true) == "answered"@,
        o is Cancelled ==> trunk_state::outcome_label(o, false) == "cancelled"@,
        o is SetupTimeout ==> trunk_state::outcome_label(o, false) == "timeout"@,
        o matches CallOutcome::Rejected { code } ==> trunk_state::outcome_label(o, false) == (if code == 408
            || code == 500 || code == 502 || code == 503 || code == 504 {
            "failed"@
        } else {
            "rejected"@
        }),
        !(o is Cancelled) && !(o is SetupTimeout) && !(o is Rejected) ==> trunk_state::outcome_label(o, false)
            == "failed"@,
{
}

/// The trunk of a call that comes in is not the one that it goes out by, and
/// a trunk is silent only where nothing came of it.
pub proof fn law_trunk_of_a_call(direction: Seq<char>, trunk: Option<Seq<char>>, responded: bool)
    ensures
        direction == "inbound"@ ==> trunk_state::outbound_trunk(direction, trunk) is None,
        direction != "inbound"@ ==> trunk_state::outbound_trunk(direction, trunk) == trunk,
        trunk_state::silent_trunk(direction, trunk, responded) is Some <==> !responded && direction != "inbound"@
            && trunk is Some,
        trunk_state::silent_trunk(direction, trunk, responded) is Some ==> trunk_state::silent_trunk(
            direction,
            trunk,
            responded,
        ) == trunk,
{
}

/// That a trunk is out is told once, when it goes out, with what it is then.
pub proof fn law_outage_is_told_once(before: Option<bool>, now: Option<(Seq<char>, u32)>)
    ensures
        trunk_state::failure_news(before, now) is Some <==> before == Some(false) && now is Some,
        trunk_state::failure_news(before, now) is Some ==> trunk_state::failure_news(before, now) == now,
{
}

/// The calls on a trunk are those that are counted on it.
pub proof fn law_calls_on_a_trunk(s: Seq<CallSnapshot>, name: Seq<char>)
    ensures
        trunk_state::calls_on(s, name) == s.filter(
            |c: CallSnapshot| text::opt_string(c.trunk_counted) == Some(name),
        ).len(),
    decreases s.len(),
{
    reveal(Seq::filter);
    if s.len() > 0 {
        law_calls_on_a_trunk(s.drop_last(), name);
    }
}

// ── The end of a call ───────────────────────────────────────────────────

/// The word of each way to end, in the records.
pub proof fn law_word_of_each_end(o: CallOutcome)
    ensures
        o is NormalClearing ==> cdr::disconnect_word(o) == "normal-clearing"@,
        o is Cancelled ==> cdr::disconnect_word(o) == "cancelled"@,
        o matches CallOutcome::Rejected { code } ==> cdr::disconnect_word(o) == "rejected-"@ + text::decimal(
            code as nat,
        ),
        o matches CallOutcome::Refused { code } ==> cdr::disconnect_word(o) == "rejected-"@ + text::decimal(
            code as nat,
        ),
        o is MaxDuration ==> cdr::disconnect_word(o) == "timeout"@,
        o is Shutdown ==> cdr::disconnect_word(o) == "shutdown"@,
        o is WsClosed ==> cdr::disconnect_word(o) == "ws-closed"@,
        o is AdminKick ==> cdr::disconnect_word(o) == "admin-kick"@,
        o is DialogLost ==> cdr::disconnect_word(o) == "dialog-lost"@,
        o is RtpTimeout ==> cdr::disconnect_word(o) == "rtp-timeout"@,
        o is SetupTimeout ==> cdr::disconnect_word(o) == "setup-timeout"@,
        o is MediaUnavailable ==> cdr::disconnect_word(o) == "media-unavailable"@,
{
}

/// The code that the caller of a call without an answer saw is the one that
/// it was refused with, or the one of what ended the call here; a call that
/// its caller gave up shows 487.
pub proof fn law_code_of_an_unanswered_call(o: CallOutcome)
    ensures
        cdr::final_code(o, true) == Some(200u16),
        o matches CallOutcome::Rejected { code } ==> cdr::final_code(o, false) == Some(code),
        o matches CallOutcome::Refused { code } ==> cdr::final_code(o, false) == Some(code),
        o is Cancelled ==> cdr::final_code(o, false) == Some(487u16),
        o is SetupTimeout ==> cdr::final_code(o, false) == Some(408u16),
        o is Shutdown || o is MediaUnavailable ==> cdr::final_code(o, false) == Some(503u16),
        o is MaxDuration || o is AdminKick ==> cdr::final_code(o, false) == Some(480u16),
        o == (CallOutcome::WsClosed { callee_died: true }) ==> cdr::final_code(o, false) == Some(480u16),
        cdr::final_code(o, false) is None <==> o is NormalClearing || o is DialogLost || o is RtpTimeout
            || o == (CallOutcome::WsClosed { callee_died: false }),
        cdr::pending_code(o) == 408 <==> o is SetupTimeout,
        cdr::pending_code(o) == 503 <==> o is Shutdown || o is MediaUnavailable,
        cdr::pending_code(o) == 408 || cdr::pending_code(o) == 503 || cdr::pending_code(o) == 480,
{
}

/// A peer ends a call by its BYE, its CANCEL or its refusal; everything else
/// is ended here.
pub proof fn law_who_ended_the_call(o: CallOutcome)
    ensures
        cdr::ending_side(o) == "caller"@ <==> o is Cancelled || o == (CallOutcome::NormalClearing {
            by_caller: true,
        }),
        cdr::ending_side(o) == "callee"@ <==> o is Rejected || o == (CallOutcome::NormalClearing {
            by_caller: false,
        }),
        cdr::ending_side(o) == "sbc"@ <==> !(o is Cancelled) && !(o is Rejected) && !(
        o is NormalClearing),
{
    reveal_strlit("caller");
    reveal_strlit("callee");
    reveal_strlit("sbc");
    assert("caller"@[5] == 'r' && "callee"@[5] == 'e');
    assert("sbc"@.len() == 3 && "caller"@.len() == 6 && "callee"@.len() == 6);
}

/// What this side says of the end of a call that it ends, and that it says
/// nothing of one that a peer or its refusal ends.
pub proof fn law_reason_of_each_end(o: CallOutcome)
    ensures
        cdr::reason_text(o) is None <==> o is NormalClearing || o is Cancelled || o is Rejected
            || o is Refused,
        o is MaxDuration ==> cdr::reason_text(o) == Some("Q.850;cause=16;text=\"Call duration exceeded\""@),
        o is Shutdown ==> cdr::reason_text(o) == Some("Q.850;cause=16;text=\"Server shutdown\""@),
        o is WsClosed ==> cdr::reason_text(o) == Some("SIP;cause=200;text=\"ws-closed\""@),
        o is AdminKick ==> cdr::reason_text(o) == Some("SIP;cause=200;text=\"Administrative teardown\""@),
        o is RtpTimeout ==> cdr::reason_text(o) == Some("Q.850;cause=16;text=\"RTP timeout\""@),
        o is SetupTimeout ==> cdr::reason_text(o) == Some("SIP;cause=408;text=\"No answer\""@),
        o is MediaUnavailable ==> cdr::reason_text(o) == Some(
            "Q.850;cause=47;text=\"No media resource available\""@,
        ),
        o matches CallOutcome::DialogLost { status } ==> cdr::reason_text(o) == Some(
            "SIP;cause="@ + text::decimal(status as nat) + ";text=\"Dialog lost\""@,
        ),
{
}

/// A record is of the call: its ids, numbers, trunk, direction, codec, times
/// and packets are the call's own, its end that of the outcome, and what the
/// peer said of the end comes before what this side says.
pub proof fn law_record_is_of_the_call(c: CallSnapshot, o: CallOutcome, ended: u64)
    ensures
        ({
            let r = cdr::cdr_of(c, o, ended);
            &&& r.uuid == c.uuid@ && r.call_id == c.call_id@
            &&& c.caller_number matches Some(n) ==> r.caller == n@
            &&& c.caller_number is None ==> r.caller == c.call_id@
            &&& c.callee_number matches Some(n) ==> r.callee == n@
            &&& c.callee_number is None && c.outbound_call_id is Some ==> Some(r.callee)
                == text::opt_string(c.outbound_call_id)
            &&& c.callee_number is None && c.outbound_call_id is None ==> r.callee.len() == 0
            &&& r.started == c.started_wall && r.answered == c.answered_at && r.ended == ended
            &&& r.is_webrtc == c.is_webrtc && r.codec == text::opt_string(c.codec)
            &&& r.trunk_id == text::opt_string(c.trunk_name) && r.direction == c.direction@
            &&& r.source_ip == c.source_ip@
            &&& r.disconnect_reason == cdr::disconnect_word(o) && r.hangup_by == cdr::ending_side(o)
            &&& r.sip_code == cdr::final_code(o, c.answered_at is Some)
            &&& c.peer_reason is Some ==> r.reason == text::opt_string(c.peer_reason)
            &&& c.peer_reason is None ==> r.reason == cdr::reason_text(o)
            &&& c.media matches Some(m) ==> r.rtp_tx_caller == m.tx_caller && r.rtp_tx_callee
                == m.tx_callee
            &&& c.media is None ==> r.rtp_tx_caller == 0 && r.rtp_tx_callee == 0
            &&& r.media_flags == cdr::media_words(c.media)
        }),
{
}

/// What the end of a call leaves: the trunk that it was counted on is
/// released, and the trunk that it is recorded on counts it.
pub proof fn law_end_releases_the_trunk(c: CallSnapshot, o: CallOutcome, ended: u64)
    ensures
        cdr::ended_of(c, o, ended).record == cdr::cdr_of(c, o, ended),
        cdr::ended_of(c, o, ended).left == text::opt_string(c.trunk_counted),
        c.trunk_name is None ==> cdr::ended_of(c, o, ended).label is None,
        c.trunk_name is Some && c.answered_at is Some ==> cdr::ended_of(c, o, ended).label == Some(
            "answered"@,
        ),
        c.trunk_name is Some ==> cdr::ended_of(c, o, ended).label == Some(
            trunk_state::outcome_label(o, c.answered_at is Some),
        ),
{
}

/// What a record says of the media: nothing was relayed, nothing was sent,
/// or which side was never heard; nothing is said of a call that both sides
/// were heard in.
pub proof fn law_media_of_a_record(m: MediaCounts)
    ensures
        cdr::media_words(None) == "no-relay"@,
        m.tx_caller == 0 && m.tx_callee == 0 ==> cdr::media_words(Some(m)) == "no-media"@,
        (m.tx_caller > 0 || m.tx_callee > 0) && m.rx_caller > 0 && m.rx_callee > 0 ==> cdr::media_words(
            Some(m),
        ).len() == 0,
        (m.tx_caller > 0 || m.tx_callee > 0) && m.rx_caller == 0 && m.rx_callee > 0 ==> cdr::media_words(
            Some(m),
        ) == "one-way-caller"@,
        (m.tx_caller > 0 || m.tx_callee > 0) && m.rx_caller > 0 && m.rx_callee == 0 ==> cdr::media_words(
            Some(m),
        ) == "one-way-callee"@,
        (m.tx_caller > 0 || m.tx_callee > 0) && m.rx_caller == 0 && m.rx_callee == 0 ==> cdr::media_words(
            Some(m),
        ) == "one-way-caller,one-way-callee"@,
{
}

// ── Teardown ────────────────────────────────────────────────────────────

/// A leg with a dialog is ended by a BYE within it; a caller that still waits
/// gets the final of its INVITE; a callee that has not answered gets a CANCEL
/// of the INVITE that it was sent; and nothing is sent where there is nothing
/// to end.
pub proof fn law_each_leg_is_ended(
    dialog: Option<DialogInfo>,
    pending: Option<Seq<char>>,
    reason: Option<Seq<char>>,
    branch: Seq<char>,
    bye: Option<Seq<char>>,
    invite: Option<Seq<char>>,
)
    ensures
        dialog matches Some(d) ==> cdr::caller_hangup(dialog, pending, reason, branch) == Some(
            (
                true,
                sip_builder::request_text(
                    "BYE"@,
                    d,
                    d.cseq as nat,
                    branch,
                    sip_builder::reason_extras(reason),
                    Seq::empty(),
                ),
            ),
        ),
        dialog is None && pending is Some ==> cdr::caller_hangup(dialog, pending, reason, branch) == Some(
            (false, pending->0),
        ),
        dialog is None && pending is None ==> cdr::caller_hangup(dialog, pending, reason, branch) is None,
        bye is Some ==> cdr::callee_hangup(bye, invite) == Some((true, bye->0)),
        bye is None && invite is Some && sip_builder::invite_identity(invite->0) is Some ==> cdr::callee_hangup(
            bye,
            invite,
        ) == Some((false, sip_builder::cancel_text(sip_builder::invite_identity(invite->0)->0))),
        bye is None && (invite is None || sip_builder::invite_identity(invite->0) is None) ==> cdr::callee_hangup(
            bye,
            invite,
        ) is None,
{
}

/// After the teardowns that the management asked for, none of the calls it
/// named is in progress, and every other call is as before.
pub proof fn law_kicked_calls_are_gone(s: Seq<CallSnapshot>, uuids: Seq<Seq<char>>, n: nat)
    requires
        cdr::calls_ok(s),
        n <= uuids.len(),
    ensures
        cdr::calls_ok(cdr::calls_after(s, uuids, n)),
        forall|i: int| 0 <= i < n ==> !cdr::in_progress(cdr::calls_after(s, uuids, n), #[trigger] uuids[i]),
        forall|u: Seq<char>|
            (forall|i: int| 0 <= i < n ==> u != #[trigger] uuids[i]) ==> #[trigger] cdr::in_progress(
                cdr::calls_after(s, uuids, n),
                u,
            ) == cdr::in_progress(s, u),
    decreases n,
{
    if n > 0 {
        let m = (n - 1) as nat;
        let before = cdr::calls_after(s, uuids, m);
        let after = cdr::calls_after(s, uuids, n);
        law_kicked_calls_are_gone(s, uuids, m);
        cdr::lemma_call_index(before, uuids[n - 1]);
        assert(cdr::calls_ok(after)) by {
            let at = cdr::call_index(before, uuids[n - 1]);
            assert forall|i: int, j: int| 0 <= i < j < after.len() implies (#[trigger] after[i]).uuid@
                != (#[trigger] after[j]).uuid@ by {
                if cdr::in_progress(before, uuids[n - 1]) {
                    let a = if i < at {
                        i
                    } else {
                        i + 1
                    };
                    let b = if j < at {
                        j
                    } else {
                        j + 1
                    };
                    assert(after[i] == before[a] && after[j] == before[b]);
                    assert(before[a].uuid@ != before[b].uuid@);
                }
            }
        }
        assert forall|i: int| 0 <= i < n implies !cdr::in_progress(after, #[trigger] uuids[i]) by {
            cdr::law_call_ends_once(before, uuids[n - 1], uuids[i]);
        }
        assert forall|u: Seq<char>|
            (forall|i: int| 0 <= i < n ==> u != #[trigger] uuids[i]) implies #[trigger] cdr::in_progress(
            after,
            u,
        ) == cdr::in_progress(s, u) by {
            cdr::law_call_ends_once(before, uuids[n - 1], u);
            assert(u != uuids[n - 1]);
            assert forall|i: int| 0 <= i < m implies u != #[trigger] uuids[i] by {}
            assert(cdr::in_progress(before, u) == cdr::in_progress(s, u));
        }
    }
}

/// Every teardown that the management asked for is recorded as such, one
/// record for each call that was in progress.
pub proof fn law_kicks_are_recorded(s: Seq<CallSnapshot>, uuids: Seq<Seq<char>>, ended: u64, n: nat)
    requires
        n <= uuids.len(),
    ensures
        cdr::kicked_records(s, uuids, ended, n).len() + cdr::calls_after(s, uuids, n).len() == s.len(),
        forall|k: int|
            0 <= k < cdr::kicked_records(s, uuids, ended, n).len() ==> (#[trigger] cdr::kicked_records(
                s,
                uuids,
                ended,
                n,
            )[k]).record.disconnect_reason == "admin-kick"@ && cdr::kicked_records(
                s,
                uuids,
                ended,
                n,
            )[k].record.ended == ended,
    decreases n,
{
    if n > 0 {
        let m = (n - 1) as nat;
        law_kicks_are_recorded(s, uuids, ended, m);
        cdr::lemma_call_index(cdr::calls_after(s, uuids, m), uuids[n - 1]);
    }
}

// ── Age ─────────────────────────────────────────────────────────────────

/// An unanswered call is given up once its setup has taken longer than the
/// limit, or its callee has rung for more than three minutes; an answered
/// call never is.
pub proof fn law_when_setup_is_given_up(c: CallAge, limit: u64, now: u64)
    ensures
        cdr::setup_expired(c, limit, now) ==> !c.answered && (c.state == CallState::Initiated || c.state
            == CallState::Proceeding || c.state == CallState::Ringing),
        !c.answered && c.state == CallState::Ringing && c.alerting_at is Some ==> (cdr::setup_expired(
            c,
            limit,
            now,
        ) <==> now > c.alerting_at->0 + 180_000),
        !c.answered && (c.state == CallState::Initiated || c.state == CallState::Proceeding
            || c.state == CallState::Ringing) && c.alerting_at is None ==> (cdr::setup_expired(
            c,
            limit,
            now,
        ) <==> now > c.started_at + limit),
        !c.answered && (c.state == CallState::Initiated || c.state == CallState::Proceeding)
            && c.alerting_at is Some ==> (cdr::setup_expired(c, limit, now) <==> now > c.alerting_at->0
            + 180_000),
{
}

/// The calls that are given up are exactly those, in their order, each with
/// the trunk that gave no answer at all.
pub proof fn law_calls_given_up(s: Seq<CallAge>, limit: u64, now: u64)
    ensures
        cdr::setup_expired_list(s, limit, now) == s.filter(
            |c: CallAge| cdr::setup_expired(c, limit, now),
        ).map_values(
            |c: CallAge|
                (
                    c.uuid@,
                    if c.callee_responded || c.direction@ == "inbound"@ {
                        None
                    } else {
                        text::opt_string(c.trunk_name)
                    },
                ),
        ),
    decreases s.len(),
{
    reveal(Seq::filter);
    let keep = |c: CallAge| cdr::setup_expired(c, limit, now);
    let tell = |c: CallAge|
        (
            c.uuid@,
            if c.callee_responded || c.direction@ == "inbound"@ {
                None
            } else {
                text::opt_string(c.trunk_name)
            },
        );
    if s.len() > 0 {
        law_calls_given_up(s.drop_last(), limit, now);
        assert(cdr::setup_expired_list(s, limit, now) =~= s.filter(keep).map_values(tell));
    } else {
        assert(cdr::setup_expired_list(s, limit, now) =~= s.filter(keep).map_values(tell));
    }
}

/// The calls that have gone on for longer than allowed are exactly those, in
/// their order; without a limit there is none.
pub proof fn law_calls_of_too_long(s: Seq<CallAge>, limit: Option<u64>, now: u64)
    ensures
        cdr::duration_expired_list(s, limit, now) == s.filter(
            |c: CallAge| limit is Some && now > c.started_at + limit->0,
        ).map_values(|c: CallAge| c.uuid@),
        limit is None ==> cdr::duration_expired_list(s, limit, now).len() == 0,
    decreases s.len(),
{
    reveal(Seq::filter);
    let keep = |c: CallAge| limit is Some && now > c.started_at + limit->0;
    let tell = |c: CallAge| c.uuid@;
    if s.len() > 0 {
        law_calls_of_too_long(s.drop_last(), limit, now);
    }
    assert(cdr::duration_expired_list(s, limit, now) =~= s.filter(keep).map_values(tell));
}

/// The call of a media session that fell silent is the first that has it.
pub proof fn law_call_of_a_silent_session(s: Seq<CallAge>, session: Seq<char>)
    ensures
        match cdr::media_call(s, session) {
            Some(u) => exists|i: int|
                0 <= i < s.len() && (#[trigger] s[i]).uuid@ == u && text::opt_string(s[i].media_session_id)
                    == Some(session) && forall|j: int|
                    0 <= j < i ==> text::opt_string((#[trigger] s[j]).media_session_id) != Some(session),
            None => forall|j: int|
                0 <= j < s.len() ==> text::opt_string((#[trigger] s[j]).media_session_id) != Some(session),
        },
    decreases s.len(),
{
    if s.len() > 0 {
        if text::opt_string(s[0].media_session_id) == Some(session) {
            assert(s[0].uuid@ == cdr::media_call(s, session)->0);
        } else {
            let t = s.skip(1);
            law_call_of_a_silent_session(t, session);
            if let Some(u) = cdr::media_call(t, session) {
                let i = choose|i: int|
                    0 <= i < t.len() && (#[trigger] t[i]).uuid@ == u && text::opt_string(
                        t[i].media_session_id,
                    ) == Some(session) && forall|j: int|
                        0 <= j < i ==> text::opt_string((#[trigger] t[j]).media_session_id) != Some(
                            session,
                        );
                assert(s[i + 1] == t[i]);
                assert forall|j: int| 0 <= j < i + 1 implies text::opt_string(
                    (#[trigger] s[j]).media_session_id,
                ) != Some(session) by {
                    if j > 0 {
                        assert(s[j] == t[j - 1]);
                    }
                }
            } else {
                assert forall|j: int| 0 <= j < s.len() implies text::opt_string(
                    (#[trigger] s[j]).media_session_id,
                ) != Some(session) by {
                    if j > 0 {
                        assert(s[j] == t[j - 1]);
                    }
                }
            }
        }
    }
}

/// Every silent session that is some call's ends that call, in the order of
/// the sessions; the others end none.
pub proof fn law_silent_sessions_end_their_calls(s: Seq<CallAge>, sessions: Seq<Seq<char>>)
    ensures
        cdr::media_calls(s, sessions) == sessions.filter(
            |x: Seq<char>| cdr::media_call(s, x) is Some,
        ).map_values(|x: Seq<char>| cdr::media_call(s, x)->0),
    decreases sessions.len(),
{
    reveal(Seq::filter);
    let keep = |x: Seq<char>| cdr::media_call(s, x) is Some;
    let tell = |x: Seq<char>| cdr::media_call(s, x)->0;
    if sessions.len() > 0 {
        law_silent_sessions_end_their_calls(s, sessions.drop_last());
    }
    assert(cdr::media_calls(s, sessions) =~= sessions.filter(keep).map_values(tell));
}

// ── Addresses of trunks ─────────────────────────────────────────────────

pub proof fn lemma_find_last_is(s: Seq<char>, c: char, end: int, at: int)
    requires
        0 <= at < end <= s.len(),
        s[at] == c,
        forall|k: int| at < k < end ==> s[k] != c,
    ensures
        identity::find_last(s, c, end) == at,
    decreases end,
{
    if at < end - 1 {
        lemma_find_last_is(s, c, end - 1, at);
    }
}

proof fn lemma_find_last(s: Seq<char>, c: char, end: int)
    requires
        0 <= end <= s.len(),
    ensures
        -1 <= identity::find_last(s, c, end) < end,
        identity::find_last(s, c, end) >= 0 ==> s[identity::find_last(s, c, end)] == c,
        forall|k: int| identity::find_last(s, c, end) < k < end ==> s[k] != c,
    decreases end,
{
    if end > 0 && s[end - 1] != c {
        lemma_find_last(s, c, end - 1);
    }
}

/// Two addresses that differ in their last number alone are near each other,
/// an address is near itself, and one whose other numbers differ is not.
pub proof fn law_near_a_trunk(a: Seq<char>, b: Seq<char>, x: Seq<char>, y: Seq<char>)
    requires
        !x.contains('.'),
        !y.contains('.'),
    ensures
        cdr::near_trunk(a, a),
        cdr::near_trunk(a.push('.') + x, b.push('.') + y) <==> a == b,
        x != y ==> !cdr::near_trunk(x, y),
{
    let s = a.push('.') + x;
    let t = b.push('.') + y;
    assert forall|k: int| a.len() < k < s.len() implies s[k] != '.' by {
        assert(s[k] == x[k - a.len() - 1]);
        assert(x.contains(x[k - a.len() - 1]));
    }
    assert forall|k: int| b.len() < k < t.len() implies t[k] != '.' by {
        assert(t[k] == y[k - b.len() - 1]);
        assert(y.contains(y[k - b.len() - 1]));
    }
    assert(s[a.len() as int] == '.' && t[b.len() as int] == '.');
    lemma_find_last_is(s, '.', s.len() as int, a.len() as int);
    lemma_find_last_is(t, '.', t.len() as int, b.len() as int);
    assert(s.take(a.len() as int) =~= a);
    assert(t.take(b.len() as int) =~= b);
    lemma_find_last(x, '.', x.len() as int);
    if identity::find_last(x, '.', x.len() as int) >= 0 {
        assert(x.contains(x[identity::find_last(x, '.', x.len() as int)]));
    }
}

} // verus!
