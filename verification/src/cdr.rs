//! How calls end: the outcome and what follows from it, the record that is
//! written for billing, the messages of a teardown, and which calls have
//! outlived a limit. Times are milliseconds.

use crate::identity::{AdminKicks, last_position_of, text_or_empty};
use crate::identity;
use crate::sip_builder::{DialogInfo, build_bye_with, build_cancel, new_branch};
use crate::sip_builder;
use crate::text::{chars_of, clone_opt, decimal_of, same, same_str};
use crate::text;
use crate::trunk_state::{TrunkCount, silent_outbound_trunk_of, trunk_outcome_label};
use crate::trunk_state;
use vstd::prelude::*;
use vstd::slice::slice_subrange;

verus! {

/// How long an alerting callee may ring (RFC 3261 section 16.6, Timer C).
pub const TIMER_C: u64 = 180_000;

/// Why a call ended.
#[derive(Debug, Clone, Copy, PartialEq, Eq, Structural)]
pub enum CallOutcome {
    /// BYE from a peer (`by_caller`: the inbound leg hung up).
    NormalClearing { by_caller: bool },
    /// CANCEL from the caller before the answer.
    Cancelled,
    /// A final error relayed from the callee.
    Rejected { code: u16 },
    /// A final error generated here (no route, unknown number, blocked
    /// destination, unreachable contact).
    Refused { code: u16 },
    /// The longest allowed duration was reached.
    MaxDuration,
    /// The process is ending.
    Shutdown,
    /// The connection of one leg closed (`callee_died`: the callee's; a
    /// caller without an answer then got a 480).
    WsClosed { callee_died: bool },
    /// Administrative teardown.
    AdminKick,
    /// The callee no longer has the dialog (481 or 408 to a refresh).
    DialogLost { status: u16 },
    /// No RTP for too long.
    RtpTimeout,
    /// No answer in time.
    SetupTimeout,
    /// The media could not be anchored.
    MediaUnavailable,
}

/// The word for an outcome in call records.
pub open spec fn disconnect_word(o: CallOutcome) -> Seq<char> {
    match o {
        CallOutcome::NormalClearing { .. } => "normal-clearing"@,
        CallOutcome::Cancelled => "cancelled"@,
        CallOutcome::Rejected { code } => "rejected-"@ + text::decimal(code as nat),
        CallOutcome::Refused { code } => "rejected-"@ + text::decimal(code as nat),
        CallOutcome::MaxDuration => "timeout"@,
        CallOutcome::Shutdown => "shutdown"@,
        CallOutcome::WsClosed { .. } => "ws-closed"@,
        CallOutcome::AdminKick => "admin-kick"@,
        CallOutcome::DialogLost { .. } => "dialog-lost"@,
        CallOutcome::RtpTimeout => "rtp-timeout"@,
        CallOutcome::SetupTimeout => "setup-timeout"@,
        CallOutcome::MediaUnavailable => "media-unavailable"@,
    }
}

/// The final status that the caller's INVITE got; None where none was sent.
pub open spec fn final_code(o: CallOutcome, answered: bool) -> Option<u16> {
    if answered {
        Some(200)
    } else {
        match o {
            CallOutcome::Cancelled => Some(487),
            CallOutcome::Rejected { code } => Some(code),
            CallOutcome::Refused { code } => Some(code),
            CallOutcome::SetupTimeout => Some(408),
            CallOutcome::Shutdown => Some(503),
            CallOutcome::MediaUnavailable => Some(503),
            CallOutcome::MaxDuration => Some(480),
            CallOutcome::AdminKick => Some(480),
            CallOutcome::WsClosed { callee_died } => if callee_died {
                Some(480)
            } else {
                None
            },
            CallOutcome::NormalClearing { .. } => None,
            CallOutcome::DialogLost { .. } => None,
            CallOutcome::RtpTimeout => None,
        }
    }
}

/// The Reason header of the BYE or CANCEL that is sent for an outcome.
pub open spec fn reason_text(o: CallOutcome) -> Option<Seq<char>> {
    match o {
        CallOutcome::MaxDuration => Some("Q.850;cause=16;text=\"Call duration exceeded\""@),
        CallOutcome::Shutdown => Some("Q.850;cause=16;text=\"Server shutdown\""@),
        CallOutcome::WsClosed { .. } => Some("SIP;cause=200;text=\"ws-closed\""@),
        CallOutcome::AdminKick => Some("SIP;cause=200;text=\"Administrative teardown\""@),
        CallOutcome::RtpTimeout => Some("Q.850;cause=16;text=\"RTP timeout\""@),
        CallOutcome::SetupTimeout => Some("SIP;cause=408;text=\"No answer\""@),
        CallOutcome::MediaUnavailable => Some(
            "Q.850;cause=47;text=\"No media resource available\""@,
        ),
        CallOutcome::DialogLost { status } => Some(
            "SIP;cause="@ + text::decimal(status as nat) + ";text=\"Dialog lost\""@,
        ),
        CallOutcome::NormalClearing { .. } => None,
        CallOutcome::Cancelled => None,
        CallOutcome::Rejected { .. } => None,
        CallOutcome::Refused { .. } => None,
    }
}

/// Which side ended the call.
pub open spec fn ending_side(o: CallOutcome) -> Seq<char> {
    match o {
        CallOutcome::NormalClearing { by_caller } => if by_caller {
            "caller"@
        } else {
            "callee"@
        },
        CallOutcome::Cancelled => "caller"@,
        CallOutcome::Rejected { .. } => "callee"@,
        _ => "sbc"@,
    }
}

/// The final for a caller without an answer when the call is ended here.
pub open spec fn pending_code(o: CallOutcome) -> u16 {
    match o {
        CallOutcome::SetupTimeout => 408,
        CallOutcome::Shutdown => 503,
        CallOutcome::MediaUnavailable => 503,
        _ => 480,
    }
}

impl CallOutcome {
    /// The word for this outcome in call records.
    pub fn disconnect_reason(&self) -> (r: String)
        ensures
            r@ == disconnect_word(*self),
    {
        match self {
            CallOutcome::NormalClearing { .. } => "normal-clearing".to_string(),
            CallOutcome::Cancelled => "cancelled".to_string(),
            CallOutcome::Rejected { code } => rejected_word(*code),
            CallOutcome::Refused { code } => rejected_word(*code),
            CallOutcome::MaxDuration => "timeout".to_string(),
            CallOutcome::Shutdown => "shutdown".to_string(),
            CallOutcome::WsClosed { .. } => "ws-closed".to_string(),
            CallOutcome::AdminKick => "admin-kick".to_string(),
            CallOutcome::DialogLost { .. } => "dialog-lost".to_string(),
            CallOutcome::RtpTimeout => "rtp-timeout".to_string(),
            CallOutcome::SetupTimeout => "setup-timeout".to_string(),
            CallOutcome::MediaUnavailable => "media-unavailable".to_string(),
        }
    }

    /// Final status of the caller's INVITE: 200 once the call was answered,
    /// None where no final was sent.
    pub fn sip_code(&self, answered: bool) -> (r: Option<u16>)
        ensures
            r == final_code(*self, answered),
    {
        if answered {
            return Some(200);
        }
        match self {
            CallOutcome::Cancelled => Some(487),
            CallOutcome::Rejected { code } => Some(*code),
            CallOutcome::Refused { code } => Some(*code),
            CallOutcome::SetupTimeout => Some(408),
            CallOutcome::Shutdown => Some(503),
            CallOutcome::MediaUnavailable => Some(503),
            CallOutcome::MaxDuration => Some(480),
            CallOutcome::AdminKick => Some(480),
            CallOutcome::WsClosed { callee_died } => if *callee_died {
                Some(480)
            } else {
                None
            },
            CallOutcome::NormalClearing { .. } => None,
            CallOutcome::DialogLost { .. } => None,
            CallOutcome::RtpTimeout => None,
        }
    }

    /// Reason header of the BYE or CANCEL that is sent for this outcome.
    pub fn reason_header(&self) -> (r: Option<String>)
        ensures
            text::opt_string(r) == reason_text(*self),
    {
        match self {
            CallOutcome::MaxDuration => Some(
                "Q.850;cause=16;text=\"Call duration exceeded\"".to_string(),
            ),
            CallOutcome::Shutdown => Some("Q.850;cause=16;text=\"Server shutdown\"".to_string()),
            CallOutcome::WsClosed { .. } => Some("SIP;cause=200;text=\"ws-closed\"".to_string()),
            CallOutcome::AdminKick => Some(
                "SIP;cause=200;text=\"Administrative teardown\"".to_string(),
            ),
            CallOutcome::RtpTimeout => Some("Q.850;cause=16;text=\"RTP timeout\"".to_string()),
            CallOutcome::SetupTimeout => Some("SIP;cause=408;text=\"No answer\"".to_string()),
            CallOutcome::MediaUnavailable => Some(
                "Q.850;cause=47;text=\"No media resource available\"".to_string(),
            ),
            CallOutcome::DialogLost { status } => {
                let mut s = "SIP;cause=".to_string();
                s.push_str(decimal_of(*status as u64).as_str());
                s.push_str(";text=\"Dialog lost\"");
                Some(s)
            },
            CallOutcome::NormalClearing { .. } => None,
            CallOutcome::Cancelled => None,
            CallOutcome::Rejected { .. } => None,
            CallOutcome::Refused { .. } => None,
        }
    }

    /// Which side ended the call.
    pub fn hangup_by(&self) -> (r: &'static str)
        ensures
            r@ == ending_side(*self),
    {
        match self {
            CallOutcome::NormalClearing { by_caller } => if *by_caller {
                "caller"
            } else {
                "callee"
            },
            CallOutcome::Cancelled => "caller",
            CallOutcome::Rejected { .. } => "callee",
            _ => "sbc",
        }
    }

    /// Final sent to a caller whose INVITE is still unanswered when the call
    /// is ended here.
    pub fn pending_caller_code(&self) -> (r: u16)
        ensures
            r == pending_code(*self),
    {
        match self {
            CallOutcome::SetupTimeout => 408,
            CallOutcome::Shutdown => 503,
            CallOutcome::MediaUnavailable => 503,
            _ => 480,
        }
    }
}

fn rejected_word(code: u16) -> (r: String)
    ensures
        r@ == "rejected-"@ + text::decimal(code as nat),
{
    let mut s = "rejected-".to_string();
    s.push_str(decimal_of(code as u64).as_str());
    s
}

// ── The record of a call ────────────────────────────────────────────────

/// Packets per leg, as the media plane counted them.
#[derive(Debug, Clone, Copy, PartialEq, Eq, Structural)]
pub struct MediaCounts {
    pub rx_caller: u64,
    pub rx_callee: u64,
    pub tx_caller: u64,
    pub tx_callee: u64,
}

/// What the record needs of a call.
pub struct CallSnapshot {
    pub uuid: String,
    pub call_id: String,
    pub caller_number: Option<String>,
    pub callee_number: Option<String>,
    pub outbound_call_id: Option<String>,
    pub started_wall: u64,
    pub answered_at: Option<u64>,
    pub is_webrtc: bool,
    pub codec: Option<String>,
    pub trunk_name: Option<String>,
    pub direction: String,
    pub source_ip: String,
    pub peer_reason: Option<String>,
    /// The trunk whose counter includes the call.
    pub trunk_counted: Option<String>,
    /// None where no media was relayed.
    pub media: Option<MediaCounts>,
}

/// The record of a finished call.
#[derive(Debug)]
pub struct CdrRecord {
    pub uuid: String,
    pub call_id: String,
    pub caller: String,
    pub callee: String,
    pub started: u64,
    pub answered: Option<u64>,
    pub ended: u64,
    pub is_webrtc: bool,
    pub disconnect_reason: String,
    pub codec: Option<String>,
    pub trunk_id: Option<String>,
    pub direction: String,
    pub sip_code: Option<u16>,
    pub source_ip: String,
    pub reason: Option<String>,
    pub hangup_by: String,
    pub rtp_tx_caller: u64,
    pub rtp_tx_callee: u64,
    pub media_flags: String,
}

/// A record by its contents.
pub struct CdrView {
    pub uuid: Seq<char>,
    pub call_id: Seq<char>,
    pub caller: Seq<char>,
    pub callee: Seq<char>,
    pub started: u64,
    pub answered: Option<u64>,
    pub ended: u64,
    pub is_webrtc: bool,
    pub disconnect_reason: Seq<char>,
    pub codec: Option<Seq<char>>,
    pub trunk_id: Option<Seq<char>>,
    pub direction: Seq<char>,
    pub sip_code: Option<u16>,
    pub source_ip: Seq<char>,
    pub reason: Option<Seq<char>>,
    pub hangup_by: Seq<char>,
    pub rtp_tx_caller: u64,
    pub rtp_tx_callee: u64,
    pub media_flags: Seq<char>,
}

impl View for CdrRecord {
    type V = CdrView;

    open spec fn view(&self) -> CdrView {
        CdrView {
            uuid: self.uuid@,
            call_id: self.call_id@,
            caller: self.caller@,
            callee: self.callee@,
            started: self.started,
            answered: self.answered,
            ended: self.ended,
            is_webrtc: self.is_webrtc,
            disconnect_reason: self.disconnect_reason@,
            codec: text::opt_string(self.codec),
            trunk_id: text::opt_string(self.trunk_id),
            direction: self.direction@,
            sip_code: self.sip_code,
            source_ip: self.source_ip@,
            reason: text::opt_string(self.reason),
            hangup_by: self.hangup_by@,
            rtp_tx_caller: self.rtp_tx_caller,
            rtp_tx_callee: self.rtp_tx_callee,
            media_flags: self.media_flags@,
        }
    }
}

/// What the media of a call was like: `one-way-<leg>` names a side that
/// never sent.
pub open spec fn media_words(m: Option<MediaCounts>) -> Seq<char> {
    match m {
        None => "no-relay"@,
        Some(c) => if c.tx_caller == 0 && c.tx_callee == 0 {
            "no-media"@
        } else if c.rx_caller == 0 && c.rx_callee == 0 {
            "one-way-caller,one-way-callee"@
        } else if c.rx_caller == 0 {
            "one-way-caller"@
        } else if c.rx_callee == 0 {
            "one-way-callee"@
        } else {
            Seq::empty()
        },
    }
}

pub open spec fn or_else_text(a: Option<Seq<char>>, b: Option<Seq<char>>) -> Option<Seq<char>> {
    match a {
        Some(x) => Some(x),
        None => b,
    }
}

/// The record of a call that ends.
pub open spec fn cdr_of(c: CallSnapshot, o: CallOutcome, ended: u64) -> CdrView {
    CdrView {
        uuid: c.uuid@,
        call_id: c.call_id@,
        caller: match c.caller_number {
            Some(n) => n@,
            None => c.call_id@,
        },
        callee: match c.callee_number {
            Some(n) => n@,
            None => identity::or_empty(text::opt_string(c.outbound_call_id)),
        },
        started: c.started_wall,
        answered: c.answered_at,
        ended,
        is_webrtc: c.is_webrtc,
        disconnect_reason: disconnect_word(o),
        codec: text::opt_string(c.codec),
        trunk_id: text::opt_string(c.trunk_name),
        direction: c.direction@,
        sip_code: final_code(o, c.answered_at is Some),
        source_ip: c.source_ip@,
        reason: or_else_text(text::opt_string(c.peer_reason), reason_text(o)),
        hangup_by: ending_side(o),
        rtp_tx_caller: match c.media {
            Some(m) => m.tx_caller,
            None => 0,
        },
        rtp_tx_callee: match c.media {
            Some(m) => m.tx_callee,
            None => 0,
        },
        media_flags: media_words(c.media),
    }
}

/// What the media of a call was like, in words.
pub fn media_flags(media: Option<MediaCounts>) -> (r: String)
    ensures
        r@ == media_words(media),
{
    match media {
        None => "no-relay".to_string(),
        Some(c) => if c.tx_caller == 0 && c.tx_callee == 0 {
            "no-media".to_string()
        } else if c.rx_caller == 0 && c.rx_callee == 0 {
            "one-way-caller,one-way-callee".to_string()
        } else if c.rx_caller == 0 {
            "one-way-caller".to_string()
        } else if c.rx_callee == 0 {
            "one-way-callee".to_string()
        } else {
            String::new()
        },
    }
}

/// The record of a call that ends at `ended`.
pub fn call_record(c: CallSnapshot, outcome: CallOutcome, ended: u64) -> (r: CdrRecord)
    ensures
        r@ == cdr_of(c, outcome, ended),
{
    let answered = c.answered_at.is_some();
    let rtp_tx_caller: u64 = match c.media {
        Some(m) => m.tx_caller,
        None => 0,
    };
    let rtp_tx_callee: u64 = match c.media {
        Some(m) => m.tx_callee,
        None => 0,
    };
    let caller = match c.caller_number {
        Some(n) => n,
        None => c.call_id.clone(),
    };
    let callee = match c.callee_number {
        Some(n) => n,
        None => text_or_empty(c.outbound_call_id),
    };
    let reason = match c.peer_reason {
        Some(p) => Some(p),
        None => outcome.reason_header(),
    };
    CdrRecord {
        uuid: c.uuid,
        call_id: c.call_id,
        caller,
        callee,
        started: c.started_wall,
        answered: c.answered_at,
        ended,
        is_webrtc: c.is_webrtc,
        disconnect_reason: outcome.disconnect_reason(),
        codec: c.codec,
        trunk_id: c.trunk_name,
        direction: c.direction,
        sip_code: outcome.sip_code(answered),
        source_ip: c.source_ip,
        reason,
        hangup_by: outcome.hangup_by().to_string(),
        rtp_tx_caller,
        rtp_tx_callee,
        media_flags: media_flags(c.media),
    }
}

// ── The calls in progress ───────────────────────────────────────────────

/// The calls in progress, each under its own uuid, and how many of them are
/// on each trunk.
pub struct CallTable {
    pub calls: Vec<CallSnapshot>,
    pub trunks: Vec<TrunkCount>,
}

/// A call that has ended.
#[derive(Debug)]
pub struct EndedCall {
    pub record: CdrRecord,
    /// Under which label its trunk counts it, where it was on one.
    pub label: Option<&'static str>,
    /// The trunk whose counter it left.
    pub left: Option<String>,
}

/// An ended call by its contents.
#[verifier::ext_equal]
pub struct EndedView {
    pub record: CdrView,
    pub label: Option<Seq<char>>,
    pub left: Option<Seq<char>>,
}

impl View for EndedCall {
    type V = EndedView;

    open spec fn view(&self) -> EndedView {
        EndedView {
            record: self.record@,
            label: match self.label {
                Some(l) => Some(l@),
                None => None,
            },
            left: text::opt_string(self.left),
        }
    }
}

/// What the end of a call leaves behind: its record, the label under which
/// the trunk of the record counts it, and the trunk that is released.
pub open spec fn ended_of(c: CallSnapshot, o: CallOutcome, ended: u64) -> EndedView {
    EndedView {
        record: cdr_of(c, o, ended),
        label: match c.trunk_name {
            Some(_) => Some(trunk_state::outcome_label(o, c.answered_at is Some)),
            None => None,
        },
        left: text::opt_string(c.trunk_counted),
    }
}

/// First call with the uuid, or the length where there is none.
pub open spec fn call_index(s: Seq<CallSnapshot>, uuid: Seq<char>) -> int
    decreases s.len(),
{
    if s.len() == 0 || s[0].uuid@ == uuid {
        0
    } else {
        1 + call_index(s.skip(1), uuid)
    }
}

pub open spec fn in_progress(s: Seq<CallSnapshot>, uuid: Seq<char>) -> bool {
    call_index(s, uuid) < s.len()
}

pub proof fn lemma_call_index(s: Seq<CallSnapshot>, uuid: Seq<char>)
    ensures
        0 <= call_index(s, uuid) <= s.len(),
        call_index(s, uuid) < s.len() ==> s[call_index(s, uuid)].uuid@ == uuid,
        forall|i: int| 0 <= i < call_index(s, uuid) ==> (#[trigger] s[i]).uuid@ != uuid,
    decreases s.len(),
{
    if s.len() > 0 && s[0].uuid@ != uuid {
        lemma_call_index(s.skip(1), uuid);
        assert forall|i: int| 0 <= i < call_index(s, uuid) implies (#[trigger] s[i]).uuid@
            != uuid by {
            if i > 0 {
                assert(s.skip(1)[i - 1] == s[i]);
            }
        }
    }
}

pub proof fn lemma_call_index_is(s: Seq<CallSnapshot>, uuid: Seq<char>, at: int)
    requires
        0 <= at <= s.len(),
        at < s.len() ==> s[at].uuid@ == uuid,
        forall|i: int| 0 <= i < at ==> (#[trigger] s[i]).uuid@ != uuid,
    ensures
        call_index(s, uuid) == at,
{
    lemma_call_index(s, uuid);
    let n = call_index(s, uuid);
    if n < at {
        assert(s[n].uuid@ == uuid);
    }
    if at < n {
        assert(s[at].uuid@ == uuid);
    }
}

/// No uuid twice.
pub open spec fn calls_ok(s: Seq<CallSnapshot>) -> bool {
    forall|i: int, j: int|
        0 <= i < j < s.len() ==> (#[trigger] s[i]).uuid@ != (#[trigger] s[j]).uuid@
}

/// The calls once one has ended.
pub open spec fn calls_without(s: Seq<CallSnapshot>, uuid: Seq<char>) -> Seq<CallSnapshot> {
    if in_progress(s, uuid) {
        s.remove(call_index(s, uuid))
    } else {
        s
    }
}

impl CallTable {
    pub open spec fn wf(&self) -> bool {
        calls_ok(self.calls@) && trunk_state::counters_ok(self.calls@, self.trunks@)
    }

    pub fn new() -> (r: Self)
        ensures
            r.wf(),
            r.calls@.len() == 0,
            r.trunks@.len() == 0,
    {
        CallTable { calls: Vec::new(), trunks: Vec::new() }
    }

    pub(crate) fn find(&self, uuid: &str) -> (r: usize)
        ensures
            r == call_index(self.calls@, uuid@),
            r <= self.calls@.len(),
    {
        let mut i: usize = 0;
        while i < self.calls.len()
            invariant
                i <= self.calls@.len(),
                forall|k: int| 0 <= k < i ==> (#[trigger] self.calls@[k]).uuid@ != uuid@,
            decreases self.calls@.len() - i,
        {
            if same_str(self.calls[i].uuid.as_str(), uuid) {
                proof {
                    lemma_call_index_is(self.calls@, uuid@, i as int);
                }
                return i;
            }
            i = i + 1;
        }
        proof {
            lemma_call_index_is(self.calls@, uuid@, i as int);
        }
        i
    }

    /// A call begins, counted on the trunk that it is on; false where its
    /// uuid is in use.
    pub fn open(&mut self, call: CallSnapshot) -> (r: bool)
        requires
            old(self).wf(),
        ensures
            final(self).wf(),
            trunk_state::same_trunks(old(self).trunks@, final(self).trunks@),
            r == !in_progress(old(self).calls@, call.uuid@),
            !r ==> *final(self) == *old(self),
            r ==> final(self).calls@.len() == old(self).calls@.len() + 1
                && final(self).calls@.drop_last() == old(self).calls@ && trunk_state::counted_at(
                call,
                final(self).calls@.last(),
                text::opt_string(call.trunk_name),
            ),
    {
        let at: usize = self.find(call.uuid.as_str());
        if at < self.calls.len() {
            return false;
        }
        let ghost s = self.calls@;
        proof {
            lemma_call_index(s, call.uuid@);
        }
        let uuid = call.uuid.clone();
        let trunk = clone_opt(&call.trunk_name);
        let mut entry = call;
        entry.trunk_counted = None;
        self.calls.push(entry);
        proof {
            assert(self.calls@.drop_last() =~= s);
            lemma_call_index_is(self.calls@, uuid@, s.len() as int);
        }
        let ghost t = self.calls@;
        let _ = self.count_call_on_trunk(uuid.as_str(), trunk);
        assert forall|i: int| 0 <= i < s.len() implies self.calls@[i] == s[i] by {
            assert(t[i] == s[i]);
        }
        assert(self.calls@.drop_last() =~= s);
        true
    }

    /// Keep the Reason that a peer gives for the end of a call.
    pub fn set_peer_reason(&mut self, uuid: &str, reason: Option<String>)
        requires
            old(self).wf(),
        ensures
            final(self).wf(),
            final(self).trunks@ == old(self).trunks@,
            final(self).calls@.len() == old(self).calls@.len(),
            forall|i: int|
                0 <= i < old(self).calls@.len() ==> {
                    let was = old(self).calls@[i];
                    let is = #[trigger] final(self).calls@[i];
                    &&& is == (CallSnapshot { peer_reason: is.peer_reason, ..was })
                    &&& text::opt_string(is.peer_reason) == (if was.uuid@ == uuid@ {
                        or_else_text(text::opt_string(reason), text::opt_string(was.peer_reason))
                    } else {
                        text::opt_string(was.peer_reason)
                    })
                },
    {
        let ghost s = self.calls@;
        let at: usize = self.find(uuid);
        proof {
            lemma_call_index(s, uuid@);
        }
        if at == self.calls.len() {
            return;
        }
        if let Some(why) = reason {
            let mut call = self.calls.remove(at);
            call.peer_reason = Some(why);
            self.calls.insert(at, call);
            assert(forall|i: int| 0 <= i < s.len() && i != at ==> #[trigger] self.calls@[i] == s[i]);
            assert forall|i: int| 0 <= i < self.trunks@.len() implies (
            #[trigger] self.trunks@[i]).active == trunk_state::calls_on(self.calls@, self.trunks@[i].name@) by {
                trunk_state::lemma_calls_on_same(s, self.calls@, self.trunks@[i].name@);
            }
        }
    }

    /// End a call: take it out, release it from its trunk and make its
    /// record. None, and nothing changes, where it has ended already.
    pub fn finish_call(&mut self, uuid: &str, outcome: CallOutcome, ended: u64) -> (r: Option<
        EndedCall,
    >)
        requires
            old(self).wf(),
        ensures
            final(self).wf(),
            trunk_state::same_trunks(old(self).trunks@, final(self).trunks@),
            final(self).calls@ == calls_without(old(self).calls@, uuid@),
            match r {
                Some(e) => in_progress(old(self).calls@, uuid@) && e@ == ended_of(
                    old(self).calls@[call_index(old(self).calls@, uuid@)],
                    outcome,
                    ended,
                ),
                None => !in_progress(old(self).calls@, uuid@) && *final(self) == *old(self),
            },
    {
        let ghost s = self.calls@;
        let at: usize = self.find(uuid);
        proof {
            lemma_call_index(s, uuid@);
        }
        if at == self.calls.len() {
            return None;
        }
        let left = match self.count_call_on_trunk(uuid, None) {
            Some(m) => m.left,
            None => None,
        };
        assert(text::opt_string(left) == text::opt_string(s[at as int].trunk_counted));
        let ghost t = self.calls@;
        let call = self.calls.remove(at);
        assert(self.calls@ =~= s.remove(at as int)) by {
            assert(forall|i: int| 0 <= i < s.len() && i != at ==> (#[trigger] t[i]) == s[i]);
        }
        proof {
            assert forall|i: int, j: int| 0 <= i < j < self.calls@.len() implies (
            #[trigger] self.calls@[i]).uuid@ != (#[trigger] self.calls@[j]).uuid@ by {
                let a = if i < at {
                    i
                } else {
                    i + 1
                };
                let b = if j < at {
                    j
                } else {
                    j + 1
                };
                assert(self.calls@[i] == s[a] && self.calls@[j] == s[b]);
            }
            assert forall|i: int| 0 <= i < self.trunks@.len() implies (
            #[trigger] self.trunks@[i]).active == trunk_state::calls_on(self.calls@, self.trunks@[i].name@) by {
                trunk_state::lemma_calls_on_remove(t, at as int, self.trunks@[i].name@);
            }
        }
        let label = match &call.trunk_name {
            Some(_) => Some(trunk_outcome_label(&outcome, call.answered_at.is_some())),
            None => None,
        };
        Some(EndedCall { record: call_record(call, outcome, ended), label, left })
    }
}

/// End every call of a controller that shuts down.
pub fn graceful_shutdown(table: &mut CallTable, ended: u64) -> (r: Vec<EndedCall>)
    requires
        old(table).wf(),
    ensures
        final(table).wf(),
        trunk_state::same_trunks(old(table).trunks@, final(table).trunks@),
        final(table).calls@.len() == 0,
        forall|i: int|
            0 <= i < final(table).trunks@.len() ==> (#[trigger] final(table).trunks@[i]).active == 0,
        r@.len() == old(table).calls@.len(),
        forall|i: int|
            0 <= i < r@.len() ==> (#[trigger] r@[i])@ == ended_of(
                old(table).calls@[i],
                CallOutcome::Shutdown,
                ended,
            ),
{
    let ghost all = table.calls@;
    let ghost names = table.trunks@;
    let mut out: Vec<EndedCall> = Vec::new();
    while table.calls.len() > 0
        invariant
            table.wf(),
            trunk_state::same_trunks(names, table.trunks@),
            out@.len() <= all.len(),
            table.calls@ == all.skip(out@.len() as int),
            forall|i: int|
                0 <= i < out@.len() ==> (#[trigger] out@[i])@ == ended_of(
                    all[i],
                    CallOutcome::Shutdown,
                    ended,
                ),
        decreases table.calls@.len(),
    {
        let ghost n = out@.len();
        let ghost before = table.trunks@;
        let uuid = table.calls[0].uuid.clone();
        assert(call_index(table.calls@, uuid@) == 0);
        assert(all.skip(n as int).remove(0) =~= all.skip(n as int + 1));
        if let Some(e) = table.finish_call(uuid.as_str(), CallOutcome::Shutdown, ended) {
            out.push(e);
        }
        assert forall|i: int| 0 <= i < names.len() implies (#[trigger] names[i]).name@
            == table.trunks@[i].name@ by {
            assert(before[i].name@ == names[i].name@);
        }
    }
    out
}

/// The calls after those with the first `n` uuids have ended.
pub open spec fn calls_after(s: Seq<CallSnapshot>, uuids: Seq<Seq<char>>, n: nat) -> Seq<
    CallSnapshot,
>
    decreases n,
{
    if n == 0 {
        s
    } else {
        calls_without(calls_after(s, uuids, (n - 1) as nat), uuids[n - 1])
    }
}

/// The records of the calls with the first `n` uuids, as far as they were in
/// progress.
pub open spec fn kicked_records(
    s: Seq<CallSnapshot>,
    uuids: Seq<Seq<char>>,
    ended: u64,
    n: nat,
) -> Seq<EndedView>
    decreases n,
{
    if n == 0 {
        Seq::empty()
    } else {
        let calls = calls_after(s, uuids, (n - 1) as nat);
        let so_far = kicked_records(s, uuids, ended, (n - 1) as nat);
        if in_progress(calls, uuids[n - 1]) {
            so_far.push(
                ended_of(calls[call_index(calls, uuids[n - 1])], CallOutcome::AdminKick, ended),
            )
        } else {
            so_far
        }
    }
}

pub open spec fn ended_views(v: Seq<EndedCall>) -> Seq<EndedView> {
    v.map_values(|r: EndedCall| r@)
}

/// End the calls that the management asked to end. A call that has ended
/// already is passed over.
pub fn process_admin_kicks(table: &mut CallTable, kicks: &mut AdminKicks, ended: u64) -> (r: Vec<
    EndedCall,
>)
    requires
        old(table).wf(),
    ensures
        final(table).wf(),
        trunk_state::same_trunks(old(table).trunks@, final(table).trunks@),
        final(kicks)@.len() == 0,
        final(table).calls@ == calls_after(old(table).calls@, old(kicks)@, old(kicks)@.len()),
        ended_views(r@) == kicked_records(
            old(table).calls@,
            old(kicks)@,
            ended,
            old(kicks)@.len(),
        ),
{
    let ghost start = table.calls@;
    let ghost asked = kicks@;
    let ghost names = table.trunks@;
    let uuids = kicks.drain();
    let mut out: Vec<EndedCall> = Vec::new();
    assert(ended_views(out@) =~= Seq::empty());
    let mut i: usize = 0;
    while i < uuids.len()
        invariant
            i <= uuids@.len(),
            asked == text::string_views(uuids@),
            table.wf(),
            trunk_state::same_trunks(names, table.trunks@),
            table.calls@ == calls_after(start, asked, i as nat),
            ended_views(out@) == kicked_records(start, asked, ended, i as nat),
        decreases uuids@.len() - i,
    {
        assert(asked[i as int] == uuids@[i as int]@);
        let ghost before = ended_views(out@);
        let ghost trunks = table.trunks@;
        if let Some(e) = table.finish_call(uuids[i].as_str(), CallOutcome::AdminKick, ended) {
            out.push(e);
            assert(ended_views(out@) =~= before.push(e@));
        }
        assert forall|k: int| 0 <= k < names.len() implies (#[trigger] names[k]).name@
            == table.trunks@[k].name@ by {
            assert(trunks[k].name@ == names[k].name@);
        }
        i = i + 1;
    }
    out
}

// ── Teardown on the wire ────────────────────────────────────────────────

/// What a teardown sends.
#[derive(Debug)]
pub struct Hangup {
    /// Message to the caller, and whether it is a BYE (else a final).
    pub toward_caller: Option<(bool, String)>,
    /// Message to the callee, and whether it is a BYE (else a CANCEL).
    pub toward_callee: Option<(bool, String)>,
}

pub open spec fn opt_leg(m: Option<(bool, String)>) -> Option<(bool, Seq<char>)> {
    match m {
        Some((b, s)) => Some((b, s@)),
        None => None,
    }
}

/// To the caller: a BYE within its dialog, else the final of its INVITE.
pub open spec fn caller_hangup(
    dialog: Option<DialogInfo>,
    pending_final: Option<Seq<char>>,
    reason: Option<Seq<char>>,
    branch: Seq<char>,
) -> Option<(bool, Seq<char>)> {
    match dialog {
        Some(d) => Some(
            (
                true,
                sip_builder::request_text(
                    "BYE"@,
                    d,
                    d.cseq as nat,
                    branch,
                    sip_builder::reason_extras(reason),
                    Seq::empty(),
                ),
            ),
        ),
        None => match pending_final {
            Some(f) => Some((false, f)),
            None => None,
        },
    }
}

/// To the callee: its BYE where the leg is up, else a CANCEL of the last
/// INVITE sent to it.
pub open spec fn callee_hangup(bye: Option<Seq<char>>, last_invite: Option<Seq<char>>) -> Option<
    (bool, Seq<char>),
> {
    match bye {
        Some(b) => Some((true, b)),
        None => match last_invite {
            Some(raw) => match sip_builder::invite_identity(raw) {
                Some(id) => Some((false, sip_builder::cancel_text(id))),
                None => None,
            },
            None => None,
        },
    }
}

/// The messages of a teardown started here: a BYE to each leg that is up, a
/// CANCEL to a callee whose INVITE is pending, and a final to a caller
/// whose INVITE has no answer yet.
pub fn hangup_both_legs_with(
    outcome: &CallOutcome,
    caller_dialog: Option<DialogInfo>,
    caller_final: Option<String>,
    callee_bye: Option<String>,
    last_invite: Option<String>,
    branch: &str,
) -> (r: Hangup)
    ensures
        opt_leg(r.toward_caller) == caller_hangup(
            caller_dialog,
            text::opt_string(caller_final),
            reason_text(*outcome),
            branch@,
        ),
        opt_leg(r.toward_callee) == callee_hangup(text::opt_string(callee_bye), text::opt_string(last_invite)),
{
    let reason = outcome.reason_header();
    let toward_caller = match caller_dialog {
        Some(d) => {
            let text = match &reason {
                Some(s) => build_bye_with(&d, Some(s.as_str()), branch),
                None => build_bye_with(&d, None, branch),
            };
            Some((true, text))
        },
        None => match caller_final {
            Some(f) => Some((false, f)),
            None => None,
        },
    };
    let toward_callee = match callee_bye {
        Some(b) => Some((true, b)),
        None => match last_invite {
            Some(raw) => match build_cancel(raw.as_str()) {
                Some(c) => Some((false, c)),
                None => None,
            },
            None => None,
        },
    };
    Hangup { toward_caller, toward_callee }
}

/// The messages of a teardown started here, the BYE under a fresh branch.
pub fn hangup_both_legs(
    outcome: &CallOutcome,
    caller_dialog: Option<DialogInfo>,
    caller_final: Option<String>,
    callee_bye: Option<String>,
    last_invite: Option<String>,
) -> (r: Hangup)
    ensures
        exists|b: Seq<char>| #[trigger]
            sip_builder::is_fresh_branch(b) && opt_leg(r.toward_caller) == caller_hangup(
                caller_dialog,
                text::opt_string(caller_final),
                reason_text(*outcome),
                b,
            ),
        opt_leg(r.toward_callee) == callee_hangup(text::opt_string(callee_bye), text::opt_string(last_invite)),
{
    let branch = new_branch();
    assert(sip_builder::is_fresh_branch(branch@));
    hangup_both_legs_with(
        outcome,
        caller_dialog,
        caller_final,
        callee_bye,
        last_invite,
        branch.as_str(),
    )
}

/// Where a message to the callee goes: where the last INVITE went, else the
/// callee's known address.
pub fn callee_target(last_attempt: Option<String>, callee_dest: Option<String>) -> (r: Option<
    String,
>)
    ensures
        text::opt_string(r) == or_else_text(text::opt_string(last_attempt), text::opt_string(callee_dest)),
{
    match last_attempt {
        Some(a) => Some(a),
        None => callee_dest,
    }
}

// ── Limits ──────────────────────────────────────────────────────────────

/// How far a call has come.
#[derive(Debug, Clone, Copy, PartialEq, Eq, Structural)]
pub enum CallState {
    Initiated,
    Proceeding,
    Ringing,
    Connected,
    Terminating,
    Terminated,
}

/// What the limits look at.
pub struct CallAge {
    pub uuid: String,
    pub state: CallState,
    pub started_at: u64,
    pub answered: bool,
    pub alerting_at: Option<u64>,
    pub media_session_id: Option<String>,
    pub direction: String,
    pub trunk_name: Option<String>,
    /// The callee's side has sent a response, be it only a 100.
    pub callee_responded: bool,
}

/// A call whose setup has taken too long.
#[derive(Debug)]
pub struct StaleCall {
    pub uuid: String,
    /// The trunk that gave no answer at all, which is a failure of it.
    pub strike: Option<String>,
}

pub open spec fn stale_views(s: Seq<StaleCall>) -> Seq<(Seq<char>, Option<Seq<char>>)> {
    s.map_values(|c: StaleCall| (c.uuid@, text::opt_string(c.strike)))
}

/// Unanswered for too long: while the callee has not alerted, for longer
/// than the setup limit; once it alerts, for longer than Timer C.
pub open spec fn setup_expired(c: CallAge, limit: u64, now: u64) -> bool {
    &&& !c.answered
    &&& (c.state == CallState::Initiated || c.state == CallState::Proceeding || c.state
        == CallState::Ringing)
    &&& match c.alerting_at {
        None => now - c.started_at > limit,
        Some(a) => now - a > TIMER_C,
    }
}

/// In progress for longer than allowed; without a limit never.
pub open spec fn duration_expired(c: CallAge, limit: Option<u64>, now: u64) -> bool {
    match limit {
        Some(l) => now - c.started_at > l,
        None => false,
    }
}

/// The calls whose setup has taken too long, each with the trunk to strike.
pub open spec fn setup_expired_list(s: Seq<CallAge>, limit: u64, now: u64) -> Seq<
    (Seq<char>, Option<Seq<char>>),
>
    decreases s.len(),
{
    if s.len() == 0 {
        Seq::empty()
    } else if setup_expired(s.last(), limit, now) {
        setup_expired_list(s.drop_last(), limit, now).push(
            (
                s.last().uuid@,
                trunk_state::silent_trunk(
                    s.last().direction@,
                    text::opt_string(s.last().trunk_name),
                    s.last().callee_responded,
                ),
            ),
        )
    } else {
        setup_expired_list(s.drop_last(), limit, now)
    }
}

pub open spec fn duration_expired_list(s: Seq<CallAge>, limit: Option<u64>, now: u64) -> Seq<
    Seq<char>,
>
    decreases s.len(),
{
    if s.len() == 0 {
        Seq::empty()
    } else if duration_expired(s.last(), limit, now) {
        duration_expired_list(s.drop_last(), limit, now).push(s.last().uuid@)
    } else {
        duration_expired_list(s.drop_last(), limit, now)
    }
}

/// The calls whose INVITE has gone unanswered for too long, and the
/// trunks that left them without any answer.
pub fn check_setup_timeouts(calls: &Vec<CallAge>, limit: u64, now: u64) -> (r: Vec<StaleCall>)
    ensures
        stale_views(r@) == setup_expired_list(calls@, limit, now),
{
    let mut out: Vec<StaleCall> = Vec::new();
    let mut i: usize = 0;
    assert(stale_views(out@) =~= setup_expired_list(calls@.take(0), limit, now));
    while i < calls.len()
        invariant
            i <= calls@.len(),
            stale_views(out@) == setup_expired_list(calls@.take(i as int), limit, now),
        decreases calls@.len() - i,
    {
        assert(calls@.take(i + 1).drop_last() =~= calls@.take(i as int));
        let c = &calls[i];
        let pending = match c.state {
            CallState::Initiated => true,
            CallState::Proceeding => true,
            CallState::Ringing => true,
            _ => false,
        };
        let late = match c.alerting_at {
            None => now > c.started_at && now - c.started_at > limit,
            Some(a) => now > a && now - a > TIMER_C,
        };
        if !c.answered && pending && late {
            let ghost before = out@;
            let strike = silent_outbound_trunk_of(
                c.direction.as_str(),
                &c.trunk_name,
                c.callee_responded,
            );
            let stale = StaleCall { uuid: c.uuid.clone(), strike };
            out.push(stale);
            assert(stale_views(out@) =~= stale_views(before).push(
                (stale.uuid@, text::opt_string(stale.strike)),
            ));
        }
        i = i + 1;
    }
    assert(calls@.take(calls@.len() as int) =~= calls@);
    out
}

/// The calls that have gone on for longer than allowed.
pub fn check_call_timeouts(calls: &Vec<CallAge>, limit: Option<u64>, now: u64) -> (r: Vec<String>)
    ensures
        text::string_views(r@) == duration_expired_list(calls@, limit, now),
{
    let mut out: Vec<String> = Vec::new();
    let mut i: usize = 0;
    assert(text::string_views(out@) =~= duration_expired_list(calls@.take(0), limit, now));
    while i < calls.len()
        invariant
            i <= calls@.len(),
            text::string_views(out@) == duration_expired_list(calls@.take(i as int), limit, now),
        decreases calls@.len() - i,
    {
        assert(calls@.take(i + 1).drop_last() =~= calls@.take(i as int));
        let c = &calls[i];
        let late = match limit {
            Some(l) => now > c.started_at && now - c.started_at > l,
            None => false,
        };
        if late {
            let ghost before = out@;
            let u = c.uuid.clone();
            out.push(u);
            assert(text::string_views(out@) =~= text::string_views(before).push(u@));
        }
        i = i + 1;
    }
    assert(calls@.take(calls@.len() as int) =~= calls@);
    out
}

/// The first call whose media session this is.
pub open spec fn media_call(s: Seq<CallAge>, session: Seq<char>) -> Option<Seq<char>>
    decreases s.len(),
{
    if s.len() == 0 {
        None
    } else if text::opt_string(s[0].media_session_id) == Some(session) {
        Some(s[0].uuid@)
    } else {
        media_call(s.skip(1), session)
    }
}

pub open spec fn media_calls(s: Seq<CallAge>, sessions: Seq<Seq<char>>) -> Seq<Seq<char>>
    decreases sessions.len(),
{
    if sessions.len() == 0 {
        Seq::empty()
    } else {
        match media_call(s, sessions.last()) {
            Some(u) => media_calls(s, sessions.drop_last()).push(u),
            None => media_calls(s, sessions.drop_last()),
        }
    }
}

fn find_media_call(calls: &Vec<CallAge>, session: &str) -> (r: Option<String>)
    ensures
        text::opt_string(r) == media_call(calls@, session@),
{
    let mut i: usize = 0;
    assert(calls@.skip(0) =~= calls@);
    while i < calls.len()
        invariant
            i <= calls@.len(),
            media_call(calls@, session@) == media_call(calls@.skip(i as int), session@),
        decreases calls@.len() - i,
    {
        assert(calls@.skip(i as int)[0] == calls@[i as int]);
        assert(calls@.skip(i as int).skip(1) =~= calls@.skip(i + 1));
        if let Some(id) = &calls[i].media_session_id {
            if same_str(id.as_str(), session) {
                return Some(calls[i].uuid.clone());
            }
        }
        i = i + 1;
    }
    None
}

/// The calls whose media sessions have gone silent.
pub fn check_media_timeouts(calls: &Vec<CallAge>, sessions: &Vec<String>) -> (r: Vec<String>)
    ensures
        text::string_views(r@) == media_calls(calls@, text::string_views(sessions@)),
{
    let ghost all = text::string_views(sessions@);
    let mut out: Vec<String> = Vec::new();
    let mut i: usize = 0;
    assert(text::string_views(out@) =~= media_calls(calls@, all.take(0)));
    while i < sessions.len()
        invariant
            i <= sessions@.len(),
            all == text::string_views(sessions@),
            text::string_views(out@) == media_calls(calls@, all.take(i as int)),
        decreases sessions@.len() - i,
    {
        assert(all.take(i + 1).drop_last() =~= all.take(i as int));
        if let Some(u) = find_media_call(calls, sessions[i].as_str()) {
            let ghost before = out@;
            out.push(u);
            assert(text::string_views(out@) =~= text::string_views(before).push(u@));
        }
        i = i + 1;
    }
    assert(all.take(all.len() as int) =~= all);
    out
}

// ── Addresses of trunks ─────────────────────────────────────────────────

/// The text before its last dot.
pub open spec fn before_last_dot(s: Seq<char>) -> Option<Seq<char>> {
    let i = identity::find_last(s, '.', s.len() as int);
    if i >= 0 {
        Some(s.take(i))
    } else {
        None
    }
}

/// The same address, or one that shares all but its last number.
pub open spec fn near_trunk(trunk: Seq<char>, source: Seq<char>) -> bool {
    trunk == source || (before_last_dot(trunk) is Some && before_last_dot(trunk)
        == before_last_dot(source))
}

fn strip_last_dot<'a>(s: &'a [char]) -> (r: Option<&'a [char]>)
    ensures
        match r {
            Some(p) => before_last_dot(s@) == Some(p@),
            None => before_last_dot(s@) is None,
        },
{
    match last_position_of(s, '.') {
        Some(i) => {
            let p = slice_subrange(s, 0, i);
            assert(p@ =~= s@.take(i as int));
            Some(p)
        },
        None => None,
    }
}

/// Whether an address is that of a trunk or shares a /24 with one.
pub fn source_is_trunk_related(trunk_ips: &Vec<String>, source_ip: &str) -> (r: bool)
    ensures
        r == (exists|i: int|
            0 <= i < trunk_ips@.len() && near_trunk((#[trigger] trunk_ips@[i])@, source_ip@)),
{
    let src = chars_of(source_ip);
    let mut i: usize = 0;
    while i < trunk_ips.len()
        invariant
            i <= trunk_ips@.len(),
            src@ == source_ip@,
            forall|k: int| 0 <= k < i ==> !near_trunk((#[trigger] trunk_ips@[k])@, source_ip@),
        decreases trunk_ips@.len() - i,
    {
        let tip = chars_of(trunk_ips[i].as_str());
        let mut near = same(tip.as_slice(), src.as_slice());
        if let (Some(a), Some(b)) = (strip_last_dot(tip.as_slice()), strip_last_dot(src.as_slice())) {
            if same(a, b) {
                near = true;
            }
        }
        if near {
            return true;
        }
        i = i + 1;
    }
    false
}

// ── Laws ────────────────────────────────────────────────────────────────

/// A call is recorded once: after it was ended it is no longer there, so
/// ending it again records nothing, and every other call is untouched.
pub proof fn law_call_ends_once(s: Seq<CallSnapshot>, uuid: Seq<char>, other: Seq<char>)
    requires
        calls_ok(s),
    ensures
        !in_progress(calls_without(s, uuid), uuid),
        calls_without(calls_without(s, uuid), uuid) == calls_without(s, uuid),
        other != uuid ==> in_progress(calls_without(s, uuid), other) == in_progress(s, other),
{
    let n = calls_without(s, uuid);
    lemma_call_index(s, uuid);
    lemma_call_index(n, uuid);
    lemma_call_index(s, other);
    lemma_call_index(n, other);
    let at = call_index(s, uuid);
    if in_progress(s, uuid) {
        if in_progress(n, uuid) {
            let k = call_index(n, uuid);
            assert(n[k] == s[if k < at {
                k
            } else {
                k + 1
            }]);
        }
        if other != uuid {
            if in_progress(s, other) {
                let j = call_index(s, other);
                let k = if j < at {
                    j
                } else {
                    j - 1
                };
                assert(n[k] == s[j]);
            }
            if in_progress(n, other) {
                let k = call_index(n, other);
                assert(n[k] == s[if k < at {
                    k
                } else {
                    k + 1
                }]);
            }
        }
    }
}

/// An answered call is recorded with 200, whatever ended it; its window is
/// the one of the call.
pub proof fn law_answered_call_is_recorded_as_200(c: CallSnapshot, o: CallOutcome, ended: u64)
    requires
        c.answered_at is Some,
    ensures
        cdr_of(c, o, ended).sip_code == Some(200u16),
        cdr_of(c, o, ended).answered == c.answered_at,
        cdr_of(c, o, ended).started == c.started_wall,
        cdr_of(c, o, ended).ended == ended,
{
}

/// What a peer says of the end of a call is what its record says, whatever
/// the outcome would have said.
pub proof fn law_peer_reason_is_recorded(c: CallSnapshot, o: CallOutcome, ended: u64)
    requires
        c.peer_reason is Some,
    ensures
        cdr_of(c, o, ended).reason == text::opt_string(c.peer_reason),
{
}

/// What a caller without an answer is sent when the call is ended here is
/// what its record says, for every outcome that is ended here and has a
/// code.
pub proof fn law_pending_final_is_recorded(o: CallOutcome)
    requires
        o is SetupTimeout || o is Shutdown || o is MediaUnavailable || o is MaxDuration
            || o is AdminKick || o == (CallOutcome::WsClosed { callee_died: true }),
    ensures
        final_code(o, false) == Some(pending_code(o)),
{
}

} // verus!
