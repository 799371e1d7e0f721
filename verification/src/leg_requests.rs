//! Requests for the other leg of a call, made from the request of this one.

use crate::headers::MessageWriter;
use crate::headers;
use crate::identity::{last_position_of, text_or_empty};
use crate::identity;
use crate::message::{SipRequest, call_id_of, cseq_of, from_of, to_of};
use crate::message;
use crate::responses::{fresh_uuid, new_tag};
use crate::responses;
use crate::sip_builder::write_request_line;
use crate::sip_builder;
use crate::text::{chars_of, decimal_of, position_of, split_on, string_of, trimmed};
use crate::text;
use vstd::prelude::*;
use vstd::slice::slice_subrange;

verus! {

/// Where both brackets are there, the last `>` follows the first `<`.
pub open spec fn opens_before_it_closes(v: Seq<char>) -> bool {
    text::find_char(v, '<', 0) < v.len() && identity::find_last(v, '>', v.len() as int) >= 0 ==> text::find_char(
        v,
        '<',
        0,
    ) < identity::find_last(v, '>', v.len() as int)
}

/// The URI of a To value: between the brackets, else up to the parameters.
pub open spec fn target_of(v: Seq<char>) -> Seq<char> {
    let a = text::find_char(v, '<', 0);
    let b = identity::find_last(v, '>', v.len() as int);
    if a < v.len() && b >= 0 {
        text::trim(v.subrange(a + 1, b))
    } else {
        text::trim(text::split_char(v, ';')[0])
    }
}

fn target(v: &str) -> (r: String)
    requires
        opens_before_it_closes(v@),
    ensures
        r@ == target_of(v@),
{
    let c = chars_of(v);
    let s = c.as_slice();
    let a: usize = position_of(s, '<', 0);
    match last_position_of(s, '>') {
        Some(b) => {
            if a < s.len() {
                return string_of(trimmed(slice_subrange(s, a + 1, b)));
            }
        },
        None => {},
    }
    let parts = split_on(s, ';');
    assert(text::views(parts@)[0] == parts@[0]@);
    string_of(trimmed(parts[0]))
}

pub open spec fn or_text(v: Option<Seq<char>>, other: Seq<char>) -> Seq<char> {
    match v {
        Some(x) => x,
        None => other,
    }
}

fn or_other(v: Option<String>, other: &str) -> (r: String)
    ensures
        r@ == or_text(text::opt_string(v), other@),
{
    match v {
        Some(x) => x,
        None => other.to_string(),
    }
}

/// Via of a request for the other leg; `mark` makes its branch.
pub open spec fn leg_via(kind: Seq<char>, mark: Seq<char>) -> Seq<char> {
    "SIP/2.0/UDP sbc.local:5060;branch=z9hG4bK-"@ + kind + "-"@ + mark
}

fn write_leg_via(kind: &str, mark: &str) -> (r: String)
    ensures
        r@ == leg_via(kind@, mark@),
{
    let mut v = "SIP/2.0/UDP sbc.local:5060;branch=z9hG4bK-".to_string();
    v.push_str(kind);
    v.push_str("-");
    v.push_str(mark);
    v
}

/// The headers of a request for the other leg.
pub open spec fn leg_pairs(
    via_text: Seq<char>,
    from: Seq<char>,
    to: Seq<char>,
    call_id: Seq<char>,
    cseq: Seq<char>,
) -> Seq<(Seq<char>, Seq<char>)> {
    seq![
        ("Via"@, via_text),
        ("From"@, from),
        ("To"@, to),
        ("Call-ID"@, call_id),
        ("CSeq"@, cseq),
        ("Content-Length"@, "0"@),
    ]
}

fn write_leg_request(
    line: String,
    via_text: &str,
    from: &str,
    to: &str,
    call_id: &str,
    cseq: &str,
) -> (r: String)
    ensures
        r@ == headers::message_text(
            line@,
            leg_pairs(via_text@, from@, to@, call_id@, cseq@),
            Seq::empty(),
        ),
{
    let mut w = MessageWriter::new(line);
    w.header("Via", via_text);
    w.header("From", from);
    w.header("To", to);
    w.header("Call-ID", call_id);
    w.header("CSeq", cseq);
    w.header("Content-Length", "0");
    proof {
        reveal_strlit("");
        assert(""@ =~= Seq::empty());
        assert(w.pairs() =~= leg_pairs(via_text@, from@, to@, call_id@, cseq@));
    }
    w.finish("")
}

/// The BYE for the other leg: From, To and Call-ID of the one that came in,
/// the To URI as target.
pub open spec fn other_leg_bye(hs: Seq<Seq<char>>, fresh_id: Seq<char>, mark: Seq<char>) -> Seq<
    char,
> {
    headers::message_text(
        sip_builder::request_line(
            "BYE"@,
            match message::to_value(hs) {
                Some(v) => target_of(v),
                None => "sip:callee@localhost"@,
            },
        ),
        leg_pairs(
            leg_via("bye"@, mark),
            or_text(message::from_value(hs), "<sip:sbc@localhost>"@),
            or_text(message::to_value(hs), "<sip:callee@localhost>"@),
            or_text(message::call_id_value(hs), fresh_id),
            "2 BYE"@,
        ),
        Seq::empty(),
    )
}

/// The BYE for the other leg, given the Call-ID to use where the BYE that came
/// in has none, and the mark of its branch.
pub fn build_bye_for_other_leg_with(request: &SipRequest, fresh_id: &str, mark: &str) -> (r: String)
    requires
        message::to_value(request@.headers) matches Some(v) ==> opens_before_it_closes(v),
    ensures
        r@ == other_leg_bye(request@.headers, fresh_id@, mark@),
{
    let hs = &request.headers;
    let uri: String = match to_of(hs) {
        Some(v) => target(v.as_str()),
        None => "sip:callee@localhost".to_string(),
    };
    let via_text = write_leg_via("bye", mark);
    let from = or_other(from_of(hs), "<sip:sbc@localhost>");
    let to = or_other(to_of(hs), "<sip:callee@localhost>");
    let call_id = or_other(call_id_of(hs), fresh_id);
    write_leg_request(
        write_request_line("BYE", uri.as_str()),
        via_text.as_str(),
        from.as_str(),
        to.as_str(),
        call_id.as_str(),
        "2 BYE",
    )
}

/// The BYE for the other leg of a call, under a fresh branch.
pub fn build_bye_for_other_leg(request: &SipRequest) -> (r: String)
    requires
        message::to_value(request@.headers) matches Some(v) ==> opens_before_it_closes(v),
    ensures
        exists|id: Seq<char>, mark: Seq<char>|
            responses::is_uuid_text(id) && responses::is_tag(mark) && r@ == #[trigger] other_leg_bye(
                request@.headers,
                id,
                mark,
            ),
{
    let id = fresh_uuid();
    let mark = new_tag();
    build_bye_for_other_leg_with(request, id.as_str(), mark.as_str())
}

/// The CANCEL for the callee: From, To and CSeq number of the one that came
/// in, under the Call-ID of the outbound leg.
pub open spec fn other_leg_cancel(hs: Seq<Seq<char>>, call_id: Seq<char>, mark: Seq<char>) -> Seq<
    char,
> {
    headers::message_text(
        sip_builder::request_line("CANCEL"@, target_of(identity::or_empty(message::to_value(hs)))),
        leg_pairs(
            leg_via("cancel"@, mark),
            or_text(message::from_value(hs), "<sip:sbc@localhost>"@),
            or_text(message::to_value(hs), "<sip:callee@localhost>"@),
            call_id,
            (match message::headers_cseq(hs) {
                Some((n, _)) => text::decimal(n),
                None => "1"@,
            }) + " CANCEL"@,
        ),
        Seq::empty(),
    )
}

/// The CANCEL for the callee, given the mark of its branch.
pub fn build_cancel_for_callee_with(request: &SipRequest, outbound_call_id: &str, mark: &str) -> (r:
    String)
    requires
        opens_before_it_closes(identity::or_empty(message::to_value(request@.headers))),
    ensures
        r@ == other_leg_cancel(request@.headers, outbound_call_id@, mark@),
{
    let hs = &request.headers;
    let dest = text_or_empty(to_of(hs));
    let uri = target(dest.as_str());
    let via_text = write_leg_via("cancel", mark);
    let from = or_other(from_of(hs), "<sip:sbc@localhost>");
    let to = or_other(to_of(hs), "<sip:callee@localhost>");
    let mut cseq: String = match cseq_of(hs) {
        Some((n, _)) => decimal_of(n as u64),
        None => "1".to_string(),
    };
    cseq.push_str(" CANCEL");
    write_leg_request(
        write_request_line("CANCEL", uri.as_str()),
        via_text.as_str(),
        from.as_str(),
        to.as_str(),
        outbound_call_id,
        cseq.as_str(),
    )
}

/// The CANCEL for the callee, under a fresh branch.
pub fn build_cancel_for_callee(request: &SipRequest, outbound_call_id: &str) -> (r: String)
    requires
        opens_before_it_closes(identity::or_empty(message::to_value(request@.headers))),
    ensures
        exists|mark: Seq<char>|
            responses::is_tag(mark) && r@ == #[trigger] other_leg_cancel(
                request@.headers,
                outbound_call_id@,
                mark,
            ),
{
    let mark = new_tag();
    build_cancel_for_callee_with(request, outbound_call_id, mark.as_str())
}

} // verus!
