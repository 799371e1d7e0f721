//! What a request that is built in a dialog presents to the peer.

use crate::renewal;
use crate::sip_builder::{DialogInfo, IdentityView};
use crate::sip_builder;
use crate::sip_laws;
use crate::text;
use vstd::prelude::*;

verus! {

/// The identity that a request in the dialog `d` presents.
pub open spec fn dialog_identity(d: DialogInfo, cseq: nat, branch: Seq<char>) -> IdentityView {
    IdentityView {
        request_uri: d.request_uri@,
        top_via: sip_builder::via_value(d, branch),
        from: d.from_raw@,
        to: d.to_raw@,
        call_id: d.call_id@,
        cseq,
        routes: Seq::empty(),
    }
}

/// What precedes the branch in the Via of a dialog.
pub open spec fn via_front(d: DialogInfo) -> Seq<char> {
    "SIP/2.0/"@ + sip_builder::upper(d.transport@) + " "@ + d.local_ip@ + ":"@ + text::decimal(d.local_port as nat)
}

/// A dialog that can be written in headers: its parts hold no line end, the
/// target no space, and From, To and Call-ID no white space at their ends.
/// Of a transport that is not ASCII its upper case must hold no line end.
pub open spec fn presentable(d: DialogInfo) -> bool {
    &&& sip_laws::one_line(d.request_uri@) && !d.request_uri@.contains(' ')
    &&& sip_laws::one_line(d.from_raw@) && sip_laws::is_trimmed(d.from_raw@)
    &&& sip_laws::one_line(d.to_raw@) && sip_laws::is_trimmed(d.to_raw@)
    &&& sip_laws::one_line(d.call_id@) && sip_laws::is_trimmed(d.call_id@)
    &&& sip_laws::one_line(d.local_ip@)
    &&& if vstd::utf8::is_ascii_chars(d.transport@) {
        sip_laws::one_line(d.transport@)
    } else {
        sip_laws::one_line(sip_builder::unicode_uppercase(d.transport@))
    }
}

proof fn lemma_upper_is_line(t: Seq<char>)
    requires
        vstd::utf8::is_ascii_chars(t),
        sip_laws::one_line(t),
    ensures
        sip_laws::one_line(sip_builder::upper(t)),
{
    assert forall|k: int| !text::occurs_at(sip_builder::upper(t), text::crlf(), k) by {
        sip_laws::lemma_crlf_at(sip_builder::upper(t), k);
        sip_laws::lemma_crlf_at(t, k);
        assert(!text::occurs_at(t, text::crlf(), k));
        if 0 <= k && k + 2 <= t.len() {
            assert(sip_builder::upper(t)[k] == sip_builder::upper_char(t[k]));
            assert(sip_builder::upper(t)[k + 1] == sip_builder::upper_char(t[k + 1]));
        }
    }
}

/// The Via of a dialog is a line without white space at its ends.
proof fn lemma_via_is_line(d: DialogInfo, branch: Seq<char>)
    requires
        presentable(d),
        sip_builder::is_fresh_branch(branch),
    ensures
        sip_laws::one_line(sip_builder::via_value(d, branch)),
        sip_laws::is_trimmed(sip_builder::via_value(d, branch)),
{
    reveal_strlit("SIP/2.0/");
    reveal_strlit(" ");
    reveal_strlit(":");
    reveal_strlit(";branch=");
    reveal_strlit(";rport");
    let t = sip_builder::upper(d.transport@);
    if vstd::utf8::is_ascii_chars(d.transport@) {
        lemma_upper_is_line(d.transport@);
    }
    let port = text::decimal(d.local_port as nat);
    text::lemma_decimal_digits(d.local_port as nat);
    renewal::lemma_fresh_branch_chars(branch);
    let a = "SIP/2.0/"@;
    sip_laws::lemma_no_lf_is_line(a);
    assert(a.last() == '/');
    sip_laws::lemma_line_after_text(a, t);
    sip_laws::lemma_no_lf_is_line(" "@);
    sip_laws::lemma_joined_is_line(a + t, " "@);
    let b = a + t + " "@;
    assert(b.last() == ' ');
    sip_laws::lemma_line_after_text(b, d.local_ip@);
    let tail = ":"@ + port;
    assert(!tail.contains('\n')) by {
        assert forall|i: int| 0 <= i < tail.len() implies tail[i] != '\n' by {
            if i > 0 {
                assert(text::is_digit(port[i - 1]));
            }
        }
    }
    sip_laws::lemma_no_lf_is_line(tail);
    sip_laws::lemma_joined_is_line(b + d.local_ip@, tail);
    let front = b + d.local_ip@ + tail;
    assert(front =~= via_front(d));
    sip_laws::lemma_no_lf_is_line(";branch="@);
    sip_laws::lemma_joined_is_line(front, ";branch="@);
    sip_laws::lemma_joined_is_line(front + ";branch="@, branch);
    sip_laws::lemma_no_lf_is_line(";rport"@);
    sip_laws::lemma_joined_is_line(front + ";branch="@ + branch, ";rport"@);
    let v = sip_builder::via_value(d, branch);
    assert(v =~= front + ";branch="@ + branch + ";rport"@);
    assert(v[0] == 'S');
    assert(v.last() == 't');
}

/// The branch of the Via of a dialog is the one that it was given.
proof fn lemma_via_has_the_branch(d: DialogInfo, branch: Seq<char>)
    requires
        sip_builder::branch_at(via_front(d)) == via_front(d).len(),
        sip_builder::is_fresh_branch(branch),
    ensures
        sip_builder::via_branch_param(sip_builder::via_value(d, branch)) == Some(branch),
{
    reveal_strlit("branch=");
    reveal_strlit(";branch=");
    reveal_strlit(";rport");
    renewal::lemma_fresh_branch_chars(branch);
    let w = "branch="@;
    let f = via_front(d);
    let n = f.len() as int;
    let v = sip_builder::via_value(d, branch);
    assert(v =~= f + ";branch="@ + branch + ";rport"@);
    assert(v[n] == ';');
    text::lemma_find_str(text::lower(f), w, 0);
    assert(text::lower(v).subrange(n + 1, n + 8) =~= w) by {
        assert forall|k: int| 0 <= k < 7 implies text::lower(v)[n + 1 + k] == w[k] by {
            assert(v[n + 1 + k] == ";branch="@[1 + k]);
        }
    }
    assert forall|k: int| 0 <= k < n + 1 implies !text::occurs_at(text::lower(v), w, k) by {
        if text::occurs_at(text::lower(v), w, k) {
            let piece = text::lower(v).subrange(k, k + 7);
            if k + 7 <= n {
                assert(f =~= v.subrange(0, n));
                sip_laws::lemma_branch_name_at(v, 0, n, k);
            } else {
                assert(piece[n - k] == text::lower(v)[n]);
            }
        }
    }
    assert(v.subrange(n + 8, n + 8 + branch.len()) =~= branch);
    sip_laws::lemma_branch_is(v, n + 1, branch);
}

// ── Laws ────────────────────────────────────────────────────────────────

/// A request built in a dialog presents the identity of the dialog: its
/// target, both tags, Call-ID and the CSeq number, and the branch that it was
/// given. The branch is read back where no part of the Via before it names
/// another one.
pub proof fn law_request_carries_dialog_identity(
    method: Seq<char>,
    d: DialogInfo,
    cseq: nat,
    branch: Seq<char>,
    extras: Seq<(Seq<char>, Seq<char>)>,
    body: Seq<char>,
)
    requires
        sip_laws::is_method(method),
        presentable(d),
        cseq <= u32::MAX,
        sip_builder::is_fresh_branch(branch),
        sip_laws::harmless_extras(extras),
    ensures
        sip_builder::request_identity(sip_builder::request_text(method, d, cseq, branch, extras, body), method) == Some(
            dialog_identity(d, cseq, branch),
        ),
        sip_builder::branch_at(via_front(d)) == via_front(d).len() ==> sip_builder::top_branch(
            sip_builder::request_text(method, d, cseq, branch, extras, body),
        ) == Some(branch),
{
    let id = dialog_identity(d, cseq, branch);
    lemma_via_is_line(d, branch);
    let length = text::decimal(vstd::utf8::encode_utf8(body).len());
    text::lemma_decimal_digits(vstd::utf8::encode_utf8(body).len());
    assert(text::is_digit(length[0]) && text::is_digit(length[length.len() - 1]));
    assert(!length.contains('\n')) by {
        assert forall|i: int| 0 <= i < length.len() implies length[i] != '\n' by {
            assert(text::is_digit(length[i]));
        }
    }
    sip_laws::lemma_no_lf_is_line(length);
    sip_laws::law_request_reads_back(id, method, extras, length, body);
    assert(sip_laws::full_pairs(id, method, extras, length) =~= sip_builder::request_pairs(
        method,
        d,
        cseq,
        branch,
        extras,
        body,
    ));
    if sip_builder::branch_at(via_front(d)) == via_front(d).len() {
        lemma_via_has_the_branch(d, branch);
    }
}

proof fn lemma_refresh_extras(
    contact: Seq<char>,
    session_expires: Option<(u32, &str)>,
    min_se: Option<u32>,
)
    requires
        sip_laws::one_line(contact),
        session_expires matches Some((_, who)) ==> sip_laws::one_line(who@),
    ensures
        sip_laws::harmless_extras(sip_builder::refresh_extras(contact, session_expires, min_se)),
{
    reveal_strlit("Contact");
    reveal_strlit("Supported");
    reveal_strlit("Session-Expires");
    reveal_strlit("Min-SE");
    reveal_strlit("Content-Type");
    reveal_strlit("timer");
    reveal_strlit(";refresher=");
    reveal_strlit("application/sdp");
    reveal_strlit("via");
    reveal_strlit("v");
    reveal_strlit("from");
    reveal_strlit("f");
    reveal_strlit("to");
    reveal_strlit("t");
    reveal_strlit("call-id");
    reveal_strlit("i");
    reveal_strlit("cseq");
    reveal_strlit("route");
    let v = sip_builder::refresh_extras(contact, session_expires, min_se);
    sip_laws::lemma_no_lf_is_line("timer"@);
    sip_laws::lemma_no_lf_is_line("application/sdp"@);
    if let Some((n, who)) = session_expires {
        let d = text::decimal(n as nat);
        text::lemma_decimal_digits(n as nat);
        let front = d + ";refresher="@;
        assert(!front.contains('\n')) by {
            assert forall|i: int| 0 <= i < front.len() implies front[i] != '\n' by {
                if i < d.len() {
                    assert(text::is_digit(d[i]));
                } else {
                    assert(front[i] == ";refresher="@[i - d.len()]);
                }
            }
        }
        sip_laws::lemma_no_lf_is_line(front);
        assert(front.last() == '=');
        sip_laws::lemma_line_after_text(front, who@);
    }
    if let Some(n) = min_se {
        let d = text::decimal(n as nat);
        text::lemma_decimal_digits(n as nat);
        assert(!d.contains('\n')) by {
            assert forall|i: int| 0 <= i < d.len() implies d[i] != '\n' by {
                assert(text::is_digit(d[i]));
            }
        }
        sip_laws::lemma_no_lf_is_line(d);
    }
    assert forall|a: Seq<char>, b: Seq<char>| #[trigger] text::same_text(a, b) implies a.len() == b.len()
        && (a.len() > 0 ==> text::lower_char(a[0]) == text::lower_char(b[0])) by {
        sip_laws::lemma_same_text_len(a, b);
    }
    assert(!text::same_text("Contact"@, "call-id"@)) by {
        assert(text::lower("Contact"@)[1] == 'o');
        assert(text::lower("call-id"@)[1] == 'a');
    }
    assert forall|i: int| 0 <= i < v.len() implies sip_laws::is_written(#[trigger] v[i]) && (v[i].0 == "Contact"@
        || v[i].0 == "Supported"@ || v[i].0 == "Session-Expires"@ || v[i].0 == "Min-SE"@ || v[i].0
        == "Content-Type"@) by {}
}

/// A session refresh presents the dialog as it was established: target, From,
/// To, Call-ID and CSeq number are those of the dialog, there is no Route,
/// and the branch of its Via is the fresh one.
pub proof fn law_refresh_carries_dialog_identity(
    d: DialogInfo,
    sdp: Seq<char>,
    contact: Seq<char>,
    session_expires: Option<(u32, &str)>,
    min_se: Option<u32>,
    branch: Seq<char>,
)
    requires
        presentable(d),
        sip_builder::branch_at(via_front(d)) == via_front(d).len(),
        sip_laws::one_line(contact),
        session_expires matches Some((_, who)) ==> sip_laws::one_line(who@),
        sip_builder::is_fresh_branch(branch),
    ensures
        ({
            let raw = sip_builder::request_text(
                "INVITE"@,
                d,
                d.cseq as nat,
                branch,
                sip_builder::refresh_extras(contact, session_expires, min_se),
                sdp,
            );
            &&& sip_builder::invite_identity(raw) == Some(dialog_identity(d, d.cseq as nat, branch))
            &&& sip_builder::top_branch(raw) == Some(branch)
        }),
{
    reveal_strlit("INVITE");
    lemma_refresh_extras(contact, session_expires, min_se);
    law_request_carries_dialog_identity(
        "INVITE"@,
        d,
        d.cseq as nat,
        branch,
        sip_builder::refresh_extras(contact, session_expires, min_se),
        sdp,
    );
}

} // verus!
