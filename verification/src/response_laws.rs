//! What a response keeps of the request that it answers, and what the caller
//! sees of a response of the callee.

use crate::headers;
use crate::invite_handler;
use crate::invite_tx;
use crate::message;
use crate::raw_message::RawView;
use crate::raw_message;
use crate::responses;
use crate::sip_builder;
use crate::sip_laws;
use crate::text;
use vstd::prelude::*;

verus! {

// ── Values of edited header lists ───────────────────────────────────────

/// The values of two lists of lines put together.
pub proof fn lemma_values_concat(x: Seq<Seq<char>>, y: Seq<Seq<char>>, a: Seq<char>, b: Seq<char>)
    ensures
        headers::header_values(x + y, a, b) == headers::header_values(x, a, b) + headers::header_values(y, a, b),
    decreases x.len(),
{
    if x.len() == 0 {
        assert(x + y =~= y);
        assert(headers::header_values(x, a, b) + headers::header_values(y, a, b) =~= headers::header_values(y, a, b));
    } else {
        let t = x.skip(1);
        lemma_values_concat(t, y, a, b);
        assert((x + y).skip(1) =~= t + y);
        assert((x + y)[0] == x[0]);
        assert(headers::header_values(x + y, a, b) =~= headers::header_values(x, a, b) + headers::header_values(y, a, b));
    }
}

/// Lines without a header of the names have no values.
proof fn lemma_no_values(ls: Seq<Seq<char>>, a: Seq<char>, b: Seq<char>)
    requires
        forall|i: int| 0 <= i < ls.len() ==> !headers::is_header(#[trigger] ls[i], a, b),
    ensures
        headers::header_values(ls, a, b) == Seq::<Seq<char>>::empty(),
    decreases ls.len(),
{
    if ls.len() > 0 {
        let t = ls.skip(1);
        assert forall|i: int| 0 <= i < t.len() implies !headers::is_header(#[trigger] t[i], a, b) by {
            assert(t[i] == ls[i + 1]);
        }
        lemma_no_values(t, a, b);
        assert(!headers::is_header(ls[0], a, b));
    }
}

/// What removing a header leaves is among what was there and has another
/// name.
proof fn lemma_without_header(ls: Seq<Seq<char>>, name: Seq<char>)
    ensures
        forall|i: int|
            0 <= i < raw_message::without_header(ls, name).len() ==> !headers::is_header(
                #[trigger] raw_message::without_header(ls, name)[i],
                name,
                name,
            ) && ls.contains(raw_message::without_header(ls, name)[i]),
    decreases ls.len(),
{
    if ls.len() > 0 {
        let d = ls.drop_last();
        let w = raw_message::without_header(d, name);
        let v = raw_message::without_header(ls, name);
        lemma_without_header(d, name);
        assert forall|i: int| 0 <= i < v.len() implies !headers::is_header(#[trigger] v[i], name, name)
            && ls.contains(v[i]) by {
            if i < w.len() {
                assert(v[i] == w[i]);
                let j = choose|j: int| 0 <= j < d.len() && d[j] == w[i];
                assert(ls[j] == v[i]);
            } else {
                assert(ls[ls.len() - 1] == v[i]);
            }
        }
    }
}

/// Removing a header leaves the values of the others.
proof fn lemma_removal_keeps(
    ls: Seq<Seq<char>>,
    name: Seq<char>,
    a: Seq<char>,
    b: Seq<char>,
)
    requires
        !text::same_text(name, a),
        !text::same_text(name, b),
    ensures
        headers::header_values(raw_message::without_header(ls, name), a, b) == headers::header_values(ls, a, b),
    decreases ls.len(),
{
    if ls.len() > 0 {
        let d = ls.drop_last();
        let l = ls.last();
        let w = raw_message::without_header(d, name);
        lemma_removal_keeps(d, name, a, b);
        assert(ls =~= d + seq![l]);
        lemma_values_concat(d, seq![l], a, b);
        lemma_values_concat(w, seq![l], a, b);
        assert(w.push(l) =~= w + seq![l]);
        if headers::is_header(l, name, name) {
            assert(!headers::is_header(l, a, b)) by {
                let n = (text::split_once(l, ':')->0).0;
                assert(text::lower(text::trim(n)) == text::lower(name));
            }
            let one = seq![l];
            assert forall|i: int| 0 <= i < one.len() implies !headers::is_header(#[trigger] one[i], a, b) by {
            }
            lemma_no_values(one, a, b);
            assert(headers::header_values(d, a, b) + Seq::<Seq<char>>::empty() =~= headers::header_values(d, a, b));
        }
    }
}

/// Replacing a line that is not one of the names by another such line leaves
/// the values.
proof fn lemma_update_keeps(
    ls: Seq<Seq<char>>,
    i: int,
    l: Seq<char>,
    a: Seq<char>,
    b: Seq<char>,
)
    requires
        0 <= i < ls.len(),
        !headers::is_header(ls[i], a, b),
        !headers::is_header(l, a, b),
    ensures
        headers::header_values(ls.update(i, l), a, b) == headers::header_values(ls, a, b),
    decreases ls.len(),
{
    let n = ls.update(i, l);
    if i == 0 {
        assert(n.skip(1) =~= ls.skip(1));
    } else {
        assert(n.skip(1) =~= ls.skip(1).update(i - 1, l));
        lemma_update_keeps(ls.skip(1), i - 1, l, a, b);
    }
}

/// A line `name: value` is a header of that name only.
pub proof fn lemma_named_line(name: Seq<char>, v: Seq<char>, a: Seq<char>, b: Seq<char>)
    requires
        sip_laws::is_name(name),
    ensures
        headers::is_header(name + ": "@ + v, a, b) == sip_laws::asks_for(name, a, b),
{
    reveal_strlit(": ");
    let l = name + ": "@ + v;
    let n = name.len() as int;
    assert(l[n] == ':');
    assert forall|k: int| 0 <= k < n implies l[k] != ':' by {
        assert(l[k] == name[k]);
    }
    text::lemma_find_char_is(l, ':', 0, n);
    assert(l.take(n) =~= name);
    lemma_name_is_trimmed(name);
}

proof fn lemma_name_is_trimmed(name: Seq<char>)
    requires
        sip_laws::is_name(name),
    ensures
        text::trim(name) == name,
{
    assert(sip_laws::is_trimmed(name)) by {
        assert(!text::is_space(name[0]));
        assert(!text::is_space(name[name.len() - 1]));
    }
    sip_laws::lemma_trim_after_space(name);
}

// ── The caller's view ───────────────────────────────────────────────────

/// The names that fitting a response to the caller touches.
proof fn lemma_names_differ()
    ensures
        !text::same_text("contact"@, "via"@) && !text::same_text("contact"@, "v"@),
        !text::same_text("m"@, "via"@) && !text::same_text("m"@, "v"@),
        !text::same_text("record-route"@, "via"@) && !text::same_text("record-route"@, "v"@),
        !sip_laws::asks_for("CSeq"@, "via"@, "v"@),
        !sip_laws::asks_for("Contact"@, "via"@, "v"@),
        !sip_laws::asks_for("Record-Route"@, "via"@, "v"@),
        sip_laws::is_name("CSeq"@) && sip_laws::is_name("Contact"@) && sip_laws::is_name("Record-Route"@),
{
    reveal_strlit("contact");
    reveal_strlit("via");
    reveal_strlit("v");
    reveal_strlit("m");
    reveal_strlit("record-route");
    reveal_strlit("CSeq");
    reveal_strlit("Contact");
    reveal_strlit("Record-Route");
    sip_laws::lemma_same_text_len("contact"@, "via"@);
    sip_laws::lemma_same_text_len("contact"@, "v"@);
    sip_laws::lemma_same_text_len("m"@, "via"@);
    sip_laws::lemma_same_text_len("m"@, "v"@);
    sip_laws::lemma_same_text_len("record-route"@, "via"@);
    sip_laws::lemma_same_text_len("record-route"@, "v"@);
    sip_laws::lemma_same_text_len("CSeq"@, "via"@);
    sip_laws::lemma_same_text_len("CSeq"@, "v"@);
    sip_laws::lemma_same_text_len("Contact"@, "via"@);
    sip_laws::lemma_same_text_len("Contact"@, "v"@);
    sip_laws::lemma_same_text_len("Record-Route"@, "via"@);
    sip_laws::lemma_same_text_len("Record-Route"@, "v"@);
}

/// The Vias that the caller sees are its own, whatever the callee's response
/// carried; the status line and the body are the callee's.
pub proof fn law_caller_sees_its_own_vias(
    m: RawView,
    vias: Seq<Seq<char>>,
    id: Option<(Seq<char>, Seq<char>)>,
    cseq: Option<u32>,
)
    ensures
        responses::caller_response(m, vias, id, cseq).start == m.start,
        responses::caller_response(m, vias, id, cseq).body == m.body,
        headers::header_values(responses::caller_response(m, vias, id, cseq).headers, "via"@, "v"@) == headers::header_values(
            vias,
            "via"@,
            "v"@,
        ),
{
    lemma_names_differ();
    let a = "via"@;
    let b = "v"@;
    let h1 = raw_message::without_header(m.headers, a);
    let h2 = raw_message::without_header(h1, b);
    lemma_without_header(m.headers, a);
    lemma_without_header(h1, b);
    assert forall|i: int| 0 <= i < h2.len() implies !headers::is_header(#[trigger] h2[i], a, b) by {
        assert(h1.contains(h2[i]));
        let j = choose|j: int| 0 <= j < h1.len() && h1[j] == h2[i];
        assert(!headers::is_header(h1[j], a, a));
        assert(!headers::is_header(h2[i], b, b));
    }
    lemma_no_values(h2, a, b);
    let h = responses::caller_via_headers(m.headers, vias);
    lemma_values_concat(vias, h2, a, b);
    assert(headers::header_values(vias, a, b) + Seq::<Seq<char>>::empty() =~= headers::header_values(vias, a, b));
    assert(headers::header_values(h, a, b) == headers::header_values(vias, a, b));
    let q = responses::caller_cseq_headers(h, cseq);
    assert(headers::header_values(q, a, b) == headers::header_values(h, a, b)) by {
        if cseq is Some && responses::is_invite_cseq(raw_message::line_value(h, "cseq"@)) {
            lemma_cseq_kept(h, cseq->0);
        }
    }
    lemma_hidden_keeps(q, id, a, b);
}

proof fn lemma_cseq_kept(h: Seq<Seq<char>>, n: u32)
    ensures
        headers::header_values(
            raw_message::with_header(h, "CSeq"@, text::decimal(n as nat) + " INVITE"@),
            "via"@,
            "v"@,
        ) == headers::header_values(h, "via"@, "v"@),
{
    lemma_names_differ();
    let name = "CSeq"@;
    let v = text::decimal(n as nat) + " INVITE"@;
    let line = name + ": "@ + v;
    lemma_named_line(name, v, "via"@, "v"@);
    let i = raw_message::header_index(h, name);
    raw_message::lemma_header_index(h, name);
    if i < h.len() {
        assert(!headers::is_header(h[i], "via"@, "v"@)) by {
            let w = (text::split_once(h[i], ':')->0).0;
            assert(text::lower(text::trim(w)) == text::lower(name));
        }
        lemma_update_keeps(h, i, line, "via"@, "v"@);
    } else {
        lemma_push_keeps(h, line, "via"@, "v"@);
    }
}

proof fn lemma_push_keeps(ls: Seq<Seq<char>>, l: Seq<char>, a: Seq<char>, b: Seq<char>)
    requires
        !headers::is_header(l, a, b),
    ensures
        headers::header_values(ls.push(l), a, b) == headers::header_values(ls, a, b),
        headers::header_values(seq![l] + ls, a, b) == headers::header_values(ls, a, b),
{
    let one = seq![l];
    assert forall|i: int| 0 <= i < one.len() implies !headers::is_header(#[trigger] one[i], a, b) by {
    }
    lemma_no_values(one, a, b);
    lemma_values_concat(ls, one, a, b);
    lemma_values_concat(one, ls, a, b);
    assert(ls.push(l) =~= ls + one);
    assert(headers::header_values(ls, a, b) + Seq::<Seq<char>>::empty() =~= headers::header_values(ls, a, b));
    assert(Seq::<Seq<char>>::empty() + headers::header_values(ls, a, b) =~= headers::header_values(ls, a, b));
}

proof fn lemma_hidden_keeps(
    h: Seq<Seq<char>>,
    id: Option<(Seq<char>, Seq<char>)>,
    a: Seq<char>,
    b: Seq<char>,
)
    requires
        !text::same_text("contact"@, a) && !text::same_text("contact"@, b),
        !text::same_text("m"@, a) && !text::same_text("m"@, b),
        !text::same_text("record-route"@, a) && !text::same_text("record-route"@, b),
        !sip_laws::asks_for("Contact"@, a, b),
        !sip_laws::asks_for("Record-Route"@, a, b),
    ensures
        headers::header_values(responses::hidden_headers(h, id), a, b) == headers::header_values(h, a, b),
{
    lemma_names_differ();
    if let Some((contact, route)) = id {
        let w = raw_message::without_header(raw_message::without_header(h, "contact"@), "m"@);
        let line = "Contact: <"@ + contact + ">"@;
        let rr = "Record-Route: "@ + route;
        lemma_removal_keeps(h, "contact"@, a, b);
        lemma_removal_keeps(raw_message::without_header(h, "contact"@), "m"@, a, b);
        reveal_strlit("Contact: <");
        reveal_strlit("Contact");
        reveal_strlit("Record-Route: ");
        reveal_strlit("Record-Route");
        reveal_strlit(": ");
        assert(line =~= "Contact"@ + ": "@ + (seq!['<'] + contact + ">"@));
        lemma_named_line("Contact"@, seq!['<'] + contact + ">"@, a, b);
        lemma_push_keeps(w, line, a, b);
        let c = if raw_message::line_value(h, "contact"@) is Some {
            w.push(line)
        } else {
            h
        };
        lemma_removal_keeps(c, "record-route"@, a, b);
        assert(rr =~= "Record-Route"@ + ": "@ + route);
        lemma_named_line("Record-Route"@, route, a, b);
        lemma_push_keeps(raw_message::without_header(c, "record-route"@), rr, a, b);
    }
}

/// The first line of a name holds the first of its values.
proof fn lemma_line_is_first(ls: Seq<Seq<char>>, name: Seq<char>)
    ensures
        raw_message::line_value(ls, name) == (if headers::header_values(ls, name, name).len() > 0 {
            Some(headers::header_values(ls, name, name)[0])
        } else {
            None
        }),
    decreases ls.len(),
{
    raw_message::lemma_header_index(ls, name);
    if ls.len() > 0 && !headers::is_header(ls[0], name, name) {
        let t = ls.skip(1);
        raw_message::lemma_header_index(t, name);
        lemma_line_is_first(t, name);
        if raw_message::header_index(t, name) < t.len() {
            assert(t[raw_message::header_index(t, name)] == ls[raw_message::header_index(ls, name)]);
        }
    }
}

/// Hiding this side's topology leaves the CSeq.
proof fn lemma_hidden_keeps_cseq(h: Seq<Seq<char>>, id: Option<(Seq<char>, Seq<char>)>)
    ensures
        raw_message::line_value(responses::hidden_headers(h, id), "cseq"@) == raw_message::line_value(h, "cseq"@),
{
    reveal_strlit("cseq");
    reveal_strlit("contact");
    reveal_strlit("m");
    reveal_strlit("record-route");
    reveal_strlit("Contact");
    reveal_strlit("Record-Route");
    sip_laws::lemma_same_text_len("contact"@, "cseq"@);
    sip_laws::lemma_same_text_len("m"@, "cseq"@);
    sip_laws::lemma_same_text_len("record-route"@, "cseq"@);
    sip_laws::lemma_same_text_len("Contact"@, "cseq"@);
    sip_laws::lemma_same_text_len("Record-Route"@, "cseq"@);
    lemma_hidden_keeps(h, id, "cseq"@, "cseq"@);
    lemma_line_is_first(h, "cseq"@);
    lemma_line_is_first(responses::hidden_headers(h, id), "cseq"@);
}

/// The CSeq number that the caller sees is that of its own INVITE, however
/// often the callee's leg was tried again and whether or not this side's
/// topology is hidden.
pub proof fn law_caller_sees_its_own_cseq(
    m: RawView,
    vias: Seq<Seq<char>>,
    id: Option<(Seq<char>, Seq<char>)>,
    n: u32,
)
    requires
        responses::is_invite_cseq(raw_message::line_value(responses::caller_via_headers(m.headers, vias), "cseq"@)),
    ensures
        raw_message::line_value(responses::caller_response(m, vias, id, Some(n)).headers, "cseq"@) == Some(
            text::decimal(n as nat) + " INVITE"@,
        ),
{
    let h = responses::caller_via_headers(m.headers, vias);
    let v = text::decimal(n as nat) + " INVITE"@;
    let line = "CSeq"@ + ": "@ + v;
    reveal_strlit("CSeq");
    reveal_strlit("cseq");
    reveal_strlit(" INVITE");
    assert(sip_laws::is_name("CSeq"@));
    assert(text::same_text("CSeq"@, "cseq"@)) by {
        assert(text::lower("CSeq"@) =~= text::lower("cseq"@));
    }
    lemma_same_names(h);
    raw_message::lemma_header_index(h, "cseq"@);
    let i = raw_message::header_index(h, "cseq"@);
    let r = h.update(i, line);
    lemma_named_line("CSeq"@, v, "cseq"@, "cseq"@);
    text::lemma_decimal_digits(n as nat);
    assert(sip_laws::is_trimmed(v)) by {
        assert(v[0] == text::decimal(n as nat)[0]);
        assert(v.last() == 'E');
    }
    assert(sip_laws::one_line(v)) by {
        assert(!v.contains('\n')) by {
            if v.contains('\n') {
                let k = choose|k: int| 0 <= k < v.len() && v[k] == '\n';
                if k < text::decimal(n as nat).len() {
                    assert(v[k] == text::decimal(n as nat)[k]);
                } else {
                    assert(v[k] == " INVITE"@[k - text::decimal(n as nat).len()]);
                }
            }
        }
        sip_laws::lemma_no_lf_is_line(v);
    }
    sip_laws::lemma_header_line("CSeq"@, v);
    lemma_index_is(r, "cseq"@, i);
    lemma_hidden_keeps_cseq(r, id);
}

proof fn lemma_index_is(ls: Seq<Seq<char>>, name: Seq<char>, at: int)
    requires
        0 <= at < ls.len(),
        headers::is_header(ls[at], name, name),
        forall|i: int| 0 <= i < at ==> !headers::is_header(#[trigger] ls[i], name, name),
    ensures
        raw_message::header_index(ls, name) == at,
{
    raw_message::lemma_header_index(ls, name);
    let n = raw_message::header_index(ls, name);
    if n < at {
        assert(headers::is_header(ls[n], name, name));
    }
}

/// `CSeq` and `cseq` find the same line.
proof fn lemma_same_names(h: Seq<Seq<char>>)
    requires
        text::same_text("CSeq"@, "cseq"@),
    ensures
        raw_message::header_index(h, "CSeq"@) == raw_message::header_index(h, "cseq"@),
    decreases h.len(),
{
    if h.len() > 0 {
        lemma_same_names(h.skip(1));
    }
}

// ── A response and its request ──────────────────────────────────────────

/// The first Via among header lines is the first of the Vias.
proof fn lemma_first_via(hs: Seq<Seq<char>>)
    ensures
        match headers::first_prefixed(hs, "via:"@, "v:"@) {
            Some(l) => responses::via_pairs(hs).len() > 0 && responses::via_pairs(hs)[0] == responses::line_pair(l) && sip_builder::is_via_line(l)
                && hs.contains(l),
            None => responses::via_pairs(hs).len() == 0,
        },
    decreases hs.len(),
{
    if hs.len() > 0 {
        let d = hs.drop_last();
        lemma_first_via(d);
        lemma_prefixed_last(hs, "via:"@, "v:"@);
        match headers::first_prefixed(d, "via:"@, "v:"@) {
            Some(l) => {
                let j = choose|j: int| 0 <= j < d.len() && d[j] == l;
                assert(hs[j] == l);
            },
            None => {
                assert(hs[hs.len() - 1] == hs.last());
            },
        }
    }
}

/// The first line with a prefix, by the end of the list.
proof fn lemma_prefixed_last(ls: Seq<Seq<char>>, a: Seq<char>, b: Seq<char>)
    requires
        ls.len() > 0,
    ensures
        headers::first_prefixed(ls, a, b) == (match headers::first_prefixed(ls.drop_last(), a, b) {
            Some(l) => Some(l),
            None => if text::starts_with_word(ls.last(), a) || text::starts_with_word(ls.last(), b) {
                Some(ls.last())
            } else {
                None
            },
        }),
    decreases ls.len(),
{
    if ls.len() > 1 {
        let t = ls.skip(1);
        assert(t.drop_last() =~= ls.drop_last().skip(1));
        assert(t.last() == ls.last());
        assert(ls.drop_last()[0] == ls[0]);
        lemma_prefixed_last(t, a, b);
    } else {
        assert(ls.skip(1) =~= Seq::empty());
        assert(ls.drop_last() =~= Seq::empty());
    }
}

/// A line found by its prefix is among the lines.
proof fn lemma_prefixed_contained(ls: Seq<Seq<char>>, a: Seq<char>, b: Seq<char>)
    ensures
        match headers::first_prefixed(ls, a, b) {
            Some(l) => ls.contains(l),
            None => true,
        },
    decreases ls.len(),
{
    if ls.len() > 0 && !(text::starts_with_word(ls[0], a) || text::starts_with_word(ls[0], b)) {
        lemma_prefixed_contained(ls.skip(1), a, b);
        match headers::first_prefixed(ls, a, b) {
            Some(l) => {
                let j = choose|j: int| 0 <= j < ls.skip(1).len() && ls.skip(1)[j] == l;
                assert(ls[j + 1] == l);
            },
            None => {},
        }
    } else if ls.len() > 0 {
        assert(ls[0] == ls[0]);
    }
}

/// The value of a header line is a trimmed line.
proof fn lemma_field_is_line(l: Seq<char>)
    requires
        sip_laws::one_line(l),
    ensures
        sip_laws::one_line(headers::header_field(l)),
        sip_laws::is_trimmed(headers::header_field(l)),
{
    match text::split_once(l, ':') {
        Some((_, v)) => {
            sip_laws::lemma_trim(v);
            let (a, b) = choose|a: int, b: int|
                0 <= a <= b <= v.len() && text::trim(v) == #[trigger] v.subrange(a, b);
            let at = text::find_char(l, ':', 0);
            text::lemma_find_char(l, ':', 0);
            sip_laws::lemma_piece_is_line(l, at + 1, l.len() as int);
            assert(l.skip(at + 1) =~= l.subrange(at + 1, l.len() as int));
            sip_laws::lemma_piece_is_line(v, a, b);
        },
        None => {
            sip_laws::lemma_no_lf_is_line(Seq::<char>::empty());
        },
    }
}

/// A value read from header lines is a trimmed line.
proof fn lemma_value_is_line(hs: Seq<Seq<char>>, a: Seq<char>, b: Seq<char>)
    requires
        forall|i: int| 0 <= i < hs.len() ==> sip_laws::one_line(#[trigger] hs[i]),
    ensures
        match message::first_value(hs, a, b) {
            Some(v) => sip_laws::one_line(v) && sip_laws::is_trimmed(v),
            None => true,
        },
{
    lemma_prefixed_contained(hs, a, b);
    match headers::first_prefixed(hs, a, b) {
        Some(l) => {
            let j = choose|j: int| 0 <= j < hs.len() && hs[j] == l;
            assert(sip_laws::one_line(hs[j]));
            lemma_field_is_line(l);
        },
        None => {},
    }
}

/// The name of a Via line.
proof fn lemma_via_name(l: Seq<char>)
    requires
        sip_builder::is_via_line(l),
    ensures
        responses::line_pair(l).1 == headers::header_field(l),
        sip_laws::is_name(responses::line_pair(l).0),
        sip_laws::asks_for(responses::line_pair(l).0, "via"@, "v"@),
        text::starts_with_word(l, "via:"@) ==> text::same_text(responses::line_pair(l).0, "via"@),
{
    reveal_strlit("via:");
    reveal_strlit("v:");
    reveal_strlit("via");
    reveal_strlit("v");
    let n = if text::starts_with_word(l, "via:"@) {
        3int
    } else {
        1int
    };
    let p = if text::starts_with_word(l, "via:"@) {
        "via:"@
    } else {
        "v:"@
    };
    let w = if text::starts_with_word(l, "via:"@) {
        "via"@
    } else {
        "v"@
    };
    let head = l.take(p.len() as int);
    assert(text::lower(head) == text::lower(p));
    assert forall|k: int| 0 <= k < p.len() implies text::lower_char(#[trigger] l[k]) == text::lower_char(p[k]) by {
        assert(text::lower(head)[k] == text::lower_char(head[k]));
        assert(text::lower(p)[k] == text::lower_char(p[k]));
        assert(head[k] == l[k]);
    }
    assert(l[n] == ':') by {
        assert(text::lower_char(l[n]) == text::lower_char(p[n]));
    }
    assert forall|k: int| 0 <= k < n implies l[k] != ':' && !text::is_space(l[k]) && l[k] != '\n' by {
        assert(text::lower_char(l[k]) == text::lower_char(p[k]));
    }
    text::lemma_find_char_is(l, ':', 0, n);
    let name = l.take(n);
    assert forall|k: int| 0 <= k < name.len() implies (#[trigger] name[k]) != ':' && !text::is_space(
        name[k],
    ) && name[k] != '\n' by {
        assert(name[k] == l[k]);
    }
    assert(sip_laws::is_name(name));
    lemma_name_is_trimmed(name);
    assert(text::lower(name) =~= text::lower(w)) by {
        assert forall|k: int| 0 <= k < n implies text::lower(name)[k] == text::lower(w)[k] by {
            assert(text::lower_char(l[k]) == text::lower_char(p[k]));
            assert(name[k] == l[k]);
            assert(w[k] == p[k]);
        }
    }
}

/// The Vias of a response are headers, and none but them is found under the
/// name.
proof fn lemma_via_pairs(hs: Seq<Seq<char>>)
    requires
        forall|i: int| 0 <= i < hs.len() ==> sip_laws::one_line(#[trigger] hs[i]),
    ensures
        sip_laws::are_pairs(responses::via_pairs(hs)),
        forall|i: int|
            0 <= i < responses::via_pairs(hs).len() ==> sip_laws::asks_for(
                (#[trigger] responses::via_pairs(hs)[i]).0,
                "via"@,
                "v"@,
            ),
    decreases hs.len(),
{
    if hs.len() > 0 {
        let d = hs.drop_last();
        let l = hs.last();
        assert forall|i: int| 0 <= i < d.len() implies sip_laws::one_line(#[trigger] d[i]) by {
            assert(d[i] == hs[i]);
        }
        lemma_via_pairs(d);
        assert(sip_laws::one_line(hs[hs.len() - 1]));
        if sip_builder::is_via_line(l) {
            lemma_via_name(l);
            lemma_field_is_line(l);
            let v = responses::via_pairs(hs);
            let w = responses::via_pairs(d);
            assert forall|i: int| 0 <= i < v.len() implies sip_laws::is_pair(#[trigger] v[i]) by {
                if i < w.len() {
                    assert(v[i] == w[i]);
                }
            }
            assert forall|i: int| 0 <= i < v.len() implies sip_laws::asks_for(
                (#[trigger] v[i]).0,
                "via"@,
                "v"@,
            ) by {
                if i < w.len() {
                    assert(v[i] == w[i]);
                }
            }
        }
    }
}

/// The values of pairs put together.
proof fn lemma_pair_values_concat(
    x: Seq<(Seq<char>, Seq<char>)>,
    y: Seq<(Seq<char>, Seq<char>)>,
    a: Seq<char>,
    b: Seq<char>,
)
    ensures
        sip_laws::pair_values(x + y, a, b) == sip_laws::pair_values(x, a, b) + sip_laws::pair_values(y, a, b),
    decreases y.len(),
{
    if y.len() == 0 {
        assert(x + y =~= x);
        assert(sip_laws::pair_values(x, a, b) + sip_laws::pair_values(y, a, b) =~= sip_laws::pair_values(x, a, b));
    } else {
        lemma_pair_values_concat(x, y.drop_last(), a, b);
        assert((x + y).drop_last() =~= x + y.drop_last());
        assert((x + y).last() == y.last());
        assert(sip_laws::pair_values(x + y, a, b) =~= sip_laws::pair_values(x, a, b) + sip_laws::pair_values(y, a, b));
    }
}

/// Pairs of other names have no values.
proof fn lemma_no_pair_values(v: Seq<(Seq<char>, Seq<char>)>, a: Seq<char>, b: Seq<char>)
    requires
        forall|i: int| 0 <= i < v.len() ==> !sip_laws::asks_for((#[trigger] v[i]).0, a, b),
    ensures
        sip_laws::pair_values(v, a, b) == Seq::<Seq<char>>::empty(),
    decreases v.len(),
{
    if v.len() > 0 {
        let d = v.drop_last();
        assert forall|i: int| 0 <= i < d.len() implies !sip_laws::asks_for((#[trigger] d[i]).0, a, b) by {
            assert(d[i] == v[i]);
        }
        lemma_no_pair_values(d, a, b);
        assert(!sip_laws::asks_for(v[v.len() - 1].0, a, b));
    }
}

/// The first pair, where it has the name, gives the first value.
proof fn lemma_first_pair_value(v: Seq<(Seq<char>, Seq<char>)>, a: Seq<char>, b: Seq<char>)
    requires
        v.len() > 0,
        sip_laws::asks_for(v[0].0, a, b),
    ensures
        sip_laws::pair_values(v, a, b).len() > 0,
        sip_laws::pair_values(v, a, b)[0] == v[0].1,
    decreases v.len(),
{
    if v.len() > 1 {
        lemma_first_pair_value(v.drop_last(), a, b);
    } else {
        assert(v.drop_last() =~= Seq::empty());
        assert(sip_laws::pair_values(v.drop_last(), a, b) =~= Seq::empty());
    }
}

/// The five headers that every response has besides its Vias.
spec fn echoed_tail(
    f: Seq<char>,
    t: Seq<char>,
    c: Seq<char>,
    q: Seq<char>,
) -> Seq<(Seq<char>, Seq<char>)> {
    seq![("From"@, f), ("To"@, t), ("Call-ID"@, c), ("CSeq"@, q), ("Content-Length"@, "0"@)]
}

proof fn lemma_tail_values(f: Seq<char>, t: Seq<char>, c: Seq<char>, q: Seq<char>)
    ensures
        sip_laws::pair_values(echoed_tail(f, t, c, q), "from"@, "from"@) == seq![f],
        sip_laws::pair_values(echoed_tail(f, t, c, q), "call-id"@, "call-id"@) == seq![c],
        sip_laws::pair_values(echoed_tail(f, t, c, q), "cseq"@, "cseq"@) == seq![q],
        sip_laws::pair_values(echoed_tail(f, t, c, q), "via"@, "via"@) == Seq::<Seq<char>>::empty(),
{
    reveal_strlit("from");
    reveal_strlit("call-id");
    reveal_strlit("cseq");
    reveal_strlit("via");
    reveal_strlit("From");
    reveal_strlit("To");
    reveal_strlit("Call-ID");
    reveal_strlit("CSeq");
    reveal_strlit("Content-Length");
    assert(text::lower("From"@) =~= text::lower("from"@));
    assert(text::lower("Call-ID"@) =~= text::lower("call-id"@));
    assert(text::lower("CSeq"@) =~= text::lower("cseq"@));
    assert("from"@[0] == 'f' && "cseq"@[0] == 'c');
    assert("from"@ != "cseq"@);
    lemma_tail_names("from"@);
    lemma_tail_names("call-id"@);
    lemma_tail_names("cseq"@);
    lemma_tail_names("via"@);
    lemma_tail_of(f, t, c, q, "from"@);
    lemma_tail_of(f, t, c, q, "call-id"@);
    lemma_tail_of(f, t, c, q, "cseq"@);
    lemma_tail_of(f, t, c, q, "via"@);
}

/// Which of the five names a name is.
proof fn lemma_tail_names(a: Seq<char>)
    requires
        a == "from"@ || a == "call-id"@ || a == "cseq"@ || a == "via"@,
    ensures
        text::same_text("From"@, a) ==> a == "from"@,
        text::same_text("Call-ID"@, a) ==> a == "call-id"@,
        text::same_text("CSeq"@, a) ==> a == "cseq"@,
        !text::same_text("To"@, a),
        !text::same_text("Content-Length"@, a),
{
    reveal_strlit("from");
    reveal_strlit("call-id");
    reveal_strlit("cseq");
    reveal_strlit("via");
    reveal_strlit("From");
    reveal_strlit("To");
    reveal_strlit("Call-ID");
    reveal_strlit("CSeq");
    reveal_strlit("Content-Length");
    sip_laws::lemma_same_text_len("From"@, a);
    sip_laws::lemma_same_text_len("To"@, a);
    sip_laws::lemma_same_text_len("Call-ID"@, a);
    sip_laws::lemma_same_text_len("CSeq"@, a);
    sip_laws::lemma_same_text_len("Content-Length"@, a);
}

proof fn lemma_tail_of(
    f: Seq<char>,
    t: Seq<char>,
    c: Seq<char>,
    q: Seq<char>,
    a: Seq<char>,
)
    requires
        !text::same_text("To"@, a),
        !text::same_text("Content-Length"@, a),
    ensures
        sip_laws::pair_values(echoed_tail(f, t, c, q), a, a) == (if text::same_text("From"@, a) {
            seq![f]
        } else {
            Seq::empty()
        }) + (if text::same_text("Call-ID"@, a) {
            seq![c]
        } else {
            Seq::empty()
        }) + (if text::same_text("CSeq"@, a) {
            seq![q]
        } else {
            Seq::empty()
        }),
{
    let v = echoed_tail(f, t, c, q);
    let v4 = v.drop_last();
    let v3 = v4.drop_last();
    let v2 = v3.drop_last();
    let v1 = v2.drop_last();
    let v0 = v1.drop_last();
    assert(v0.len() == 0);
    assert(sip_laws::pair_values(v0, a, a) =~= Seq::empty());
    assert(v1.last() == v[0] && v2.last() == v[1] && v3.last() == v[2] && v4.last() == v[3]);
    let p1 = if text::same_text("From"@, a) {
        seq![f]
    } else {
        Seq::empty()
    };
    let p3 = if text::same_text("Call-ID"@, a) {
        seq![c]
    } else {
        Seq::empty()
    };
    let p4 = if text::same_text("CSeq"@, a) {
        seq![q]
    } else {
        Seq::empty()
    };
    assert(sip_laws::pair_values(v1, a, a) =~= p1);
    assert(sip_laws::pair_values(v2, a, a) =~= p1);
    assert(sip_laws::pair_values(v3, a, a) =~= p1 + p3);
    assert(sip_laws::pair_values(v4, a, a) =~= p1 + p3 + p4);
    assert(sip_laws::pair_values(v, a, a) =~= p1 + p3 + p4);
}

/// The second word of a status line, whatever follows it.
proof fn lemma_status_code(code: u16, rest: Seq<char>)
    ensures
        message::status_code(responses::status_line(code) + rest) == Some(code as nat),
        text::starts_with(responses::status_line(code) + rest, "SIP/2.0 "@),
{
    reveal_strlit("SIP/2.0 ");
    reveal_strlit(" ");
    let d = text::decimal(code as nat);
    text::lemma_decimal_digits(code as nat);
    let s = responses::status_line(code) + rest;
    let more = responses::phrase_of(code) + rest;
    assert(s =~= "SIP/2.0 "@ + d + " "@ + more);
    assert(s.subrange(0, 8) =~= "SIP/2.0 "@);
    assert(s[0] == 'S');
    assert(text::skip_space(s, 0) == 0);
    assert forall|k: int| 0 <= k < 7 implies !text::is_space(#[trigger] s[k]) by {
        assert(s[k] == "SIP/2.0 "@[k]);
    }
    assert(s[7] == ' ') by {
        assert(s[7] == "SIP/2.0 "@[7]);
    }
    text::lemma_find_space(s, 0);
    assert(text::find_space(s, 0) == 7);
    let t = s.skip(7);
    let n = d.len() as int;
    assert(t =~= seq![' '] + d + " "@ + more);
    text::lemma_skip_space(t, 0);
    assert(t[0] == ' ');
    assert(t[1] == d[0]);
    assert(text::skip_space(t, 0) == text::skip_space(t, 1));
    assert(text::skip_space(t, 0) == 1);
    assert forall|k: int| 1 <= k < n + 1 implies !text::is_space(#[trigger] t[k]) by {
        assert(t[k] == d[k - 1]);
    }
    assert(t[n + 1] == ' ');
    text::lemma_find_space(t, 1);
    assert(text::find_space(t, 1) == n + 1);
    assert(t.subrange(1, n + 1) =~= d);
    assert(text::tokens(s)[1] == text::tokens(t)[0]);
    assert(text::tokens(t)[0] == d);
    text::law_decimal_reads_back(code as nat, u16::MAX as nat);
}

/// Headers that a response may have besides those of its request: none of
/// them is one by which a transaction is told.
pub open spec fn further_headers(v: Seq<(Seq<char>, Seq<char>)>) -> bool {
    &&& sip_laws::are_pairs(v)
    &&& sip_laws::no_pair_named(v, "via"@, "via"@)
    &&& sip_laws::no_pair_named(v, "from"@, "from"@)
    &&& sip_laws::no_pair_named(v, "call-id"@, "call-id"@)
    &&& sip_laws::no_pair_named(v, "cseq"@, "cseq"@)
}

/// The headers of a response behind its Vias.
spec fn full_tail(
    f: Seq<char>,
    t: Seq<char>,
    c: Seq<char>,
    q: Seq<char>,
    extra: Seq<(Seq<char>, Seq<char>)>,
) -> Seq<(Seq<char>, Seq<char>)> {
    echoed_tail(f, t, c, q).drop_last() + extra + seq![("Content-Length"@, "0"@)]
}

proof fn lemma_full_tail_values(
    f: Seq<char>,
    t: Seq<char>,
    c: Seq<char>,
    q: Seq<char>,
    extra: Seq<(Seq<char>, Seq<char>)>,
    a: Seq<char>,
)
    requires
        a == "from"@ || a == "call-id"@ || a == "cseq"@ || a == "via"@,
        sip_laws::no_pair_named(extra, a, a),
    ensures
        sip_laws::pair_values(full_tail(f, t, c, q, extra), a, a) == sip_laws::pair_values(
            echoed_tail(f, t, c, q),
            a,
            a,
        ),
{
    let tail = echoed_tail(f, t, c, q);
    let four = tail.drop_last();
    let five = full_tail(f, t, c, q, extra);
    lemma_tail_names(a);
    assert(tail.last().0 == "Content-Length"@);
    assert(sip_laws::pair_values(tail, a, a) == sip_laws::pair_values(four, a, a));
    assert(five.drop_last() =~= four + extra);
    assert(five.last().0 == "Content-Length"@);
    lemma_pair_values_concat(four, extra, a, a);
    lemma_no_pair_values(extra, a, a);
    assert(sip_laws::pair_values(four, a, a) + Seq::<Seq<char>>::empty() =~= sip_laws::pair_values(four, a, a));
}

/// A response carries the transaction of the INVITE that it answers, also
/// with further headers such as a challenge or a time to wait: it is found
/// under the same key, and final from 200 on. The Via is written by its long
/// name, and the To as printed is a line.
pub proof fn law_response_answers_its_request(
    hs: Seq<Seq<char>>,
    code: u16,
    extra: Seq<(Seq<char>, Seq<char>)>,
    tag: Seq<char>,
)
    requires
        forall|i: int| 0 <= i < hs.len() ==> sip_laws::one_line(#[trigger] hs[i]),
        invite_tx::request_tx_key(hs) is Some,
        responses::response_to(hs, tag) is Some,
        sip_laws::one_line(responses::response_to(hs, tag)->0),
        sip_laws::is_trimmed(responses::response_to(hs, tag)->0),
        text::starts_with_word(headers::first_prefixed(hs, "via:"@, "v:"@)->0, "via:"@),
        responses::is_invite_cseq(message::cseq_value(hs)),
        sip_laws::one_line(responses::status_line(code)),
        further_headers(extra),
    ensures
        ({
            let r = responses::echo_response(
                code,
                responses::echoed_pairs(responses::via_pairs(hs), hs, responses::response_to(hs, tag)),
                extra,
            );
            &&& r is Some
            &&& text::starts_with(r->0, responses::status_line(code) + text::crlf())
            &&& invite_tx::response_tx_key(r->0) == Some((invite_tx::request_tx_key(hs)->0, code >= 200))
        }),
{
    let vias = responses::via_pairs(hs);
    let f = message::from_value(hs)->0;
    let t = responses::response_to(hs, tag)->0;
    let c = message::call_id_value(hs)->0;
    let q = message::cseq_value(hs)->0;
    let via_text = message::first_value(hs, "via:"@, "v:"@)->0;
    lemma_first_via(hs);
    lemma_via_pairs(hs);
    lemma_value_is_line(hs, "from:"@, "f:"@);
    lemma_value_is_line(hs, "call-id:"@, "i:"@);
    lemma_value_is_line(hs, "cseq:"@, "cseq:"@);
    let l = headers::first_prefixed(hs, "via:"@, "v:"@)->0;
    lemma_via_name(l);
    let five = echoed_tail(f, t, c, q);
    let tail = full_tail(f, t, c, q, extra);
    let pairs = vias + tail;
    let four = seq![("From"@, f), ("To"@, t), ("Call-ID"@, c), ("CSeq"@, q)];
    assert(five.drop_last() =~= four);
    assert(vias + four + extra + seq![("Content-Length"@, "0"@)] =~= pairs);
    let raw = headers::message_text(responses::status_line(code), pairs, Seq::empty());
    assert(responses::echo_response(code, responses::echoed_pairs(vias, hs, responses::response_to(hs, tag)), extra) == Some(raw));
    lemma_tail_pairs(f, t, c, q);
    assert(sip_laws::are_pairs(pairs)) by {
        assert forall|i: int| 0 <= i < pairs.len() implies sip_laws::is_pair(#[trigger] pairs[i]) by {
            let n = vias.len();
            if i < n {
                assert(pairs[i] == vias[i]);
            } else if i < n + 4 {
                assert(pairs[i] == five[i - n]);
            } else if i < n + 4 + extra.len() {
                assert(pairs[i] == extra[i - n - 4]);
            } else {
                assert(pairs[i] == five[4]);
            }
        }
    }
    lemma_tail_values(f, t, c, q);
    lemma_full_tail_values(f, t, c, q, extra, "cseq"@);
    lemma_full_tail_values(f, t, c, q, extra, "call-id"@);
    lemma_full_tail_values(f, t, c, q, extra, "from"@);
    lemma_read_one(hs, code, pairs, vias, tail, "cseq"@, seq![q]);
    lemma_read_one(hs, code, pairs, vias, tail, "call-id"@, seq![c]);
    lemma_read_one(hs, code, pairs, vias, tail, "from"@, seq![f]);
    sip_laws::law_message_reads_back(responses::status_line(code), pairs, Seq::empty(), "via"@, "via"@);
    assert(pairs[0] == vias[0]);
    lemma_first_pair_value(pairs, "via"@, "via"@);
    assert(invite_tx::raw_value(raw, "via"@) == Some(via_text));
    let rest = text::crlf() + headers::header_block(pairs) + text::crlf();
    lemma_status_code(code, rest);
    assert(raw =~= responses::status_line(code) + rest);
    let head = responses::status_line(code) + text::crlf();
    assert(raw.subrange(0, head.len() as int) =~= head);
}

proof fn lemma_tail_pairs(f: Seq<char>, t: Seq<char>, c: Seq<char>, q: Seq<char>)
    requires
        sip_laws::one_line(f) && sip_laws::is_trimmed(f),
        sip_laws::one_line(t) && sip_laws::is_trimmed(t),
        sip_laws::one_line(c) && sip_laws::is_trimmed(c),
        sip_laws::one_line(q) && sip_laws::is_trimmed(q),
    ensures
        sip_laws::are_pairs(echoed_tail(f, t, c, q)),
{
    reveal_strlit("From");
    reveal_strlit("To");
    reveal_strlit("Call-ID");
    reveal_strlit("CSeq");
    reveal_strlit("Content-Length");
    reveal_strlit("0");
    sip_laws::lemma_no_lf_is_line("0"@);
}

/// A header that is no Via is read from what follows the Vias.
proof fn lemma_read_one(
    hs: Seq<Seq<char>>,
    code: u16,
    pairs: Seq<(Seq<char>, Seq<char>)>,
    vias: Seq<(Seq<char>, Seq<char>)>,
    tail: Seq<(Seq<char>, Seq<char>)>,
    name: Seq<char>,
    value: Seq<Seq<char>>,
)
    requires
        pairs == vias + tail,
        sip_laws::are_pairs(pairs),
        sip_laws::one_line(responses::status_line(code)),
        forall|i: int| 0 <= i < vias.len() ==> sip_laws::asks_for((#[trigger] vias[i]).0, "via"@, "v"@),
        name == "cseq"@ || name == "call-id"@ || name == "from"@,
        sip_laws::pair_values(tail, name, name) == value,
        value.len() == 1,
    ensures
        invite_tx::raw_value(headers::message_text(responses::status_line(code), pairs, Seq::empty()), name) == Some(value[0]),
{
    sip_laws::law_message_reads_back(responses::status_line(code), pairs, Seq::empty(), name, name);
    reveal_strlit("via");
    reveal_strlit("v");
    reveal_strlit("cseq");
    reveal_strlit("call-id");
    reveal_strlit("from");
    assert forall|i: int| 0 <= i < vias.len() implies !sip_laws::asks_for((#[trigger] vias[i]).0, name, name) by {
        let n = vias[i].0;
        sip_laws::lemma_same_text_len(n, name);
        sip_laws::lemma_same_text_len(n, "via"@);
        sip_laws::lemma_same_text_len(n, "v"@);
    }
    lemma_no_pair_values(vias, name, name);
    lemma_pair_values_concat(vias, tail, name, name);
    assert(Seq::<Seq<char>>::empty() + value =~= value);
}

/// The header that a refusal adds, such as its challenge or the time to wait,
/// is read back from it, once and with the value that was given.
pub proof fn law_refusal_shows_its_header(
    hs: Seq<Seq<char>>,
    status: u16,
    name: Seq<char>,
    value: Seq<char>,
    tag: Seq<char>,
)
    requires
        forall|i: int| 0 <= i < hs.len() ==> sip_laws::one_line(#[trigger] hs[i]),
        invite_handler::refusal_text(hs, status, name, value, tag) is Some,
        sip_laws::one_line(responses::response_to(hs, tag)->0),
        sip_laws::is_trimmed(responses::response_to(hs, tag)->0),
        sip_laws::one_line(responses::status_line(status)),
        sip_laws::is_pair((name, value)),
        !text::same_text("via"@, name) && !text::same_text("v"@, name) && !text::same_text("From"@, name),
        !text::same_text("To"@, name) && !text::same_text("Call-ID"@, name) && !text::same_text("CSeq"@, name),
        !text::same_text("Content-Length"@, name),
    ensures
        headers::header_values(
            headers::header_lines(invite_handler::refusal_text(hs, status, name, value, tag)->0),
            name,
            name,
        ) == seq![value],
{
    let vias = responses::via_pairs(hs);
    let f = message::from_value(hs)->0;
    let t = responses::response_to(hs, tag)->0;
    let c = message::call_id_value(hs)->0;
    let q = message::cseq_value(hs)->0;
    lemma_via_pairs(hs);
    lemma_value_is_line(hs, "from:"@, "f:"@);
    lemma_value_is_line(hs, "call-id:"@, "i:"@);
    lemma_value_is_line(hs, "cseq:"@, "cseq:"@);
    lemma_tail_pairs(f, t, c, q);
    let five = echoed_tail(f, t, c, q);
    let four = seq![("From"@, f), ("To"@, t), ("Call-ID"@, c), ("CSeq"@, q)];
    let front = vias + four;
    let named = front.push((name, value));
    let pairs = named.push(("Content-Length"@, "0"@));
    assert(vias + four + invite_handler::refusal_extras(name, value) + seq![("Content-Length"@, "0"@)] =~= pairs);
    assert(sip_laws::are_pairs(pairs)) by {
        assert forall|i: int| 0 <= i < pairs.len() implies sip_laws::is_pair(#[trigger] pairs[i]) by {
            let n = vias.len();
            if i < n {
                assert(pairs[i] == vias[i]);
            } else if i < n + 4 {
                assert(pairs[i] == five[i - n]);
            } else if i == n + 5 {
                assert(pairs[i] == five[4]);
            }
        }
    }
    assert forall|i: int| 0 <= i < front.len() implies !sip_laws::asks_for(
        (#[trigger] front[i]).0,
        name,
        name,
    ) by {
        if i < vias.len() {
            assert(front[i] == vias[i]);
            assert(sip_laws::asks_for(vias[i].0, "via"@, "v"@));
        } else {
            assert(front[i] == four[i - vias.len()]);
        }
    }
    lemma_no_pair_values(front, name, name);
    assert(named.drop_last() =~= front);
    assert(pairs.drop_last() =~= named);
    assert(sip_laws::pair_values(named, name, name) =~= seq![value]);
    sip_laws::law_message_reads_back(responses::status_line(status), pairs, Seq::empty(), name, name);
}

} // verus!
