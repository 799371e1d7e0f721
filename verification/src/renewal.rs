//! What a new transaction of a stored INVITE keeps and what it changes.

use crate::headers;
use crate::raw_message::RawView;
use crate::raw_message;
use crate::sip_builder;
use crate::sip_laws;
use crate::text;
use vstd::prelude::*;

verus! {

/// Lines put together and ended are the block of the lines.
pub proof fn lemma_join_is_block(v: Seq<Seq<char>>)
    requires
        v.len() > 0,
    ensures
        text::join_lines(v) + text::crlf() == raw_message::lines_block(v),
    decreases v.len(),
{
    if v.len() == 1 {
        assert(v.drop_last() =~= Seq::empty());
        assert(raw_message::lines_block(v.drop_last()) =~= Seq::empty());
        assert(text::join_lines(v) + text::crlf() =~= raw_message::lines_block(v));
    } else {
        lemma_join_is_block(v.drop_last());
        assert(text::join_lines(v) + text::crlf() =~= raw_message::lines_block(v));
    }
}

/// The head of a message with an empty line has the start line and the
/// headers as its lines.
pub proof fn lemma_head_lines(raw: Seq<char>)
    requires
        headers::head_end(raw) < raw.len(),
    ensures
        text::lines(headers::head_of(raw)) == seq![headers::start_line(raw)] + headers::header_lines(raw),
{
    raw_message::law_raw_parts_are_the_message(raw);
    let m = raw_message::raw_parts(raw);
    let v = seq![m.start] + m.headers;
    raw_message::lemma_block_cons(m.start, m.headers);
    lemma_join_is_block(v);
    assert(raw =~= raw_message::lines_block(v) + text::crlf() + m.body);
    raw_message::law_raw_message_reads_back(m);
    let e = headers::head_end(raw);
    text::lemma_find_str(raw, text::crlf() + text::crlf(), 0);
    assert(raw.subrange(e, e + 4) == text::crlf() + text::crlf());
    lemma_start_of_blank(m);
    assert(headers::head_of(raw) =~= text::join_lines(v));
    assert forall|i: int| 0 <= i < v.len() implies sip_laws::one_line(#[trigger] v[i]) by {
        if i > 0 {
            assert(v[i] == m.headers[i - 1]);
        }
    }
    lemma_lines_of_join(v);
}

/// Where the empty line of a written message is.
proof fn lemma_start_of_blank(m: RawView)
    requires
        raw_message::raw_ok(m),
    ensures
        headers::head_end(raw_message::raw_text(m)) == m.start.len() + raw_message::lines_block(m.headers).len(),
{
    let rest = raw_message::lines_block(m.headers) + text::crlf() + m.body;
    assert(raw_message::raw_text(m) =~= m.start + text::crlf() + rest);
    raw_message::lemma_block_reads_back(m.headers, m.body);
    raw_message::lemma_blank_after_line(m.start, rest);
    if m.headers.len() == 0 {
        assert(rest =~= text::crlf() + m.body);
        assert(rest.subrange(0, 2) =~= text::crlf());
    }
}

/// Lines put together are its lines.
pub proof fn lemma_lines_of_join(v: Seq<Seq<char>>)
    requires
        v.len() > 0,
        forall|i: int| 0 <= i < v.len() ==> sip_laws::one_line(#[trigger] v[i]),
    ensures
        text::lines(text::join_lines(v)) == v,
    decreases v.len(),
{
    let l = v[0];
    if v.len() == 1 {
        lemma_whole_line(l);
        assert(v =~= seq![l]);
    } else {
        let t = v.skip(1);
        lemma_join_cons(l, t);
        assert(v =~= seq![l] + t);
        assert forall|i: int| 0 <= i < t.len() implies sip_laws::one_line(#[trigger] t[i]) by {
            assert(t[i] == v[i + 1]);
        }
        lemma_lines_of_join(t);
        sip_laws::lemma_lines_cons(l, text::join_lines(t));
    }
}

proof fn lemma_join_cons(l: Seq<char>, t: Seq<Seq<char>>)
    requires
        t.len() > 0,
    ensures
        text::join_lines(seq![l] + t) == l + text::crlf() + text::join_lines(t),
    decreases t.len(),
{
    let v = seq![l] + t;
    assert(v.drop_last() =~= seq![l] + t.drop_last());
    if t.len() == 1 {
        assert(v.drop_last() =~= seq![l]);
        assert(text::join_lines(seq![l]) == l);
        assert(text::join_lines(t) == t[0]);
        assert(v.last() == t[0]);
        assert(text::join_lines(v) =~= l + text::crlf() + text::join_lines(t));
    } else {
        lemma_join_cons(l, t.drop_last());
        assert(v.last() == t.last());
        assert(text::join_lines(v) == text::join_lines(v.drop_last()) + text::crlf() + v.last());
        assert(text::join_lines(v) =~= l + text::crlf() + text::join_lines(t));
    }
}

proof fn lemma_whole_line(l: Seq<char>)
    requires
        sip_laws::one_line(l),
    ensures
        text::lines(l) == seq![l],
{
    text::lemma_find_str(l, text::crlf(), 0);
    let at = text::find_str(l, text::crlf(), 0);
    if at < l.len() {
        assert(text::occurs_at(l, text::crlf(), at));
    }
}

// ── Changed lines stay lines ────────────────────────────────────────────

/// The characters of a fresh branch end no line and no parameter.
pub proof fn lemma_fresh_branch_chars(b: Seq<char>)
    requires
        sip_builder::is_fresh_branch(b),
    ensures
        sip_laws::one_line(b),
        b.len() > 0,
        b[0] != '\n',
        forall|i: int| 0 <= i < b.len() ==> (#[trigger] b[i]) != ';' && b[i] != ',' && !text::is_space(b[i]),
{
    reveal_strlit("z9hG4bK");
    assert forall|i: int| 0 <= i < b.len() implies (#[trigger] b[i]) != ';' && b[i] != ','
        && !text::is_space(b[i]) by {
        let bytes = choose|bytes: Seq<u8>| bytes.len() == 8 && b == #[trigger] sip_builder::branch_text(bytes);
        lemma_branch_chars(bytes, i);
    }
    assert(!b.contains('\n')) by {
        if b.contains('\n') {
            let i = choose|i: int| 0 <= i < b.len() && b[i] == '\n';
            assert(text::is_space(b[i]));
        }
    }
    sip_laws::lemma_no_lf_is_line(b);
    let bytes = choose|bytes: Seq<u8>| bytes.len() == 8 && b == #[trigger] sip_builder::branch_text(bytes);
    assert(b[0] == "z9hG4bK"@[0]);
}

proof fn lemma_hex_chars(bytes: Seq<u8>, i: int)
    requires
        0 <= i < sip_builder::hex(bytes).len(),
    ensures
        sip_builder::hex(bytes)[i] != ';' && sip_builder::hex(bytes)[i] != ',' && !text::is_space(sip_builder::hex(bytes)[i]),
    decreases bytes.len(),
{
    if bytes.len() > 0 {
        let p = sip_builder::hex(bytes.drop_last());
        if i < p.len() {
            lemma_hex_chars(bytes.drop_last(), i);
        }
    }
}

proof fn lemma_branch_chars(bytes: Seq<u8>, i: int)
    requires
        0 <= i < sip_builder::branch_text(bytes).len(),
    ensures
        sip_builder::branch_text(bytes)[i] != ';' && sip_builder::branch_text(bytes)[i] != ',' && !text::is_space(
            sip_builder::branch_text(bytes)[i],
        ),
{
    reveal_strlit("z9hG4bK");
    let n = "z9hG4bK"@.len();
    if i >= n {
        lemma_hex_chars(bytes, i - n);
        assert(sip_builder::branch_text(bytes)[i] == sip_builder::hex(bytes)[i - n]);
    } else {
        assert(sip_builder::branch_text(bytes)[i] == "z9hG4bK"@[i]);
    }
}

proof fn lemma_with_branch_is_line(l: Seq<char>, b: Seq<char>)
    requires
        sip_laws::one_line(l),
        l.len() > 0,
        sip_builder::is_fresh_branch(b),
    ensures
        sip_laws::one_line(sip_builder::with_branch(l, b)),
        sip_builder::with_branch(l, b).len() > 0,
{
    lemma_fresh_branch_chars(b);
    reveal_strlit("branch=");
    reveal_strlit(";branch=");
    let p = sip_builder::branch_at(l);
    text::lemma_find_str(text::lower(l), "branch="@, 0);
    let start = p + "branch="@.len();
    if p < l.len() {
        let e = text::find_any(l, seq![';', ','], start);
        text::lemma_find_any(l, seq![';', ','], start);
        let tail = l.skip(e);
        sip_laws::lemma_piece_is_line(l, 0, start);
        assert(l.take(start) =~= l.subrange(0, start));
        sip_laws::lemma_piece_is_line(l, e, l.len() as int);
        assert(tail =~= l.subrange(e, l.len() as int));
        sip_laws::lemma_joined_is_line(l.take(start), b);
        if e < l.len() {
            assert(seq![';', ','].contains(l[e]));
            assert(tail[0] == l[e]);
        }
        sip_laws::lemma_joined_is_line(l.take(start) + b, tail);
    } else {
        assert(sip_laws::one_line(";branch="@)) by {
            sip_laws::lemma_no_lf_is_line(";branch="@);
        }
        sip_laws::lemma_joined_is_line(l, ";branch="@);
        sip_laws::lemma_joined_is_line(l + ";branch="@, b);
    }
}

/// A word holds no white space.
pub proof fn lemma_token_has_no_space(s: Seq<char>, i: int)
    requires
        0 <= i < text::tokens(s).len(),
    ensures
        forall|k: int| 0 <= k < text::tokens(s)[i].len() ==> !text::is_space(#[trigger] text::tokens(s)[i][k]),
        text::tokens(s)[i].len() > 0,
    decreases s.len(),
{
    text::lemma_skip_space(s, 0);
    let a = text::skip_space(s, 0);
    if a < s.len() {
        text::lemma_find_space(s, a);
        let b = text::find_space(s, a);
        if i == 0 {
            assert(text::tokens(s)[0] == s.subrange(a, b));
        } else {
            assert(text::tokens(s)[i] == text::tokens(s.skip(b))[i - 1]);
            lemma_token_has_no_space(s.skip(b), i - 1);
        }
    }
}

proof fn lemma_next_cseq_is_line(l: Seq<char>)
    requires
        sip_laws::one_line(l),
        l.len() > 0,
    ensures
        sip_laws::one_line(sip_builder::with_next_cseq(l)),
        sip_builder::with_next_cseq(l).len() > 0,
{
    reveal_strlit("CSeq: ");
    reveal_strlit(" ");
    match sip_builder::cseq_line_number(l) {
        Some(n) => {
            let w = text::tokens(l.skip("cseq:"@.len() as int));
            lemma_token_has_no_space(l.skip("cseq:"@.len() as int), 1);
            text::lemma_decimal_digits(n + 1);
            let t = sip_builder::with_next_cseq(l);
            let d = text::decimal(n + 1);
            assert(t =~= "CSeq: "@ + d + " "@ + w[1]);
            assert(!t.contains('\n')) by {
                if t.contains('\n') {
                    let k = choose|k: int| 0 <= k < t.len() && t[k] == '\n';
                    if k < 6 {
                        assert(t[k] == "CSeq: "@[k]);
                    } else if k < 6 + d.len() {
                        assert(t[k] == d[k - 6]);
                    } else if k == 6 + d.len() {
                        assert(t[k] == " "@[0]);
                    } else {
                        assert(t[k] == w[1][k - 7 - d.len()]);
                    }
                }
            }
            sip_laws::lemma_no_lf_is_line(t);
        },
        None => {},
    }
}

proof fn lemma_renewed_lines_ok(ls: Seq<Seq<char>>, via_done: bool, b: Seq<char>)
    requires
        sip_builder::is_fresh_branch(b),
        forall|i: int| 0 <= i < ls.len() ==> sip_laws::one_line(#[trigger] ls[i]) && ls[i].len() > 0,
    ensures
        sip_builder::renewed_lines(ls, via_done, b).len() == ls.len(),
        forall|i: int|
            0 <= i < ls.len() ==> sip_laws::one_line(#[trigger] sip_builder::renewed_lines(ls, via_done, b)[i])
                && sip_builder::renewed_lines(ls, via_done, b)[i].len() > 0,
    decreases ls.len(),
{
    let n = sip_builder::renewed_lines(ls, via_done, b);
    if ls.len() > 0 {
        let t = ls.skip(1);
        assert forall|i: int| 0 <= i < t.len() implies sip_laws::one_line(#[trigger] t[i]) && t[i].len()
            > 0 by {
            assert(t[i] == ls[i + 1]);
        }
        lemma_with_branch_is_line(ls[0], b);
        lemma_next_cseq_is_line(ls[0]);
        lemma_renewed_lines_ok(t, true, b);
        lemma_renewed_lines_ok(t, via_done, b);
        assert forall|i: int| 0 <= i < ls.len() implies sip_laws::one_line(#[trigger] n[i]) && n[i].len()
            > 0 by {
            if i > 0 {
                assert(n[i] == sip_builder::renewed_lines(t, true, b)[i - 1] || n[i] == sip_builder::renewed_lines(
                    t,
                    via_done,
                    b,
                )[i - 1]);
            }
        }
    }
}

// ── Laws ────────────────────────────────────────────────────────────────

/// A new transaction changes the first Via line and the CSeq lines and
/// nothing else: the request line, the number and order of the headers and
/// the body are those of the stored INVITE.
pub proof fn law_renewal_keeps_the_rest(raw: Seq<char>, b: Seq<char>)
    requires
        headers::head_end(raw) < raw.len(),
        sip_builder::is_fresh_branch(b),
    ensures
        raw_message::raw_parts(sip_builder::renewed_text(raw, b)) == (RawView {
            start: headers::start_line(raw),
            headers: sip_builder::renewed_lines(headers::header_lines(raw), false, b),
            body: headers::body_of(raw),
        }),
        sip_builder::renewed_lines(headers::header_lines(raw), false, b).len() == headers::header_lines(raw).len(),
        forall|i: int|
            0 <= i < headers::header_lines(raw).len() && !sip_builder::is_via_line(#[trigger] headers::header_lines(raw)[i])
                && !text::starts_with_word(headers::header_lines(raw)[i], "cseq:"@) ==> sip_builder::renewed_lines(
                headers::header_lines(raw),
                false,
                b,
            )[i] == headers::header_lines(raw)[i],
{
    raw_message::law_raw_parts_are_the_message(raw);
    lemma_head_lines(raw);
    let hs = headers::header_lines(raw);
    let n = sip_builder::renewed_lines(hs, false, b);
    lemma_renewed_lines_ok(hs, false, b);
    let m = RawView { start: headers::start_line(raw), headers: n, body: headers::body_of(raw) };
    let v = seq![m.start] + n;
    let ls = text::lines(headers::head_of(raw));
    assert(ls.skip(1) =~= hs);
    lemma_join_is_block(v);
    raw_message::lemma_block_cons(m.start, n);
    assert(sip_builder::renewed_text(raw, b) =~= raw_message::raw_text(m));
    raw_message::law_raw_message_reads_back(m);
    assert forall|i: int| 0 <= i < hs.len() && !sip_builder::is_via_line(#[trigger] hs[i]) && !text::starts_with_word(
        hs[i],
        "cseq:"@,
    ) implies n[i] == hs[i] by {
        lemma_other_line_kept(hs, false, b, i);
    }
}

proof fn lemma_other_line_kept(ls: Seq<Seq<char>>, via_done: bool, b: Seq<char>, i: int)
    requires
        0 <= i < ls.len(),
        !sip_builder::is_via_line(ls[i]),
        !text::starts_with_word(ls[i], "cseq:"@),
    ensures
        i < sip_builder::renewed_lines(ls, via_done, b).len(),
        sip_builder::renewed_lines(ls, via_done, b)[i] == ls[i],
    decreases ls.len(),
{
    if i > 0 {
        let t = ls.skip(1);
        assert(t[i - 1] == ls[i]);
        lemma_other_line_kept(t, true, b, i - 1);
        lemma_other_line_kept(t, via_done, b, i - 1);
    }
}

/// A Via line of the new transaction carries the fresh branch.
pub proof fn law_renewed_via_has_the_branch(l: Seq<char>, b: Seq<char>)
    requires
        sip_builder::is_fresh_branch(b),
        sip_builder::branch_at(l) < l.len(),
    ensures
        ({
            let p = sip_builder::branch_at(l);
            let start = p + "branch="@.len();
            &&& sip_builder::with_branch(l, b).take(start) == l.take(start)
            &&& sip_builder::with_branch(l, b).subrange(start, start + b.len()) == b
            &&& sip_builder::with_branch(l, b).skip(start + b.len()) == l.skip(
                text::find_any(l, seq![';', ','], start),
            )
        }),
{
    reveal_strlit("branch=");
    text::lemma_find_str(text::lower(l), "branch="@, 0);
    let p = sip_builder::branch_at(l);
    let start = p + "branch="@.len();
    let e = text::find_any(l, seq![';', ','], start);
    text::lemma_find_any(l, seq![';', ','], start);
    let n = sip_builder::with_branch(l, b);
    assert(n.take(start) =~= l.take(start));
    assert(n.subrange(start, start + b.len()) =~= b);
    assert(n.skip(start + b.len()) =~= l.skip(e));
}

/// The CSeq number of a new transaction is the next one, its method the same.
pub proof fn law_renewed_cseq_is_the_next(l: Seq<char>, n: nat)
    requires
        sip_builder::cseq_line_number(l) == Some(n),
        n < u32::MAX,
    ensures
        sip_builder::cseq_line_number(sip_builder::with_next_cseq(l)) == Some(n + 1),
        text::tokens(sip_builder::with_next_cseq(l).skip("cseq:"@.len() as int))[1] == text::tokens(
            l.skip("cseq:"@.len() as int),
        )[1],
{
    reveal_strlit("CSeq: ");
    reveal_strlit("cseq:");
    reveal_strlit(" ");
    let w = text::tokens(l.skip("cseq:"@.len() as int));
    let d = text::decimal(n + 1);
    text::lemma_decimal_digits(n + 1);
    lemma_token_has_no_space(l.skip("cseq:"@.len() as int), 1);
    let t = sip_builder::with_next_cseq(l);
    let v = t.skip(5);
    assert(v =~= seq![' '] + d + seq![' '] + w[1]);
    lemma_two_tokens(d, w[1]);
    text::law_decimal_reads_back(n + 1, u32::MAX as nat);
}

/// Two words behind a space are the two tokens.
proof fn lemma_two_tokens(a: Seq<char>, b: Seq<char>)
    requires
        a.len() > 0,
        b.len() > 0,
        forall|k: int| 0 <= k < a.len() ==> !text::is_space(#[trigger] a[k]),
        forall|k: int| 0 <= k < b.len() ==> !text::is_space(#[trigger] b[k]),
    ensures
        text::tokens(seq![' '] + a + seq![' '] + b) == seq![a, b],
{
    let s = seq![' '] + a + seq![' '] + b;
    let n = a.len() as int;
    text::lemma_skip_space(s, 0);
    assert(s[0] == ' ');
    assert(s[1] == a[0]);
    assert(text::skip_space(s, 0) == 1) by {
        assert(text::skip_space(s, 0) == text::skip_space(s, 1));
    }
    text::lemma_find_space(s, 1);
    let e = text::find_space(s, 1);
    assert(e == n + 1) by {
        assert(s[n + 1] == ' ');
        if e < n + 1 {
            assert(s[e] == a[e - 1]);
        }
    }
    assert(s.subrange(1, e) =~= a);
    let r = s.skip(e);
    assert(r =~= seq![' '] + b);
    text::lemma_skip_space(r, 0);
    assert(r[1] == b[0]);
    assert(text::skip_space(r, 0) == text::skip_space(r, 1));
    text::lemma_find_space(r, 1);
    let f = text::find_space(r, 1);
    assert(f == r.len()) by {
        if f < r.len() {
            assert(r[f] == b[f - 1]);
        }
    }
    assert(r.subrange(1, f) =~= b);
    let none = r.skip(f);
    assert(none.len() == 0);
    assert(text::tokens(none) =~= Seq::empty());
    assert(text::tokens(r) =~= seq![b]);
    assert(text::tokens(s) =~= seq![a, b]);
}

/// A new transaction is a message with an empty line behind its headers.
pub proof fn lemma_renewal_written(raw: Seq<char>, b: Seq<char>)
    requires
        headers::head_end(raw) < raw.len(),
        sip_builder::is_fresh_branch(b),
    ensures
        raw_message::raw_ok(raw_message::raw_parts(sip_builder::renewed_text(raw, b))),
        headers::head_end(sip_builder::renewed_text(raw, b)) < sip_builder::renewed_text(raw, b).len(),
        sip_builder::renewed_text(raw, b) == raw_message::raw_text(raw_message::raw_parts(sip_builder::renewed_text(raw, b))),
{
    raw_message::law_raw_parts_are_the_message(raw);
    lemma_head_lines(raw);
    law_renewal_keeps_the_rest(raw, b);
    let hs = headers::header_lines(raw);
    let n = sip_builder::renewed_lines(hs, false, b);
    lemma_renewed_lines_ok(hs, false, b);
    let m = RawView { start: headers::start_line(raw), headers: n, body: headers::body_of(raw) };
    let v = seq![m.start] + n;
    assert(text::lines(headers::head_of(raw)).skip(1) =~= hs);
    lemma_join_is_block(v);
    raw_message::lemma_block_cons(m.start, n);
    assert(sip_builder::renewed_text(raw, b) =~= raw_message::raw_text(m));
    lemma_start_of_blank(m);
}

} // verus!
