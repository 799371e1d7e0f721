//! A new transaction of a stored INVITE presents the same call.

use crate::headers;
use crate::raw_message;
use crate::renewal;
use crate::sip_builder::IdentityView;
use crate::sip_builder;
use crate::sip_laws;
use crate::text;
use vstd::prelude::*;

verus! {

/// No header name has white space round it.
pub open spec fn plain_names(ls: Seq<Seq<char>>) -> bool {
    forall|i: int| 0 <= i < ls.len() ==> plain_name(#[trigger] ls[i])
}

pub open spec fn plain_name(l: Seq<char>) -> bool {
    text::split_once(l, ':') matches Some((name, _)) ==> sip_laws::is_trimmed(name)
}

// ── Lines by name ───────────────────────────────────────────────────────

/// A line that begins with a name and a colon is a header of that name.
proof fn lemma_line_named(l: Seq<char>, w: Seq<char>, p: Seq<char>)
    requires
        p == w.push(':'),
        forall|k: int| 0 <= k < w.len() ==> text::lower_char(#[trigger] w[k]) != ':',
    ensures
        text::starts_with_word(l, p) <==> (text::split_once(l, ':') matches Some((name, _)) && text::same_text(name, w)),
        text::starts_with_word(l, p) ==> text::split_once(l, ':') == Some(
            (l.take(w.len() as int), l.skip(w.len() as int + 1)),
        ),
{
    let n = w.len() as int;
    text::lemma_find_char(l, ':', 0);
    let c = text::find_char(l, ':', 0);
    if text::starts_with_word(l, p) {
        let h = l.take(n + 1);
        assert(text::lower(h) == text::lower(p));
        assert(text::lower(h)[n] == text::lower(p)[n]);
        assert(text::lower(p)[n] == ':');
        assert(text::lower(h)[n] == text::lower_char(l[n]));
        assert(l[n] == ':');
        assert forall|k: int| 0 <= k < n implies l[k] != ':' by {
            assert(text::lower(h)[k] == text::lower(p)[k]);
            assert(text::lower(p)[k] == text::lower_char(w[k]));
            assert(text::lower(h)[k] == text::lower_char(l[k]));
        }
        text::lemma_find_char_is(l, ':', 0, n);
        assert(text::lower(l.take(n)) =~= text::lower(w)) by {
            assert forall|k: int| 0 <= k < n implies text::lower(l.take(n))[k] == text::lower(w)[k] by {
                assert(text::lower(h)[k] == text::lower(p)[k]);
            }
        }
    }
    if c < l.len() && text::same_text(l.take(c), w) {
        sip_laws::lemma_same_text_len(l.take(c), w);
        assert(text::lower(l.take(n + 1)) =~= text::lower(p)) by {
            assert forall|k: int| 0 <= k < n + 1 implies text::lower(l.take(n + 1))[k] == text::lower(p)[k] by {
                if k < n {
                    assert(text::lower(l.take(c))[k] == text::lower(w)[k]);
                }
            }
        }
    }
}

/// The Via and CSeq lines are the headers with those names.
proof fn lemma_via_and_cseq_lines(l: Seq<char>)
    requires
        plain_name(l),
    ensures
        sip_builder::is_via_line(l) <==> headers::is_header(l, "via"@, "v"@),
        text::starts_with_word(l, "cseq:"@) <==> headers::is_header(l, "cseq"@, "cseq"@),
{
    reveal_strlit("via");
    reveal_strlit("v");
    reveal_strlit("cseq");
    reveal_strlit("via:");
    reveal_strlit("v:");
    reveal_strlit("cseq:");
    assert("via:"@ =~= "via"@.push(':'));
    assert("v:"@ =~= "v"@.push(':'));
    assert("cseq:"@ =~= "cseq"@.push(':'));
    lemma_line_named(l, "via"@, "via:"@);
    lemma_line_named(l, "v"@, "v:"@);
    lemma_line_named(l, "cseq"@, "cseq:"@);
    if let Some((name, _)) = text::split_once(l, ':') {
        sip_laws::lemma_trim_after_space(name);
    }
}

/// A header of one name is no header of a name that differs.
proof fn lemma_other_name(l: Seq<char>, a: Seq<char>, b: Seq<char>, c: Seq<char>, d: Seq<char>)
    requires
        headers::is_header(l, a, b),
        !sip_laws::asks_for(a, c, d),
        !sip_laws::asks_for(b, c, d),
    ensures
        !headers::is_header(l, c, d),
{
}

// ── The Via of a new transaction ────────────────────────────────────────

/// A Via line with a fresh branch is still a header of the same name, and
/// its branch is the fresh one.
proof fn lemma_renewed_via(l: Seq<char>, b: Seq<char>)
    requires
        sip_builder::is_via_line(l),
        plain_name(l),
        sip_builder::is_fresh_branch(b),
    ensures
        headers::is_header(sip_builder::with_branch(l, b), "via"@, "v"@),
        sip_builder::via_branch_param(headers::header_field(sip_builder::with_branch(l, b))) == Some(b),
{
    reveal_strlit("via");
    reveal_strlit("v");
    reveal_strlit("via:");
    reveal_strlit("v:");
    reveal_strlit("branch=");
    reveal_strlit(";branch=");
    assert("via:"@ =~= "via"@.push(':'));
    assert("v:"@ =~= "v"@.push(':'));
    lemma_line_named(l, "via"@, "via:"@);
    lemma_line_named(l, "v"@, "v:"@);
    lemma_via_and_cseq_lines(l);
    renewal::lemma_fresh_branch_chars(b);
    let w = "branch="@;
    let c = text::find_char(l, ':', 0);
    text::lemma_find_char(l, ':', 0);
    let (name, _) = text::split_once(l, ':')->0;
    sip_laws::lemma_same_text_len(name, "via"@);
    sip_laws::lemma_same_text_len(name, "v"@);
    assert(c <= 3);
    let n = sip_builder::with_branch(l, b);
    let p = sip_builder::branch_at(l);
    text::lemma_find_str(text::lower(l), w, 0);
    let q: int = if p < l.len() { p } else { p + 1 };
    let start = q + 7;
    if p < l.len() {
        text::lemma_find_any(l, seq![';', ','], start);
        let e = text::find_any(l, seq![';', ','], start);
        if e < l.len() {
            assert(seq![';', ','].contains(l[e]));
            assert(n[start + b.len()] == l[e]);
        }
    } else {
        assert(n[p] == ';');
    }
    assert forall|k: int| 0 <= k < p implies n[k] == l[k] by {}
    assert(text::lower(n).subrange(q, q + 7) =~= w) by {
        assert forall|k: int| 0 <= k < 7 implies text::lower(n)[q + k] == w[k] by {
            if p < l.len() {
                assert(n[q + k] == l[q + k]);
                assert(text::lower(l).subrange(p, p + 7)[k] == text::lower(l)[p + k]);
            } else {
                assert(n[q + k] == ";branch="@[1 + k]);
            }
        }
    }
    assert(n.subrange(start, start + b.len()) =~= b);
    assert forall|k: int| 0 <= k < q implies !text::occurs_at(text::lower(n), w, k) by {
        if text::occurs_at(text::lower(n), w, k) {
            let piece = text::lower(n).subrange(k, k + 7);
            if p < l.len() {
                assert(text::lower(l).subrange(k, k + 7) =~= piece) by {
                    assert forall|j: int| 0 <= j < 7 implies text::lower(l)[k + j] == piece[j] by {
                        assert(n[k + j] == l[k + j]);
                    }
                }
                assert(text::occurs_at(text::lower(l), w, k));
            } else if k + 7 <= p {
                assert(text::lower(l).subrange(k, k + 7) =~= piece);
                assert(text::occurs_at(text::lower(l), w, k));
            } else {
                assert(w[p - k] != ';');
                assert(piece[p - k] == text::lower(n)[p]);
            }
        }
    }
    assert(c < q) by {
        if q <= c {
            assert(text::lower(n).subrange(q, q + 7)[c - q] == text::lower(n)[c]);
            assert(n[c] == ':');
        }
    }
    assert(n[c] == ':');
    assert forall|k: int| 0 <= k < c implies n[k] != ':' by {
        assert(n[k] == l[k]);
    }
    text::lemma_find_char_is(n, ':', 0, c);
    assert(n.take(c) =~= l.take(c));
    let rest = n.skip(c + 1);
    let at = q - (c + 1);
    assert(rest =~= n.subrange(c + 1, n.len() as int));
    assert forall|k: int| 0 <= k <= at implies (text::occurs_at(text::lower(rest), w, k) <==> text::occurs_at(
        text::lower(n),
        w,
        c + 1 + k,
    )) by {
        sip_laws::lemma_branch_name_at(n, c + 1, n.len() as int, k);
    }
    assert(rest.subrange(at + 7, at + 7 + b.len()) =~= b);
    sip_laws::lemma_branch_is(rest, at, b);
    let r = sip_laws::lemma_trim_ends(rest);
    sip_laws::lemma_branch_in_trimmed(rest, r.0, r.1);
}

// ── The CSeq of a new transaction ───────────────────────────────────────

/// White space round a text adds no word.
proof fn lemma_tokens_of_piece(s: Seq<char>, a: int, b: int)
    requires
        0 <= a <= b <= s.len(),
        forall|k: int| 0 <= k < a ==> text::is_space(#[trigger] s[k]),
        forall|k: int| b <= k < s.len() ==> text::is_space(#[trigger] s[k]),
    ensures
        text::tokens(s.subrange(a, b)) == text::tokens(s),
    decreases s.len(),
{
    let t = s.subrange(a, b);
    text::lemma_skip_space(s, 0);
    text::lemma_skip_space(t, 0);
    let p1 = text::skip_space(s, 0);
    let p2 = text::skip_space(t, 0);
    text::lemma_find_space(s, p1);
    text::lemma_find_space(t, p2);
    let q1 = text::find_space(s, p1);
    let q2 = text::find_space(t, p2);
    if p1 < s.len() {
        assert(!text::is_space(s[p1]));
        assert(a <= p1 < b);
        assert(t[p1 - a] == s[p1]);
        assert(p2 <= p1 - a);
        assert(t[p2] == s[a + p2]);
        assert(p1 == a + p2);
        if q2 < t.len() {
            assert(t[q2] == s[a + q2]);
        }
        assert(q1 <= a + q2) by {
            if q1 > a + q2 {
                assert(!text::is_space(s[a + q2]));
            }
        }
        assert(q1 >= a + q2) by {
            if q1 < a + q2 {
                assert(t[q1 - a] == s[q1]);
            }
        }
        assert(s.subrange(p1, q1) =~= t.subrange(p2, q2));
        let u = s.skip(q1);
        assert(t.skip(q2) =~= u.subrange(0, b - q1));
        assert forall|k: int| b - q1 <= k < u.len() implies text::is_space(#[trigger] u[k]) by {
            assert(u[k] == s[q1 + k]);
        }
        lemma_tokens_of_piece(u, 0, b - q1);
    } else {
        if p2 < t.len() {
            assert(t[p2] == s[a + p2]);
        }
        assert(text::tokens(s) =~= Seq::empty());
        assert(text::tokens(t) =~= Seq::empty());
    }
}

/// A CSeq value with the next number.
pub open spec fn next_cseq_value(v: Seq<char>) -> Seq<char> {
    match headers::cseq_number(v) {
        Some(n) => if text::tokens(v).len() >= 2 {
            text::decimal(n + 1) + " "@ + text::tokens(v)[1]
        } else {
            v
        },
        None => v,
    }
}

/// The CSeq line of a new transaction is a CSeq header with the next number.
proof fn lemma_renewed_cseq(l: Seq<char>)
    requires
        text::starts_with_word(l, "cseq:"@),
        plain_name(l),
    ensures
        headers::is_header(sip_builder::with_next_cseq(l), "cseq"@, "cseq"@),
        plain_name(sip_builder::with_next_cseq(l)),
        headers::header_field(sip_builder::with_next_cseq(l)) == next_cseq_value(headers::header_field(l)),
{
    reveal_strlit("cseq");
    reveal_strlit("cseq:");
    reveal_strlit("CSeq");
    reveal_strlit("CSeq: ");
    reveal_strlit(" ");
    assert("cseq:"@ =~= "cseq"@.push(':'));
    lemma_line_named(l, "cseq"@, "cseq:"@);
    lemma_via_and_cseq_lines(l);
    let rest = l.skip(5);
    assert("cseq:"@.len() == 5);
    let r = sip_laws::lemma_trim_ends(rest);
    lemma_tokens_of_piece(rest, r.0, r.1);
    let w = text::tokens(rest);
    assert(text::tokens(headers::header_field(l)) == w);
    match sip_builder::cseq_line_number(l) {
        Some(n) => {
            let d = text::decimal(n + 1);
            text::lemma_decimal_digits(n + 1);
            renewal::lemma_token_has_no_space(rest, 1);
            let v = d + " "@ + w[1];
            let line = sip_builder::with_next_cseq(l);
            assert(line =~= "CSeq"@.push(':') + (" "@ + v));
            text::lemma_split_once_at("CSeq"@, ':', " "@ + v);
            assert(text::is_digit(d[0]));
            assert(v[0] == d[0]);
            assert(v.last() == w[1].last());
            assert(w[1].last() == w[1][w[1].len() - 1]);
            sip_laws::lemma_trim_after_space(v);
            sip_laws::lemma_trim_after_space("CSeq"@);
            assert(text::lower("CSeq"@) =~= text::lower("cseq"@));
        },
        None => {},
    }
}

// ── Values ──────────────────────────────────────────────────────────────

/// Headers that are neither Via nor CSeq keep their values.
proof fn lemma_other_values(
    ls: Seq<Seq<char>>,
    done: bool,
    branch: Seq<char>,
    a: Seq<char>,
    b: Seq<char>,
)
    requires
        plain_names(ls),
        sip_builder::is_fresh_branch(branch),
        !sip_laws::asks_for("via"@, a, b),
        !sip_laws::asks_for("v"@, a, b),
        !sip_laws::asks_for("cseq"@, a, b),
    ensures
        headers::header_values(sip_builder::renewed_lines(ls, done, branch), a, b) == headers::header_values(ls, a, b),
    decreases ls.len(),
{
    if ls.len() > 0 {
        let l = ls[0];
        let t = ls.skip(1);
        lemma_rest_plain(ls);
        lemma_via_and_cseq_lines(l);
        let n = sip_builder::renewed_lines(ls, done, branch);
        if !done && sip_builder::is_via_line(l) {
            lemma_renewed_via(l, branch);
            lemma_other_name(l, "via"@, "v"@, a, b);
            lemma_other_name(sip_builder::with_branch(l, branch), "via"@, "v"@, a, b);
            lemma_other_values(t, true, branch, a, b);
            assert(n.skip(1) =~= sip_builder::renewed_lines(t, true, branch));
        } else {
            if text::starts_with_word(l, "cseq:"@) {
                lemma_renewed_cseq(l);
                lemma_other_name(l, "cseq"@, "cseq"@, a, b);
                lemma_other_name(sip_builder::with_next_cseq(l), "cseq"@, "cseq"@, a, b);
            }
            lemma_other_values(t, done, branch, a, b);
            assert(n.skip(1) =~= sip_builder::renewed_lines(t, done, branch));
        }
    }
}

proof fn lemma_rest_plain(ls: Seq<Seq<char>>)
    requires
        plain_names(ls),
        ls.len() > 0,
    ensures
        plain_name(ls[0]),
        plain_names(ls.skip(1)),
{
    assert forall|i: int| 0 <= i < ls.skip(1).len() implies plain_name(#[trigger] ls.skip(1)[i]) by {
        assert(ls.skip(1)[i] == ls[i + 1]);
    }
}

/// The first Via has the fresh branch.
proof fn lemma_via_values(ls: Seq<Seq<char>>, branch: Seq<char>)
    requires
        plain_names(ls),
        sip_builder::is_fresh_branch(branch),
        headers::header_values(ls, "via"@, "v"@).len() > 0,
    ensures
        headers::header_values(sip_builder::renewed_lines(ls, false, branch), "via"@, "v"@).len() > 0,
        sip_builder::via_branch_param(headers::header_values(sip_builder::renewed_lines(ls, false, branch), "via"@, "v"@)[0]) == Some(
            branch,
        ),
    decreases ls.len(),
{
    let l = ls[0];
    let t = ls.skip(1);
    lemma_rest_plain(ls);
    lemma_via_and_cseq_lines(l);
    let n = sip_builder::renewed_lines(ls, false, branch);
    if sip_builder::is_via_line(l) {
        lemma_renewed_via(l, branch);
    } else {
        if text::starts_with_word(l, "cseq:"@) {
            lemma_renewed_cseq(l);
            lemma_distinct_names();
            lemma_other_name(sip_builder::with_next_cseq(l), "cseq"@, "cseq"@, "via"@, "v"@);
        }
        lemma_via_values(t, branch);
        assert(n.skip(1) =~= sip_builder::renewed_lines(t, false, branch));
    }
}

/// Every CSeq has the next number.
proof fn lemma_cseq_values(ls: Seq<Seq<char>>, done: bool, branch: Seq<char>)
    requires
        plain_names(ls),
        sip_builder::is_fresh_branch(branch),
    ensures
        headers::header_values(sip_builder::renewed_lines(ls, done, branch), "cseq"@, "cseq"@).len() == headers::header_values(
            ls,
            "cseq"@,
            "cseq"@,
        ).len(),
        forall|i: int|
            0 <= i < headers::header_values(ls, "cseq"@, "cseq"@).len() ==> (#[trigger] headers::header_values(
                sip_builder::renewed_lines(ls, done, branch),
                "cseq"@,
                "cseq"@,
            )[i]) == next_cseq_value(headers::header_values(ls, "cseq"@, "cseq"@)[i]),
    decreases ls.len(),
{
    if ls.len() > 0 {
        let l = ls[0];
        let t = ls.skip(1);
        lemma_rest_plain(ls);
        lemma_via_and_cseq_lines(l);
        let n = sip_builder::renewed_lines(ls, done, branch);
        lemma_distinct_names();
        if !done && sip_builder::is_via_line(l) {
            lemma_renewed_via(l, branch);
            lemma_other_name(l, "via"@, "v"@, "cseq"@, "cseq"@);
            lemma_other_name(sip_builder::with_branch(l, branch), "via"@, "v"@, "cseq"@, "cseq"@);
            lemma_cseq_values(t, true, branch);
            assert(n.skip(1) =~= sip_builder::renewed_lines(t, true, branch));
        } else {
            lemma_cseq_values(t, done, branch);
            assert(n.skip(1) =~= sip_builder::renewed_lines(t, done, branch));
            if text::starts_with_word(l, "cseq:"@) {
                lemma_renewed_cseq(l);
                let a = headers::header_values(ls, "cseq"@, "cseq"@);
                let b = headers::header_values(n, "cseq"@, "cseq"@);
                assert forall|i: int| 0 <= i < a.len() implies (#[trigger] b[i]) == next_cseq_value(
                    a[i],
                ) by {
                    if i > 0 {
                        assert(a[i] == headers::header_values(t, "cseq"@, "cseq"@)[i - 1]);
                        assert(b[i] == headers::header_values(
                            sip_builder::renewed_lines(t, done, branch),
                            "cseq"@,
                            "cseq"@,
                        )[i - 1]);
                    }
                }
            }
        }
    }
}

proof fn lemma_distinct_names()
    ensures
        !sip_laws::asks_for("cseq"@, "via"@, "v"@),
        forall|a: Seq<char>, b: Seq<char>|
            (a == "from"@ && b == "f"@) || (a == "to"@ && b == "t"@) || (a == "call-id"@ && b == "i"@)
                || (a == "route"@ && b == "route"@) ==> !(#[trigger] sip_laws::asks_for("cseq"@, a, b))
                && !sip_laws::asks_for("via"@, a, b) && !sip_laws::asks_for("v"@, a, b),
        !sip_laws::asks_for("via"@, "cseq"@, "cseq"@),
        !sip_laws::asks_for("v"@, "cseq"@, "cseq"@),
{
    reveal_strlit("via");
    reveal_strlit("v");
    reveal_strlit("from");
    reveal_strlit("f");
    reveal_strlit("to");
    reveal_strlit("t");
    reveal_strlit("call-id");
    reveal_strlit("i");
    reveal_strlit("cseq");
    reveal_strlit("route");
    assert forall|a: Seq<char>, b: Seq<char>| #[trigger] text::same_text(a, b) implies a.len() == b.len()
        && (a.len() > 0 ==> text::lower_char(a[0]) == text::lower_char(b[0])) by {
        sip_laws::lemma_same_text_len(a, b);
    }
}

// ── A message without an empty line ─────────────────────────────────────

/// The lines of two texts with a line end between them.
proof fn lemma_lines_joined(a: Seq<char>, x: Seq<char>)
    ensures
        text::lines(a + text::crlf() + x) == text::lines(a) + text::lines(x),
    decreases a.len(),
{
    let s = a + text::crlf() + x;
    let i = text::find_str(a, text::crlf(), 0);
    text::lemma_find_str(a, text::crlf(), 0);
    if i + 2 <= a.len() {
        let l = a.take(i);
        let t = a.skip(i + 2);
        assert(a =~= l + text::crlf() + t) by {
            assert(a.subrange(i, i + 2) == text::crlf());
            assert(a[i] == a.subrange(i, i + 2)[0]);
            assert(a[i + 1] == a.subrange(i, i + 2)[1]);
        }
        assert forall|k: int| !text::occurs_at(l, text::crlf(), k) by {
            if text::occurs_at(l, text::crlf(), k) {
                assert(l.subrange(k, k + 2) =~= a.subrange(k, k + 2));
                assert(text::occurs_at(a, text::crlf(), k));
            }
        }
        lemma_lines_joined(t, x);
        assert(s =~= l + text::crlf() + (t + text::crlf() + x));
        sip_laws::lemma_lines_cons(l, t + text::crlf() + x);
        assert(text::lines(s) =~= text::lines(a) + text::lines(x));
    } else {
        assert forall|k: int| !text::occurs_at(a, text::crlf(), k) by {
            if text::occurs_at(a, text::crlf(), k) {
                assert(k + 2 <= a.len());
            }
        }
        sip_laws::lemma_lines_cons(a, x);
        assert(text::lines(a) =~= seq![a]);
    }
}

proof fn lemma_until_blank_stops(ls: Seq<Seq<char>>, more: Seq<Seq<char>>)
    requires
        more.len() > 0,
        more[0].len() == 0,
    ensures
        headers::until_blank(ls + more) == headers::until_blank(ls),
    decreases ls.len(),
{
    if ls.len() > 0 {
        lemma_until_blank_stops(ls.skip(1), more);
        assert((ls + more).skip(1) =~= ls.skip(1) + more);
    } else {
        assert(ls + more =~= more);
    }
}

proof fn lemma_empty_line_kept(ls: Seq<Seq<char>>, done: bool, b: Seq<char>)
    ensures
        sip_builder::renewed_lines(ls.push(Seq::empty()), done, b) == sip_builder::renewed_lines(ls, done, b).push(
            Seq::empty(),
        ),
    decreases ls.len(),
{
    let v = ls.push(Seq::empty());
    reveal_strlit("via:");
    reveal_strlit("v:");
    reveal_strlit("cseq:");
    if ls.len() > 0 {
        lemma_empty_line_kept(ls.skip(1), true, b);
        lemma_empty_line_kept(ls.skip(1), done, b);
        assert(v.skip(1) =~= ls.skip(1).push(Seq::empty()));
        assert(sip_builder::renewed_lines(v, done, b) =~= sip_builder::renewed_lines(ls, done, b).push(Seq::empty()));
    } else {
        assert(v.skip(1) =~= Seq::empty());
        assert(sip_builder::renewed_lines(v.skip(1), done, b) =~= Seq::empty());
        assert(sip_builder::renewed_lines(ls, done, b) =~= Seq::empty());
        assert(sip_builder::renewed_lines(v, done, b) =~= seq![Seq::<char>::empty()]);
    }
}

/// A message without an empty line is renewed like the same message with one.
proof fn lemma_ended(raw: Seq<char>, b: Seq<char>)
    requires
        headers::head_end(raw) == raw.len(),
    ensures
        headers::head_end(raw + text::crlf() + text::crlf()) < (raw + text::crlf() + text::crlf()).len(),
        headers::start_line(raw + text::crlf() + text::crlf()) == headers::start_line(raw),
        headers::header_lines(raw + text::crlf() + text::crlf()) == headers::header_lines(raw),
        sip_builder::renewed_text(raw + text::crlf() + text::crlf(), b) == sip_builder::renewed_text(raw, b),
{
    let both = text::crlf() + text::crlf();
    let s = raw + text::crlf() + text::crlf();
    let n = raw.len() as int;
    lemma_lines_joined(raw, text::crlf());
    sip_laws::lemma_lines_cons(Seq::empty(), Seq::empty());
    assert(text::crlf() =~= Seq::<char>::empty() + text::crlf() + Seq::<char>::empty());
    assert(text::lines(text::crlf())[0].len() == 0);
    sip_laws::lemma_lines_are_lines(raw);
    assert(text::lines(raw).len() > 0);
    assert(text::lines(s).skip(1) =~= text::lines(raw).skip(1) + text::lines(text::crlf()));
    lemma_until_blank_stops(text::lines(raw).skip(1), text::lines(text::crlf()));
    text::lemma_find_str(raw, both, 0);
    text::lemma_find_str(s, both, 0);
    assert(s.subrange(n, n + 4) =~= both);
    assert(text::occurs_at(s, both, n));
    let e = headers::head_end(s);
    assert(e <= n);
    assert(headers::head_of(raw) =~= raw);
    assert(headers::body_of(raw) =~= Seq::empty());
    if e == n {
        assert(headers::head_of(s) =~= raw);
        assert(headers::body_of(s) =~= Seq::empty());
    } else {
        let piece = s.subrange(e, e + 4);
        assert(piece == both);
        assert(piece[0] == '\r' && piece[1] == '\n' && piece[2] == '\r' && piece[3] == '\n');
        if e + 4 <= n {
            assert(raw.subrange(e, e + 4) =~= piece);
            assert(text::occurs_at(raw, both, e));
        }
        assert(s[n] == '\r');
        assert(s[n] == piece[n - e]);
        assert(e == n - 2);
        let h = headers::head_of(s);
        assert(s[e] == piece[0] && s[e + 1] == piece[1]);
        assert(raw =~= h + text::crlf() + Seq::<char>::empty());
        lemma_lines_joined(h, Seq::empty());
        assert(text::lines(Seq::<char>::empty()) =~= seq![Seq::<char>::empty()]);
        assert(text::lines(raw) =~= text::lines(h).push(Seq::empty()));
        sip_laws::lemma_lines_are_lines(h);
        let hs = text::lines(h).skip(1);
        assert(text::lines(raw).skip(1) =~= hs.push(Seq::empty()));
        lemma_empty_line_kept(hs, false, b);
        let y = seq![text::lines(h)[0]] + sip_builder::renewed_lines(hs, false, b);
        let z = seq![text::lines(raw)[0]] + sip_builder::renewed_lines(hs.push(Seq::empty()), false, b);
        assert(z =~= y.push(Seq::empty()));
        assert(z.drop_last() =~= y);
        assert(text::join_lines(z) =~= text::join_lines(y) + text::crlf());
        assert(headers::body_of(s) =~= text::crlf());
        assert(sip_builder::renewed_text(s, b) =~= sip_builder::renewed_text(raw, b));
    }
}

// ── Law ─────────────────────────────────────────────────────────────────

proof fn lemma_renewal_identity(raw: Seq<char>, branch: Seq<char>)
    requires
        headers::head_end(raw) < raw.len(),
        sip_builder::invite_identity(raw) matches Some(id) && id.cseq < u32::MAX,
        plain_names(headers::header_lines(raw)),
        text::tokens(headers::header_values(headers::header_lines(raw), "cseq"@, "cseq"@).last()).len() >= 2,
        sip_builder::is_fresh_branch(branch),
    ensures
        ({
            let id = sip_builder::invite_identity(raw)->0;
            let new = sip_builder::renewed_text(raw, branch);
            &&& sip_builder::invite_identity(new) matches Some(id2) && id2 == (IdentityView {
                top_via: id2.top_via,
                cseq: id.cseq + 1,
                ..id
            })
            &&& sip_builder::top_branch(new) == Some(branch)
        }),
{
    let hs = headers::header_lines(raw);
    let new = sip_builder::renewed_text(raw, branch);
    renewal::law_renewal_keeps_the_rest(raw, branch);
    let ns = sip_builder::renewed_lines(hs, false, branch);
    assert(raw_message::raw_parts(new).start == headers::start_line(new));
    assert(raw_message::raw_parts(new).headers == headers::header_lines(new));
    assert(headers::header_lines(new) == ns);
    lemma_distinct_names();
    assert(!sip_laws::asks_for("cseq"@, "from"@, "f"@));
    assert(!sip_laws::asks_for("cseq"@, "to"@, "t"@));
    assert(!sip_laws::asks_for("cseq"@, "call-id"@, "i"@));
    assert(!sip_laws::asks_for("cseq"@, "route"@, "route"@));
    lemma_other_values(hs, false, branch, "from"@, "f"@);
    lemma_other_values(hs, false, branch, "to"@, "t"@);
    lemma_other_values(hs, false, branch, "call-id"@, "i"@);
    lemma_other_values(hs, false, branch, "route"@, "route"@);
    lemma_via_values(hs, branch);
    lemma_cseq_values(hs, false, branch);
    let a = headers::header_values(hs, "cseq"@, "cseq"@);
    let b = headers::header_values(ns, "cseq"@, "cseq"@);
    assert(b[b.len() - 1] == next_cseq_value(a[a.len() - 1]));
    let n = sip_builder::invite_identity(raw)->0.cseq;
    reveal_strlit(" ");
    let tail = " "@ + text::tokens(a.last())[1];
    assert(b.last() =~= text::decimal(n + 1) + tail);
    sip_laws::lemma_cseq_value(n + 1, tail);
}

/// A new transaction of a stored INVITE presents the same call: target, From,
/// To, Call-ID and Routes are those of the INVITE, the CSeq number is the
/// next one, and the branch is the fresh one. The CSeq that counts must have
/// a method behind its number, and no header name white space round it.
pub proof fn law_renewal_carries_identity(raw: Seq<char>, branch: Seq<char>)
    requires
        sip_builder::invite_identity(raw) matches Some(id) && id.cseq < u32::MAX,
        plain_names(headers::header_lines(raw)),
        text::tokens(headers::header_values(headers::header_lines(raw), "cseq"@, "cseq"@).last()).len() >= 2,
        sip_builder::is_fresh_branch(branch),
    ensures
        ({
            let id = sip_builder::invite_identity(raw)->0;
            let new = sip_builder::renewed_text(raw, branch);
            &&& sip_builder::invite_identity(new) matches Some(id2) && id2 == (IdentityView {
                top_via: id2.top_via,
                cseq: id.cseq + 1,
                ..id
            })
            &&& sip_builder::top_branch(new) == Some(branch)
        }),
{
    if headers::head_end(raw) < raw.len() {
        lemma_renewal_identity(raw, branch);
    } else {
        text::lemma_find_str(raw, text::crlf() + text::crlf(), 0);
        lemma_ended(raw, branch);
        lemma_renewal_identity(raw + text::crlf() + text::crlf(), branch);
    }
}

} // verus!
