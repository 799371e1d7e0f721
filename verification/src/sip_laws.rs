//! What holds between a stored INVITE and the requests derived from it.

use crate::headers;
use crate::sip_builder::IdentityView;
use crate::sip_builder;
use crate::text;
use vstd::prelude::*;

verus! {

// ── Lines ───────────────────────────────────────────────────────────────

/// The text holds no line end.
pub open spec fn one_line(s: Seq<char>) -> bool {
    forall|i: int| !text::occurs_at(s, text::crlf(), i)
}

/// A line end starts at `i` where the two characters say so.
pub proof fn lemma_crlf_at(s: Seq<char>, i: int)
    ensures
        text::occurs_at(s, text::crlf(), i) <==> 0 <= i && i + 2 <= s.len() && s[i] == '\r' && s[i + 1] == '\n',
{
    if 0 <= i && i + 2 <= s.len() {
        let w = s.subrange(i, i + 2);
        if s[i] == '\r' && s[i + 1] == '\n' {
            assert(w =~= text::crlf());
        } else if w == text::crlf() {
            assert(w[0] == s[i] && w[1] == s[i + 1]);
        }
    }
}

/// A line in front of a text is the first of its lines.
pub proof fn lemma_lines_cons(a: Seq<char>, rest: Seq<char>)
    requires
        one_line(a),
    ensures
        text::lines(a + text::crlf() + rest) == seq![a] + text::lines(rest),
{
    let s = a + text::crlf() + rest;
    assert forall|k: int| 0 <= k < a.len() implies !text::occurs_at(s, text::crlf(), k) by {
        lemma_crlf_at(s, k);
        lemma_crlf_at(a, k);
        assert(!text::occurs_at(a, text::crlf(), k));
    }
    lemma_crlf_at(s, a.len() as int);
    text::lemma_find_str_is(s, text::crlf(), 0, a.len() as int);
    assert(s.take(a.len() as int) =~= a);
    assert(s.skip((a.len() + 2) as int) =~= rest);
}

/// No line of a text holds a line end.
pub proof fn lemma_lines_are_lines(s: Seq<char>)
    ensures
        text::lines(s).len() >= 1,
        forall|i: int| 0 <= i < text::lines(s).len() ==> one_line(#[trigger] text::lines(s)[i]),
    decreases s.len(),
{
    text::lemma_find_str(s, text::crlf(), 0);
    let at = text::find_str(s, text::crlf(), 0);
    if 0 <= at && at + 2 <= s.len() {
        let rest = s.skip(at + 2);
        lemma_lines_are_lines(rest);
        let first = s.take(at);
        assert forall|k: int| !text::occurs_at(first, text::crlf(), k) by {
            lemma_crlf_at(first, k);
            lemma_crlf_at(s, k);
            if text::occurs_at(first, text::crlf(), k) {
                assert(text::occurs_at(s, text::crlf(), k));
            }
        }
        assert(one_line(first));
        assert forall|i: int| 0 <= i < text::lines(s).len() implies one_line(#[trigger] text::lines(s)[i]) by {
            if i > 0 {
                assert(text::lines(s)[i] == text::lines(rest)[i - 1]);
            }
        }
    } else {
        assert forall|k: int| !text::occurs_at(s, text::crlf(), k) by {
            if text::occurs_at(s, text::crlf(), k) {
                assert(k < s.len());
            }
        }
        assert(one_line(s));
    }
}

/// A piece of a line is a line.
pub proof fn lemma_piece_is_line(s: Seq<char>, a: int, b: int)
    requires
        one_line(s),
        0 <= a <= b <= s.len(),
    ensures
        one_line(s.subrange(a, b)),
{
    let t = s.subrange(a, b);
    assert forall|k: int| !text::occurs_at(t, text::crlf(), k) by {
        lemma_crlf_at(t, k);
        lemma_crlf_at(s, a + k);
        assert(!text::occurs_at(s, text::crlf(), a + k));
    }
}

/// Two lines put together are a line when no line end arises between them.
pub proof fn lemma_joined_is_line(a: Seq<char>, b: Seq<char>)
    requires
        one_line(a),
        one_line(b),
        b.len() > 0 ==> b[0] != '\n',
    ensures
        one_line(a + b),
{
    let s = a + b;
    assert forall|k: int| !text::occurs_at(s, text::crlf(), k) by {
        lemma_crlf_at(s, k);
        lemma_crlf_at(a, k);
        lemma_crlf_at(b, k - a.len());
        assert(!text::occurs_at(a, text::crlf(), k));
        assert(!text::occurs_at(b, text::crlf(), k - a.len()));
    }
}

/// A text without a line feed is a line.
pub proof fn lemma_no_lf_is_line(s: Seq<char>)
    requires
        !s.contains('\n'),
    ensures
        one_line(s),
{
    assert forall|k: int| !text::occurs_at(s, text::crlf(), k) by {
        lemma_crlf_at(s, k);
        if text::occurs_at(s, text::crlf(), k) {
            assert(s.contains(s[k + 1]));
        }
    }
}

// ── Trimming ────────────────────────────────────────────────────────────

/// Neither the first nor the last character is white space.
pub open spec fn is_trimmed(s: Seq<char>) -> bool {
    s.len() > 0 ==> !text::is_space(s[0]) && !text::is_space(s.last())
}

pub proof fn lemma_trim(s: Seq<char>)
    ensures
        is_trimmed(text::trim(s)),
        exists|a: int, b: int| 0 <= a <= b <= s.len() && text::trim(s) == #[trigger] s.subrange(a, b),
{
    text::lemma_skip_space(s, 0);
    let a = text::skip_space(s, 0);
    let t = text::trim_start(s);
    text::lemma_drop_space_end(t, t.len() as int);
    let e = text::drop_space_end(t, t.len() as int);
    assert(text::trim(s) =~= s.subrange(a, a + e));
    if e > 0 {
        assert(text::trim(s)[0] == t[0]);
        assert(t[0] == s[a]);
        assert(text::trim(s).last() == t[e - 1]);
    }
}

proof fn lemma_skip_space_none(s: Seq<char>)
    requires
        s.len() > 0 ==> !text::is_space(s[0]),
    ensures
        text::skip_space(s, 0) == 0,
{
}

/// A trimmed text behind one space is what trimming leaves.
pub proof fn lemma_trim_after_space(v: Seq<char>)
    requires
        is_trimmed(v),
    ensures
        text::trim(" "@ + v) == v,
        text::trim(v) == v,
{
    reveal_strlit(" ");
    let s = " "@ + v;
    assert(s[0] == ' ');
    assert(text::skip_space(s, 0) == text::skip_space(s, 1));
    text::lemma_skip_space(s, 1);
    if v.len() > 0 {
        assert(s[1] == v[0]);
    }
    assert(text::skip_space(s, 1) == 1);
    assert(text::trim_start(s) =~= v);
    assert(text::drop_space_end(v, v.len() as int) == v.len());
    assert(text::trim_end(v) =~= v);
    lemma_skip_space_none(v);
    assert(text::trim_start(v) =~= v);
}

// ── Header lines ────────────────────────────────────────────────────────

/// A header name as the builders write them: no colon and no white space.
pub open spec fn is_name(name: Seq<char>) -> bool {
    name.len() > 0 && forall|i: int|
        0 <= i < name.len() ==> (#[trigger] name[i]) != ':' && !text::is_space(name[i]) && name[i] != '\n'
}

/// The line `name: v` is one line, split at its colon.
pub proof fn lemma_written_line(name: Seq<char>, v: Seq<char>)
    requires
        is_name(name),
        one_line(v),
    ensures
        text::split_once(name + ": "@ + v, ':') == Some((name, " "@ + v)),
        text::trim(name) == name,
        one_line(name + ": "@ + v),
        (name + ": "@ + v).len() > 0,
{
    reveal_strlit(": ");
    reveal_strlit(" ");
    let s = name + ": "@ + v;
    assert(s[name.len() as int] == ':');
    assert forall|k: int| 0 <= k < name.len() implies s[k] != ':' by {
        assert(s[k] == name[k]);
    }
    text::lemma_find_char_is(s, ':', 0, name.len() as int);
    assert(s.take(name.len() as int) =~= name);
    assert(s.skip((name.len() + 1) as int) =~= " "@ + v);
    assert(is_trimmed(name));
    lemma_trim_after_space(name);
    assert forall|i: int| !text::occurs_at(name + ": "@, text::crlf(), i) by {
        lemma_crlf_at(name + ": "@, i);
        if 0 <= i && i + 2 <= (name + ": "@).len() {
            let c = (name + ": "@)[i + 1];
            assert(c != '\n') by {
                if i + 1 < name.len() {
                    assert(c == name[i + 1]);
                }
            }
        }
    }
    assert((name + ": "@).last() == ' ');
    lemma_line_after_text(name + ": "@, v);
}

/// The line `name: v` is a header of that name with the value `v`.
pub proof fn lemma_header_line(name: Seq<char>, v: Seq<char>)
    requires
        is_name(name),
        is_trimmed(v),
        one_line(v),
    ensures
        text::split_once(name + ": "@ + v, ':') == Some((name, " "@ + v)),
        text::trim(name) == name,
        headers::header_field(name + ": "@ + v) == v,
        one_line(name + ": "@ + v),
        (name + ": "@ + v).len() > 0,
{
    lemma_written_line(name, v);
    lemma_trim_after_space(v);
}

pub proof fn lemma_until_blank_cons(l: Seq<char>, ls: Seq<Seq<char>>)
    requires
        l.len() > 0,
    ensures
        headers::until_blank(seq![l] + ls) == seq![l] + headers::until_blank(ls),
{
    let all = seq![l] + ls;
    assert(all[0] == l);
    assert(all.skip(1) =~= ls);
}

/// The values of headers are trimmed lines when the headers are lines.
pub proof fn lemma_values_are_trimmed_lines(ls: Seq<Seq<char>>, a: Seq<char>, b: Seq<char>)
    requires
        forall|i: int| 0 <= i < ls.len() ==> one_line(#[trigger] ls[i]),
    ensures
        forall|i: int|
            0 <= i < headers::header_values(ls, a, b).len() ==> one_line(
                #[trigger] headers::header_values(ls, a, b)[i],
            ) && is_trimmed(headers::header_values(ls, a, b)[i]),
    decreases ls.len(),
{
    if ls.len() > 0 {
        let rest = ls.skip(1);
        assert forall|i: int| 0 <= i < rest.len() implies one_line(#[trigger] rest[i]) by {
            assert(rest[i] == ls[i + 1]);
        }
        lemma_values_are_trimmed_lines(rest, a, b);
        let line = ls[0];
        assert(one_line(line));
        if headers::is_header(line, a, b) {
            text::lemma_find_char(line, ':', 0);
            let at = text::find_char(line, ':', 0);
            let value = line.skip(at + 1);
            assert(value =~= line.subrange(at + 1, line.len() as int));
            lemma_piece_is_line(line, at + 1, line.len() as int);
            lemma_trim(value);
            let (p, q) = choose|p: int, q: int|
                0 <= p <= q <= value.len() && text::trim(value) == #[trigger] value.subrange(p, q);
            lemma_piece_is_line(value, p, q);
            assert(headers::header_field(line) == text::trim(value));
        }
        let all = headers::header_values(ls, a, b);
        let shorter = headers::header_values(rest, a, b);
        assert forall|i: int| 0 <= i < all.len() implies one_line(#[trigger] all[i]) && is_trimmed(
            all[i],
        ) by {
            if headers::is_header(line, a, b) {
                if i > 0 {
                    assert(all[i] == shorter[i - 1]);
                } else {
                    assert(all[0] == headers::header_field(line));
                }
            } else {
                assert(all[i] == shorter[i]);
            }
        }
    }
}

pub proof fn lemma_until_blank_lines(ls: Seq<Seq<char>>)
    requires
        forall|i: int| 0 <= i < ls.len() ==> one_line(#[trigger] ls[i]),
    ensures
        forall|i: int| 0 <= i < headers::until_blank(ls).len() ==> one_line(#[trigger] headers::until_blank(ls)[i]),
    decreases ls.len(),
{
    if ls.len() > 0 && ls[0].len() > 0 {
        let rest = ls.skip(1);
        assert forall|i: int| 0 <= i < rest.len() implies one_line(#[trigger] rest[i]) by {
            assert(rest[i] == ls[i + 1]);
        }
        lemma_until_blank_lines(rest);
        assert forall|i: int| 0 <= i < headers::until_blank(ls).len() implies one_line(
            #[trigger] headers::until_blank(ls)[i],
        ) by {
            if i > 0 {
                assert(headers::until_blank(ls)[i] == headers::until_blank(rest)[i - 1]);
            }
        }
    }
}

/// A piece between separators holds no separator.
proof fn lemma_split_char_piece(s: Seq<char>, c: char, i: int)
    requires
        0 <= i < text::split_char(s, c).len(),
        one_line(s),
    ensures
        !text::split_char(s, c)[i].contains(c),
        one_line(text::split_char(s, c)[i]),
    decreases s.len(),
{
    text::lemma_find_char(s, c, 0);
    let at = text::find_char(s, c, 0);
    if 0 <= at < s.len() {
        let rest = s.skip(at + 1);
        assert(rest =~= s.subrange(at + 1, s.len() as int));
        lemma_piece_is_line(s, at + 1, s.len() as int);
        assert(s.take(at) =~= s.subrange(0, at));
        lemma_piece_is_line(s, 0, at);
        if i > 0 {
            lemma_split_char_piece(rest, c, i - 1);
            assert(text::split_char(s, c)[i] == text::split_char(rest, c)[i - 1]);
        } else {
            assert(text::split_char(s, c)[0] == s.take(at));
        }
    }
}

/// The fields of an identity are lines, those of its headers trimmed, and
/// the Request-URI holds no space.
pub open spec fn well_formed_identity(id: IdentityView) -> bool {
    &&& one_line(id.request_uri) && !id.request_uri.contains(' ')
    &&& one_line(id.top_via) && is_trimmed(id.top_via)
    &&& one_line(id.from) && is_trimmed(id.from)
    &&& one_line(id.to) && is_trimmed(id.to)
    &&& one_line(id.call_id) && is_trimmed(id.call_id)
    &&& id.cseq <= u32::MAX
    &&& forall|i: int|
        0 <= i < id.routes.len() ==> one_line(#[trigger] id.routes[i]) && is_trimmed(id.routes[i])
}

/// Every identity read from a message is well formed.
pub proof fn law_parsed_identity_is_well_formed(raw: Seq<char>, method: Seq<char>)
    requires
        sip_builder::request_identity(raw, method) is Some,
    ensures
        well_formed_identity(sip_builder::request_identity(raw, method)->0),
{
    let ls = text::lines(raw);
    lemma_lines_are_lines(raw);
    let rest = ls.skip(1);
    assert forall|i: int| 0 <= i < rest.len() implies one_line(#[trigger] rest[i]) by {
        assert(rest[i] == ls[i + 1]);
    }
    lemma_until_blank_lines(rest);
    let hs = headers::header_lines(raw);
    lemma_values_are_trimmed_lines(hs, "via"@, "v"@);
    lemma_values_are_trimmed_lines(hs, "from"@, "f"@);
    lemma_values_are_trimmed_lines(hs, "to"@, "t"@);
    lemma_values_are_trimmed_lines(hs, "call-id"@, "i"@);
    lemma_values_are_trimmed_lines(hs, "route"@, "route"@);
    assert(one_line(ls[0]));
    lemma_split_char_piece(ls[0], ' ', 1);
}

// ── Messages made of a start line and header pairs ──────────────────────

/// A header as the builders write it.
pub open spec fn is_pair(p: (Seq<char>, Seq<char>)) -> bool {
    is_name(p.0) && is_trimmed(p.1) && one_line(p.1)
}

pub open spec fn are_pairs(v: Seq<(Seq<char>, Seq<char>)>) -> bool {
    forall|i: int| 0 <= i < v.len() ==> is_pair(#[trigger] v[i])
}

/// A header whose value is one line, with or without white space round it.
pub open spec fn is_written(p: (Seq<char>, Seq<char>)) -> bool {
    is_name(p.0) && one_line(p.1)
}

pub open spec fn are_written(v: Seq<(Seq<char>, Seq<char>)>) -> bool {
    forall|i: int| 0 <= i < v.len() ==> is_written(#[trigger] v[i])
}

/// The values that a reader of the two names finds are trimmed.
pub open spec fn trimmed_where_read(v: Seq<(Seq<char>, Seq<char>)>, a: Seq<char>, b: Seq<char>) -> bool {
    forall|i: int| 0 <= i < v.len() && asks_for((#[trigger] v[i]).0, a, b) ==> is_trimmed(v[i].1)
}

pub open spec fn pair_lines(v: Seq<(Seq<char>, Seq<char>)>) -> Seq<Seq<char>> {
    v.map_values(|p: (Seq<char>, Seq<char>)| headers::pair_line(p))
}

/// The values of the pairs whose name is one of the two.
pub open spec fn pair_values(v: Seq<(Seq<char>, Seq<char>)>, a: Seq<char>, b: Seq<char>) -> Seq<
    Seq<char>,
>
    decreases v.len(),
{
    if v.len() == 0 {
        Seq::empty()
    } else if text::same_text(v.last().0, a) || text::same_text(v.last().0, b) {
        pair_values(v.drop_last(), a, b).push(v.last().1)
    } else {
        pair_values(v.drop_last(), a, b)
    }
}

proof fn lemma_block_lines(v: Seq<(Seq<char>, Seq<char>)>, rest: Seq<char>)
    requires
        are_written(v),
    ensures
        text::lines(headers::header_block(v) + rest) == pair_lines(v) + text::lines(rest),
    decreases v.len(),
{
    if v.len() == 0 {
        assert(headers::header_block(v) + rest =~= rest);
        assert(pair_lines(v) + text::lines(rest) =~= text::lines(rest));
    } else {
        let dl = v.drop_last();
        let p = v.last();
        assert(is_written(v[v.len() - 1]));
        assert forall|i: int| 0 <= i < dl.len() implies is_written(#[trigger] dl[i]) by {
            assert(dl[i] == v[i]);
        }
        reveal_strlit("\r\n");
        assert("\r\n"@ =~= text::crlf());
        lemma_written_line(p.0, p.1);
        let line = headers::pair_line(p);
        assert(headers::header_block(v) + rest =~= headers::header_block(dl) + (line + text::crlf() + rest));
        lemma_block_lines(dl, line + text::crlf() + rest);
        lemma_lines_cons(line, rest);
        assert(pair_lines(v) =~= pair_lines(dl).push(line));
        assert(pair_lines(v) + text::lines(rest) =~= pair_lines(dl) + (seq![line] + text::lines(rest)));
    }
}

proof fn lemma_until_blank_pairs(v: Seq<(Seq<char>, Seq<char>)>, rest: Seq<Seq<char>>)
    requires
        are_written(v),
        rest.len() > 0,
        rest[0].len() == 0,
    ensures
        headers::until_blank(pair_lines(v) + rest) == pair_lines(v),
    decreases v.len(),
{
    if v.len() == 0 {
        assert(pair_lines(v) + rest =~= rest);
        assert(headers::until_blank(rest) =~= pair_lines(v));
    } else {
        let tail = v.skip(1);
        let line = headers::pair_line(v[0]);
        assert(is_written(v[0]));
        assert forall|i: int| 0 <= i < tail.len() implies is_written(#[trigger] tail[i]) by {
            assert(tail[i] == v[i + 1]);
        }
        lemma_until_blank_pairs(tail, rest);
        lemma_written_line(v[0].0, v[0].1);
        assert(pair_lines(v) + rest =~= seq![line] + (pair_lines(tail) + rest));
        lemma_until_blank_cons(line, pair_lines(tail) + rest);
        assert(seq![line] + pair_lines(tail) =~= pair_lines(v));
    }
}

proof fn lemma_pair_values(v: Seq<(Seq<char>, Seq<char>)>, a: Seq<char>, b: Seq<char>)
    requires
        are_written(v),
        trimmed_where_read(v, a, b),
    ensures
        headers::header_values(pair_lines(v), a, b) == pair_values(v, a, b),
    decreases v.len(),
{
    let ls = pair_lines(v);
    if v.len() > 0 {
        let dl = v.drop_last();
        let p = v.last();
        assert(is_written(v[v.len() - 1]));
        assert forall|i: int| 0 <= i < dl.len() implies is_written(#[trigger] dl[i]) by {
            assert(dl[i] == v[i]);
        }
        assert forall|i: int| 0 <= i < dl.len() && asks_for((#[trigger] dl[i]).0, a, b) implies is_trimmed(
            dl[i].1,
        ) by {
            assert(dl[i] == v[i]);
        }
        lemma_pair_values(dl, a, b);
        headers::lemma_header_values_step(ls, v.len() - 1, a, b);
        lemma_written_line(p.0, p.1);
        if asks_for(p.0, a, b) {
            assert(v[v.len() - 1] == p);
            lemma_header_line(p.0, p.1);
        }
        assert(ls.take(v.len() as int) =~= ls);
        assert(ls.take(v.len() - 1) =~= pair_lines(dl));
        assert(ls[v.len() - 1] == headers::pair_line(p));
        assert(headers::header_values(ls, a, b) =~= pair_values(v, a, b));
    } else {
        assert(headers::header_values(ls, a, b) =~= pair_values(v, a, b));
    }
}

/// The lines of a message that is made of a start line and header pairs.
pub proof fn lemma_message_lines(start: Seq<char>, v: Seq<(Seq<char>, Seq<char>)>, body: Seq<char>)
    requires
        one_line(start),
        are_written(v),
    ensures
        headers::start_line(headers::message_text(start, v, body)) == start,
        headers::header_lines(headers::message_text(start, v, body)) == pair_lines(v),
{
    let raw = headers::message_text(start, v, body);
    let after = text::crlf() + body;
    assert(raw =~= start + text::crlf() + (headers::header_block(v) + after));
    lemma_lines_cons(start, headers::header_block(v) + after);
    lemma_block_lines(v, after);
    let none = Seq::<char>::empty();
    assert(one_line(none)) by {
        lemma_no_lf_is_line(none);
    }
    assert(after =~= none + text::crlf() + body);
    lemma_lines_cons(none, body);
    let rest = text::lines(after);
    assert(rest[0] == none);
    assert(text::lines(raw).skip(1) =~= pair_lines(v) + rest);
    lemma_until_blank_pairs(v, rest);
}

/// Reading a message back: its start line, and the values of its headers.
pub proof fn law_message_reads_back(
    start: Seq<char>,
    v: Seq<(Seq<char>, Seq<char>)>,
    body: Seq<char>,
    a: Seq<char>,
    b: Seq<char>,
)
    requires
        one_line(start),
        are_written(v),
        trimmed_where_read(v, a, b),
    ensures
        headers::start_line(headers::message_text(start, v, body)) == start,
        headers::header_lines(headers::message_text(start, v, body)) == pair_lines(v),
        headers::header_values(headers::header_lines(headers::message_text(start, v, body)), a, b) == pair_values(v, a, b),
{
    lemma_message_lines(start, v, body);
    lemma_pair_values(v, a, b);
}

// ── The branch of a Via ─────────────────────────────────────────────────

/// What ends a parameter.
pub open spec fn ends_param(c: char) -> bool {
    c == ';' || c == ',' || text::is_space(c)
}

pub proof fn lemma_param_end(s: Seq<char>, from: int)
    requires
        0 <= from <= s.len(),
    ensures
        from <= sip_builder::param_end(s, from) <= s.len(),
        sip_builder::param_end(s, from) < s.len() ==> ends_param(s[sip_builder::param_end(s, from)]),
        forall|k: int| from <= k < sip_builder::param_end(s, from) ==> !ends_param(#[trigger] s[k]),
    decreases s.len() - from,
{
    if from < s.len() && !ends_param(s[from]) {
        lemma_param_end(s, from + 1);
    }
}

/// A name of the parameter in a piece of a text is one in the text.
pub proof fn lemma_branch_name_at(s: Seq<char>, a: int, b: int, k: int)
    requires
        0 <= a <= b <= s.len(),
        0 <= k,
        k + "branch="@.len() <= b - a,
    ensures
        text::occurs_at(text::lower(s.subrange(a, b)), "branch="@, k) <==> text::occurs_at(text::lower(s), "branch="@, a + k),
{
    let n = "branch="@.len() as int;
    let t = s.subrange(a, b);
    assert(text::lower(t).subrange(k, k + n) =~= text::lower(s).subrange(a + k, a + k + n));
}

/// The branch of a Via value is what stands behind the first name of the
/// parameter, up to its end.
pub proof fn lemma_branch_is(v: Seq<char>, q: int, b: Seq<char>)
    requires
        0 <= q,
        q + "branch="@.len() + b.len() <= v.len(),
        text::occurs_at(text::lower(v), "branch="@, q),
        forall|k: int| 0 <= k < q ==> !text::occurs_at(text::lower(v), "branch="@, k),
        b.len() > 0,
        v.subrange(q + "branch="@.len(), q + "branch="@.len() + b.len()) == b,
        forall|k: int| 0 <= k < b.len() ==> !ends_param(#[trigger] b[k]),
        q + "branch="@.len() + b.len() < v.len() ==> ends_param(
            v[q + "branch="@.len() + b.len()],
        ),
    ensures
        sip_builder::via_branch_param(v) == Some(b),
{
    let start = q + "branch="@.len();
    let e = start + b.len();
    text::lemma_find_str_is(text::lower(v), "branch="@, 0, q);
    lemma_param_end(v, start);
    assert forall|k: int| start <= k < e implies !ends_param(#[trigger] v[k]) by {
        assert(v[k] == b[k - start]);
    }
    assert(sip_builder::param_end(v, start) == e);
}

/// White space round a Via value does not matter to its branch.
pub proof fn lemma_branch_in_trimmed(s: Seq<char>, a: int, b: int)
    requires
        0 <= a <= b <= s.len(),
        forall|k: int| 0 <= k < a ==> text::is_space(#[trigger] s[k]),
        forall|k: int| b <= k < s.len() ==> text::is_space(#[trigger] s[k]),
    ensures
        sip_builder::via_branch_param(s.subrange(a, b)) == sip_builder::via_branch_param(s),
{
    reveal_strlit("branch=");
    let w = "branch="@;
    let n = w.len() as int;
    let t = s.subrange(a, b);
    let p = sip_builder::branch_at(s);
    let q = sip_builder::branch_at(t);
    text::lemma_find_str(text::lower(s), w, 0);
    text::lemma_find_str(text::lower(t), w, 0);
    assert forall|i: int| text::occurs_at(text::lower(s), w, i) implies a <= i && i + n <= b by {
        let piece = text::lower(s).subrange(i, i + n);
        assert(piece[0] == text::lower(s)[i] && piece[n - 1] == text::lower(s)[i + n - 1]);
        if i < a {
            assert(text::is_space(s[i]));
        }
        if i + n > b {
            assert(text::is_space(s[i + n - 1]));
        }
    }
    assert forall|k: int| 0 <= k && k + n <= b - a implies (#[trigger] text::occurs_at(text::lower(t), w, k)
        <==> text::occurs_at(text::lower(s), w, a + k)) by {
        lemma_branch_name_at(s, a, b, k);
    }
    if p < s.len() {
        assert(text::occurs_at(text::lower(t), w, p - a));
        assert forall|k: int| 0 <= k < p - a implies !text::occurs_at(text::lower(t), w, k) by {
            if text::occurs_at(text::lower(t), w, k) {
                assert(text::occurs_at(text::lower(s), w, a + k));
            }
        }
        text::lemma_find_str_is(text::lower(t), w, 0, p - a);
        let start = p + n;
        lemma_param_end(s, start);
        lemma_param_end(t, start - a);
        let e = sip_builder::param_end(s, start);
        let f = sip_builder::param_end(t, start - a);
        assert(e == f + a) by {
            if e > b {
                assert(ends_param(s[b]));
            }
            if f < e - a {
                assert(ends_param(t[f]));
                assert(t[f] == s[f + a]);
            }
            if f > e - a {
                assert(t[e - a] == s[e]);
            }
        }
        assert(t.subrange(start - a, f) =~= s.subrange(start, e));
    } else {
        if q < t.len() {
            assert(text::occurs_at(text::lower(s), w, a + q));
        }
    }
}

/// The white space that trimming takes off.
/// Where the text without the white space round it begins and ends.
pub proof fn lemma_trim_ends(s: Seq<char>) -> (r: (int, int))
    ensures
        0 <= r.0 <= r.1 <= s.len(),
        text::trim(s) == s.subrange(r.0, r.1),
        forall|k: int| 0 <= k < r.0 ==> text::is_space(#[trigger] s[k]),
        forall|k: int| r.1 <= k < s.len() ==> text::is_space(#[trigger] s[k]),
{
    text::lemma_skip_space(s, 0);
    let a = text::skip_space(s, 0);
    let t = text::trim_start(s);
    text::lemma_drop_space_end(t, t.len() as int);
    let e = text::drop_space_end(t, t.len() as int);
    assert(text::trim(s) =~= s.subrange(a, a + e));
    assert forall|k: int| a + e <= k < s.len() implies text::is_space(#[trigger] s[k]) by {
        assert(t[k - a] == s[k]);
    }
    (a, a + e)
}

/// The branch that is read from a Via value and the one that is read from a
/// message with that value in its first Via are the same, so that a
/// transaction goes by one key wherever it is looked up.
pub proof fn law_via_readings_agree(
    start: Seq<char>,
    via_text: Seq<char>,
    more: Seq<(Seq<char>, Seq<char>)>,
    body: Seq<char>,
)
    requires
        one_line(start),
        one_line(via_text),
        are_written(more),
    ensures
        sip_builder::top_branch(headers::message_text(start, seq![("Via"@, via_text)] + more, body)) == sip_builder::via_branch_param(via_text),
{
    let v = seq![("Via"@, via_text)] + more;
    lemma_names();
    lemma_name_lookup();
    assert forall|i: int| 0 <= i < v.len() implies is_written(#[trigger] v[i]) by {
        if i > 0 {
            assert(v[i] == more[i - 1]);
        }
    }
    lemma_message_lines(start, v, body);
    let ls = pair_lines(v);
    assert(ls[0] == headers::pair_line(v[0]));
    lemma_written_line("Via"@, via_text);
    assert(asks_for("Via"@, "via"@, "v"@));
    assert(headers::is_header(ls[0], "via"@, "v"@));
    let s = " "@ + via_text;
    assert(headers::header_field(ls[0]) == text::trim(s));
    assert(headers::header_values(ls, "via"@, "v"@)[0] == text::trim(s));
    let (a, b) = lemma_trim_ends(s);
    lemma_branch_in_trimmed(s, a, b);
    reveal_strlit(" ");
    assert(via_text =~= s.subrange(1, s.len() as int));
    lemma_branch_in_trimmed(s, 1, s.len() as int);
}

// ── CANCEL and ACK carry the identity of the INVITE ─────────────────────

/// Where two names are the same up to case, their lengths are.
pub proof fn lemma_same_text_len(a: Seq<char>, b: Seq<char>)
    ensures
        text::same_text(a, b) ==> a.len() == b.len(),
        text::same_text(a, b) && a.len() > 0 ==> text::lower_char(a[0]) == text::lower_char(b[0]),
{
    assert(text::lower(a).len() == a.len());
    assert(text::lower(b).len() == b.len());
    if text::same_text(a, b) && a.len() > 0 {
        assert(text::lower(a)[0] == text::lower_char(a[0]));
        assert(text::lower(b)[0] == text::lower_char(b[0]));
    }
}

proof fn lemma_pair_values_push(
    v: Seq<(Seq<char>, Seq<char>)>,
    p: (Seq<char>, Seq<char>),
    a: Seq<char>,
    b: Seq<char>,
)
    ensures
        pair_values(v.push(p), a, b) == (if text::same_text(p.0, a) || text::same_text(p.0, b) {
            pair_values(v, a, b).push(p.1)
        } else {
            pair_values(v, a, b)
        }),
{
    assert(v.push(p).drop_last() =~= v);
    assert(v.push(p).last() == p);
}

/// The header names that the builders write.
proof fn lemma_names()
    ensures
        is_name("Via"@),
        is_name("Max-Forwards"@),
        is_name("Route"@),
        is_name("From"@),
        is_name("To"@),
        is_name("Call-ID"@),
        is_name("CSeq"@),
        is_name("Content-Length"@),
{
    reveal_strlit("Via");
    reveal_strlit("Max-Forwards");
    reveal_strlit("Route");
    reveal_strlit("From");
    reveal_strlit("To");
    reveal_strlit("Call-ID");
    reveal_strlit("CSeq");
    reveal_strlit("Content-Length");
}

/// One of the two names that a reader asks for is `name`.
pub open spec fn asks_for(name: Seq<char>, a: Seq<char>, b: Seq<char>) -> bool {
    text::same_text(name, a) || text::same_text(name, b)
}

/// Which of the names that the builders write a reader of `a` and `b` finds.
spec fn finds_only(
    a: Seq<char>,
    b: Seq<char>,
    via: bool,
    from: bool,
    to: bool,
    call_id: bool,
    cseq: bool,
    route: bool,
) -> bool {
    &&& asks_for("Via"@, a, b) == via
    &&& !asks_for("Max-Forwards"@, a, b)
    &&& asks_for("Route"@, a, b) == route
    &&& asks_for("From"@, a, b) == from
    &&& asks_for("To"@, a, b) == to
    &&& asks_for("Call-ID"@, a, b) == call_id
    &&& asks_for("CSeq"@, a, b) == cseq
    &&& !asks_for("Content-Length"@, a, b)
}

proof fn lemma_name_lookup()
    ensures
        finds_only("via"@, "v"@, true, false, false, false, false, false),
        finds_only("from"@, "f"@, false, true, false, false, false, false),
        finds_only("to"@, "t"@, false, false, true, false, false, false),
        finds_only("call-id"@, "i"@, false, false, false, true, false, false),
        finds_only("cseq"@, "cseq"@, false, false, false, false, true, false),
        finds_only("route"@, "route"@, false, false, false, false, false, true),
{
    reveal_strlit("Via");
    reveal_strlit("Max-Forwards");
    reveal_strlit("Route");
    reveal_strlit("From");
    reveal_strlit("To");
    reveal_strlit("Call-ID");
    reveal_strlit("CSeq");
    reveal_strlit("Content-Length");
    reveal_strlit("via");
    reveal_strlit("v");
    reveal_strlit("from");
    reveal_strlit("f");
    reveal_strlit("to");
    reveal_strlit("t");
    reveal_strlit("call-id");
    reveal_strlit("i");
    reveal_strlit("cseq");
    reveal_strlit("route");
    assert(text::lower("Via"@) =~= text::lower("via"@));
    assert(text::lower("From"@) =~= text::lower("from"@));
    assert(text::lower("To"@) =~= text::lower("to"@));
    assert(text::lower("Call-ID"@) =~= text::lower("call-id"@));
    assert(text::lower("CSeq"@) =~= text::lower("cseq"@));
    assert(text::lower("Route"@) =~= text::lower("route"@));
    assert forall|a: Seq<char>, b: Seq<char>| #[trigger] text::same_text(a, b) implies a.len() == b.len()
        && (a.len() > 0 ==> text::lower_char(a[0]) == text::lower_char(b[0])) by {
        lemma_same_text_len(a, b);
    }
}

/// The number of a CSeq value written as number, space, method.
pub proof fn lemma_cseq_value(n: nat, method: Seq<char>)
    requires
        n <= u32::MAX,
        method.len() > 0,
        method[0] == ' ',
    ensures
        headers::cseq_number(text::decimal(n) + method) == Some(n),
{
    let v = text::decimal(n) + method;
    let d = text::decimal(n).len() as int;
    text::law_decimal_reads_back(n, u32::MAX as nat);
    text::lemma_decimal_digits(n);
    assert(text::is_digit(text::decimal(n)[0]));
    assert(v[0] == text::decimal(n)[0]);
    assert(text::skip_space(v, 0) == 0);
    assert(v[d] == ' ');
    assert forall|k: int| 0 <= k < d implies !text::is_space(#[trigger] v[k]) by {
        assert(v[k] == text::decimal(n)[k]);
        assert(text::is_digit(text::decimal(n)[k]));
    }
    text::lemma_find_space(v, 0);
    assert(text::find_space(v, 0) == d);
    assert(v.subrange(0, d) =~= text::decimal(n));
    assert(text::tokens(v)[0] == text::decimal(n));
}

/// Splitting `first second third` at its spaces.
proof fn lemma_start_words(first: Seq<char>, second: Seq<char>, third: Seq<char>)
    requires
        !first.contains(' '),
        !second.contains(' '),
    ensures
        text::split_char(first + " "@ + second + " "@ + third, ' ').len() >= 2,
        text::split_char(first + " "@ + second + " "@ + third, ' ')[0] == first,
        text::split_char(first + " "@ + second + " "@ + third, ' ')[1] == second,
{
    reveal_strlit(" ");
    let s = first + " "@ + second + " "@ + third;
    let t = second + " "@ + third;
    assert forall|k: int| 0 <= k < first.len() implies s[k] != ' ' by {
        assert(s[k] == first[k]);
        assert(first.contains(first[k]));
    }
    assert(s[first.len() as int] == ' ');
    text::lemma_find_char_is(s, ' ', 0, first.len() as int);
    assert(s.take(first.len() as int) =~= first);
    assert(s.skip((first.len() + 1) as int) =~= t);
    assert forall|k: int| 0 <= k < second.len() implies t[k] != ' ' by {
        assert(t[k] == second[k]);
        assert(second.contains(second[k]));
    }
    assert(t[second.len() as int] == ' ');
    text::lemma_find_char_is(t, ' ', 0, second.len() as int);
    assert(t.take(second.len() as int) =~= second);
    assert(text::split_char(t, ' ')[0] == second);
    assert(text::split_char(s, ' ') == seq![first] + text::split_char(t, ' '));
    assert(text::split_char(s, ' ')[1] == text::split_char(t, ' ')[0]);
}

/// A line after a text that does not end in a carriage return.
pub proof fn lemma_line_after_text(a: Seq<char>, b: Seq<char>)
    requires
        one_line(a),
        one_line(b),
        a.len() > 0 ==> a.last() != '\r',
    ensures
        one_line(a + b),
{
    let s = a + b;
    assert forall|k: int| !text::occurs_at(s, text::crlf(), k) by {
        lemma_crlf_at(s, k);
        lemma_crlf_at(a, k);
        lemma_crlf_at(b, k - a.len());
        assert(!text::occurs_at(a, text::crlf(), k));
        assert(!text::occurs_at(b, text::crlf(), k - a.len()));
    }
}

proof fn lemma_pair_values_join(
    v: Seq<(Seq<char>, Seq<char>)>,
    w: Seq<(Seq<char>, Seq<char>)>,
    a: Seq<char>,
    b: Seq<char>,
)
    ensures
        pair_values(v + w, a, b) == pair_values(v, a, b) + pair_values(w, a, b),
    decreases w.len(),
{
    if w.len() == 0 {
        assert(v + w =~= v);
        assert(pair_values(v, a, b) + pair_values(w, a, b) =~= pair_values(v, a, b));
    } else {
        let dl = w.drop_last();
        lemma_pair_values_join(v, dl, a, b);
        assert(v + w =~= (v + dl).push(w.last()));
        lemma_pair_values_push(v + dl, w.last(), a, b);
        assert(pair_values(v + w, a, b) =~= pair_values(v, a, b) + pair_values(w, a, b));
    }
}

proof fn lemma_route_values(rs: Seq<Seq<char>>, a: Seq<char>, b: Seq<char>)
    ensures
        pair_values(sip_builder::route_pairs(rs), a, b) == (if asks_for("Route"@, a, b) {
            rs
        } else {
            Seq::empty()
        }),
    decreases rs.len(),
{
    let v = sip_builder::route_pairs(rs);
    if rs.len() > 0 {
        let dl = rs.drop_last();
        lemma_route_values(dl, a, b);
        assert(v.drop_last() =~= sip_builder::route_pairs(dl));
        assert(v.last() == ("Route"@, rs.last()));
        assert(rs =~= dl.push(rs.last()));
    } else {
        assert(pair_values(v, a, b) =~= Seq::empty());
        assert(rs =~= Seq::empty());
    }
}

/// None of the pairs is asked for under one of the two names.
pub open spec fn no_pair_named(v: Seq<(Seq<char>, Seq<char>)>, a: Seq<char>, b: Seq<char>) -> bool {
    forall|i: int| 0 <= i < v.len() ==> !asks_for((#[trigger] v[i]).0, a, b)
}

proof fn lemma_no_pair_values(v: Seq<(Seq<char>, Seq<char>)>, a: Seq<char>, b: Seq<char>)
    requires
        no_pair_named(v, a, b),
    ensures
        pair_values(v, a, b) == Seq::<Seq<char>>::empty(),
    decreases v.len(),
{
    if v.len() > 0 {
        let dl = v.drop_last();
        assert(!asks_for(v[v.len() - 1].0, a, b));
        assert forall|i: int| 0 <= i < dl.len() implies !asks_for((#[trigger] dl[i]).0, a, b) by {
            assert(dl[i] == v[i]);
        }
        lemma_no_pair_values(dl, a, b);
    }
}

/// The headers of a request: Via, Max-Forwards, Routes, the identity, the
/// extras and the length of the body.
pub open spec fn full_pairs(
    id: IdentityView,
    method: Seq<char>,
    extras: Seq<(Seq<char>, Seq<char>)>,
    length: Seq<char>,
) -> Seq<(Seq<char>, Seq<char>)> {
    seq![("Via"@, id.top_via), ("Max-Forwards"@, "70"@)] + sip_builder::route_pairs(id.routes) + seq![
        ("From"@, id.from),
        ("To"@, id.to),
        ("Call-ID"@, id.call_id),
        ("CSeq"@, text::decimal(id.cseq) + " "@ + method),
    ] + extras + seq![("Content-Length"@, length)]
}

pub open spec fn picked(cond: bool, v: Seq<char>) -> Seq<Seq<char>> {
    if cond {
        seq![v]
    } else {
        Seq::empty()
    }
}

proof fn lemma_full_values(
    id: IdentityView,
    method: Seq<char>,
    extras: Seq<(Seq<char>, Seq<char>)>,
    length: Seq<char>,
    a: Seq<char>,
    b: Seq<char>,
)
    requires
        no_pair_named(extras, a, b),
        !asks_for("Max-Forwards"@, a, b),
        !asks_for("Content-Length"@, a, b),
    ensures
        pair_values(full_pairs(id, method, extras, length), a, b) == picked(
            asks_for("Via"@, a, b),
            id.top_via,
        ) + (if asks_for("Route"@, a, b) {
            id.routes
        } else {
            Seq::empty()
        }) + picked(asks_for("From"@, a, b), id.from) + picked(asks_for("To"@, a, b), id.to)
            + picked(asks_for("Call-ID"@, a, b), id.call_id) + picked(
            asks_for("CSeq"@, a, b),
            text::decimal(id.cseq) + " "@ + method,
        ),
{
    let none = Seq::<(Seq<char>, Seq<char>)>::empty();
    let number = text::decimal(id.cseq) + " "@ + method;
    let front = seq![("Via"@, id.top_via), ("Max-Forwards"@, "70"@)];
    let middle = seq![
        ("From"@, id.from),
        ("To"@, id.to),
        ("Call-ID"@, id.call_id),
        ("CSeq"@, number),
    ];
    let end = seq![("Content-Length"@, length)];
    let rs = sip_builder::route_pairs(id.routes);
    assert(pair_values(none, a, b) =~= Seq::empty());
    let f1 = none.push(("Via"@, id.top_via));
    lemma_pair_values_push(none, ("Via"@, id.top_via), a, b);
    lemma_pair_values_push(f1, ("Max-Forwards"@, "70"@), a, b);
    assert(front =~= f1.push(("Max-Forwards"@, "70"@)));
    assert(pair_values(front, a, b) =~= picked(asks_for("Via"@, a, b), id.top_via));
    let m1 = none.push(("From"@, id.from));
    let m2 = m1.push(("To"@, id.to));
    let m3 = m2.push(("Call-ID"@, id.call_id));
    lemma_pair_values_push(none, ("From"@, id.from), a, b);
    lemma_pair_values_push(m1, ("To"@, id.to), a, b);
    lemma_pair_values_push(m2, ("Call-ID"@, id.call_id), a, b);
    lemma_pair_values_push(m3, ("CSeq"@, number), a, b);
    assert(middle =~= m3.push(("CSeq"@, number)));
    assert(pair_values(middle, a, b) =~= picked(asks_for("From"@, a, b), id.from) + picked(
        asks_for("To"@, a, b),
        id.to,
    ) + picked(asks_for("Call-ID"@, a, b), id.call_id) + picked(asks_for("CSeq"@, a, b), number));
    lemma_pair_values_push(none, ("Content-Length"@, length), a, b);
    assert(end =~= none.push(("Content-Length"@, length)));
    lemma_route_values(id.routes, a, b);
    lemma_no_pair_values(extras, a, b);
    lemma_pair_values_join(front, rs, a, b);
    lemma_pair_values_join(front + rs, middle, a, b);
    lemma_pair_values_join(front + rs + middle, extras, a, b);
    lemma_pair_values_join(front + rs + middle + extras, end, a, b);
    assert(pair_values(full_pairs(id, method, extras, length), a, b) =~= picked(
        asks_for("Via"@, a, b),
        id.top_via,
    ) + (if asks_for("Route"@, a, b) {
        id.routes
    } else {
        Seq::empty()
    }) + picked(asks_for("From"@, a, b), id.from) + picked(asks_for("To"@, a, b), id.to) + picked(
        asks_for("Call-ID"@, a, b),
        id.call_id,
    ) + picked(asks_for("CSeq"@, a, b), number));
}

/// A method as SIP writes them: letters only.
pub open spec fn is_method(m: Seq<char>) -> bool {
    m.len() > 0 && forall|i: int| 0 <= i < m.len() ==> 'A' <= #[trigger] m[i] <= 'Z'
}

/// The extra headers are headers, and none of them is one that identifies
/// the request.
pub open spec fn harmless_extras(v: Seq<(Seq<char>, Seq<char>)>) -> bool {
    &&& are_written(v)
    &&& no_pair_named(v, "via"@, "v"@)
    &&& no_pair_named(v, "from"@, "f"@)
    &&& no_pair_named(v, "to"@, "t"@)
    &&& no_pair_named(v, "call-id"@, "i"@)
    &&& no_pair_named(v, "cseq"@, "cseq"@)
    &&& no_pair_named(v, "route"@, "route"@)
}

proof fn lemma_full_are_pairs(
    id: IdentityView,
    method: Seq<char>,
    extras: Seq<(Seq<char>, Seq<char>)>,
    length: Seq<char>,
)
    requires
        well_formed_identity(id),
        is_method(method),
        harmless_extras(extras),
        is_trimmed(length),
        one_line(length),
    ensures
        are_written(full_pairs(id, method, extras, length)),
        forall|a: Seq<char>, b: Seq<char>|
            no_pair_named(extras, a, b) ==> #[trigger] trimmed_where_read(
                full_pairs(id, method, extras, length),
                a,
                b,
            ),
{
    let v = full_pairs(id, method, extras, length);
    let number = text::decimal(id.cseq) + " "@ + method;
    lemma_names();
    reveal_strlit("70");
    reveal_strlit(" ");
    lemma_no_lf_is_line("70"@);
    text::lemma_decimal_digits(id.cseq);
    assert forall|k: int| 0 <= k < number.len() implies number[k] != '\n' && (k == 0 || k
        == number.len() - 1 ==> !text::is_space(number[k])) by {
        let d = text::decimal(id.cseq).len();
        if k < d {
            assert(text::is_digit(text::decimal(id.cseq)[k]));
        } else if k > d {
            assert(number[k] == method[k - d - 1]);
        }
    }
    lemma_no_lf_is_line(number);
    let n = id.routes.len() as int;
    assert forall|i: int| 0 <= i < v.len() implies is_written(#[trigger] v[i]) && (i < 6 + n || i
        >= 6 + n + extras.len() ==> is_trimmed(v[i].1)) by {
        if i < 2 {
        } else if i < 2 + n {
            assert(v[i] == ("Route"@, id.routes[i - 2]));
        } else if i < 6 + n {
        } else if i < 6 + n + extras.len() {
            assert(v[i] == extras[i - 6 - n]);
        }
    }
    assert forall|a: Seq<char>, b: Seq<char>| no_pair_named(extras, a, b) implies #[trigger] trimmed_where_read(
        v,
        a,
        b,
    ) by {
        assert forall|i: int| 0 <= i < v.len() && asks_for((#[trigger] v[i]).0, a, b) implies is_trimmed(
            v[i].1,
        ) by {
            if 6 + n <= i < 6 + n + extras.len() {
                assert(v[i] == extras[i - 6 - n]);
            }
        }
    }
}

/// Reading back a request made of `full_pairs` gives the identity that it
/// was made of.
pub proof fn law_request_reads_back(
    id: IdentityView,
    method: Seq<char>,
    extras: Seq<(Seq<char>, Seq<char>)>,
    length: Seq<char>,
    body: Seq<char>,
)
    requires
        well_formed_identity(id),
        is_method(method),
        harmless_extras(extras),
        is_trimmed(length),
        one_line(length),
    ensures
        sip_builder::request_identity(
            headers::message_text(
                sip_builder::request_line(method, id.request_uri),
                full_pairs(id, method, extras, length),
                body,
            ),
            method,
        ) == Some(id),
{
    let v = full_pairs(id, method, extras, length);
    let start = sip_builder::request_line(method, id.request_uri);
    let text = headers::message_text(start, v, body);
    lemma_name_lookup();
    lemma_full_are_pairs(id, method, extras, length);
    lemma_method_line(method, id.request_uri);
    law_message_reads_back(start, v, body, "via"@, "v"@);
    law_message_reads_back(start, v, body, "from"@, "f"@);
    law_message_reads_back(start, v, body, "to"@, "t"@);
    law_message_reads_back(start, v, body, "call-id"@, "i"@);
    law_message_reads_back(start, v, body, "cseq"@, "cseq"@);
    law_message_reads_back(start, v, body, "route"@, "route"@);
    lemma_full_values(id, method, extras, length, "via"@, "v"@);
    lemma_full_values(id, method, extras, length, "from"@, "f"@);
    lemma_full_values(id, method, extras, length, "to"@, "t"@);
    lemma_full_values(id, method, extras, length, "call-id"@, "i"@);
    lemma_full_values(id, method, extras, length, "cseq"@, "cseq"@);
    lemma_full_values(id, method, extras, length, "route"@, "route"@);
    reveal_strlit(" ");
    lemma_cseq_value(id.cseq, " "@ + method);
    assert(text::decimal(id.cseq) + " "@ + method =~= text::decimal(id.cseq) + (" "@ + method));
    assert(sip_builder::request_identity(text, method)->0 =~= id);
}

proof fn lemma_method_line(method: Seq<char>, uri: Seq<char>)
    requires
        is_method(method),
        one_line(uri),
        !uri.contains(' '),
    ensures
        one_line(sip_builder::request_line(method, uri)),
        text::split_char(sip_builder::request_line(method, uri), ' ').len() >= 2,
        text::split_char(sip_builder::request_line(method, uri), ' ')[0] == method,
        text::split_char(sip_builder::request_line(method, uri), ' ')[1] == uri,
{
    reveal_strlit(" ");
    reveal_strlit("SIP/2.0");
    let front = method + " "@;
    assert(!front.contains('\n')) by {
        assert forall|i: int| 0 <= i < front.len() implies front[i] != '\n' by {
            if i < method.len() {
                assert(front[i] == method[i]);
            }
        }
    }
    assert(!method.contains(' ')) by {
        assert forall|i: int| 0 <= i < method.len() implies method[i] != ' ' by {}
    }
    lemma_no_lf_is_line(front);
    lemma_line_after_text(front, uri);
    lemma_no_lf_is_line(" "@ + "SIP/2.0"@);
    lemma_joined_is_line(front + uri, " "@ + "SIP/2.0"@);
    assert(sip_builder::request_line(method, uri) =~= front + uri + (" "@ + "SIP/2.0"@));
    lemma_start_words(method, uri, "SIP/2.0"@);
}

/// A CANCEL carries the identity of its INVITE: the same Request-URI, top
/// Via with its branch, From, To, Call-ID and CSeq number.
pub proof fn law_cancel_carries_invite_identity(raw: Seq<char>)
    requires
        sip_builder::invite_identity(raw) is Some,
    ensures
        sip_builder::request_identity(sip_builder::cancel_text(sip_builder::invite_identity(raw)->0), "CANCEL"@) == Some(
            IdentityView { routes: Seq::empty(), ..sip_builder::invite_identity(raw)->0 },
        ),
{
    let id = sip_builder::invite_identity(raw)->0;
    let id2 = IdentityView { routes: Seq::empty(), ..id };
    let none = Seq::<(Seq<char>, Seq<char>)>::empty();
    law_parsed_identity_is_well_formed(raw, "INVITE"@);
    reveal_strlit("CANCEL");
    reveal_strlit("0");
    lemma_no_lf_is_line("0"@);
    law_request_reads_back(id2, "CANCEL"@, none, "0"@, Seq::empty());
    assert(full_pairs(id2, "CANCEL"@, none, "0"@) =~= sip_builder::cancel_pairs(id));
}

/// The ACK for a non-2xx final carries the identity of its INVITE, Route set
/// included, with the `To` of the response.
pub proof fn law_ack_carries_invite_identity(raw: Seq<char>, response_to: Seq<char>)
    requires
        sip_builder::invite_identity(raw) is Some,
        one_line(response_to),
    ensures
        sip_builder::request_identity(sip_builder::ack_text(sip_builder::invite_identity(raw)->0, response_to), "ACK"@) == Some(
            IdentityView { to: text::trim(response_to), ..sip_builder::invite_identity(raw)->0 },
        ),
{
    let id = sip_builder::invite_identity(raw)->0;
    let id2 = IdentityView { to: text::trim(response_to), ..id };
    let none = Seq::<(Seq<char>, Seq<char>)>::empty();
    law_parsed_identity_is_well_formed(raw, "INVITE"@);
    lemma_trim(response_to);
    let (p, q) = choose|p: int, q: int|
        0 <= p <= q <= response_to.len() && text::trim(response_to) == #[trigger] response_to.subrange(
            p,
            q,
        );
    lemma_piece_is_line(response_to, p, q);
    reveal_strlit("ACK");
    reveal_strlit("0");
    lemma_no_lf_is_line("0"@);
    law_request_reads_back(id2, "ACK"@, none, "0"@, Seq::empty());
    assert(full_pairs(id2, "ACK"@, none, "0"@) =~= sip_builder::ack_pairs(id, response_to));
}

} // verus!
