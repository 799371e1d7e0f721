//! What is promised of how text is read and of headers that are put in or
//! taken out.

use crate::headers;
use crate::invite_handler;
use crate::message;
use crate::raw_message;
use crate::register;
use crate::responses;
use crate::rfc3339;
use crate::sip_builder;
use crate::text;
use vstd::prelude::*;

verus! {

/// Text starts with each of its prefixes and ends with each of its suffixes.
pub proof fn law_prefix_and_suffix(a: Seq<char>, b: Seq<char>, s: Seq<char>)
    ensures
        text::starts_with(a + b, a),
        text::ends_with(a + b, b),
        text::starts_with(s, a) <==> exists|t: Seq<char>| s == #[trigger] (a + t),
        text::ends_with(s, b) <==> exists|t: Seq<char>| s == #[trigger] (t + b),
{
    let ab = a + b;
    assert(ab.subrange(0, a.len() as int) =~= a);
    assert(ab.subrange(a.len() as int, ab.len() as int) =~= b);
    if text::starts_with(s, a) {
        let t = s.skip(a.len() as int);
        assert(s =~= a + t) by {
            assert forall|i: int| 0 <= i < a.len() implies s[i] == a[i] by {
                assert(s.subrange(0, a.len() as int)[i] == a[i]);
            }
        }
    }
    if exists|t: Seq<char>| s == #[trigger] (a + t) {
        let t = choose|t: Seq<char>| s == #[trigger] (a + t);
        assert(s.subrange(0, a.len() as int) =~= a);
    }
    if text::ends_with(s, b) {
        let k = s.len() - b.len();
        let t = s.take(k);
        assert(s =~= t + b) by {
            assert forall|i: int| 0 <= i < b.len() implies s[k + i] == b[i] by {
                assert(s.subrange(k, k + b.len())[i] == b[i]);
            }
        }
    }
    if exists|t: Seq<char>| s == #[trigger] (t + b) {
        let t = choose|t: Seq<char>| s == #[trigger] (t + b);
        assert(s.subrange(t.len() as int, s.len() as int) =~= b);
    }
}

/// Text without space at its ends is what is left of it, however much space
/// stands around it.
pub proof fn law_space_around_is_dropped(a: Seq<char>, s: Seq<char>, b: Seq<char>)
    requires
        forall|i: int| 0 <= i < a.len() ==> text::is_space(#[trigger] a[i]),
        forall|i: int| 0 <= i < b.len() ==> text::is_space(#[trigger] b[i]),
        s.len() > 0,
        !text::is_space(s[0]),
        !text::is_space(s.last()),
    ensures
        text::trim(a + s + b) == s,
{
    let v = a + s + b;
    let k = text::skip_space(v, 0);
    text::lemma_skip_space(v, 0);
    let n = a.len() as int;
    assert(v[n] == s[0]);
    if k > n {
        assert(text::is_space(v[n]));
    }
    if k < n {
        assert(v[k] == a[k]);
    }
    let w = text::trim_start(v);
    assert(w =~= s + b);
    let e = text::drop_space_end(w, w.len() as int);
    text::lemma_drop_space_end(w, w.len() as int);
    let m = s.len() as int;
    assert(w[m - 1] == s.last());
    if e < m {
        assert(text::is_space(w[m - 1]));
    }
    if e > m {
        assert(w[e - 1] == b[e - 1 - m]);
    }
    assert(w.take(e) =~= s);
}

/// Case counts for nothing in what is the same text, anything else does.
pub proof fn law_same_text(a: Seq<char>, b: Seq<char>)
    ensures
        text::same_text(a, a),
        text::same_text(a, b) ==> text::same_text(b, a),
        text::same_text(a, b) ==> a.len() == b.len(),
        text::same_text(a, b) <==> a.len() == b.len() && forall|i: int|
            0 <= i < a.len() ==> text::lower_char(#[trigger] a[i]) == text::lower_char(b[i]),
{
    assert(text::lower(a).len() == a.len() && text::lower(b).len() == b.len());
    if text::same_text(a, b) {
        assert forall|i: int| 0 <= i < a.len() implies text::lower_char(#[trigger] a[i]) == text::lower_char(
            b[i],
        ) by {
            assert(text::lower(a)[i] == text::lower(b)[i]);
        }
    }
    if a.len() == b.len() && forall|i: int|
        0 <= i < a.len() ==> text::lower_char(#[trigger] a[i]) == text::lower_char(b[i]) {
        assert(text::lower(a) =~= text::lower(b));
    }
}

/// Parts that are put together with a mark that none of them holds are read
/// apart again.
pub proof fn law_parts_are_read_apart(a: Seq<char>, c: char, b: Seq<char>)
    requires
        !a.contains(c),
    ensures
        text::split_char(a, c) == seq![a],
        text::split_char(a + seq![c] + b, c) == seq![a] + text::split_char(b, c),
        text::split_once(a, c) is None,
        text::split_once(a + seq![c] + b, c) == Some((a, b)),
{
    assert(a.push(c) + b =~= a + seq![c] + b);
    text::lemma_split_char_one(a, c);
    text::lemma_split_char_cons(a, c, b);
    text::lemma_split_once_at(a, c, b);
    assert forall|k: int| 0 <= k < a.len() implies a[k] != c by {
        assert(a.contains(a[k]));
    }
    text::lemma_find_char_is(a, c, 0, a.len() as int);
}

/// A number is digits, after at most one plus, and no more than fits.
pub proof fn law_what_reads_as_a_number(s: Seq<char>, max: nat)
    ensures
        text::parse_uint(s, max) matches Some(n) ==> n <= max && s.len() > 0,
        (exists|i: int| 0 < i < s.len() && !('0' <= #[trigger] s[i] <= '9')) ==> text::parse_uint(s, max)
            is None,
        s.len() > 0 && s[0] != '+' && !('0' <= s[0] <= '9') ==> text::parse_uint(s, max) is None,
        s.len() == 0 ==> text::parse_uint(s, max) is None,
        s.len() > 0 && s[0] != '+' ==> text::parse_uint(seq!['+'] + s, max) == text::parse_uint(s, max),
{
    let t = seq!['+'] + s;
    assert(t.skip(1) =~= s);
    if exists|i: int| 0 < i < s.len() && !('0' <= #[trigger] s[i] <= '9') {
        let i = choose|i: int| 0 < i < s.len() && !('0' <= #[trigger] s[i] <= '9');
        if s[0] == '+' {
            assert(s.skip(1)[i - 1] == s[i]);
        }
    }
}

/// One more digit is worth ten times what stands before it, and itself.
pub proof fn law_digits_count_by_tens(s: Seq<char>, d: char)
    requires
        '0' <= d <= '9',
    ensures
        text::digits_value(s.push(d)) == 10 * text::digits_value(s) + (d as nat - '0' as nat),
        text::digits_value(Seq::empty()) == 0,
{
    assert(s.push(d).drop_last() =~= s);
}

// ── Headers ─────────────────────────────────────────────────────────────

/// A line is a header of a name whatever the case of it and the space around
/// it, and its value is what follows the colon.
pub proof fn law_name_of_a_header(name: Seq<char>, value: Seq<char>, long: Seq<char>, short: Seq<char>)
    requires
        !name.contains(':'),
    ensures
        headers::is_header(name + seq![':'] + value, long, short) <==> text::same_text(text::trim(name), long)
            || text::same_text(text::trim(name), short),
        headers::header_field(name + seq![':'] + value) == text::trim(value),
        !headers::is_header(name, long, short),
{
    law_parts_are_read_apart(name, ':', value);
}

/// The values of a header are those of its lines, in their order.
pub proof fn law_values_of_a_header(ls: Seq<Seq<char>>, l: Seq<char>, long: Seq<char>, short: Seq<char>)
    ensures
        headers::header_values(Seq::empty(), long, short).len() == 0,
        headers::is_header(l, long, short) ==> headers::header_values(seq![l] + ls, long, short) == seq![
            headers::header_field(l),
        ] + headers::header_values(ls, long, short),
        !headers::is_header(l, long, short) ==> headers::header_values(seq![l] + ls, long, short) == headers::header_values(
            ls,
            long,
            short,
        ),
{
    let v = seq![l] + ls;
    assert(v.skip(1) =~= ls);
    assert(v[0] == l);
}

/// The first value of a header is that of the first line with either of its
/// beginnings.
pub proof fn law_first_value_of_a_header(ls: Seq<Seq<char>>, a: Seq<char>, b: Seq<char>, k: int)
    requires
        0 <= k < ls.len(),
        text::starts_with_word(ls[k], a) || text::starts_with_word(ls[k], b),
        forall|i: int|
            0 <= i < k ==> !text::starts_with_word(#[trigger] ls[i], a) && !text::starts_with_word(ls[i], b),
    ensures
        headers::first_prefixed(ls, a, b) == Some(ls[k]),
    decreases k,
{
    if k > 0 {
        let t = ls.skip(1);
        assert forall|i: int| 0 <= i < k - 1 implies !text::starts_with_word(#[trigger] t[i], a)
            && !text::starts_with_word(t[i], b) by {
            assert(t[i] == ls[i + 1]);
        }
        assert(t[k - 1] == ls[k]);
        law_first_value_of_a_header(t, a, b, k - 1);
    }
}

/// A header that is put in takes the place of the first of its name, or
/// stands last where there is none; every other line stays.
pub proof fn law_header_is_put_in(ls: Seq<Seq<char>>, name: Seq<char>, value: Seq<char>)
    ensures
        ({
            let r = raw_message::with_header(ls, name, value);
            let line = name + ": "@ + value;
            let known = exists|i: int| 0 <= i < ls.len() && headers::is_header(#[trigger] ls[i], name, name);
            &&& known ==> r.len() == ls.len()
            &&& !known ==> r == ls.push(line)
            &&& known ==> exists|k: int|
                0 <= k < ls.len() && headers::is_header(#[trigger] ls[k], name, name) && r == ls.update(
                    k,
                    line,
                ) && forall|i: int| 0 <= i < k ==> !headers::is_header(#[trigger] ls[i], name, name)
        }),
{
    lemma_index_of_header(ls, name);
}

proof fn lemma_index_of_header(ls: Seq<Seq<char>>, name: Seq<char>)
    ensures
        0 <= raw_message::header_index(ls, name) <= ls.len(),
        raw_message::header_index(ls, name) < ls.len() ==> headers::is_header(ls[raw_message::header_index(ls, name)], name, name),
        forall|i: int| 0 <= i < raw_message::header_index(ls, name) ==> !headers::is_header(#[trigger] ls[i], name, name),
    decreases ls.len(),
{
    if ls.len() > 0 && !headers::is_header(ls[0], name, name) {
        let t = ls.skip(1);
        lemma_index_of_header(t, name);
        let k = raw_message::header_index(t, name);
        if k < t.len() {
            assert(t[k] == ls[k + 1]);
        }
        assert forall|i: int| 0 <= i < k + 1 implies !headers::is_header(#[trigger] ls[i], name, name) by {
            if i > 0 {
                assert(t[i - 1] == ls[i]);
            }
        }
    }
}

/// A header that is taken out goes with each of its lines; the others stay,
/// in their order.
pub proof fn law_header_is_taken_out(ls: Seq<Seq<char>>, name: Seq<char>)
    ensures
        raw_message::without_header(ls, name) == ls.filter(|l: Seq<char>| !headers::is_header(l, name, name)),
    decreases ls.len(),
{
    reveal(Seq::filter);
    if ls.len() > 0 {
        law_header_is_taken_out(ls.drop_last(), name);
    }
    assert(raw_message::without_header(ls, name) =~= ls.filter(|l: Seq<char>| !headers::is_header(l, name, name)));
}

// ── Case ────────────────────────────────────────────────────────────────

/// Letters change their case one by one, and nothing else changes; case is
/// raised so for text in ASCII.
pub proof fn law_change_of_case(s: Seq<char>, i: int)
    requires
        0 <= i < s.len(),
    ensures
        text::lower(s).len() == s.len(),
        'A' <= s[i] <= 'Z' ==> text::lower(s)[i] as u32 == s[i] as u32 + 32,
        !('A' <= s[i] <= 'Z') ==> text::lower(s)[i] == s[i],
        vstd::utf8::is_ascii_chars(s) ==> sip_builder::upper(s).len() == s.len(),
        vstd::utf8::is_ascii_chars(s) && 'a' <= s[i] <= 'z' ==> sip_builder::upper(s)[i] as u32 == s[i] as u32
            - 32,
        vstd::utf8::is_ascii_chars(s) && !('a' <= s[i] <= 'z') ==> sip_builder::upper(s)[i] == s[i],
{
}

// ── Messages as they are written and read ───────────────────────────────

/// A message is written line by line, each header as its name, a colon, a
/// space and its value, and its body behind an empty line.
pub proof fn law_how_a_message_is_written(
    start: Seq<char>,
    v: Seq<(Seq<char>, Seq<char>)>,
    name: Seq<char>,
    value: Seq<char>,
    body: Seq<char>,
)
    ensures
        text::crlf() == "\r\n"@,
        headers::header_block(Seq::empty()).len() == 0,
        headers::header_block(v.push((name, value))) == headers::header_block(v) + (name + ": "@ + value) + text::crlf(),
        headers::message_text(start, v, body) == start + text::crlf() + headers::header_block(v) + text::crlf() + body,
{
    reveal_strlit("\r\n");
    assert(text::crlf() =~= "\r\n"@);
    assert(v.push((name, value)).drop_last() =~= v);
}

/// Which lines the headers of a message are read from: the first with the
/// long name or the short one.
pub proof fn law_names_of_headers(hs: Seq<Seq<char>>, k: int)
    requires
        0 <= k < hs.len(),
    ensures
        is_first(hs, "to:"@, "t:"@, k) ==> message::to_value(hs) == Some(headers::header_field(hs[k])),
        is_first(hs, "from:"@, "f:"@, k) ==> message::from_value(hs) == Some(headers::header_field(hs[k])),
        is_first(hs, "call-id:"@, "i:"@, k) ==> message::call_id_value(hs) == Some(headers::header_field(hs[k])),
        is_first(hs, "cseq:"@, "cseq:"@, k) ==> message::cseq_value(hs) == Some(headers::header_field(hs[k])),
        is_first(hs, "contact:"@, "m:"@, k) ==> message::contact_value(hs) == Some(headers::header_field(hs[k])),
        is_first(hs, "max-forwards:"@, "max-forwards:"@, k) ==> invite_handler::max_forwards(hs) == text::parse_uint(
            text::trim(text::split_char(headers::header_field(hs[k]), ';')[0]),
            4294967295,
        ),
        is_first(hs, "expires:"@, "expires:"@, k) ==> register::expires_header(hs) == text::parse_uint(
            headers::header_field(hs[k]),
            4294967295,
        ),
        is_first(hs, "proxy-authenticate:"@, "proxy-authenticate:"@, k) ==> invite_handler::proxy_challenge(hs)
            == Some(headers::header_field(hs[k])),
{
    lemma_first_is(hs, "to:"@, "t:"@, k);
    lemma_first_is(hs, "from:"@, "f:"@, k);
    lemma_first_is(hs, "call-id:"@, "i:"@, k);
    lemma_first_is(hs, "cseq:"@, "cseq:"@, k);
    lemma_first_is(hs, "contact:"@, "m:"@, k);
    lemma_first_is(hs, "max-forwards:"@, "max-forwards:"@, k);
    lemma_first_is(hs, "expires:"@, "expires:"@, k);
    lemma_first_is(hs, "proxy-authenticate:"@, "proxy-authenticate:"@, k);
}

/// The line at `k` is the first with either beginning.
pub open spec fn is_first(hs: Seq<Seq<char>>, a: Seq<char>, b: Seq<char>, k: int) -> bool {
    &&& text::starts_with_word(hs[k], a) || text::starts_with_word(hs[k], b)
    &&& forall|i: int|
        0 <= i < k ==> !text::starts_with_word(#[trigger] hs[i], a) && !text::starts_with_word(hs[i], b)
}

proof fn lemma_first_is(hs: Seq<Seq<char>>, a: Seq<char>, b: Seq<char>, k: int)
    requires
        0 <= k < hs.len(),
    ensures
        is_first(hs, a, b, k) ==> headers::first_prefixed(hs, a, b) == Some(hs[k]),
{
    if is_first(hs, a, b, k) {
        law_first_value_of_a_header(hs, a, b, k);
    }
}

/// A header that no line has is not read.
pub proof fn law_absent_header(hs: Seq<Seq<char>>, a: Seq<char>, b: Seq<char>)
    requires
        forall|i: int|
            0 <= i < hs.len() ==> !text::starts_with_word(#[trigger] hs[i], a) && !text::starts_with_word(
                hs[i],
                b,
            ),
    ensures
        headers::first_prefixed(hs, a, b) is None,
        message::first_value(hs, a, b) is None,
        message::numeric_header(hs, a, b) is None,
    decreases hs.len(),
{
    if hs.len() > 0 {
        let t = hs.skip(1);
        assert forall|i: int| 0 <= i < t.len() implies !text::starts_with_word(#[trigger] t[i], a)
            && !text::starts_with_word(t[i], b) by {
            assert(t[i] == hs[i + 1]);
        }
        law_absent_header(t, a, b);
    }
}

/// The number of a header is read without the parameters behind it.
pub proof fn law_number_of_a_header(hs: Seq<Seq<char>>, a: Seq<char>, b: Seq<char>, k: int, n: nat, rest: Seq<char>)
    requires
        0 <= k < hs.len(),
        is_first(hs, a, b, k),
        n <= 4294967295,
        headers::header_field(hs[k]) == text::decimal(n) || headers::header_field(hs[k]) == text::decimal(n) + seq![';'] + rest,
    ensures
        message::numeric_header(hs, a, b) == Some(n),
{
    lemma_first_is(hs, a, b, k);
    let d = text::decimal(n);
    text::lemma_decimal_digits(n);
    text::law_decimal_reads_back(n, 4294967295);
    assert forall|i: int| 0 <= i < d.len() implies d[i] != ';' && !text::is_space(d[i]) by {
        assert(text::is_digit(d[i]));
    }
    law_parts_are_read_apart(d, ';', rest);
    assert(text::is_digit(d[0]) && text::is_digit(d.last()));
    law_space_around_is_dropped(Seq::empty(), d, Seq::empty());
    assert(Seq::<char>::empty() + d + Seq::<char>::empty() =~= d);
}

/// A line is a Via where it starts with the word or its letter.
pub proof fn law_which_lines_are_vias(l: Seq<char>)
    ensures
        sip_builder::is_via_line(l) <==> text::starts_with_word(l, "via:"@) || text::starts_with_word(l, "v:"@),
{
}

/// Words are what stands between spaces: the first up to the first space, the
/// others as they are read of the rest.
pub proof fn law_words_of_a_text(a: Seq<char>, c: char, rest: Seq<char>)
    requires
        a.len() > 0,
        forall|i: int| 0 <= i < a.len() ==> !text::is_space(#[trigger] a[i]),
        text::is_space(c),
    ensures
        text::tokens(a) == seq![a],
        text::tokens(a + seq![c] + rest) == seq![a] + text::tokens(rest),
        text::tokens(seq![c] + rest) == text::tokens(rest),
        text::tokens(Seq::empty()).len() == 0,
{
    lemma_first_word(a, Seq::empty());
    assert(a + Seq::<char>::empty() =~= a);
    let tail = seq![c] + rest;
    lemma_first_word(a, tail);
    assert(a + tail =~= a + seq![c] + rest);
    lemma_leading_space(c, rest);
    lemma_no_words();
}

proof fn lemma_no_words()
    ensures
        text::tokens(Seq::empty()) == Seq::<Seq<char>>::empty(),
{
    assert(text::tokens(Seq::empty()) =~= Seq::<Seq<char>>::empty());
}

proof fn lemma_first_word(a: Seq<char>, tail: Seq<char>)
    requires
        a.len() > 0,
        forall|i: int| 0 <= i < a.len() ==> !text::is_space(#[trigger] a[i]),
        tail.len() > 0 ==> text::is_space(tail[0]),
    ensures
        text::tokens(a + tail) == seq![a] + text::tokens(tail),
{
    let s = a + tail;
    assert(s[0] == a[0]);
    assert(text::skip_space(s, 0) == 0);
    text::lemma_find_space(s, 0);
    let b = text::find_space(s, 0);
    let n = a.len() as int;
    if b < n {
        assert(s[b] == a[b]);
    }
    if b > n {
        assert(s[n] == tail[0]);
    }
    assert(s.subrange(0, n) =~= a);
    assert(s.skip(n) =~= tail);
}

proof fn lemma_leading_space(c: char, rest: Seq<char>)
    requires
        text::is_space(c),
    ensures
        text::tokens(seq![c] + rest) == text::tokens(rest),
{
    let s = seq![c] + rest;
    lemma_shifted_skip(c, rest, 0);
    let a = text::skip_space(s, 0);
    text::lemma_skip_space(rest, 0);
    let ra = text::skip_space(rest, 0);
    assert(s[0] == c);
    assert(text::skip_space(s, 0) == text::skip_space(s, 1));
    lemma_shifted_find(c, rest, ra);
    let b = text::find_space(s, a);
    let rb = text::find_space(rest, ra);
    text::lemma_find_space(rest, ra);
    assert(a == ra + 1 && b == rb + 1);
    if ra < rb {
        assert(s.subrange(a, b) =~= rest.subrange(ra, rb));
        assert(s.skip(b) =~= rest.skip(rb));
    }
}

proof fn lemma_shifted_skip(c: char, rest: Seq<char>, from: int)
    requires
        0 <= from <= rest.len(),
    ensures
        text::skip_space(seq![c] + rest, from + 1) == text::skip_space(rest, from) + 1,
    decreases rest.len() - from,
{
    let s = seq![c] + rest;
    if from < rest.len() {
        assert(s[from + 1] == rest[from]);
        lemma_shifted_skip(c, rest, from + 1);
    }
}

proof fn lemma_shifted_find(c: char, rest: Seq<char>, from: int)
    requires
        0 <= from <= rest.len(),
    ensures
        text::find_space(seq![c] + rest, from + 1) == text::find_space(rest, from) + 1,
    decreases rest.len() - from,
{
    let s = seq![c] + rest;
    if from < rest.len() {
        assert(s[from + 1] == rest[from]);
        lemma_shifted_find(c, rest, from + 1);
    }
}

/// The number and the method of a request are the two words of its CSeq.
pub proof fn law_number_and_method(n: nat, method: Seq<char>)
    requires
        n <= 4294967295,
        method.len() > 0,
        forall|i: int| 0 <= i < method.len() ==> !text::is_space(#[trigger] method[i]),
    ensures
        message::cseq_parts(text::decimal(n) + seq![' '] + method) == Some((n, method)),
        headers::cseq_number(text::decimal(n) + seq![' '] + method) == Some(n),
        responses::is_invite_cseq(Some(text::decimal(n) + seq![' '] + method)) <==> text::same_text(method, "INVITE"@),
{
    let d = text::decimal(n);
    text::lemma_decimal_digits(n);
    text::law_decimal_reads_back(n, 4294967295);
    assert forall|i: int| 0 <= i < d.len() implies !text::is_space(#[trigger] d[i]) by {
        assert(text::is_digit(d[i]));
    }
    law_words_of_a_text(d, ' ', method);
    law_words_of_a_text(method, ' ', Seq::empty());
}

/// The status of a response is the second word of it.
pub proof fn law_status_of_a_response(code: nat, rest: Seq<char>)
    requires
        code <= 65535,
    ensures
        message::status_code("SIP/2.0"@ + seq![' '] + (text::decimal(code) + seq![' '] + rest)) == Some(code),
{
    reveal_strlit("SIP/2.0");
    let d = text::decimal(code);
    text::lemma_decimal_digits(code);
    text::law_decimal_reads_back(code, 65535);
    assert forall|i: int| 0 <= i < d.len() implies !text::is_space(#[trigger] d[i]) by {
        assert(text::is_digit(d[i]));
    }
    law_words_of_a_text("SIP/2.0"@, ' ', d + seq![' '] + rest);
    law_words_of_a_text(d, ' ', rest);
}

/// Bytes are written as two digits each, the higher half first.
pub proof fn law_bytes_as_digits(bytes: Seq<u8>, b: u8)
    ensures
        sip_builder::hex(Seq::empty()).len() == 0,
        sip_builder::hex(bytes.push(b)) == sip_builder::hex(bytes) + seq![sip_builder::hex_digit(b as int / 16), sip_builder::hex_digit(b as int % 16)],
        forall|n: int| 0 <= n < 10 ==> #[trigger] sip_builder::hex_digit(n) as int == 48 + n,
        forall|n: int| 10 <= n < 16 ==> #[trigger] sip_builder::hex_digit(n) as int == 87 + n,
        sip_builder::branch_text(bytes) == "z9hG4bK"@ + sip_builder::hex(bytes),
{
    assert(bytes.push(b).drop_last() =~= bytes);
    assert(sip_builder::hex(bytes.push(b)) =~= sip_builder::hex(bytes) + seq![
        sip_builder::hex_digit(b as int / 16),
        sip_builder::hex_digit(b as int % 16),
    ]);
}

/// A tag is eight digits or letters up to `f`.
pub proof fn law_what_a_tag_is(s: Seq<char>)
    ensures
        responses::is_tag(s) <==> s.len() == 8 && forall|i: int|
            0 <= i < 8 ==> ('0' <= #[trigger] s[i] <= '9') || ('a' <= s[i] <= 'f'),
{
}

/// A number is written with zeros in front up to its width, and reads as
/// itself.
pub proof fn law_padded_number(n: nat, width: nat)
    requires
        text::decimal(n).len() <= width,
    ensures
        text::padded(n, width).len() == width,
        forall|i: int| 0 <= i < width - text::decimal(n).len() ==> #[trigger] text::padded(n, width)[i] == '0',
        text::padded(n, width).skip(width - text::decimal(n).len()) == text::decimal(n),
{
    lemma_zeros_are((width - text::decimal(n).len()) as int);
    assert(text::padded(n, width).skip(width - text::decimal(n).len()) =~= text::decimal(n));
}

proof fn lemma_zeros_are(k: int)
    requires
        k >= 0,
    ensures
        text::zeros(k).len() == k,
        forall|i: int| 0 <= i < k ==> #[trigger] text::zeros(k)[i] == '0',
    decreases k,
{
    if k > 0 {
        lemma_zeros_are(k - 1);
    }
}

/// A date and a time are written in the order of the standard.
pub proof fn law_how_a_time_is_written(y: nat, m: nat, d: nat, hours: nat, minutes: nat, seconds: nat)
    requires
        minutes < 60,
        seconds < 60,
    ensures
        rfc3339::timestamp_text(y, m, d, hours * 3600 + minutes * 60 + seconds) == text::padded(y, 4) + seq!['-']
            + text::padded(m + 1, 2) + seq!['-'] + text::padded(d + 1, 2) + seq!['T'] + text::padded(hours, 2) + seq![
            ':',
        ] + text::padded(minutes, 2) + seq![':'] + text::padded(seconds, 2) + seq!['Z'],
{
    let s = hours * 3600 + minutes * 60 + seconds;
    assert(s / 3600 == hours && s % 3600 == minutes * 60 + seconds);
    assert((minutes * 60 + seconds) / 60 == minutes);
    assert(s % 60 == seconds);
}

/// Lines are joined with an end of line between each two, and a block of
/// lines has one behind each.
pub proof fn law_lines_are_joined(v: Seq<Seq<char>>, l: Seq<char>)
    ensures
        text::join_lines(Seq::empty()).len() == 0,
        text::join_lines(seq![l]) == l,
        v.len() > 0 ==> text::join_lines(v.push(l)) == text::join_lines(v) + text::crlf() + l,
        raw_message::lines_block(Seq::empty()).len() == 0,
        raw_message::lines_block(v.push(l)) == raw_message::lines_block(v) + l + text::crlf(),
{
    assert(v.push(l).drop_last() =~= v);
}

/// The body of a message is what stands behind its first empty line.
pub proof fn law_body_of_a_message(head: Seq<char>, body: Seq<char>)
    requires
        forall|k: int|
            0 <= k < head.len() ==> !text::occurs_at(head + (text::crlf() + text::crlf()) + body, text::crlf() + text::crlf(), k),
    ensures
        headers::head_of(head + (text::crlf() + text::crlf()) + body) == head,
        headers::body_of(head + (text::crlf() + text::crlf()) + body) == body,
{
    let mark = text::crlf() + text::crlf();
    let s = head + mark + body;
    let n = head.len() as int;
    assert(mark.len() == 4);
    assert(s.subrange(n, n + 4) =~= mark);
    text::lemma_find_str_is(s, mark, 0, n);
    assert(s.take(n) =~= head);
    assert(s.skip(n + 4) =~= body);
}

/// The interval of a session is read under its name, long or short.
pub proof fn law_name_of_the_session_header(raw: Seq<char>)
    ensures
        message::session_expires(raw) == message::numeric_header(message::text_lines(raw), "session-expires:"@, "x:"@),
{
}

/// Items of a list are set apart by a comma and a space.
pub proof fn law_list_with_commas(v: Seq<Seq<char>>, x: Seq<char>)
    ensures
        invite_handler::comma_list(Seq::empty()).len() == 0,
        invite_handler::comma_list(seq![x]) == x,
        v.len() > 0 ==> invite_handler::comma_list(v.push(x)) == invite_handler::comma_list(v) + ", "@ + x,
{
    assert(v.push(x).drop_last() =~= v);
}

/// The floor of a session is read under its name.
pub proof fn law_name_of_the_floor_header(raw: Seq<char>)
    ensures
        message::min_se(raw) == message::numeric_header(message::text_lines(raw), "min-se:"@, "min-se:"@),
{
}

/// Lines are what stands between the ends of line.
pub proof fn law_lines_of_a_text(a: Seq<char>, rest: Seq<char>)
    requires
        forall|k: int| 0 <= k < a.len() ==> !text::occurs_at(a + text::crlf() + rest, text::crlf(), k),
    ensures
        text::lines(a + text::crlf() + rest) == seq![a] + text::lines(rest),
{
    let s = a + text::crlf() + rest;
    let n = a.len() as int;
    assert(s.subrange(n, n + 2) =~= text::crlf());
    text::lemma_find_str_is(s, text::crlf(), 0, n);
    assert(s.take(n) =~= a);
    assert(s.skip(n + 2) =~= rest);
}

} // verus!
