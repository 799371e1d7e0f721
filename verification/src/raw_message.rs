//! A SIP message as its start line, its header lines and its body, for edits
//! that keep everything else as it is.

use crate::headers::{field_of, header_is, header_lines_of};
use crate::headers;
use crate::sip_laws;
use crate::text::{chars_of, position_of_str, split_lines, string_of};
use crate::text;
use vstd::prelude::*;
use vstd::slice::slice_subrange;

verus! {

/// A message taken apart into lines.
#[derive(Debug)]
pub struct RawSipMessage {
    pub start_line: String,
    pub headers: Vec<String>,
    pub body: String,
}

/// A message taken apart, by its contents.
pub struct RawView {
    pub start: Seq<char>,
    pub headers: Seq<Seq<char>>,
    pub body: Seq<char>,
}

impl View for RawSipMessage {
    type V = RawView;

    open spec fn view(&self) -> RawView {
        RawView {
            start: self.start_line@,
            headers: text::string_views(self.headers@),
            body: self.body@,
        }
    }
}

/// The parts of a raw message.
pub open spec fn raw_parts(raw: Seq<char>) -> RawView {
    RawView { start: headers::start_line(raw), headers: headers::header_lines(raw), body: headers::body_of(raw) }
}

/// Lines, each with its line end.
pub open spec fn lines_block(v: Seq<Seq<char>>) -> Seq<char>
    decreases v.len(),
{
    if v.len() == 0 {
        Seq::empty()
    } else {
        lines_block(v.drop_last()) + v.last() + text::crlf()
    }
}

/// The message as it is written.
pub open spec fn raw_text(m: RawView) -> Seq<char> {
    m.start + text::crlf() + lines_block(m.headers) + text::crlf() + m.body
}

/// The header lines with another name.
pub open spec fn without_header(ls: Seq<Seq<char>>, name: Seq<char>) -> Seq<Seq<char>>
    decreases ls.len(),
{
    if ls.len() == 0 {
        ls
    } else if headers::is_header(ls.last(), name, name) {
        without_header(ls.drop_last(), name)
    } else {
        without_header(ls.drop_last(), name).push(ls.last())
    }
}

/// First line with the name, or the length where there is none.
pub open spec fn header_index(ls: Seq<Seq<char>>, name: Seq<char>) -> int
    decreases ls.len(),
{
    if ls.len() == 0 || headers::is_header(ls[0], name, name) {
        0
    } else {
        1 + header_index(ls.skip(1), name)
    }
}

/// The header lines with the first one of that name replaced; where there is
/// none, the new line comes last.
pub open spec fn with_header(ls: Seq<Seq<char>>, name: Seq<char>, value: Seq<char>) -> Seq<Seq<char>> {
    let line = name + ": "@ + value;
    let i = header_index(ls, name);
    if i < ls.len() {
        ls.update(i, line)
    } else {
        ls.push(line)
    }
}

/// First value of a header among lines.
pub open spec fn line_value(ls: Seq<Seq<char>>, name: Seq<char>) -> Option<Seq<char>> {
    let i = header_index(ls, name);
    if i < ls.len() {
        Some(headers::header_field(ls[i]))
    } else {
        None
    }
}

pub proof fn lemma_header_index(ls: Seq<Seq<char>>, name: Seq<char>)
    ensures
        0 <= header_index(ls, name) <= ls.len(),
        header_index(ls, name) < ls.len() ==> headers::is_header(ls[header_index(ls, name)], name, name),
        forall|i: int| 0 <= i < header_index(ls, name) ==> !headers::is_header(#[trigger] ls[i], name, name),
    decreases ls.len(),
{
    if ls.len() > 0 && !headers::is_header(ls[0], name, name) {
        lemma_header_index(ls.skip(1), name);
        assert forall|i: int| 0 <= i < header_index(ls, name) implies !headers::is_header(
            #[trigger] ls[i],
            name,
            name,
        ) by {
            if i > 0 {
                assert(ls.skip(1)[i - 1] == ls[i]);
            }
        }
    }
}

/// Every line of a text as a string of its own.
pub fn own_lines(v: &Vec<&[char]>) -> (r: Vec<String>)
    ensures
        text::string_views(r@) == text::views(v@),
{
    let mut out: Vec<String> = Vec::new();
    let mut i: usize = 0;
    assert(text::string_views(out@) =~= text::views(v@).take(0));
    while i < v.len()
        invariant
            i <= v@.len(),
            text::string_views(out@) == text::views(v@).take(i as int),
        decreases v@.len() - i,
    {
        let ghost before = out@;
        let s = string_of(v[i]);
        out.push(s);
        assert(text::string_views(out@) =~= text::string_views(before).push(s@));
        assert(text::views(v@).take(i + 1) =~= text::views(v@).take(i as int).push(v@[i as int]@));
        i = i + 1;
    }
    assert(text::views(v@).take(v@.len() as int) =~= text::views(v@));
    out
}

/// What follows the first empty line of a raw message.
pub fn body_text(raw: &[char]) -> (r: String)
    ensures
        r@ == headers::body_of(raw@),
{
    let blank: [char; 4] = ['\r', '\n', '\r', '\n'];
    assert(blank@ =~= text::crlf() + text::crlf());
    let pos: usize = position_of_str(raw, &blank, 0);
    if pos < raw.len() {
        let body = slice_subrange(raw, pos + 4, raw.len());
        assert(body@ =~= headers::body_of(raw@));
        string_of(body)
    } else {
        let r = String::new();
        assert(r@ =~= headers::body_of(raw@));
        r
    }
}

impl RawSipMessage {
    /// Take a message apart; None where it has no start line.
    pub fn parse(raw: &str) -> (r: Option<Self>)
        ensures
            match r {
                Some(m) => headers::start_line(raw@).len() > 0 && m@ == raw_parts(raw@),
                None => headers::start_line(raw@).len() == 0,
            },
    {
        let c = chars_of(raw);
        let ls = split_lines(c.as_slice());
        assert(text::views(ls@)[0] == ls@[0]@);
        if ls[0].len() == 0 {
            return None;
        }
        let hs = header_lines_of(&ls);
        let m = RawSipMessage {
            start_line: string_of(ls[0]),
            headers: own_lines(&hs),
            body: body_text(c.as_slice()),
        };
        Some(m)
    }

    /// Drop every header of that name.
    pub fn remove_header(&mut self, name: &str)
        ensures
            final(self)@ == (RawView {
                headers: without_header(old(self)@.headers, name@),
                ..old(self)@
            }),
    {
        let ghost s = self@.headers;
        let ghost mut done: int = 0;
        let mut i: usize = 0;
        assert(self@.headers =~= without_header(s.take(0), name@) + s.skip(0));
        while i < self.headers.len()
            invariant
                0 <= done <= s.len(),
                i == without_header(s.take(done), name@).len(),
                self@.headers == without_header(s.take(done), name@) + s.skip(done),
                self.start_line@ == old(self).start_line@,
                self.body@ == old(self).body@,
            decreases s.len() - done,
        {
            let ghost all = self@.headers;
            let ghost kept = without_header(s.take(done), name@);
            assert(s.take(done + 1).drop_last() =~= s.take(done));
            assert(all[i as int] == s[done]);
            let line = chars_of(self.headers[i].as_str());
            assert(line@ == s[done]);
            if header_is(line.as_slice(), name, name) {
                self.headers.remove(i);
                assert(self@.headers =~= all.remove(i as int));
                assert(self@.headers =~= kept + s.skip(done + 1));
            } else {
                i = i + 1;
                assert(kept + s.skip(done) =~= kept.push(s[done]) + s.skip(done + 1));
            }
            proof {
                done = done + 1;
            }
        }
        assert(done == s.len());
        assert(s.take(done) =~= s);
        assert(self@.headers =~= without_header(s, name@));
    }

    /// Put a header line first.
    pub fn prepend_header(&mut self, line: String)
        ensures
            final(self)@ == (RawView {
                headers: seq![line@] + old(self)@.headers,
                ..old(self)@
            }),
    {
        self.headers.insert(0, line);
        assert(self@.headers =~= seq![line@] + old(self)@.headers);
    }

    /// Put a header line last.
    pub fn append_header(&mut self, line: String)
        ensures
            final(self)@ == (RawView {
                headers: old(self)@.headers.push(line@),
                ..old(self)@
            }),
    {
        self.headers.push(line);
        assert(self@.headers =~= old(self)@.headers.push(line@));
    }

    fn find_header(&self, name: &str) -> (r: usize)
        ensures
            r == header_index(self@.headers, name@),
            r <= self.headers@.len(),
    {
        let ghost s = self@.headers;
        let mut i: usize = 0;
        assert(s.skip(0) =~= s);
        while i < self.headers.len()
            invariant
                i <= s.len(),
                s == self@.headers,
                header_index(s, name@) == i + header_index(s.skip(i as int), name@),
            decreases s.len() - i,
        {
            let line = chars_of(self.headers[i].as_str());
            assert(s.skip(i as int)[0] == line@);
            assert(s.skip(i as int).skip(1) =~= s.skip(i + 1));
            if header_is(line.as_slice(), name, name) {
                return i;
            }
            i = i + 1;
        }
        i
    }

    /// Set the first header of that name, or add it.
    pub fn set_header(&mut self, name: &str, value: &str)
        ensures
            final(self)@ == (RawView {
                headers: with_header(old(self)@.headers, name@, value@),
                ..old(self)@
            }),
    {
        let ghost s = self@.headers;
        let at: usize = self.find_header(name);
        let mut line = name.to_string();
        line.push_str(": ");
        line.push_str(value);
        if at < self.headers.len() {
            self.headers.set(at, line);
            assert(self@.headers =~= s.update(at as int, line@));
        } else {
            self.headers.push(line);
            assert(self@.headers =~= s.push(line@));
        }
    }

    /// First value of the header of that name.
    pub fn header_value(&self, name: &str) -> (r: Option<String>)
        ensures
            text::opt_string(r) == line_value(self@.headers, name@),
    {
        let at: usize = self.find_header(name);
        if at < self.headers.len() {
            let line = chars_of(self.headers[at].as_str());
            assert(line@ == self@.headers[at as int]);
            Some(string_of(field_of(line.as_slice())))
        } else {
            None
        }
    }

    /// The message as it is written.
    pub fn write(&self) -> (r: String)
        ensures
            r@ == raw_text(self@),
    {
        let ghost s = self@.headers;
        let mut out = self.start_line.clone();
        out.push_str("\r\n");
        proof {
            reveal_strlit("\r\n");
            assert("\r\n"@ =~= text::crlf());
        }
        let ghost head = out@;
        let mut i: usize = 0;
        assert(out@ =~= head + lines_block(s.take(0)));
        while i < self.headers.len()
            invariant
                i <= s.len(),
                s == self@.headers,
                "\r\n"@ == text::crlf(),
                out@ == head + lines_block(s.take(i as int)),
            decreases s.len() - i,
        {
            assert(s.take(i + 1).drop_last() =~= s.take(i as int));
            assert(s.take(i + 1).last() == self.headers@[i as int]@);
            out.push_str(self.headers[i].as_str());
            out.push_str("\r\n");
            assert(out@ =~= head + lines_block(s.take(i + 1)));
            i = i + 1;
        }
        assert(s.take(s.len() as int) =~= s);
        out.push_str("\r\n");
        out.push_str(self.body.as_str());
        out
    }
}

// ── Reading back ────────────────────────────────────────────────────────

/// The start line and the headers are lines, and no header is empty.
pub open spec fn raw_ok(m: RawView) -> bool {
    &&& sip_laws::one_line(m.start)
    &&& forall|i: int|
        0 <= i < m.headers.len() ==> sip_laws::one_line(#[trigger] m.headers[i]) && m.headers[i].len() > 0
}

/// Where the first empty line behind `a` is.
pub proof fn lemma_blank_after_line(a: Seq<char>, rest: Seq<char>)
    requires
        sip_laws::one_line(a),
    ensures
        text::starts_with(rest, text::crlf()) ==> headers::head_end(a + text::crlf() + rest) == a.len(),
        !text::starts_with(rest, text::crlf()) && headers::head_end(rest) < rest.len() ==> headers::head_end(a + text::crlf() + rest)
            == a.len() + 2 + headers::head_end(rest),
{
    let s = a + text::crlf() + rest;
    let p = text::crlf() + text::crlf();
    let n = a.len() as int;
    assert forall|k: int| 0 <= k < n implies !text::occurs_at(s, p, k) by {
        if text::occurs_at(s, p, k) {
            let w = s.subrange(k, k + 4);
            assert(w[0] == p[0] && w[1] == p[1]);
            assert(s[k] == '\r' && s[k + 1] == '\n');
            if k + 1 < n {
                sip_laws::lemma_crlf_at(a, k);
            }
        }
    }
    if text::starts_with(rest, text::crlf()) {
        assert(rest.subrange(0, 2) == text::crlf());
        assert(rest[0] == text::crlf()[0] && rest[1] == text::crlf()[1]);
        assert(s.subrange(n, n + 4) =~= p);
        text::lemma_find_str_is(s, p, 0, n);
    } else if headers::head_end(rest) < rest.len() {
        let e = headers::head_end(rest);
        text::lemma_find_str(rest, p, 0);
        assert(text::occurs_at(rest, p, e));
        assert(rest.subrange(e, e + 4) == p);
        assert(s.subrange(n + 2 + e, n + 2 + e + 4) =~= rest.subrange(e, e + 4));
        assert(!text::occurs_at(s, p, n)) by {
            if text::occurs_at(s, p, n) {
                let w = s.subrange(n, n + 4);
                assert(w[2] == p[2] && w[3] == p[3]);
                assert(rest.subrange(0, 2) =~= text::crlf());
            }
        }
        assert(!text::occurs_at(s, p, n + 1)) by {
            if text::occurs_at(s, p, n + 1) {
                assert(s.subrange(n + 1, n + 5)[0] == p[0]);
            }
        }
        assert forall|k: int| 0 <= k < n + 2 + e implies !text::occurs_at(s, p, k) by {
            if k >= n + 2 && text::occurs_at(s, p, k) {
                let j = k - n - 2;
                assert(rest.subrange(j, j + 4) =~= s.subrange(k, k + 4));
                assert(text::occurs_at(rest, p, j));
            }
        }
        text::lemma_find_str_is(s, p, 0, n + 2 + e);
    }
}

/// The block of a line and more lines.
pub proof fn lemma_block_cons(l: Seq<char>, v: Seq<Seq<char>>)
    ensures
        lines_block(seq![l] + v) == l + text::crlf() + lines_block(v),
    decreases v.len(),
{
    let w = seq![l] + v;
    if v.len() == 0 {
        assert(w =~= seq![l]);
        assert(w.drop_last() =~= Seq::empty());
        assert(lines_block(w.drop_last()) =~= Seq::empty());
        assert(lines_block(v) =~= Seq::empty());
        assert(w.last() == l);
        assert(lines_block(w) =~= l + text::crlf() + lines_block(v));
    } else {
        lemma_block_cons(l, v.drop_last());
        assert(w.drop_last() =~= seq![l] + v.drop_last());
        assert(lines_block(w) =~= l + text::crlf() + lines_block(v));
    }
}

/// Lines behind a start line and before an empty line are read back as they
/// are, and the body begins behind the empty line.
pub proof fn lemma_block_reads_back(v: Seq<Seq<char>>, body: Seq<char>)
    requires
        forall|i: int| 0 <= i < v.len() ==> sip_laws::one_line(#[trigger] v[i]) && v[i].len() > 0,
    ensures
        text::lines(lines_block(v) + text::crlf() + body) == v + seq![Seq::<char>::empty()] + text::lines(body),
        headers::until_blank(text::lines(lines_block(v) + text::crlf() + body)) == v,
        v.len() > 0 ==> headers::head_end(lines_block(v) + text::crlf() + body) == lines_block(v).len() - 2,
        v.len() > 0 ==> !text::starts_with(lines_block(v) + text::crlf() + body, text::crlf()),
    decreases v.len(),
{
    let none = Seq::<char>::empty();
    let s = lines_block(v) + text::crlf() + body;
    if v.len() == 0 {
        assert(sip_laws::one_line(none)) by {
            sip_laws::lemma_no_lf_is_line(none);
        }
        assert(s =~= none + text::crlf() + body);
        sip_laws::lemma_lines_cons(none, body);
        assert(v + seq![none] + text::lines(body) =~= seq![none] + text::lines(body));
        assert(headers::until_blank(text::lines(s)) =~= v);
    } else {
        let l = v[0];
        let t = v.skip(1);
        assert(v =~= seq![l] + t);
        assert forall|i: int| 0 <= i < t.len() implies sip_laws::one_line(#[trigger] t[i]) && t[i].len()
            > 0 by {
            assert(t[i] == v[i + 1]);
        }
        lemma_block_cons(l, t);
        let rest = lines_block(t) + text::crlf() + body;
        assert(s =~= l + text::crlf() + rest);
        lemma_block_reads_back(t, body);
        sip_laws::lemma_lines_cons(l, rest);
        assert(text::lines(s) =~= v + seq![none] + text::lines(body));
        sip_laws::lemma_until_blank_cons(l, text::lines(rest));
        lemma_blank_after_line(l, rest);
        if t.len() == 0 {
            assert(rest =~= text::crlf() + body);
            assert(rest.subrange(0, 2) =~= text::crlf());
        } else {
            assert(lines_block(t).len() >= 2) by {
                lemma_block_cons(t[0], t.skip(1));
                assert(t =~= seq![t[0]] + t.skip(1));
            }
        }
        assert(!text::starts_with(s, text::crlf())) by {
            if text::starts_with(s, text::crlf()) {
                assert(s.subrange(0, 2) == text::crlf());
                assert(s[0] == text::crlf()[0] && s[1] == text::crlf()[1]);
                sip_laws::lemma_crlf_at(l, 0);
            }
        }
    }
}

/// A message that is written and read again has the same start line, the
/// same headers and the same body.
pub proof fn law_raw_message_reads_back(m: RawView)
    requires
        raw_ok(m),
    ensures
        raw_parts(raw_text(m)) == m,
{
    let raw = raw_text(m);
    let rest = lines_block(m.headers) + text::crlf() + m.body;
    assert(raw =~= m.start + text::crlf() + rest);
    sip_laws::lemma_lines_cons(m.start, rest);
    lemma_block_reads_back(m.headers, m.body);
    assert(text::lines(raw).skip(1) =~= text::lines(rest));
    lemma_blank_after_line(m.start, rest);
    if m.headers.len() == 0 {
        assert(rest =~= text::crlf() + m.body);
        assert(rest.subrange(0, 2) =~= text::crlf());
        assert(headers::body_of(raw) =~= m.body);
    } else {
        assert(headers::head_end(raw) == m.start.len() + 2 + lines_block(m.headers).len() - 2);
        assert(headers::body_of(raw) =~= m.body);
    }
}

/// Taking a message apart and writing it again changes nothing, where it has
/// an empty line behind its headers.
pub proof fn law_raw_parts_are_the_message(raw: Seq<char>)
    requires
        headers::head_end(raw) < raw.len(),
    ensures
        raw_ok(raw_parts(raw)),
        raw_text(raw_parts(raw)) == raw,
    decreases raw.len(),
{
    lemma_parts_of(raw);
    sip_laws::lemma_lines_are_lines(raw);
    let hs = text::lines(raw).skip(1);
    assert forall|i: int| 0 <= i < hs.len() implies sip_laws::one_line(#[trigger] hs[i]) by {
        assert(hs[i] == text::lines(raw)[i + 1]);
    }
    sip_laws::lemma_until_blank_lines(hs);
    lemma_until_blank_full(hs);
}

proof fn lemma_until_blank_full(ls: Seq<Seq<char>>)
    ensures
        forall|i: int| 0 <= i < headers::until_blank(ls).len() ==> (#[trigger] headers::until_blank(ls)[i]).len() > 0,
    decreases ls.len(),
{
    if ls.len() > 0 && ls[0].len() > 0 {
        lemma_until_blank_full(ls.skip(1));
        assert forall|i: int| 0 <= i < headers::until_blank(ls).len() implies (
        #[trigger] headers::until_blank(ls)[i]).len() > 0 by {
            if i > 0 {
                assert(headers::until_blank(ls)[i] == headers::until_blank(ls.skip(1))[i - 1]);
            }
        }
    }
}

/// A text that has an empty line is its first line and what follows it.
proof fn lemma_first_line(raw: Seq<char>)
    requires
        headers::head_end(raw) < raw.len(),
    ensures
        ({
            let a = text::lines(raw)[0];
            let rest = raw.skip(a.len() as int + 2);
            &&& raw.len() >= a.len() + 2
            &&& raw == a + text::crlf() + rest
            &&& sip_laws::one_line(a)
            &&& text::lines(raw) == seq![a] + text::lines(rest)
            &&& text::starts_with(rest, text::crlf()) || headers::head_end(rest) < rest.len()
        }),
{
    let p = text::crlf() + text::crlf();
    let e = headers::head_end(raw);
    text::lemma_find_str(raw, p, 0);
    assert(text::occurs_at(raw, p, e));
    assert(raw.subrange(e, e + 4) == p);
    assert(raw[e] == p[0] && raw[e + 1] == p[1] && raw[e + 2] == p[2] && raw[e + 3] == p[3]);
    sip_laws::lemma_crlf_at(raw, e);
    let at = text::find_str(raw, text::crlf(), 0);
    text::lemma_find_str(raw, text::crlf(), 0);
    assert(at <= e) by {
        if at > e {
            assert(!text::occurs_at(raw, text::crlf(), e));
        }
    }
    sip_laws::lemma_crlf_at(raw, at);
    let a = raw.take(at);
    let rest = raw.skip(at + 2);
    sip_laws::lemma_lines_are_lines(raw);
    assert(text::lines(raw)[0] == a);
    assert(raw =~= a + text::crlf() + rest);
    if at == e {
        assert(rest.subrange(0, 2) =~= text::crlf());
    } else {
        assert(at + 2 <= e) by {
            if at + 1 == e {
                assert(raw[at + 1] == '\n');
            }
        }
        assert(rest.subrange(e - at - 2, e - at + 2) =~= p);
        assert(text::occurs_at(rest, p, e - at - 2));
        text::lemma_find_str(rest, p, 0);
        if headers::head_end(rest) >= rest.len() {
            assert(!text::occurs_at(rest, p, e - at - 2));
        }
    }
}

proof fn lemma_parts_of(raw: Seq<char>)
    requires
        headers::head_end(raw) < raw.len(),
    ensures
        sip_laws::one_line(headers::start_line(raw)),
        raw == headers::start_line(raw) + text::crlf() + lines_block(headers::header_lines(raw)) + text::crlf() + headers::body_of(raw),
    decreases raw.len(),
{
    lemma_first_line(raw);
    let a = text::lines(raw)[0];
    let rest = raw.skip(a.len() as int + 2);
    assert(text::lines(raw).skip(1) =~= text::lines(rest));
    lemma_blank_after_line(a, rest);
    if text::starts_with(rest, text::crlf()) {
        assert(rest.subrange(0, 2) == text::crlf());
        lemma_rest_blank(rest);
        assert(headers::header_lines(raw) =~= Seq::empty());
        assert(headers::body_of(raw) =~= rest.skip(2));
        assert(rest =~= text::crlf() + rest.skip(2));
        assert(raw =~= a + text::crlf() + lines_block(headers::header_lines(raw)) + text::crlf() + headers::body_of(raw));
    } else {
        lemma_first_line(rest);
        lemma_parts_of(rest);
        let l = text::lines(rest)[0];
        assert(l.len() > 0) by {
            if l.len() == 0 {
                assert(rest.subrange(0, 2) =~= text::crlf());
            }
        }
        sip_laws::lemma_until_blank_cons(l, text::lines(rest).skip(1));
        assert(text::lines(rest) =~= seq![l] + text::lines(rest).skip(1));
        assert(headers::header_lines(raw) == seq![l] + headers::header_lines(rest));
        lemma_block_cons(l, headers::header_lines(rest));
        text::lemma_find_str(rest, text::crlf() + text::crlf(), 0);
        assert(text::occurs_at(rest, text::crlf() + text::crlf(), headers::head_end(rest)));
        assert(headers::head_end(raw) == a.len() + 2 + headers::head_end(rest));
        assert(raw.skip(headers::head_end(raw) + 4) =~= rest.skip(headers::head_end(rest) + 4));
        assert(raw =~= a + text::crlf() + lines_block(headers::header_lines(raw)) + text::crlf() + headers::body_of(raw));
    }
}

proof fn lemma_rest_blank(rest: Seq<char>)
    requires
        text::starts_with(rest, text::crlf()),
    ensures
        headers::until_blank(text::lines(rest)) == Seq::<Seq<char>>::empty(),
{
    let none = Seq::<char>::empty();
    assert(rest.subrange(0, 2) == text::crlf());
    assert(sip_laws::one_line(none)) by {
        sip_laws::lemma_no_lf_is_line(none);
    }
    assert(rest =~= none + text::crlf() + rest.skip(2));
    sip_laws::lemma_lines_cons(none, rest.skip(2));
    assert(headers::until_blank(text::lines(rest)) =~= Seq::empty());
}

/// What removing a header leaves: none of that name, and the values of every
/// header with another name as they were.
pub proof fn law_removed_header_is_gone(ls: Seq<Seq<char>>, name: Seq<char>, other: Seq<char>)
    ensures
        headers::header_values(without_header(ls, name), name, name) == Seq::<Seq<char>>::empty(),
        !text::same_text(name, other) ==> headers::header_values(without_header(ls, name), other, other)
            == headers::header_values(ls, other, other),
    decreases ls.len(),
{
    let w = without_header(ls, name);
    if ls.len() > 0 {
        let d = ls.drop_last();
        let l = ls.last();
        law_removed_header_is_gone(d, name, other);
        assert(ls =~= d.push(l));
        lemma_values_push(d, l, name);
        lemma_values_push(d, l, other);
        lemma_values_push(without_header(d, name), l, name);
        lemma_values_push(without_header(d, name), l, other);
    }
}

/// The values of lines and one more.
pub proof fn lemma_values_push(ls: Seq<Seq<char>>, l: Seq<char>, name: Seq<char>)
    ensures
        headers::header_values(ls.push(l), name, name) == (if headers::is_header(l, name, name) {
            headers::header_values(ls, name, name).push(headers::header_field(l))
        } else {
            headers::header_values(ls, name, name)
        }),
{
    let n = ls.push(l);
    headers::lemma_header_values_step(n, ls.len() as int, name, name);
    assert(n.take(ls.len() as int) =~= ls);
    assert(n.take((ls.len() + 1) as int) =~= n);
    if headers::is_header(l, name, name) {
        assert(headers::header_values(n, name, name) =~= headers::header_values(ls, name, name).push(headers::header_field(l)));
    } else {
        assert(headers::header_values(n, name, name) =~= headers::header_values(ls, name, name));
    }
}

} // verus!
