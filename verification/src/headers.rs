//! Header lines of a raw SIP message.

use crate::text::{has_prefix_word, is_word, parse_u32, split_once_at, split_tokens, trimmed};
use crate::text;
use vstd::prelude::*;
use vstd::slice::slice_subrange;

verus! {

/// The lines before the first empty one.
pub open spec fn until_blank(ls: Seq<Seq<char>>) -> Seq<Seq<char>>
    decreases ls.len(),
{
    if ls.len() == 0 || ls[0].len() == 0 {
        Seq::empty()
    } else {
        seq![ls[0]] + until_blank(ls.skip(1))
    }
}

/// The header lines of a message: those between the start line and the
/// first empty line.
pub open spec fn header_lines(raw: Seq<char>) -> Seq<Seq<char>> {
    until_blank(text::lines(raw).skip(1))
}

pub open spec fn start_line(raw: Seq<char>) -> Seq<char> {
    text::lines(raw)[0]
}

/// `line` is a header with one of the two names, in any case and with white
/// space allowed round the name.
pub open spec fn is_header(line: Seq<char>, long: Seq<char>, short: Seq<char>) -> bool {
    match text::split_once(line, ':') {
        Some((name, _)) => text::same_text(text::trim(name), long) || text::same_text(text::trim(name), short),
        None => false,
    }
}

/// What follows the first colon, without the white space round it.
pub open spec fn header_field(line: Seq<char>) -> Seq<char> {
    match text::split_once(line, ':') {
        Some((_, value)) => text::trim(value),
        None => Seq::empty(),
    }
}

/// The values of the headers that carry one of the two names, in order.
pub open spec fn header_values(ls: Seq<Seq<char>>, long: Seq<char>, short: Seq<char>) -> Seq<
    Seq<char>,
>
    decreases ls.len(),
{
    if ls.len() == 0 {
        Seq::empty()
    } else if is_header(ls[0], long, short) {
        seq![header_field(ls[0])] + header_values(ls.skip(1), long, short)
    } else {
        header_values(ls.skip(1), long, short)
    }
}

/// First of `ls` that begins with one of the two prefixes, in any case.
pub open spec fn first_prefixed(ls: Seq<Seq<char>>, a: Seq<char>, b: Seq<char>) -> Option<Seq<char>>
    decreases ls.len(),
{
    if ls.len() == 0 {
        None
    } else if text::starts_with_word(ls[0], a) || text::starts_with_word(ls[0], b) {
        Some(ls[0])
    } else {
        first_prefixed(ls.skip(1), a, b)
    }
}

/// Number at the head of a `CSeq` value.
pub open spec fn cseq_number(value: Seq<char>) -> Option<nat> {
    if text::tokens(value).len() > 0 {
        text::parse_uint(text::tokens(value)[0], u32::MAX as nat)
    } else {
        None
    }
}

/// Where the header block ends: the first empty line, or the end of the text.
pub open spec fn head_end(raw: Seq<char>) -> int {
    text::find_str(raw, text::crlf() + text::crlf(), 0)
}

/// The start line and the headers, without the empty line.
pub open spec fn head_of(raw: Seq<char>) -> Seq<char> {
    raw.take(head_end(raw))
}

/// What follows the empty line.
pub open spec fn body_of(raw: Seq<char>) -> Seq<char> {
    if head_end(raw) < raw.len() {
        raw.skip(head_end(raw) + 4)
    } else {
        Seq::empty()
    }
}

pub proof fn lemma_header_values_step(ls: Seq<Seq<char>>, i: int, long: Seq<char>, short: Seq<char>)
    requires
        0 <= i < ls.len(),
    ensures
        header_values(ls.take(i + 1), long, short) == header_values(ls.take(i), long, short) + (
        if is_header(ls[i], long, short) {
            seq![header_field(ls[i])]
        } else {
            Seq::empty()
        }),
    decreases i,
{
    let one = ls.take(i + 1);
    if i == 0 {
        assert(one.skip(1) =~= Seq::empty());
        assert(ls.take(0) =~= Seq::empty());
        assert(header_values(one.skip(1), long, short) =~= Seq::empty());
        assert(header_values(ls.take(0), long, short) =~= Seq::empty());
        assert(header_values(one, long, short) =~= (if is_header(ls[i], long, short) {
            seq![header_field(ls[i])]
        } else {
            Seq::empty()
        }));
    } else {
        let tail = ls.skip(1);
        lemma_header_values_step(tail, i - 1, long, short);
        assert(one.skip(1) =~= tail.take(i));
        assert(ls.take(i).skip(1) =~= tail.take(i - 1));
        assert(ls.take(i)[0] == ls[0]);
        assert(one[0] == ls[0]);
        assert(header_values(one, long, short) =~= header_values(ls.take(i), long, short) + (
        if is_header(ls[i], long, short) {
            seq![header_field(ls[i])]
        } else {
            Seq::empty()
        }));
    }
}

/// Whether `line` is a header with one of the two names.
pub fn header_is(line: &[char], long: &str, short: &str) -> (r: bool)
    ensures
        r == is_header(line@, long@, short@),
{
    match split_once_at(line, ':') {
        Some((name, _)) => {
            let n = trimmed(name);
            is_word(n, long) || is_word(n, short)
        },
        None => false,
    }
}

pub fn field_of<'a>(line: &'a [char]) -> (r: &'a [char])
    ensures
        r@ == header_field(line@),
{
    match split_once_at(line, ':') {
        Some((_, value)) => trimmed(value),
        None => {
            let r = slice_subrange(line, 0, 0);
            assert(r@ =~= Seq::empty());
            r
        },
    }
}

/// The header lines of a split message.
pub fn header_lines_of<'a>(ls: &Vec<&'a [char]>) -> (r: Vec<&'a [char]>)
    requires
        ls@.len() >= 1,
    ensures
        text::views(r@) == until_blank(text::views(ls@).skip(1)),
{
    let mut out: Vec<&'a [char]> = Vec::new();
    let mut i: usize = 1;
    let ghost whole = until_blank(text::views(ls@).skip(1));
    assert(text::views(out@) + until_blank(text::views(ls@).skip(1)) =~= whole);
    while i < ls.len() && ls[i].len() > 0
        invariant
            1 <= i <= ls@.len(),
            text::views(out@) + until_blank(text::views(ls@).skip(i as int)) == whole,
        decreases ls@.len() - i,
    {
        let ghost before = out@;
        out.push(ls[i]);
        assert(text::views(out@) =~= text::views(before).push(ls@[i as int]@));
        assert(text::views(ls@).skip(i as int).skip(1) =~= text::views(ls@).skip(i + 1));
        assert(text::views(out@) + until_blank(text::views(ls@).skip(i + 1)) =~= whole);
        i = i + 1;
    }
    assert(until_blank(text::views(ls@).skip(i as int)) =~= Seq::empty());
    assert(text::views(out@) =~= whole);
    out
}

/// The values of the headers that carry one of the two names, in order.
pub fn values_of<'a>(ls: &Vec<&'a [char]>, long: &str, short: &str) -> (r: Vec<&'a [char]>)
    ensures
        text::views(r@) == header_values(text::views(ls@), long@, short@),
{
    let mut out: Vec<&'a [char]> = Vec::new();
    let mut i: usize = 0;
    assert(text::views(ls@).take(0) =~= Seq::empty());
    assert(text::views(out@) =~= Seq::empty());
    while i < ls.len()
        invariant
            i <= ls@.len(),
            text::views(out@) == header_values(text::views(ls@).take(i as int), long@, short@),
        decreases ls@.len() - i,
    {
        proof {
            lemma_header_values_step(text::views(ls@), i as int, long@, short@);
        }
        let ghost before = out@;
        if header_is(ls[i], long, short) {
            let v = field_of(ls[i]);
            out.push(v);
            assert(text::views(out@) =~= text::views(before) + seq![v@]);
        } else {
            assert(text::views(out@) =~= text::views(before) + Seq::<Seq<char>>::empty());
        }
        i = i + 1;
    }
    assert(text::views(ls@).take(ls@.len() as int) =~= text::views(ls@));
    out
}

/// First line that begins with one of the two prefixes, in any case.
pub fn find_prefixed<'a>(ls: &Vec<&'a [char]>, a: &str, b: &str) -> (r: Option<&'a [char]>)
    ensures
        match r {
            Some(line) => first_prefixed(text::views(ls@), a@, b@) == Some(line@),
            None => first_prefixed(text::views(ls@), a@, b@) is None,
        },
{
    let mut i: usize = 0;
    assert(text::views(ls@).skip(0) =~= text::views(ls@));
    while i < ls.len()
        invariant
            i <= ls@.len(),
            first_prefixed(text::views(ls@), a@, b@) == first_prefixed(
                text::views(ls@).skip(i as int),
                a@,
                b@,
            ),
        decreases ls@.len() - i,
    {
        assert(text::views(ls@).skip(i as int).skip(1) =~= text::views(ls@).skip(i + 1));
        if has_prefix_word(ls[i], a) || has_prefix_word(ls[i], b) {
            return Some(ls[i]);
        }
        i = i + 1;
    }
    None
}

pub fn cseq_number_of(value: &[char]) -> (r: Option<u32>)
    ensures
        match r {
            Some(n) => cseq_number(value@) == Some(n as nat),
            None => cseq_number(value@) is None,
        },
{
    let words = split_tokens(value);
    if words.len() > 0 {
        assert(text::views(words@)[0] == words@[0]@);
        parse_u32(words[0])
    } else {
        None
    }
}

// ── Writing a message ───────────────────────────────────────────────────

/// A header line without its line end.
pub open spec fn pair_line(p: (Seq<char>, Seq<char>)) -> Seq<char> {
    p.0 + ": "@ + p.1
}

/// Lines `name: value`, each with its line end.
pub open spec fn header_block(v: Seq<(Seq<char>, Seq<char>)>) -> Seq<char>
    decreases v.len(),
{
    if v.len() == 0 {
        Seq::empty()
    } else {
        header_block(v.drop_last()) + pair_line(v.last()) + text::crlf()
    }
}

/// A message: start line, headers, empty line, body.
pub open spec fn message_text(
    start: Seq<char>,
    v: Seq<(Seq<char>, Seq<char>)>,
    body: Seq<char>,
) -> Seq<char> {
    start + text::crlf() + header_block(v) + text::crlf() + body
}

/// A message under construction: its start line and the headers so far.
pub struct MessageWriter {
    text: String,
    start: Ghost<Seq<char>>,
    pairs: Ghost<Seq<(Seq<char>, Seq<char>)>>,
}

impl MessageWriter {
    pub closed spec fn wf(self) -> bool {
        self.text@ == self.start@ + text::crlf() + header_block(self.pairs@)
    }

    pub closed spec fn start(self) -> Seq<char> {
        self.start@
    }

    pub closed spec fn pairs(self) -> Seq<(Seq<char>, Seq<char>)> {
        self.pairs@
    }

    /// A message with the given start line and no header yet.
    pub fn new(start: String) -> (r: Self)
        ensures
            r.wf(),
            r.start() == start@,
            r.pairs() == Seq::<(Seq<char>, Seq<char>)>::empty(),
    {
        let ghost line = start@;
        let mut text = start;
        text.push_str("\r\n");
        proof {
            reveal_strlit("\r\n");
            assert("\r\n"@ =~= text::crlf());
            assert(text@ =~= line + text::crlf() + header_block(Seq::empty()));
        }
        MessageWriter { text, start: Ghost(line), pairs: Ghost(Seq::empty()) }
    }

    /// Appends a header.
    pub fn header(&mut self, name: &str, value: &str)
        requires
            old(self).wf(),
        ensures
            final(self).wf(),
            final(self).start() == old(self).start(),
            final(self).pairs() == old(self).pairs().push((name@, value@)),
    {
        let ghost before = self.pairs@;
        self.text.push_str(name);
        self.text.push_str(": ");
        self.text.push_str(value);
        self.text.push_str("\r\n");
        proof {
            reveal_strlit("\r\n");
            assert("\r\n"@ =~= text::crlf());
            let after = before.push((name@, value@));
            assert(after.drop_last() =~= before);
            self.pairs@ = after;
            assert(self.text@ =~= self.start@ + text::crlf() + header_block(after));
        }
    }

    /// Ends the header block and appends the body.
    pub fn finish(self, body: &str) -> (r: String)
        requires
            self.wf(),
        ensures
            r@ == message_text(self.start(), self.pairs(), body@),
    {
        let mut text = self.text;
        text.push_str("\r\n");
        text.push_str(body);
        proof {
            reveal_strlit("\r\n");
            assert("\r\n"@ =~= text::crlf());
        }
        text
    }
}

} // verus!
