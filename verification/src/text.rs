//! Text primitives over sequences of characters.
//!
//! Strings enter the library as `&str`, are read as `&[char]` slices and
//! leave as `String`. Every function is stated over `Seq<char>`.

use vstd::prelude::*;
use vstd::slice::slice_subrange;

verus! {

/// `String::push` appends one character.
pub assume_specification[ String::push ](s: &mut String, c: char)
    ensures
        final(s)@ == old(s)@.push(c),
;

/// `String::push_str` appends a text.
pub assume_specification[ String::push_str ](s: &mut String, other: &str)
    ensures
        final(s)@ == old(s)@ + other@,
;

// ── Characters ──────────────────────────────────────────────────────────

/// The Unicode `White_Space` property.
pub open spec fn is_space(c: char) -> bool {
    let n = c as u32;
    ||| 0x09 <= n <= 0x0D
    ||| n == 0x20
    ||| n == 0x85
    ||| n == 0xA0
    ||| n == 0x1680
    ||| 0x2000 <= n <= 0x200A
    ||| n == 0x2028
    ||| n == 0x2029
    ||| n == 0x202F
    ||| n == 0x205F
    ||| n == 0x3000
}

pub fn is_space_char(c: char) -> (r: bool)
    ensures
        r == is_space(c),
{
    let n: u32 = c as u32;
    (0x09 <= n && n <= 0x0D) || n == 0x20 || n == 0x85 || n == 0xA0 || n == 0x1680 || (0x2000 <= n
        && n <= 0x200A) || n == 0x2028 || n == 0x2029 || n == 0x202F || n == 0x205F || n == 0x3000
}

pub open spec fn is_digit(c: char) -> bool {
    '0' <= c <= '9'
}

pub open spec fn digit_value(c: char) -> nat {
    (c as u32 - '0' as u32) as nat
}

/// The ASCII lower case of `c`; other characters stay.
pub open spec fn lower_char(c: char) -> char {
    if 'A' <= c <= 'Z' {
        ((c as u32 + 32) as u32) as char
    } else {
        c
    }
}

pub fn to_lower_char(c: char) -> (r: char)
    ensures
        r == lower_char(c),
{
    if 'A' <= c && c <= 'Z' {
        ((c as u8) + 32) as char
    } else {
        c
    }
}

/// ASCII lower case of a text.
pub open spec fn lower(s: Seq<char>) -> Seq<char> {
    s.map_values(|c: char| lower_char(c))
}

/// Equality up to ASCII case.
pub open spec fn same_text(a: Seq<char>, b: Seq<char>) -> bool {
    lower(a) == lower(b)
}

// ── Conversions ─────────────────────────────────────────────────────────

pub fn chars_of(s: &str) -> (r: Vec<char>)
    ensures
        r@ == s@,
{
    let mut out: Vec<char> = Vec::new();
    for c in it: s.chars()
        invariant
            out@ == s@.take(it.index()),
            it.seq() == s@,
    {
        out.push(c);
        assert(s@.take(it.index()).push(c) =~= s@.take(it.index() + 1));
    }
    assert(s@.take(s@.len() as int) =~= s@);
    out
}

/// Number of characters of a word.
pub fn word_len(s: &str) -> (r: usize)
    ensures
        r == s@.len(),
{
    s.unicode_len()
}

pub fn string_of(s: &[char]) -> (r: String)
    ensures
        r@ == s@,
{
    let mut out = String::new();
    let mut i: usize = 0;
    while i < s.len()
        invariant
            i <= s@.len(),
            out@ == s@.take(i as int),
        decreases s@.len() - i,
    {
        out.push(s[i]);
        assert(s@.take(i as int).push(s@[i as int]) =~= s@.take(i + 1));
        i = i + 1;
    }
    assert(s@.take(s@.len() as int) =~= s@);
    out
}

pub open spec fn opt_string(s: Option<String>) -> Option<Seq<char>> {
    match s {
        Some(x) => Some(x@),
        None => None,
    }
}

pub open spec fn opt_str(s: Option<&str>) -> Option<Seq<char>> {
    match s {
        Some(x) => Some(x@),
        None => None,
    }
}

pub fn clone_opt(s: &Option<String>) -> (r: Option<String>)
    ensures
        opt_string(r) == opt_string(*s),
{
    match s {
        Some(x) => Some(x.clone()),
        None => None,
    }
}

/// The characters behind a sequence of strings.
pub open spec fn string_views(v: Seq<String>) -> Seq<Seq<char>> {
    v.map_values(|s: String| s@)
}

pub fn clone_strings(v: &Vec<String>) -> (r: Vec<String>)
    ensures
        string_views(r@) == string_views(v@),
{
    let mut out: Vec<String> = Vec::new();
    let mut i: usize = 0;
    while i < v.len()
        invariant
            i <= v@.len(),
            string_views(out@) == string_views(v@).take(i as int),
        decreases v@.len() - i,
    {
        let ghost before = out@;
        out.push(v[i].clone());
        assert(string_views(out@) =~= string_views(before).push(v@[i as int]@));
        assert(string_views(v@).take(i + 1) =~= string_views(v@).take(i as int).push(
            v@[i as int]@,
        ));
        i = i + 1;
    }
    assert(string_views(v@).take(v@.len() as int) =~= string_views(v@));
    out
}

// ── Comparison ──────────────────────────────────────────────────────────

pub fn same(a: &[char], b: &[char]) -> (r: bool)
    ensures
        r == (a@ == b@),
{
    if a.len() != b.len() {
        return false;
    }
    let mut i: usize = 0;
    while i < a.len()
        invariant
            a@.len() == b@.len(),
            i <= a@.len(),
            a@.take(i as int) == b@.take(i as int),
        decreases a@.len() - i,
    {
        if a[i] != b[i] {
            assert(a@ != b@);
            return false;
        }
        assert(a@.take(i + 1) =~= a@.take(i as int).push(a@[i as int]));
        assert(b@.take(i + 1) =~= b@.take(i as int).push(b@[i as int]));
        i = i + 1;
    }
    assert(a@.take(a@.len() as int) =~= a@);
    assert(b@.take(b@.len() as int) =~= b@);
    true
}

/// Two lists of texts hold the same texts.
pub fn same_strings(a: &Vec<String>, b: &Vec<String>) -> (r: bool)
    ensures
        r == (string_views(a@) == string_views(b@)),
{
    if a.len() != b.len() {
        assert(string_views(a@).len() != string_views(b@).len());
        return false;
    }
    let mut i: usize = 0;
    while i < a.len()
        invariant
            a@.len() == b@.len(),
            i <= a@.len(),
            forall|k: int| 0 <= k < i ==> a@[k]@ == b@[k]@,
        decreases a@.len() - i,
    {
        if !same_str(a[i].as_str(), b[i].as_str()) {
            assert(string_views(a@)[i as int] != string_views(b@)[i as int]);
            return false;
        }
        i = i + 1;
    }
    assert(string_views(a@) =~= string_views(b@));
    true
}

pub fn same_opt(a: &Option<String>, b: &Option<String>) -> (r: bool)
    ensures
        r == (opt_string(*a) == opt_string(*b)),
{
    match (a, b) {
        (Some(x), Some(y)) => same_str(x.as_str(), y.as_str()),
        (None, None) => true,
        _ => false,
    }
}

pub fn same_str(a: &str, b: &str) -> (r: bool)
    ensures
        r == (a@ == b@),
{
    let x = chars_of(a);
    let y = chars_of(b);
    same(x.as_slice(), y.as_slice())
}

pub fn same_ignoring_case(a: &[char], b: &[char]) -> (r: bool)
    ensures
        r == same_text(a@, b@),
{
    if a.len() != b.len() {
        assert(lower(a@).len() != lower(b@).len());
        return false;
    }
    let mut i: usize = 0;
    while i < a.len()
        invariant
            a@.len() == b@.len(),
            i <= a@.len(),
            forall|k: int| 0 <= k < i ==> lower_char(a@[k]) == lower_char(b@[k]),
        decreases a@.len() - i,
    {
        if to_lower_char(a[i]) != to_lower_char(b[i]) {
            assert(lower(a@)[i as int] != lower(b@)[i as int]);
            return false;
        }
        i = i + 1;
    }
    assert(lower(a@) =~= lower(b@));
    true
}

pub fn is_word(a: &[char], word: &str) -> (r: bool)
    ensures
        r == same_text(a@, word@),
{
    let w = chars_of(word);
    same_ignoring_case(a, w.as_slice())
}

pub fn is_exactly(a: &[char], word: &str) -> (r: bool)
    ensures
        r == (a@ == word@),
{
    let w = chars_of(word);
    same(a, w.as_slice())
}

/// `p` occurs in `s` at position `i`.
pub open spec fn occurs_at(s: Seq<char>, p: Seq<char>, i: int) -> bool {
    0 <= i && i + p.len() <= s.len() && s.subrange(i, i + p.len()) == p
}

pub open spec fn starts_with(s: Seq<char>, p: Seq<char>) -> bool {
    occurs_at(s, p, 0)
}

pub open spec fn ends_with(s: Seq<char>, p: Seq<char>) -> bool {
    occurs_at(s, p, s.len() - p.len())
}

/// `s` begins with `p` up to ASCII case.
pub open spec fn starts_with_word(s: Seq<char>, p: Seq<char>) -> bool {
    p.len() <= s.len() && same_text(s.take(p.len() as int), p)
}

pub fn matches_at(s: &[char], p: &[char], i: usize) -> (r: bool)
    ensures
        r == occurs_at(s@, p@, i as int),
{
    if s.len() < p.len() || i > s.len() - p.len() {
        return false;
    }
    same(slice_subrange(s, i, i + p.len()), p)
}

pub fn has_prefix(s: &[char], p: &str) -> (r: bool)
    ensures
        r == starts_with(s@, p@),
{
    let w = chars_of(p);
    matches_at(s, w.as_slice(), 0)
}

pub fn has_suffix(s: &[char], p: &[char]) -> (r: bool)
    ensures
        r == ends_with(s@, p@),
{
    if s.len() < p.len() {
        return false;
    }
    matches_at(s, p, s.len() - p.len())
}

pub fn has_prefix_word(s: &[char], p: &str) -> (r: bool)
    ensures
        r == starts_with_word(s@, p@),
{
    let w = chars_of(p);
    if s.len() < w.len() {
        return false;
    }
    assert(s@.subrange(0, w@.len() as int) =~= s@.take(w@.len() as int));
    same_ignoring_case(slice_subrange(s, 0, w.len()), w.as_slice())
}

// ── Searching ───────────────────────────────────────────────────────────

/// First position at or after `from` that holds `c`; the length when none does.
pub open spec fn find_char(s: Seq<char>, c: char, from: int) -> int
    decreases s.len() - from,
{
    if from >= s.len() {
        s.len() as int
    } else if s[from] == c {
        from
    } else {
        find_char(s, c, from + 1)
    }
}

/// First position at or after `from` that holds a character of `set`; the
/// length when none does.
pub open spec fn find_any(s: Seq<char>, set: Seq<char>, from: int) -> int
    decreases s.len() - from,
{
    if from >= s.len() {
        s.len() as int
    } else if set.contains(s[from]) {
        from
    } else {
        find_any(s, set, from + 1)
    }
}

/// First position at or after `from` where `p` occurs; the length when it
/// occurs nowhere there.
pub open spec fn find_str(s: Seq<char>, p: Seq<char>, from: int) -> int
    decreases s.len() - from,
{
    if from >= s.len() {
        s.len() as int
    } else if occurs_at(s, p, from) {
        from
    } else {
        find_str(s, p, from + 1)
    }
}

/// First position at or after `from` of a character that is no white space.
pub open spec fn skip_space(s: Seq<char>, from: int) -> int
    decreases s.len() - from,
{
    if from >= s.len() {
        s.len() as int
    } else if !is_space(s[from]) {
        from
    } else {
        skip_space(s, from + 1)
    }
}

/// First position at or after `from` of a white space character.
pub open spec fn find_space(s: Seq<char>, from: int) -> int
    decreases s.len() - from,
{
    if from >= s.len() {
        s.len() as int
    } else if is_space(s[from]) {
        from
    } else {
        find_space(s, from + 1)
    }
}

/// End of the text before its trailing white space.
pub open spec fn drop_space_end(s: Seq<char>, end: int) -> int
    decreases end,
{
    if end <= 0 {
        0
    } else if !is_space(s[end - 1]) {
        end
    } else {
        drop_space_end(s, end - 1)
    }
}

pub proof fn lemma_find_char(s: Seq<char>, c: char, from: int)
    requires
        0 <= from <= s.len(),
    ensures
        from <= find_char(s, c, from) <= s.len(),
        find_char(s, c, from) < s.len() ==> s[find_char(s, c, from)] == c,
        forall|k: int| from <= k < find_char(s, c, from) ==> s[k] != c,
    decreases s.len() - from,
{
    if from < s.len() && s[from] != c {
        lemma_find_char(s, c, from + 1);
    }
}

/// The position found is the one described: the first that holds `c`.
pub proof fn lemma_find_char_is(s: Seq<char>, c: char, from: int, at: int)
    requires
        0 <= from <= at <= s.len(),
        at < s.len() ==> s[at] == c,
        forall|k: int| from <= k < at ==> s[k] != c,
    ensures
        find_char(s, c, from) == at,
    decreases s.len() - from,
{
    if from < at {
        lemma_find_char_is(s, c, from + 1, at);
    }
}

pub proof fn lemma_find_any(s: Seq<char>, set: Seq<char>, from: int)
    requires
        0 <= from <= s.len(),
    ensures
        from <= find_any(s, set, from) <= s.len(),
        find_any(s, set, from) < s.len() ==> set.contains(s[find_any(s, set, from)]),
        forall|k: int| from <= k < find_any(s, set, from) ==> !set.contains(s[k]),
    decreases s.len() - from,
{
    if from < s.len() && !set.contains(s[from]) {
        lemma_find_any(s, set, from + 1);
    }
}

pub proof fn lemma_find_str(s: Seq<char>, p: Seq<char>, from: int)
    requires
        0 <= from <= s.len(),
    ensures
        from <= find_str(s, p, from) <= s.len(),
        find_str(s, p, from) < s.len() ==> occurs_at(s, p, find_str(s, p, from)),
        forall|k: int| from <= k < find_str(s, p, from) ==> !occurs_at(s, p, k),
    decreases s.len() - from,
{
    if from < s.len() && !occurs_at(s, p, from) {
        lemma_find_str(s, p, from + 1);
    }
}

pub proof fn lemma_find_str_is(s: Seq<char>, p: Seq<char>, from: int, at: int)
    requires
        0 <= from <= at <= s.len(),
        at < s.len() ==> occurs_at(s, p, at),
        forall|k: int| from <= k < at ==> !occurs_at(s, p, k),
    ensures
        find_str(s, p, from) == at,
    decreases s.len() - from,
{
    if from < at {
        lemma_find_str_is(s, p, from + 1, at);
    }
}

pub proof fn lemma_skip_space(s: Seq<char>, from: int)
    requires
        0 <= from <= s.len(),
    ensures
        from <= skip_space(s, from) <= s.len(),
        skip_space(s, from) < s.len() ==> !is_space(s[skip_space(s, from)]),
        forall|k: int| from <= k < skip_space(s, from) ==> is_space(s[k]),
    decreases s.len() - from,
{
    if from < s.len() && is_space(s[from]) {
        lemma_skip_space(s, from + 1);
    }
}

pub proof fn lemma_find_space(s: Seq<char>, from: int)
    requires
        0 <= from <= s.len(),
    ensures
        from <= find_space(s, from) <= s.len(),
        find_space(s, from) < s.len() ==> is_space(s[find_space(s, from)]),
        forall|k: int| from <= k < find_space(s, from) ==> !is_space(s[k]),
    decreases s.len() - from,
{
    if from < s.len() && !is_space(s[from]) {
        lemma_find_space(s, from + 1);
    }
}

pub proof fn lemma_drop_space_end(s: Seq<char>, end: int)
    requires
        0 <= end <= s.len(),
    ensures
        0 <= drop_space_end(s, end) <= end,
        drop_space_end(s, end) > 0 ==> !is_space(s[drop_space_end(s, end) - 1]),
        forall|k: int| drop_space_end(s, end) <= k < end ==> is_space(s[k]),
    decreases end,
{
    if end > 0 && is_space(s[end - 1]) {
        lemma_drop_space_end(s, end - 1);
    }
}

pub fn position_of(s: &[char], c: char, from: usize) -> (r: usize)
    requires
        from <= s@.len(),
    ensures
        r == find_char(s@, c, from as int),
        from <= r <= s@.len(),
        r < s@.len() ==> s@[r as int] == c,
        forall|k: int| from <= k < r ==> s@[k] != c,
{
    let mut i: usize = from;
    while i < s.len() && s[i] != c
        invariant
            from <= i <= s@.len(),
            find_char(s@, c, from as int) == find_char(s@, c, i as int),
        decreases s@.len() - i,
    {
        i = i + 1;
    }
    proof {
        lemma_find_char(s@, c, from as int);
    }
    i
}

pub fn position_of_any(s: &[char], set: &[char], from: usize) -> (r: usize)
    requires
        from <= s@.len(),
    ensures
        r == find_any(s@, set@, from as int),
        from <= r <= s@.len(),
{
    let mut i: usize = from;
    while i < s.len()
        invariant
            from <= i <= s@.len(),
            find_any(s@, set@, from as int) == find_any(s@, set@, i as int),
        decreases s@.len() - i,
    {
        if contains_char(set, s[i]) {
            return i;
        }
        i = i + 1;
    }
    i
}

pub fn contains_char(s: &[char], c: char) -> (r: bool)
    ensures
        r == s@.contains(c),
{
    let at = position_of(s, c, 0);
    at < s.len()
}

pub fn position_of_str(s: &[char], p: &[char], from: usize) -> (r: usize)
    requires
        from <= s@.len(),
    ensures
        r == find_str(s@, p@, from as int),
        from <= r <= s@.len(),
        r < s@.len() ==> occurs_at(s@, p@, r as int),
{
    let mut i: usize = from;
    while i < s.len()
        invariant
            from <= i <= s@.len(),
            find_str(s@, p@, from as int) == find_str(s@, p@, i as int),
        decreases s@.len() - i,
    {
        if matches_at(s, p, i) {
            return i;
        }
        i = i + 1;
    }
    i
}

pub fn position_of_word(s: &[char], p: &str, from: usize) -> (r: usize)
    requires
        from <= s@.len(),
    ensures
        r == find_str(s@, p@, from as int),
        from <= r <= s@.len(),
        r < s@.len() ==> occurs_at(s@, p@, r as int),
{
    let w = chars_of(p);
    position_of_str(s, w.as_slice(), from)
}

// ── Trimming ────────────────────────────────────────────────────────────

pub open spec fn trim_start(s: Seq<char>) -> Seq<char> {
    s.skip(skip_space(s, 0))
}

pub open spec fn trim_end(s: Seq<char>) -> Seq<char> {
    s.take(drop_space_end(s, s.len() as int))
}

/// The text without leading and trailing white space.
pub open spec fn trim(s: Seq<char>) -> Seq<char> {
    trim_end(trim_start(s))
}

pub fn trimmed<'a>(s: &'a [char]) -> (r: &'a [char])
    ensures
        r@ == trim(s@),
{
    let mut a: usize = 0;
    while a < s.len() && is_space_char(s[a])
        invariant
            a <= s@.len(),
            skip_space(s@, 0) == skip_space(s@, a as int),
        decreases s@.len() - a,
    {
        a = a + 1;
    }
    let t = slice_subrange(s, a, s.len());
    assert(t@ =~= trim_start(s@));
    let mut b: usize = t.len();
    while b > 0 && is_space_char(t[b - 1])
        invariant
            b <= t@.len(),
            drop_space_end(t@, t@.len() as int) == drop_space_end(t@, b as int),
        decreases b,
    {
        b = b - 1;
    }
    let u = slice_subrange(t, 0, b);
    assert(u@ =~= trim_end(t@));
    u
}

// ── Splitting ───────────────────────────────────────────────────────────

/// The characters behind a vector of slices.
pub open spec fn views(v: Seq<&[char]>) -> Seq<Seq<char>> {
    v.map_values(|x: &[char]| x@)
}

/// The pieces of `s` between the occurrences of `c`.
pub open spec fn split_char(s: Seq<char>, c: char) -> Seq<Seq<char>>
    decreases s.len(),
{
    let i = find_char(s, c, 0);
    if 0 <= i < s.len() {
        seq![s.take(i)] + split_char(s.skip(i + 1), c)
    } else {
        seq![s]
    }
}

/// The text up to the first `c` and the text after it.
pub open spec fn split_once(s: Seq<char>, c: char) -> Option<(Seq<char>, Seq<char>)> {
    let i = find_char(s, c, 0);
    if i < s.len() {
        Some((s.take(i), s.skip(i + 1)))
    } else {
        None
    }
}

pub open spec fn crlf() -> Seq<char> {
    seq!['\r', '\n']
}

/// The lines of a message: the pieces between line ends (CR LF).
pub open spec fn lines(s: Seq<char>) -> Seq<Seq<char>>
    decreases s.len(),
{
    let i = find_str(s, crlf(), 0);
    if 0 <= i && i + 2 <= s.len() {
        seq![s.take(i)] + lines(s.skip(i + 2))
    } else {
        seq![s]
    }
}

/// Lines put together with a line end between each two.
pub open spec fn join_lines(v: Seq<Seq<char>>) -> Seq<char>
    decreases v.len(),
{
    if v.len() == 0 {
        Seq::empty()
    } else if v.len() == 1 {
        v[0]
    } else {
        join_lines(v.drop_last()) + crlf() + v.last()
    }
}

/// The words of a text: its maximal runs without white space.
pub open spec fn tokens(s: Seq<char>) -> Seq<Seq<char>>
    decreases s.len(),
{
    let a = skip_space(s, 0);
    let b = find_space(s, a);
    if 0 <= a < b <= s.len() {
        seq![s.subrange(a, b)] + tokens(s.skip(b))
    } else {
        Seq::empty()
    }
}

pub fn split_once_at<'a>(s: &'a [char], c: char) -> (r: Option<(&'a [char], &'a [char])>)
    ensures
        match r {
            Some((a, b)) => split_once(s@, c) == Some((a@, b@)),
            None => split_once(s@, c) is None,
        },
{
    let i: usize = position_of(s, c, 0);
    if i < s.len() {
        let a = slice_subrange(s, 0, i);
        let b = slice_subrange(s, i + 1, s.len());
        assert(a@ =~= s@.take(i as int));
        assert(b@ =~= s@.skip(i + 1));
        Some((a, b))
    } else {
        None
    }
}

pub fn split_on<'a>(s: &'a [char], c: char) -> (r: Vec<&'a [char]>)
    ensures
        views(r@) == split_char(s@, c),
        r@.len() >= 1,
{
    let mut out: Vec<&'a [char]> = Vec::new();
    let mut rest: &'a [char] = s;
    let ghost whole = split_char(s@, c);
    assert(views(out@) + split_char(rest@, c) =~= whole);
    loop
        invariant
            views(out@) + split_char(rest@, c) == whole,
            whole == split_char(s@, c),
        decreases rest@.len(),
    {
        let i: usize = position_of(rest, c, 0);
        if i < rest.len() {
            let a = slice_subrange(rest, 0, i);
            let b = slice_subrange(rest, i + 1, rest.len());
            assert(a@ =~= rest@.take(i as int));
            assert(b@ =~= rest@.skip(i + 1));
            let ghost before = out@;
            out.push(a);
            assert(views(out@) =~= views(before).push(a@));
            assert(views(out@) + split_char(b@, c) =~= whole);
            rest = b;
        } else {
            let ghost before = out@;
            out.push(rest);
            assert(views(out@) =~= views(before).push(rest@));
            assert(views(out@) =~= whole);
            return out;
        }
    }
}

pub fn split_lines<'a>(s: &'a [char]) -> (r: Vec<&'a [char]>)
    ensures
        views(r@) == lines(s@),
        r@.len() >= 1,
{
    let end: [char; 2] = ['\r', '\n'];
    let mut out: Vec<&'a [char]> = Vec::new();
    let mut rest: &'a [char] = s;
    let ghost whole = lines(s@);
    assert(views(out@) + lines(rest@) =~= whole);
    loop
        invariant
            end@ == crlf(),
            views(out@) + lines(rest@) == whole,
            whole == lines(s@),
        decreases rest@.len(),
    {
        let i: usize = position_of_str(rest, &end, 0);
        if i < rest.len() {
            let a = slice_subrange(rest, 0, i);
            let b = slice_subrange(rest, i + 2, rest.len());
            assert(a@ =~= rest@.take(i as int));
            assert(b@ =~= rest@.skip(i + 2));
            let ghost before = out@;
            out.push(a);
            assert(views(out@) =~= views(before).push(a@));
            assert(views(out@) + lines(b@) =~= whole);
            rest = b;
        } else {
            let ghost before = out@;
            out.push(rest);
            assert(views(out@) =~= views(before).push(rest@));
            assert(views(out@) =~= whole);
            return out;
        }
    }
}

pub fn split_tokens<'a>(s: &'a [char]) -> (r: Vec<&'a [char]>)
    ensures
        views(r@) == tokens(s@),
{
    let mut out: Vec<&'a [char]> = Vec::new();
    let mut rest: &'a [char] = s;
    let ghost whole = tokens(s@);
    assert(views(out@) + tokens(rest@) =~= whole);
    loop
        invariant
            views(out@) + tokens(rest@) == whole,
            whole == tokens(s@),
        decreases rest@.len(),
    {
        let mut a: usize = 0;
        while a < rest.len() && is_space_char(rest[a])
            invariant
                a <= rest@.len(),
                skip_space(rest@, 0) == skip_space(rest@, a as int),
            decreases rest@.len() - a,
        {
            a = a + 1;
        }
        if a == rest.len() {
            assert(views(out@) =~= whole);
            return out;
        }
        let mut b: usize = a;
        while b < rest.len() && !is_space_char(rest[b])
            invariant
                a <= b <= rest@.len(),
                find_space(rest@, a as int) == find_space(rest@, b as int),
            decreases rest@.len() - b,
        {
            b = b + 1;
        }
        let word = slice_subrange(rest, a, b);
        let next = slice_subrange(rest, b, rest.len());
        assert(next@ =~= rest@.skip(b as int));
        let ghost before = out@;
        out.push(word);
        assert(views(out@) =~= views(before).push(word@));
        assert(views(out@) + tokens(next@) =~= whole);
        rest = next;
    }
}

// ── Numbers ─────────────────────────────────────────────────────────────

pub open spec fn all_digits(s: Seq<char>) -> bool {
    forall|i: int| 0 <= i < s.len() ==> is_digit(#[trigger] s[i])
}

pub fn only_digits(s: &[char]) -> (r: bool)
    ensures
        r == all_digits(s@),
{
    let mut i: usize = 0;
    while i < s.len()
        invariant
            i <= s@.len(),
            forall|k: int| 0 <= k < i ==> is_digit(#[trigger] s@[k]),
        decreases s@.len() - i,
    {
        if !('0' <= s[i] && s[i] <= '9') {
            assert(!is_digit(s@[i as int]));
            return false;
        }
        i = i + 1;
    }
    true
}

/// Value of a run of decimal digits.
pub open spec fn digits_value(s: Seq<char>) -> nat
    decreases s.len(),
{
    if s.len() == 0 {
        0
    } else {
        digits_value(s.drop_last()) * 10 + digit_value(s.last())
    }
}

/// Decimal reading of an unsigned integer no larger than `max`: an optional
/// plus sign, then at least one digit, and nothing else.
pub open spec fn parse_uint(s: Seq<char>, max: nat) -> Option<nat> {
    let d = if s.len() > 0 && s[0] == '+' {
        s.skip(1)
    } else {
        s
    };
    if d.len() > 0 && all_digits(d) && digits_value(d) <= max {
        Some(digits_value(d))
    } else {
        None
    }
}

pub open spec fn digit_char(d: nat) -> char {
    (('0' as u32 + d) as u32) as char
}

/// Decimal digits of `n`, without leading zeros.
pub open spec fn decimal(n: nat) -> Seq<char>
    decreases n,
{
    if n < 10 {
        seq![digit_char(n)]
    } else {
        decimal(n / 10).push(digit_char(n % 10))
    }
}

proof fn lemma_digits_value_grows(s: Seq<char>, i: int)
    requires
        0 <= i <= s.len(),
    ensures
        digits_value(s.take(i)) <= digits_value(s),
    decreases s.len() - i,
{
    if i < s.len() {
        lemma_digits_value_grows(s, i + 1);
        assert(s.take(i + 1).drop_last() =~= s.take(i));
    } else {
        assert(s.take(i) =~= s);
    }
}

/// Decimal reading of an unsigned integer no larger than `max`.
pub fn parse_u64_upto(s: &[char], max: u64) -> (r: Option<u64>)
    ensures
        match r {
            Some(n) => parse_uint(s@, max as nat) == Some(n as nat),
            None => parse_uint(s@, max as nat) is None,
        },
{
    let mut start: usize = 0;
    if s.len() > 0 && s[0] == '+' {
        start = 1;
    }
    let d = slice_subrange(s, start, s.len());
    proof {
        if start == 0 {
            assert(d@ =~= s@);
        } else {
            assert(d@ =~= s@.skip(1));
        }
    }
    if d.len() == 0 {
        return None;
    }
    let mut n: u128 = 0;
    let mut i: usize = 0;
    while i < d.len()
        invariant
            i <= d@.len(),
            n == digits_value(d@.take(i as int)),
            n <= max,
            forall|k: int| 0 <= k < i ==> is_digit(#[trigger] d@[k]),
            d@ == (if s@.len() > 0 && s@[0] == '+' {
                s@.skip(1)
            } else {
                s@
            }),
        decreases d@.len() - i,
    {
        let c: char = d[i];
        if !('0' <= c && c <= '9') {
            assert(!is_digit(d@[i as int]));
            return None;
        }
        let v: u128 = (c as u32 - '0' as u32) as u128;
        assert(d@.take(i + 1).drop_last() =~= d@.take(i as int));
        n = n * 10 + v;
        assert(n == digits_value(d@.take(i + 1)));
        if n > max as u128 {
            proof {
                lemma_digits_value_grows(d@, i + 1);
            }
            return None;
        }
        i = i + 1;
    }
    assert(d@.take(d@.len() as int) =~= d@);
    Some(n as u64)
}

pub fn parse_u64(s: &[char]) -> (r: Option<u64>)
    ensures
        match r {
            Some(n) => parse_uint(s@, u64::MAX as nat) == Some(n as nat),
            None => parse_uint(s@, u64::MAX as nat) is None,
        },
{
    parse_u64_upto(s, u64::MAX)
}

pub fn parse_u32(s: &[char]) -> (r: Option<u32>)
    ensures
        match r {
            Some(n) => parse_uint(s@, u32::MAX as nat) == Some(n as nat),
            None => parse_uint(s@, u32::MAX as nat) is None,
        },
{
    match parse_u64_upto(s, 0xffff_ffff) {
        Some(n) => Some(n as u32),
        None => None,
    }
}

pub fn parse_u16(s: &[char]) -> (r: Option<u16>)
    ensures
        match r {
            Some(n) => parse_uint(s@, u16::MAX as nat) == Some(n as nat),
            None => parse_uint(s@, u16::MAX as nat) is None,
        },
{
    match parse_u64_upto(s, 0xffff) {
        Some(n) => Some(n as u16),
        None => None,
    }
}

pub fn decimal_of(n: u64) -> (r: String)
    ensures
        r@ == decimal(n as nat),
    decreases n,
{
    let d: char = (('0' as u8) + (n % 10) as u8) as char;
    assert(d == digit_char((n % 10) as nat));
    if n < 10 {
        let mut out = String::new();
        out.push(d);
        assert(out@ =~= seq![d]);
        out
    } else {
        let mut out = decimal_of(n / 10);
        out.push(d);
        out
    }
}

pub proof fn lemma_decimal_digits(n: nat)
    ensures
        decimal(n).len() > 0,
        all_digits(decimal(n)),
        digits_value(decimal(n)) == n,
    decreases n,
{
    if n < 10 {
        assert(decimal(n).drop_last() =~= Seq::<char>::empty());
        assert(digits_value(decimal(n).drop_last()) == 0);
    } else {
        lemma_decimal_digits(n / 10);
        assert(decimal(n).drop_last() =~= decimal(n / 10));
    }
}

/// A number written in decimal reads back as itself.
pub proof fn law_decimal_reads_back(n: nat, max: nat)
    requires
        n <= max,
    ensures
        parse_uint(decimal(n), max) == Some(n),
{
    lemma_decimal_digits(n);
    assert(is_digit(decimal(n)[0]));
}

/// A piece in front of a separator is the first of the pieces.
pub proof fn lemma_split_char_cons(a: Seq<char>, c: char, rest: Seq<char>)
    requires
        !a.contains(c),
    ensures
        split_char(a.push(c) + rest, c) == seq![a] + split_char(rest, c),
{
    let s = a.push(c) + rest;
    assert forall|k: int| 0 <= k < a.len() implies s[k] != c by {
        assert(s[k] == a[k]);
        assert(a.contains(a[k]));
    }
    assert(s[a.len() as int] == c);
    lemma_find_char_is(s, c, 0, a.len() as int);
    assert(s.take(a.len() as int) =~= a);
    assert(s.skip((a.len() + 1) as int) =~= rest);
}

/// A text without the separator is its only piece.
pub proof fn lemma_split_char_one(a: Seq<char>, c: char)
    requires
        !a.contains(c),
    ensures
        split_char(a, c) == seq![a],
{
    assert forall|k: int| 0 <= k < a.len() implies a[k] != c by {
        assert(a.contains(a[k]));
    }
    lemma_find_char_is(a, c, 0, a.len() as int);
}

pub proof fn lemma_split_once_at(a: Seq<char>, c: char, rest: Seq<char>)
    requires
        !a.contains(c),
    ensures
        split_once(a.push(c) + rest, c) == Some((a, rest)),
{
    let s = a.push(c) + rest;
    assert forall|k: int| 0 <= k < a.len() implies s[k] != c by {
        assert(s[k] == a[k]);
        assert(a.contains(a[k]));
    }
    assert(s[a.len() as int] == c);
    lemma_find_char_is(s, c, 0, a.len() as int);
    assert(s.take(a.len() as int) =~= a);
    assert(s.skip((a.len() + 1) as int) =~= rest);
}

/// `n` with leading zeros up to `width` digits.
pub open spec fn padded(n: nat, width: nat) -> Seq<char> {
    zeros((width - decimal(n).len()) as int) + decimal(n)
}

pub open spec fn zeros(k: int) -> Seq<char>
    decreases k,
{
    if k <= 0 {
        Seq::empty()
    } else {
        zeros(k - 1).push('0')
    }
}

pub fn padded_of(n: u64, width: usize) -> (r: String)
    ensures
        r@ == padded(n as nat, width as nat),
{
    let d = decimal_of(n);
    let len: usize = d.as_str().unicode_len();
    let mut out = String::new();
    let mut k: usize = len;
    while k < width
        invariant
            len == decimal(n as nat).len(),
            len <= k,
            k <= width || k == len,
            out@ == zeros(k - len),
        decreases width - k,
    {
        out.push('0');
        k = k + 1;
    }
    out.push_str(d.as_str());
    assert(zeros(k - len) == zeros((width - len) as int)) by {
        if width < len {
            assert(zeros((width - len) as int) == Seq::<char>::empty());
        }
    }
    out
}

proof fn lemma_zeros(k: int, d: Seq<char>)
    requires
        all_digits(d),
    ensures
        all_digits(zeros(k) + d),
        digits_value(zeros(k) + d) == digits_value(d),
    decreases d.len(), k,
{
    let s = zeros(k) + d;
    if d.len() > 0 {
        let dl = d.drop_last();
        assert forall|i: int| 0 <= i < dl.len() implies is_digit(#[trigger] dl[i]) by {
            assert(dl[i] == d[i]);
        }
        lemma_zeros(k, dl);
        assert(s.drop_last() =~= zeros(k) + dl);
        assert(s.last() == d.last());
        assert(is_digit(d[d.len() - 1]));
        assert forall|i: int| 0 <= i < s.len() implies is_digit(#[trigger] s[i]) by {
            if i < s.len() - 1 {
                assert(s[i] == (zeros(k) + dl)[i]);
            }
        }
    } else {
        assert(s =~= zeros(k));
        if k > 0 {
            lemma_zeros(k - 1, d);
            assert(zeros(k - 1) + d =~= zeros(k - 1));
            assert(zeros(k).drop_last() =~= zeros(k - 1));
            assert forall|i: int| 0 <= i < s.len() implies is_digit(#[trigger] s[i]) by {
                if i < s.len() - 1 {
                    assert(s[i] == zeros(k - 1)[i]);
                }
            }
        }
    }
}

/// A padded number reads back as the number.
pub proof fn lemma_padded(n: nat, width: nat, max: nat)
    requires
        n <= max,
    ensures
        all_digits(padded(n, width)),
        padded(n, width).len() > 0,
        parse_uint(padded(n, width), max) == Some(n),
{
    lemma_decimal_digits(n);
    lemma_zeros((width - decimal(n).len()) as int, decimal(n));
    assert(is_digit(padded(n, width)[0]));
}

} // verus!
