//! UTC timestamps in the form `YYYY-MM-DDTHH:MM:SSZ`.

use crate::text::{chars_of, padded_of, parse_u64, split_on, split_once_at};
use crate::text;
use vstd::prelude::*;
use vstd::slice::slice_subrange;

verus! {

pub open spec fn is_leap(y: nat) -> bool {
    (y % 4 == 0 && y % 100 != 0) || y % 400 == 0
}

pub open spec fn year_days(y: nat) -> nat {
    if is_leap(y) {
        366
    } else {
        365
    }
}

/// Days of the month, January being 0.
pub open spec fn month_days(y: nat, m: nat) -> nat {
    if m == 1 {
        if is_leap(y) {
            29
        } else {
            28
        }
    } else if m == 3 || m == 5 || m == 8 || m == 10 {
        30
    } else {
        31
    }
}

/// Days from the start of 1970 to the start of a year.
pub open spec fn days_before_year(y: nat) -> nat
    decreases y,
{
    if y <= 1970 {
        0
    } else {
        days_before_year((y - 1) as nat) + year_days((y - 1) as nat)
    }
}

/// Days from the start of a year to the start of a month; a month past
/// December counts as the end of the year.
pub open spec fn days_before_month(y: nat, m: nat) -> nat
    decreases m,
{
    if m == 0 {
        0
    } else if m > 12 {
        days_before_month(y, (m - 1) as nat)
    } else {
        days_before_month(y, (m - 1) as nat) + month_days(y, (m - 1) as nat)
    }
}

/// `y`, `m` and `d` (month and day from 0) name the day `days` after the
/// start of 1970.
pub open spec fn is_date(days: nat, y: nat, m: nat, d: nat) -> bool {
    &&& y >= 1970
    &&& m < 12
    &&& d < month_days(y, m)
    &&& days == days_before_year(y) + days_before_month(y, m) + d
}

/// The text of the second `secs` on the day with this date.
pub open spec fn timestamp_text(y: nat, m: nat, d: nat, secs: nat) -> Seq<char> {
    text::padded(y, 4) + seq!['-'] + text::padded(m + 1, 2) + seq!['-'] + text::padded(d + 1, 2) + seq!['T'] + text::padded(
        secs / 3600,
        2,
    ) + seq![':'] + text::padded((secs % 3600) / 60, 2) + seq![':'] + text::padded(secs % 60, 2) + seq!['Z']
}

/// `text` is the timestamp of `secs` seconds after the Unix epoch.
pub open spec fn is_timestamp(text: Seq<char>, secs: nat) -> bool {
    exists|y: nat, m: nat, d: nat| #[trigger]
        is_date(secs / 86400, y, m, d) && text == timestamp_text(y, m, d, secs % 86400)
}

proof fn lemma_months_fill_year(y: nat)
    ensures
        days_before_month(y, 12) == year_days(y),
{
    reveal_with_fuel(days_before_month, 13);
}

fn leap(y: u64) -> (r: bool)
    ensures
        r == is_leap(y as nat),
{
    (y % 4 == 0 && y % 100 != 0) || y % 400 == 0
}

fn month_len(y: u64, m: u64) -> (r: u64)
    ensures
        r == month_days(y as nat, m as nat),
{
    if m == 1 {
        if leap(y) {
            29
        } else {
            28
        }
    } else if m == 3 || m == 5 || m == 8 || m == 10 {
        30
    } else {
        31
    }
}

/// Timestamp of a number of seconds after the Unix epoch.
pub fn systemtime_rfc3339(secs: u64) -> (r: String)
    ensures
        is_timestamp(r@, secs as nat),
{
    let days: u64 = secs / 86400;
    let rem_secs: u64 = secs % 86400;
    let mut y: u64 = 1970;
    let mut rem: u64 = days;
    loop
        invariant
            1970 <= y <= 1970 + days - rem,
            rem <= days,
            days <= 0xffff_ffff_ffff_ffffu64 / 86400,
            days == days_before_year(y as nat) + rem,
        ensures
            rem < year_days(y as nat),
            days == days_before_year(y as nat) + rem,
            y >= 1970,
        decreases rem,
    {
        let len: u64 = if leap(y) {
            366
        } else {
            365
        };
        if rem < len {
            break ;
        }
        rem = rem - len;
        y = y + 1;
    }
    let mut m: u64 = 0;
    let ghost in_year = rem;
    proof {
        lemma_months_fill_year(y as nat);
    }
    loop
        invariant
            m <= 12,
            in_year == days_before_month(y as nat, m as nat) + rem,
            in_year < days_before_month(y as nat, 12),
        ensures
            m < 12,
            rem < month_days(y as nat, m as nat),
            in_year == days_before_month(y as nat, m as nat) + rem,
        decreases 12 - m,
    {
        if m < 12 {
            let len: u64 = month_len(y, m);
            if rem < len {
                break ;
            }
            rem = rem - len;
            m = m + 1;
            assert(days_before_month(y as nat, m as nat) == days_before_month(
                y as nat,
                (m - 1) as nat,
            ) + month_days(y as nat, (m - 1) as nat));
        } else {
            assert(false);
            break ;
        }
    }
    assert(is_date(days as nat, y as nat, m as nat, rem as nat));
    let mut out = padded_of(y, 4);
    out.push('-');
    out.push_str(padded_of(m + 1, 2).as_str());
    out.push('-');
    out.push_str(padded_of(rem + 1, 2).as_str());
    out.push('T');
    out.push_str(padded_of(rem_secs / 3600, 2).as_str());
    out.push(':');
    out.push_str(padded_of((rem_secs % 3600) / 60, 2).as_str());
    out.push(':');
    out.push_str(padded_of(rem_secs % 60, 2).as_str());
    out.push('Z');
    assert(out@ =~= timestamp_text(y as nat, m as nat, rem as nat, rem_secs as nat));
    out
}

// ── Reading ─────────────────────────────────────────────────────────────

/// The text without the letters `Z` at its end.
pub open spec fn trim_z(s: Seq<char>) -> Seq<char>
    decreases s.len(),
{
    if s.len() > 0 && s.last() == 'Z' {
        trim_z(s.drop_last())
    } else {
        s
    }
}

/// Three numbers at the head of a list of pieces.
pub open spec fn three_numbers(v: Seq<Seq<char>>) -> Option<(nat, nat, nat)> {
    if v.len() >= 3 {
        match (
            text::parse_uint(v[0], u64::MAX as nat),
            text::parse_uint(v[1], u64::MAX as nat),
            text::parse_uint(v[2], u64::MAX as nat),
        ) {
            (Some(a), Some(b), Some(c)) => Some((a, b, c)),
            _ => None,
        }
    } else {
        None
    }
}

pub open spec fn less_one(n: nat) -> nat {
    if n == 0 {
        0
    } else {
        (n - 1) as nat
    }
}

/// Seconds after the Unix epoch that a timestamp denotes. A fraction of a
/// second is dropped.
pub open spec fn timestamp_seconds(s: Seq<char>) -> Option<nat> {
    match text::split_once(s, 'T') {
        None => None,
        Some((date, time)) => {
            let parts = text::split_char(trim_z(time), ':');
            let clock = if parts.len() >= 3 {
                three_numbers(seq![parts[0], parts[1], text::split_char(parts[2], '.')[0]])
            } else {
                None
            };
            match (three_numbers(text::split_char(date, '-')), clock) {
                (Some((y, m, d)), Some((hh, mm, ss))) => Some(
                    (days_before_year(y) + days_before_month(y, less_one(m)) + less_one(d)) * 86400
                        + hh * 3600 + mm * 60 + ss,
                ),
                _ => None,
            }
        },
    }
}

fn numbers_of(a: &[char], b: &[char], c: &[char]) -> (r: Option<(u64, u64, u64)>)
    ensures
        match r {
            Some((x, y, z)) => three_numbers(seq![a@, b@, c@]) == Some(
                (x as nat, y as nat, z as nat),
            ),
            None => three_numbers(seq![a@, b@, c@]) is None,
        },
{
    match (parse_u64(a), parse_u64(b), parse_u64(c)) {
        (Some(x), Some(y), Some(z)) => Some((x, y, z)),
        _ => None,
    }
}

fn whole_days(y: u64, m: u64, d: u64) -> (r: u128)
    ensures
        r == days_before_year(y as nat) + days_before_month(y as nat, less_one(m as nat))
            + less_one(d as nat),
{
    let mut days: u128 = 0;
    let mut yy: u64 = 1970;
    while yy < y
        invariant
            1970 <= yy,
            yy <= y || yy == 1970,
            days == days_before_year(yy as nat),
            days <= 366 * (yy - 1970),
        decreases y - yy,
    {
        days = days + if leap(yy) {
            366
        } else {
            365
        };
        yy = yy + 1;
    }
    assert(days == days_before_year(y as nat));
    let months: u64 = if m == 0 {
        0
    } else {
        m - 1
    };
    let mut k: u64 = 0;
    let ghost base = days;
    while k < months && k < 12
        invariant
            k <= months,
            k <= 12,
            base <= 366 * 0x1_0000_0000_0000_0000,
            days == base + days_before_month(y as nat, k as nat),
            days_before_month(y as nat, k as nat) <= 31 * k,
        decreases 12 - k,
    {
        days = days + month_len(y, k) as u128;
        k = k + 1;
    }
    proof {
        lemma_month_cap(y as nat, k as nat, months as nat);
    }
    let day: u64 = if d == 0 {
        0
    } else {
        d - 1
    };
    days + day as u128
}

proof fn lemma_month_cap(y: nat, k: nat, months: nat)
    requires
        k <= months,
        k == months || k == 12,
    ensures
        days_before_month(y, months) == days_before_month(y, k),
    decreases months - k,
{
    if k < months {
        lemma_month_cap(y, k, (months - 1) as nat);
    }
}

/// Reads a timestamp back: seconds after the Unix epoch.
pub fn parse_timestamp(text: &str) -> (r: Option<u128>)
    ensures
        match r {
            Some(n) => timestamp_seconds(text@) == Some(n as nat),
            None => timestamp_seconds(text@) is None,
        },
        r matches Some(n) ==> n <= 0xffff_ffff_ffff_ffff_ffff_ffff_ffff,
{
    let s = chars_of(text);
    match split_once_at(s.as_slice(), 'T') {
        None => None,
        Some((date, time)) => {
            let mut end: usize = time.len();
            assert(time@.take(time@.len() as int) =~= time@);
            while end > 0 && time[end - 1] == 'Z'
                invariant
                    end <= time@.len(),
                    trim_z(time@) == trim_z(time@.take(end as int)),
                decreases end,
            {
                assert(time@.take(end as int).drop_last() =~= time@.take(end - 1));
                end = end - 1;
            }
            let clock = slice_subrange(time, 0, end);
            assert(clock@ =~= time@.take(end as int));
            assert(clock@ == trim_z(time@));
            let d = split_on(date, '-');
            let c = split_on(clock, ':');
            let ghost dv = text::views(d@);
            let ghost cv = text::views(c@);
            if d.len() < 3 || c.len() < 3 {
                return None;
            }
            assert(dv[0] == d@[0]@ && dv[1] == d@[1]@ && dv[2] == d@[2]@);
            assert(cv[0] == c@[0]@ && cv[1] == c@[1]@ && cv[2] == c@[2]@);
            let sec = split_on(c[2], '.');
            assert(text::views(sec@)[0] == sec@[0]@);
            match (numbers_of(d[0], d[1], d[2]), numbers_of(c[0], c[1], sec[0])) {
                (Some((y, m, day)), Some((hh, mm, ss))) => {
                    let days: u128 = whole_days(y, m, day);
                    proof {
                        lemma_days_bound(y as nat, less_one(m as nat));
                    }
                    Some(days * 86400 + hh as u128 * 3600 + mm as u128 * 60 + ss as u128)
                },
                _ => None,
            }
        },
    }
}

proof fn lemma_days_bound(y: nat, m: nat)
    requires
        y <= u64::MAX,
    ensures
        days_before_year(y) <= 366 * y,
        days_before_month(y, m) <= 372,
{
    lemma_year_bound(y);
    lemma_month_bound(y, m);
}

proof fn lemma_year_bound(y: nat)
    ensures
        days_before_year(y) <= 366 * y,
    decreases y,
{
    if y > 1970 {
        lemma_year_bound((y - 1) as nat);
    }
}

proof fn lemma_month_bound(y: nat, m: nat)
    ensures
        days_before_month(y, m) <= 372,
        m <= 12 ==> days_before_month(y, m) <= 31 * m,
    decreases m,
{
    if m > 0 {
        lemma_month_bound(y, (m - 1) as nat);
    }
}

// ── Law ─────────────────────────────────────────────────────────────────

proof fn lemma_digits_lack(s: Seq<char>, c: char)
    requires
        text::all_digits(s),
        !text::is_digit(c),
    ensures
        !s.contains(c),
{
    if s.contains(c) {
        let i = choose|i: int| 0 <= i < s.len() && s[i] == c;
        assert(text::is_digit(s[i]));
    }
}

/// Three padded numbers with `c` between them.
spec fn joined(a: Seq<char>, b: Seq<char>, d: Seq<char>, c: char) -> Seq<char> {
    a.push(c) + (b.push(c) + d)
}

proof fn lemma_joined(a: nat, wa: nat, b: nat, d: nat, c: char, x: char)
    requires
        a <= u64::MAX,
        b <= u64::MAX,
        d <= u64::MAX,
        !text::is_digit(c),
        !text::is_digit(x),
        x != c,
    ensures
        ({
            let t = joined(text::padded(a, wa), text::padded(b, 2), text::padded(d, 2), c);
            &&& text::split_char(t, c) == seq![text::padded(a, wa), text::padded(b, 2), text::padded(d, 2)]
            &&& three_numbers(text::split_char(t, c)) == Some((a, b, d))
            &&& text::is_digit(t.last())
            &&& t.len() > 0
            &&& !t.contains(x)
        }),
{
    let pa = text::padded(a, wa);
    let pb = text::padded(b, 2);
    let pd = text::padded(d, 2);
    let t = joined(pa, pb, pd, c);
    text::lemma_padded(a, wa, u64::MAX as nat);
    text::lemma_padded(b, 2, u64::MAX as nat);
    text::lemma_padded(d, 2, u64::MAX as nat);
    lemma_digits_lack(pa, c);
    lemma_digits_lack(pb, c);
    lemma_digits_lack(pd, c);
    text::lemma_split_char_cons(pa, c, pb.push(c) + pd);
    text::lemma_split_char_cons(pb, c, pd);
    text::lemma_split_char_one(pd, c);
    assert(text::split_char(t, c) =~= seq![pa, pb, pd]);
    assert(t.last() == pd.last());
    assert(text::is_digit(pd[pd.len() - 1]));
    assert forall|i: int| 0 <= i < t.len() implies t[i] != x by {
        if i < pa.len() {
            assert(text::is_digit(pa[i]));
        } else if i == pa.len() {
        } else if i < pa.len() + 1 + pb.len() {
            assert(text::is_digit(pb[i - pa.len() - 1]));
        } else if i == pa.len() + 1 + pb.len() {
        } else {
            assert(text::is_digit(pd[i - pa.len() - pb.len() - 2]));
        }
    }
}

proof fn lemma_parts(
    a: Seq<char>,
    b: Seq<char>,
    c: Seq<char>,
    d: Seq<char>,
    e: Seq<char>,
    f: Seq<char>,
)
    ensures
        a + seq!['-'] + b + seq!['-'] + c + seq!['T'] + d + seq![':'] + e + seq![':'] + f + seq![
            'Z',
        ] == joined(a, b, c, '-').push('T') + joined(d, e, f, ':').push('Z'),
{
    let date = a + seq!['-'] + b + seq!['-'] + c;
    assert(date =~= joined(a, b, c, '-'));
    let x = date + seq!['T'];
    assert(x =~= joined(a, b, c, '-').push('T'));
    let clock = d + seq![':'] + e + seq![':'] + f;
    assert(clock =~= joined(d, e, f, ':'));
    assert(x + d + seq![':'] + e + seq![':'] + f + seq!['Z'] =~= x + (clock + seq!['Z']));
    assert(clock + seq!['Z'] =~= joined(d, e, f, ':').push('Z'));
}

proof fn lemma_clock(rest: nat)
    requires
        rest < 86400,
    ensures
        rest == (rest / 3600) * 3600 + ((rest % 3600) / 60) * 60 + rest % 60,
{
    assert(rest % 60 == (rest % 3600) % 60);
}

/// What reading makes of a date and a clock.
proof fn lemma_reads(
    date: Seq<char>,
    clock: Seq<char>,
    a: Seq<char>,
    b: Seq<char>,
    c: Seq<char>,
    ymd: (nat, nat, nat),
    hms: (nat, nat, nat),
)
    requires
        !date.contains('T'),
        clock.len() > 0,
        clock.last() != 'Z',
        !c.contains('.'),
        three_numbers(text::split_char(date, '-')) == Some(ymd),
        text::split_char(clock, ':') == seq![a, b, c],
        three_numbers(seq![a, b, c]) == Some(hms),
    ensures
        timestamp_seconds(date.push('T') + clock.push('Z')) == Some(
            (days_before_year(ymd.0) + days_before_month(ymd.0, less_one(ymd.1)) + less_one(ymd.2))
                * 86400 + hms.0 * 3600 + hms.1 * 60 + hms.2,
        ),
{
    let time = clock.push('Z');
    text::lemma_split_once_at(date, 'T', time);
    assert(time.drop_last() =~= clock);
    assert(trim_z(clock) == clock);
    assert(trim_z(time) == clock);
    text::lemma_split_char_one(c, '.');
}

/// What reading makes of a timestamp text.
proof fn lemma_text_reads(y: nat, m: nat, d: nat, rest: nat)
    requires
        y <= u64::MAX,
        m < 12,
        d < 31,
        rest < 86400,
    ensures
        timestamp_seconds(timestamp_text(y, m, d, rest)) == Some(
            (days_before_year(y) + days_before_month(y, m) + d) * 86400 + (rest / 3600) * 3600 + ((
            rest % 3600) / 60) * 60 + rest % 60,
        ),
{
    let hh = rest / 3600;
    let mm = (rest % 3600) / 60;
    let ss = rest % 60;
    let a = text::padded(hh, 2);
    let b = text::padded(mm, 2);
    let c = text::padded(ss, 2);
    let date = joined(text::padded(y, 4), text::padded(m + 1, 2), text::padded(d + 1, 2), '-');
    let clock = joined(a, b, c, ':');
    lemma_joined(y, 4, m + 1, d + 1, '-', 'T');
    lemma_joined(hh, 2, mm, ss, ':', 'T');
    lemma_parts(text::padded(y, 4), text::padded(m + 1, 2), text::padded(d + 1, 2), a, b, c);
    text::lemma_padded(ss, 2, u64::MAX as nat);
    lemma_digits_lack(c, '.');
    lemma_reads(date, clock, a, b, c, (y, m + 1, d + 1), (hh, mm, ss));
}

/// Every timestamp written reads back as the same second.
pub proof fn law_timestamp_reads_back(text: Seq<char>, secs: nat)
    requires
        is_timestamp(text, secs),
        secs <= u64::MAX,
    ensures
        timestamp_seconds(text) == Some(secs),
{
    let (y, m, d) = choose|y: nat, m: nat, d: nat| #[trigger]
        is_date(secs / 86400, y, m, d) && text == timestamp_text(y, m, d, secs % 86400);
    lemma_year_floor(y);
    lemma_text_reads(y, m, d, secs % 86400);
    lemma_clock(secs % 86400);
}

proof fn lemma_year_floor(y: nat)
    ensures
        y <= days_before_year(y) + 1970,
    decreases y,
{
    if y > 1970 {
        lemma_year_floor((y - 1) as nat);
    }
}

} // verus!
