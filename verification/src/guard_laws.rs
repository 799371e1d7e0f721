//! What is promised of bans, blocked destinations, limits and alerts.

use crate::ban_store;
use crate::engine::SourceFacts;
use crate::engine;
use crate::headers;
use crate::identity;
use crate::message::MessageView;
use crate::message;
use crate::responses;
use crate::security::ban::{BanConfigView, BanView, BansView};
use crate::security::ban;
use crate::security::destination::{DestinationRuleToml, PolicyView, RuleView};
use crate::security::destination;
use crate::security::manager::EventView;
use crate::security::manager;
use crate::security::user_limits::{LimitDecision, LimitsView, UserLimitOverride};
use crate::security::user_limits;
use crate::security::window::Moment;
use crate::security::window;
use crate::text;
use crate::text_laws;
use crate::trunk_state;
use vstd::prelude::*;

verus! {

// ── Bans ────────────────────────────────────────────────────────────────

/// Each failure of an address that may be banned is remembered beside those
/// of the window before it.
pub proof fn law_failures_are_remembered(s: BansView, ip: Seq<char>, reason: Seq<char>, at: Moment)
    requires
        s.config.enabled,
        !ban::whitelisted(s.config.whitelist, ip),
        !ban::banned(s, ip, at.wall_ms),
    ensures
        ({
            let (b, t) = ban::failure_outcome(s, ip, reason, at);
            let earlier = if s.failures.contains_key(ip) {
                s.failures[ip]
            } else {
                Seq::empty()
            };
            let w = window::drop_older(earlier, at.mono_ms, s.config.window_secs).push(at.mono_ms);
            &&& b is None ==> t.failures == s.failures.insert(ip, w)
            &&& b is None ==> t.offenses == s.offenses && !t.bans.contains_key(ip)
            &&& b is Some ==> !t.failures.contains_key(ip)
            &&& b is Some <==> w.len() as u32 >= s.config.max_failures
            &&& t.config == s.config
        }),
{
}

/// A ban that failures bring: of that address, for that reason, from now on,
/// one offense more than before, and as long as that offense is worth.
pub proof fn law_ban_of_failures(s: BansView, ip: Seq<char>, reason: Seq<char>, at: Moment)
    requires
        ban::failure_outcome(s, ip, reason, at).0 is Some,
        s.offenses.contains_key(ip) ==> s.offenses[ip] < u32::MAX,
    ensures
        ({
            let (b, t) = ban::failure_outcome(s, ip, reason, at);
            let ban = b->0;
            let before = if s.offenses.contains_key(ip) {
                s.offenses[ip]
            } else {
                0
            };
            &&& ban.ip == ip && ban.reason == reason && !ban.manual
            &&& ban.banned_at == at.wall_ms
            &&& ban.offense_count == before + 1
            &&& ban.expires_at == at.wall_ms + 1000 * ban::ban_seconds(s.config, (before + 1) as u32)
            &&& t.bans == s.bans.insert(ip, ban)
            &&& t.offenses == s.offenses.insert(ip, ban.offense_count)
        }),
{
    let t = ban::forget_expired(s, ip, at.wall_ms);
    let ban = ban::failure_outcome(s, ip, reason, at).0->0;
    assert(t.bans.insert(ip, ban) =~= s.bans.insert(ip, ban));
    lemma_ban_seconds_fit(s.config, ban.offense_count);
}

proof fn lemma_ban_seconds_fit(c: BanConfigView, offense: u32)
    ensures
        0 <= ban::ban_seconds(c, offense) <= c.max_ban_secs,
{
    let power = ban::at_most(
        vstd::arithmetic::power::pow(c.repeat_offender_multiplier as int, (offense - 1) as nat),
        u32::MAX as int,
    );
    let factor = if power >= 1 {
        power
    } else {
        1
    };
    assert(c.ban_duration_secs * factor >= 0) by (nonlinear_arith)
        requires
            factor >= 1,
            c.ban_duration_secs >= 0,
    ;
}

/// The first offense lasts the configured time, the second that time the
/// multiplier, and each the multiplier times the one before, up to the
/// maximum.
pub proof fn law_length_of_each_ban(c: BanConfigView, n: u32)
    requires
        1 <= n < u32::MAX,
        c.repeat_offender_multiplier >= 1,
        vstd::arithmetic::power::pow(c.repeat_offender_multiplier as int, n as nat) <= u32::MAX,
        c.ban_duration_secs * vstd::arithmetic::power::pow(
            c.repeat_offender_multiplier as int,
            n as nat,
        ) <= c.max_ban_secs,
    ensures
        ban::ban_seconds(c, 1) == c.ban_duration_secs,
        ban::ban_seconds(c, (n + 1) as u32) == c.repeat_offender_multiplier * ban::ban_seconds(c, n),
{
    let m = c.repeat_offender_multiplier as int;
    let d = c.ban_duration_secs as int;
    let p = vstd::arithmetic::power::pow(m, (n - 1) as nat);
    let q = vstd::arithmetic::power::pow(m, n as nat);
    reveal(vstd::arithmetic::power::pow);
    vstd::arithmetic::power::lemma_pow0(m);
    vstd::arithmetic::power::lemma_pow_positive(m, (n - 1) as nat);
    assert(q == m * p);
    assert(vstd::arithmetic::power::pow(m, (1u32 - 1) as nat) == 1);
    assert(d * 1 == d);
    assert(p <= q && d <= d * q && d * p <= d * q && d * q == m * (d * p)) by (nonlinear_arith)
        requires
            q == m * p,
            m >= 1,
            p >= 1,
            d >= 0,
    ;
}

/// A ban is never longer than the maximum, and where the configured time is
/// over it, the maximum is what it lasts.
pub proof fn law_longest_ban(c: BanConfigView, n: u32)
    requires
        n >= 1,
    ensures
        ban::ban_seconds(c, n) <= c.max_ban_secs,
        c.ban_duration_secs >= c.max_ban_secs ==> ban::ban_seconds(c, n) == c.max_ban_secs,
        c.ban_duration_secs <= c.max_ban_secs ==> ban::ban_seconds(c, n) >= c.ban_duration_secs,
{
    let power = ban::at_most(
        vstd::arithmetic::power::pow(c.repeat_offender_multiplier as int, (n - 1) as nat),
        u32::MAX as int,
    );
    let factor = if power >= 1 {
        power
    } else {
        1
    };
    assert(c.ban_duration_secs * factor >= c.ban_duration_secs) by (nonlinear_arith)
        requires
            factor >= 1,
            c.ban_duration_secs >= 0,
    ;
}

/// Who is never banned: this host, an address within a network of the list,
/// or one that the list names.
pub proof fn law_who_is_never_banned(list: Seq<Seq<char>>, ip: Seq<char>, i: int)
    ensures
        text::starts_with(ip, "127."@) ==> ban::whitelisted(list, ip),
        ip == "::1"@ ==> ban::whitelisted(list, ip),
        0 <= i < list.len() && ban::network_contains(list[i], ip) == Some(true) ==> ban::whitelisted(list, ip),
        0 <= i < list.len() && ban::network_contains(list[i], ip) is None && list[i] == ip
            ==> ban::whitelisted(list, ip),
        ban::whitelisted(list, ip) && !text::starts_with(ip, "127."@) && ip != "::1"@ ==> exists|j: int|
            0 <= j < list.len() && (ban::network_contains(#[trigger] list[j], ip) == Some(true) || (
            ban::network_contains(list[j], ip) is None && list[j] == ip)),
{
    if 0 <= i < list.len() {
        assert(list[i] == list[i]);
    }
}

/// What is left of a ban in whole seconds, and nothing once it ran out.
pub proof fn law_what_is_left_of_a_ban(b: BanView, wall_ms: u64)
    ensures
        wall_ms >= b.expires_at ==> ban::seconds_left(b, wall_ms) == 0,
        wall_ms < b.expires_at ==> 1000 * ban::seconds_left(b, wall_ms) <= b.expires_at - wall_ms < 1000 * (
        ban::seconds_left(b, wall_ms) + 1),
{
}

/// A ban that ran out is forgotten when it is asked for, and no other is.
pub proof fn law_run_out_ban_is_forgotten(s: BansView, ip: Seq<char>, other: Seq<char>, wall_ms: u64)
    requires
        other != ip,
    ensures
        ({
            let t = ban::forget_expired(s, ip, wall_ms);
            &&& t.bans.contains_key(ip) <==> s.bans.contains_key(ip) && wall_ms
                < s.bans[ip].expires_at
            &&& t.bans.contains_key(other) <==> s.bans.contains_key(other)
            &&& t.offenses == s.offenses && t.failures == s.failures && t.config == s.config
        }),
{
}

/// A stored ban that has not run out is in force again, with its offenses;
/// one that has is not.
pub proof fn law_stored_ban_is_in_force(s: BansView, b: BanView, wall_ms: u64)
    ensures
        wall_ms >= b.expires_at ==> ban_store::with_restored(s, b, wall_ms) == s,
        wall_ms < b.expires_at ==> ban::banned(ban_store::with_restored(s, b, wall_ms), b.ip, wall_ms)
            && ban_store::with_restored(s, b, wall_ms).bans == s.bans.insert(b.ip, b) && ban_store::with_restored(
            s,
            b,
            wall_ms,
        ).offenses == s.offenses.insert(b.ip, b.offense_count) && ban_store::with_restored(s, b, wall_ms).failures
            == s.failures,
{
}

// ── Destinations ────────────────────────────────────────────────────────

/// Spaces, hyphens and dots count for nothing in a number; all else stays, in
/// its order.
pub proof fn law_separators_do_not_count(s: Seq<char>)
    ensures
        destination::without_separators(s) == s.filter(|c: char| c != ' ' && c != '-' && c != '.'),
    decreases s.len(),
{
    reveal(Seq::filter);
    if s.len() > 0 {
        law_separators_do_not_count(s.drop_last());
    }
    assert(destination::without_separators(s) =~= s.filter(|c: char| c != ' ' && c != '-' && c != '.'));
}

/// The international form of a dialed number: two zeros stand for a plus, one
/// for the own country; what has a plus, or starts with no zero, stays, and
/// what is no number at all is left as it was dialed.
pub proof fn law_international_form(d: Seq<char>, cc: Seq<char>)
    requires
        forall|i: int| 0 <= i < d.len() ==> '0' <= #[trigger] d[i] <= '9',
    ensures
        destination::canonical_number(seq!['+'] + d, cc) == seq!['+'] + d,
        destination::canonical_number(seq!['0', '0'] + d, cc) == "+"@ + d,
        d.len() > 0 && d[0] != '0' ==> destination::canonical_number(seq!['0'] + d, cc) == "+"@ + cc + d,
        d.len() > 0 && d[0] != '0' ==> destination::canonical_number(d, cc) == d,
        d.len() == 0 ==> destination::canonical_number(seq!['0'] + d, cc) == "+"@ + cc + d,
{
    let p = seq!['+'] + d;
    lemma_bare_digits(p);
    let z = seq!['0'] + d;
    lemma_bare_digits(z);
    let zz = seq!['0', '0'] + d;
    lemma_bare_digits(zz);
    lemma_bare_digits(d);
    assert(zz.skip(2) =~= d);
    assert(z.skip(1) =~= d);
    assert(zz[0] == '0' && zz[1] == '0' && z[0] == '0' && p[0] == '+');
    assert(text::all_digits(z)) by {
        assert forall|i: int| 0 <= i < z.len() implies text::is_digit(#[trigger] z[i]) by {
            if i > 0 {
                assert(z[i] == d[i - 1]);
            }
        }
    }
    assert(text::all_digits(zz)) by {
        assert forall|i: int| 0 <= i < zz.len() implies text::is_digit(#[trigger] zz[i]) by {
            if i > 1 {
                assert(zz[i] == d[i - 2]);
            }
        }
    }
    if d.len() > 0 {
        assert(z[1] == d[0]);
    }
}

proof fn lemma_bare_digits(s: Seq<char>)
    requires
        forall|i: int| 0 <= i < s.len() ==> !destination::is_separator(#[trigger] s[i]),
    ensures
        destination::without_separators(s) == s,
    decreases s.len(),
{
    if s.len() > 0 {
        let d = s.drop_last();
        assert forall|i: int| 0 <= i < d.len() implies !destination::is_separator(#[trigger] d[i]) by {
            assert(d[i] == s[i]);
        }
        lemma_bare_digits(d);
        assert(!destination::is_separator(s[s.len() - 1]));
        assert(d.push(s.last()) =~= s);
    }
}

/// A number is blocked or not however it is separated.
pub proof fn law_separated_numbers_are_the_same(a: Seq<char>, b: Seq<char>, cc: Seq<char>)
    requires
        destination::without_separators(a) == destination::without_separators(b),
        text::all_digits(destination::without_separators(a)) || (destination::without_separators(a).len() > 0 && destination::without_separators(
            a,
        )[0] == '+'),
    ensures
        destination::canonical_number(a, cc) == destination::canonical_number(b, cc),
{
}

/// A rule holds for a number where it is enabled, is for everyone or for the
/// caller, and the number starts with its prefix as dialed or in its
/// international form.
pub proof fn law_when_a_rule_holds(
    r: RuleView,
    canonical: Seq<char>,
    dialed: Seq<char>,
    user: Option<Seq<char>>,
)
    ensures
        destination::rule_applies(r, canonical, dialed, user) <==> r.enabled && (r.user is None || r.user == user)
            && ((exists|t: Seq<char>| canonical == #[trigger] (r.prefix + t)) || (exists|t: Seq<char>|
            dialed == #[trigger] (r.prefix + t))),
{
    text_laws::law_prefix_and_suffix(r.prefix, Seq::empty(), canonical);
    text_laws::law_prefix_and_suffix(r.prefix, Seq::empty(), dialed);
}

/// What decides a call: nothing where the policy is off, else the rule that
/// decides, and the default where there is none.
pub proof fn law_verdict_on_a_number(p: PolicyView, dialed: Seq<char>, user: Option<Seq<char>>)
    ensures
        ({
            let v = destination::destination_verdict(p, dialed, user);
            let rule = destination::deciding_rule(
                p.rules,
                destination::canonical_number(dialed, p.default_cc),
                dialed,
                user,
            );
            &&& !p.enabled ==> v is None
            &&& p.enabled && rule is Some && rule->0.deny ==> v == Some(
                (rule->0.id, rule->0.description),
            )
            &&& rule is Some && !rule->0.deny ==> v is None
            &&& p.enabled && rule is None && p.default_deny ==> v == Some(
                ("default"@, "default deny"@),
            )
            &&& rule is None && !p.default_deny ==> v is None
        }),
{
}

/// The rules at the start: those of the file, numbered and in force, and
/// those against satellite and premium numbers where the file asks for them
/// and denies nothing itself.
pub proof fn law_rules_at_the_start(rules: Seq<DestinationRuleToml>, seed: bool, i: int)
    requires
        0 <= i < rules.len(),
    ensures
        ({
            let r = destination::initial_rules(rules, seed);
            let own = exists|j: int|
                0 <= j < rules.len() && text::same_text((#[trigger] rules[j]).action@, "deny"@);
            &&& r[i].id == "cfg-"@ + text::decimal(i as nat)
            &&& r[i].prefix == rules[i].prefix@ && r[i].enabled
            &&& r[i].deny <==> text::same_text(rules[i].action@, "deny"@)
            &&& r[i].user == text::opt_string(rules[i].user)
            &&& r[i].description == rules[i].description@
            &&& own || !seed ==> r.len() == rules.len()
            &&& !own && seed ==> r.len() == rules.len() + 4
        }),
{
    let own = destination::configured_rules(rules);
    let denies = exists|j: int|
        0 <= j < rules.len() && text::same_text((#[trigger] rules[j]).action@, "deny"@);
    if destination::any_deny(own) {
        let j = choose|j: int| 0 <= j < own.len() && (#[trigger] own[j]).deny;
        assert(text::same_text(rules[j].action@, "deny"@));
    }
    if denies {
        let j = choose|j: int|
            0 <= j < rules.len() && text::same_text((#[trigger] rules[j]).action@, "deny"@);
        assert(own[j].deny);
    }
}

/// Each of the rules that come of themselves denies its prefix to everyone.
pub proof fn law_rules_of_themselves(k: int)
    requires
        0 <= k < 4,
    ensures
        destination::seed_rules().len() == 4,
        destination::seed_rules()[0].prefix == "+881"@ && destination::seed_rules()[1].prefix == "+882"@ && destination::seed_rules()[2].prefix
            == "+883"@ && destination::seed_rules()[3].prefix == "+979"@,
        destination::seed_rules()[k].deny && destination::seed_rules()[k].enabled && destination::seed_rules()[k].user is None,
        destination::seed_rules()[k].id == "irsf"@ + destination::seed_rules()[k].prefix,
{
}

// ── Limits ──────────────────────────────────────────────────────────────

/// When a user is over a limit: at once with as many calls as are allowed, or
/// with as many in the last minute; zero allows any number.
pub proof fn law_when_a_user_is_over(s: LimitsView, user: Seq<char>, current: u32, now: u64)
    ensures
        ({
            let (d, t) = user_limits::limit_outcome(s, user, current, now);
            let (calls, per_minute) = user_limits::effective_limits(s, user);
            let recent = window::drop_older(user_limits::window_of(s.windows, user), now, 60);
            &&& d is ConcurrentExceeded <==> s.enabled && calls > 0 && current >= calls
            &&& d is ConcurrentExceeded ==> d == (LimitDecision::ConcurrentExceeded {
                current,
                limit: calls,
            }) && t == s
            &&& d is RateExceeded <==> s.enabled && !(calls > 0 && current >= calls) && per_minute > 0
                && recent.len() as u32 >= per_minute
            &&& d matches LimitDecision::RateExceeded { current: c, limit, .. } ==> c
                == recent.len() as u32 && limit == per_minute
            &&& d matches LimitDecision::RateExceeded { retry_after_secs, .. } ==> (recent.len() > 0
                ==> retry_after_secs == user_limits::retry_after(recent[0], now))
            &&& d is Allowed && s.enabled && per_minute > 0 ==> user_limits::window_of(t.windows, user)
                == recent.push(now)
            &&& d is RateExceeded ==> user_limits::window_of(t.windows, user) == recent
        }),
{
}

/// The time to wait is what is left of a minute since the oldest call, in
/// whole seconds, and at least one.
pub proof fn law_time_to_wait(front: u64, now: u64)
    ensures
        now <= front ==> user_limits::retry_after(front, now) == 60,
        front < now && now - front < 60_000 ==> 60_000 <= 1000 * user_limits::retry_after(front, now) + (now
            - front) < 61_000,
        front < now && now - front >= 60_000 ==> user_limits::retry_after(front, now) == 1,
{
}

/// The limits of a user: the override where there is one, field by field, and
/// the defaults for the rest.
pub proof fn law_limits_of_a_user(s: LimitsView, user: Seq<char>)
    ensures
        !s.overrides.contains_key(user) ==> user_limits::effective_limits(s, user) == s.defaults,
        s.overrides.contains_key(user) ==> ({
            let o = s.overrides[user];
            let e = user_limits::effective_limits(s, user);
            &&& o.max_concurrent_calls matches Some(n) ==> e.0 == n
            &&& o.max_concurrent_calls is None ==> e.0 == s.defaults.0
            &&& o.max_calls_per_minute matches Some(n) ==> e.1 == n
            &&& o.max_calls_per_minute is None ==> e.1 == s.defaults.1
        }),
{
}

/// The last override that is configured for a user is the one that counts,
/// and a user without one has none.
pub proof fn law_last_override_counts(v: Seq<UserLimitOverride>, user: Seq<char>, k: int)
    requires
        -1 <= k < v.len(),
        k >= 0 ==> v[k].user@ == user,
        forall|i: int| k < i < v.len() ==> (#[trigger] v[i]).user@ != user,
    ensures
        user_limits::configured_overrides(v).contains_key(user) <==> k >= 0,
        k >= 0 ==> user_limits::configured_overrides(v)[user].max_concurrent_calls == v[k].max_concurrent_calls
            && user_limits::configured_overrides(v)[user].max_calls_per_minute == v[k].max_calls_per_minute,
    decreases v.len(),
{
    if v.len() > 0 && k < v.len() - 1 {
        let d = v.drop_last();
        assert forall|i: int| k < i < d.len() implies (#[trigger] d[i]).user@ != user by {
            assert(d[i] == v[i]);
        }
        assert(v[v.len() - 1].user@ != user);
        law_last_override_counts(d, user, k);
    }
}

// ── Alerts ──────────────────────────────────────────────────────────────

/// The alert of each event: what it is called and whom it is about.
pub proof fn law_alert_of_each_event(e: EventView)
    ensures
        e matches EventView::BanIssued { ip, reason, .. } ==> manager::alert_view(e) == (
            "ban_issued"@,
            ip + " ("@ + reason + ")"@,
        ),
        e matches EventView::BanLifted { ip, .. } ==> manager::alert_view(e) == ("ban_lifted"@, ip),
        e matches EventView::AuthFailure { ip, .. } ==> manager::alert_view(e) == ("auth_failure"@, ip),
        e matches EventView::DestinationBlocked { destination, rule, .. } ==> manager::alert_view(e) == (
            "destination_blocked"@,
            destination + " (rule "@ + rule + ")"@,
        ),
        e matches EventView::UserLimitHit { user, kind, .. } ==> manager::alert_view(e) == (
            "user_limit"@,
            user + " ("@ + kind + ")"@,
        ),
        e matches EventView::IdentityMismatch { user, claimed, .. } ==> manager::alert_view(e) == (
            "identity_mismatch"@,
            user + " (as "@ + claimed + ")"@,
        ),
{
}

/// The events that are kept are the last hundred, the newest last.
pub proof fn law_last_events_are_kept(ring: Seq<EventView>, e: EventView)
    requires
        ring.len() <= 100,
    ensures
        manager::ring_push(ring, e).last() == e,
        ring.len() < 100 ==> manager::ring_push(ring, e) == ring.push(e),
        ring.len() == 100 ==> manager::ring_push(ring, e).len() == 100 && manager::ring_push(ring, e).drop_last()
            == ring.skip(1),
{
    if ring.len() == 100 {
        assert(manager::ring_push(ring, e).drop_last() =~= ring.skip(1));
    }
}

/// An alert waits to be sent where someone takes alerts, and nowhere else.
pub proof fn law_alerts_wait_for_a_taker(outbox: Seq<(Seq<char>, Seq<char>)>, wired: bool, e: EventView)
    ensures
        wired ==> manager::outbox_push(outbox, wired, e) == outbox.push(manager::alert_view(e)),
        !wired ==> manager::outbox_push(outbox, wired, e) == outbox,
{
}

/// What is told of a ban that was issued: its address, its reason, how long
/// it lasts and for how many failures.
pub proof fn law_report_of_a_ban(b: BanView, wall_ms: u64, ts: u64)
    requires
        ban::seconds_left(b, wall_ms) <= u64::MAX,
    ensures
        manager::ban_issued_event(b, wall_ms, ts) matches EventView::BanIssued {
            ip,
            reason,
            duration_secs,
            failures,
            manual,
            ts: t,
        } && ip == b.ip && reason == b.reason && failures == b.failures && !manual && t == ts
            && duration_secs == ban::seconds_left(b, wall_ms),
        manager::mismatch_report(b.ip, None, ts) is None,
{
}

/// What is told of a claimed identity: from where, who, as whom and with
/// which request.
pub proof fn law_report_of_a_claim(
    ip: Seq<char>,
    user: Seq<char>,
    claimed: Seq<char>,
    method: Seq<char>,
    ts: u64,
)
    ensures
        manager::mismatch_report(ip, Some((user, claimed, method)), ts) == Some(
            EventView::IdentityMismatch { ip, user, claimed, method, ts },
        ),
        manager::mismatch_report(ip, None, ts) is None,
{
}

// ── Windows ─────────────────────────────────────────────────────────────

/// A moment is out of a window of some seconds once more than those have
/// passed since it.
pub proof fn law_what_is_out_of_the_window(t: u64, now: u64, span: u64)
    requires
        t <= now,
    ensures
        window::is_older(t, now, span) <==> now > t + 1000 * span,
{
}

/// What is kept of a window begins at the first moment that is still in it.
pub proof fn law_what_is_kept_of_a_window(w: Seq<u64>, now: u64, span: u64, k: int)
    requires
        0 <= k <= w.len(),
        k < w.len() ==> !window::is_older(w[k], now, span),
        forall|i: int| 0 <= i < k ==> window::is_older(#[trigger] w[i], now, span),
    ensures
        window::drop_older(w, now, span) == w.skip(k),
    decreases k,
{
    if k > 0 {
        let t = w.skip(1);
        assert(w[0] == w[0]);
        if k < w.len() {
            assert(t[k - 1] == w[k]);
        }
        assert forall|i: int| 0 <= i < k - 1 implies window::is_older(#[trigger] t[i], now, span) by {
            assert(t[i] == w[i + 1]);
        }
        law_what_is_kept_of_a_window(t, now, span, k - 1);
        assert(t.skip(k - 1) =~= w.skip(k));
    } else {
        assert(w.skip(0) =~= w);
    }
}

/// An address is banned while it has a ban that has not run out.
pub proof fn law_who_is_banned(s: BansView, ip: Seq<char>, wall_ms: u64)
    ensures
        ban::banned(s, ip, wall_ms) <==> s.bans.contains_key(ip) && wall_ms < s.bans[ip].expires_at,
{
}

/// A rule is there where one has its name, and removing it leaves every other
/// in its order.
pub proof fn law_rule_is_removed(rules: Seq<RuleView>, id: Seq<char>)
    ensures
        destination::rules_without(rules, id) == rules.filter(|r: RuleView| r.id != id),
        destination::has_rule(rules, id) <==> exists|i: int| 0 <= i < rules.len() && (#[trigger] rules[i]).id == id,
    decreases rules.len(),
{
    reveal(Seq::filter);
    if rules.len() > 0 {
        law_rule_is_removed(rules.drop_last(), id);
    }
    assert(destination::rules_without(rules, id) =~= rules.filter(|r: RuleView| r.id != id));
}

/// A source that is refused aloud hears the status of its refusal, and one
/// that is refused in silence, or let in, hears nothing.
pub proof fn law_what_a_refused_source_hears(answer: Option<String>, m: MessageView, f: SourceFacts)
    requires
        engine::refuses_aloud(answer, m, f),
    ensures
        answer is Some <==> (f.banned && !f.silent_drop) || (!f.banned && f.acl_allowed
            && !f.rate_allowed),
        f.banned && !f.silent_drop ==> responses::answers(answer->0@, m, 403, "Forbidden"@),
        !f.banned && f.acl_allowed && !f.rate_allowed ==> responses::answers(
            answer->0@,
            m,
            503,
            "Service Unavailable"@,
        ),
{
}

/// The time that a trunk asks to be left alone counts from a second up to an
/// hour, and the first header that gives one is read.
pub proof fn law_time_that_a_trunk_asks_for(raw: Seq<char>, n: nat)
    requires
        1 <= n <= u64::MAX,
    ensures
        1 <= n <= 3600 ==> trunk_state::sane_delay(text::decimal(n)) == Some(n),
        n > 3600 ==> trunk_state::sane_delay(text::decimal(n)) is None,
        ({
            let v = headers::header_values(message::text_lines(raw), "Retry-After"@, "Retry-After"@);
            &&& v.len() > 0 ==> trunk_state::retry_delay(raw) == trunk_state::sane_delay(v[0])
            &&& v.len() == 0 ==> trunk_state::retry_delay(raw) is None
        }),
{
    let d = text::decimal(n);
    text::lemma_decimal_digits(n);
    text::law_decimal_reads_back(n, u64::MAX as nat);
    lemma_all_digits_end(d, 0);
    assert(d.take(d.len() as int) =~= d);
}

proof fn lemma_all_digits_end(s: Seq<char>, from: int)
    requires
        0 <= from <= s.len(),
        forall|i: int| 0 <= i < s.len() ==> text::is_digit(#[trigger] s[i]),
    ensures
        trunk_state::digits_end(s, from) == s.len(),
    decreases s.len() - from,
{
    if from < s.len() {
        assert(text::is_digit(s[from]));
        lemma_all_digits_end(s, from + 1);
    }
}

/// A call is kicked once: a call that waits for it already does not wait
/// twice.
pub proof fn law_calls_wait_to_be_kicked(q: Seq<Seq<char>>, uuid: Seq<char>)
    ensures
        q.contains(uuid) ==> identity::kick_queued(q, uuid) == q,
        !q.contains(uuid) ==> identity::kick_queued(q, uuid) == q.push(uuid),
{
}

/// Where bans are off, or the address is never banned, a failure leaves
/// nothing behind; nor does one of an address that is banned already.
pub proof fn law_failures_without_a_trace(s: BansView, ip: Seq<char>, reason: Seq<char>, at: Moment)
    requires
        !s.config.enabled || ban::whitelisted(s.config.whitelist, ip) || ban::banned(s, ip, at.wall_ms),
    ensures
        ban::failure_outcome(s, ip, reason, at).0 is None,
        ban::failure_outcome(s, ip, reason, at).1 == s,
{
}

} // verus!
