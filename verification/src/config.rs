//! The configuration file as the controller reads it: settings that a reload
//! applies, settings that need a restart, and what runs under them.

use crate::identity::IdentityPolicy;
use crate::identity;
use crate::security::ban::{BanConfig, BanConfigView, BansView};
use crate::security::ban;
use crate::security::destination::{DestinationRuleToml, DestinationsConfig, PolicyView};
use crate::security::manager::{SecurityFeaturesConfig, SecurityManager};
use crate::security::user_limits::{LimitsView, UserLimitOverride, UserLimitsConfig};
use crate::text::{chars_of, clone_opt, clone_strings, is_word, same_opt, same_str, same_strings};
use crate::text;
use vstd::prelude::*;

verus! {

// ── Settings ────────────────────────────────────────────────────────────

/// The security section.
#[derive(Debug)]
pub struct SecuritySettings {
    /// Requests per second that one address may send.
    pub rate_limit_per_ip: u32,
    /// Seconds without media before a call counts as dead.
    pub rtp_timeout: u64,
    /// Seconds that a trunk has to answer an INVITE before the next is tried.
    pub invite_timeout: u64,
    /// Seconds that a call may last; 0 = unlimited.
    pub max_call_duration: u64,
    /// Seconds that a call may stay unanswered.
    pub call_setup_timeout: u64,
    pub session_timer_enabled: bool,
    /// Seconds between session refreshes, and the least that is accepted.
    pub session_expires: u64,
    pub min_se: u64,
    /// "enforce" or "log".
    pub register_aor_check: String,
    pub served_domains: Vec<String>,
    /// "flag" or "reject".
    pub trunk_local_from: String,
    pub features: SecurityFeaturesConfig,
    pub enable_digest_auth: bool,
    pub sip_realm: String,
}

/// The management section.
#[derive(Debug)]
pub struct ManagementSettings {
    pub api_port: u16,
}

#[derive(Debug)]
pub struct SbcConfig {
    pub security: SecuritySettings,
    pub management: ManagementSettings,
}

// ── What settings hold ──────────────────────────────────────────────────

/// A destination rule of the file: prefix, action, user and description.
#[verifier::ext_equal]
pub struct RuleTomlView {
    pub prefix: Seq<char>,
    pub action: Seq<char>,
    pub user: Option<Seq<char>>,
    pub description: Seq<char>,
}

impl View for DestinationRuleToml {
    type V = RuleTomlView;

    open spec fn view(&self) -> RuleTomlView {
        RuleTomlView {
            prefix: self.prefix@,
            action: self.action@,
            user: text::opt_string(self.user),
            description: self.description@,
        }
    }
}

#[verifier::ext_equal]
pub struct DestinationsView {
    pub enabled: bool,
    pub default_action: Seq<char>,
    pub default_country_code: Seq<char>,
    pub rules: Seq<RuleTomlView>,
    pub seed_irsf_rules: bool,
}

impl View for DestinationsConfig {
    type V = DestinationsView;

    open spec fn view(&self) -> DestinationsView {
        DestinationsView {
            enabled: self.enabled,
            default_action: self.default_action@,
            default_country_code: self.default_country_code@,
            rules: self.rules@.map_values(|r: DestinationRuleToml| r@),
            seed_irsf_rules: self.seed_irsf_rules,
        }
    }
}

/// User and limits of an override.
pub open spec fn override_view(o: UserLimitOverride) -> (Seq<char>, Option<u32>, Option<u32>) {
    (o.user@, o.max_concurrent_calls, o.max_calls_per_minute)
}

#[verifier::ext_equal]
pub struct LimitSettingsView {
    pub enabled: bool,
    pub defaults: (u32, u32),
    pub overrides: Seq<(Seq<char>, Option<u32>, Option<u32>)>,
}

impl View for UserLimitsConfig {
    type V = LimitSettingsView;

    open spec fn view(&self) -> LimitSettingsView {
        LimitSettingsView {
            enabled: self.enabled,
            defaults: (self.default_max_concurrent_calls, self.default_max_calls_per_minute),
            overrides: self.overrides@.map_values(|o: UserLimitOverride| override_view(o)),
        }
    }
}

#[verifier::ext_equal]
pub struct SecurityView {
    pub rate_limit_per_ip: u32,
    pub rtp_timeout: u64,
    pub invite_timeout: u64,
    pub max_call_duration: u64,
    pub call_setup_timeout: u64,
    pub session_timer_enabled: bool,
    pub session_expires: u64,
    pub min_se: u64,
    pub register_aor_check: Seq<char>,
    pub served_domains: Seq<Seq<char>>,
    pub trunk_local_from: Seq<char>,
    pub ban: BanConfigView,
    pub destinations: DestinationsView,
    pub user_limits: LimitSettingsView,
    pub enable_digest_auth: bool,
    pub sip_realm: Seq<char>,
}

#[verifier::ext_equal]
pub struct ConfigView {
    pub security: SecurityView,
    pub api_port: u16,
}

impl View for SecuritySettings {
    type V = SecurityView;

    open spec fn view(&self) -> SecurityView {
        SecurityView {
            rate_limit_per_ip: self.rate_limit_per_ip,
            rtp_timeout: self.rtp_timeout,
            invite_timeout: self.invite_timeout,
            max_call_duration: self.max_call_duration,
            call_setup_timeout: self.call_setup_timeout,
            session_timer_enabled: self.session_timer_enabled,
            session_expires: self.session_expires,
            min_se: self.min_se,
            register_aor_check: self.register_aor_check@,
            served_domains: text::string_views(self.served_domains@),
            trunk_local_from: self.trunk_local_from@,
            ban: self.features.ban@,
            destinations: self.features.destinations@,
            user_limits: self.features.user_limits@,
            enable_digest_auth: self.enable_digest_auth,
            sip_realm: self.sip_realm@,
        }
    }
}

impl View for SbcConfig {
    type V = ConfigView;

    open spec fn view(&self) -> ConfigView {
        ConfigView { security: self.security@, api_port: self.management.api_port }
    }
}

/// The configuration where nothing is configured.
pub open spec fn default_config() -> ConfigView {
    ConfigView {
        security: SecurityView {
            rate_limit_per_ip: 100,
            rtp_timeout: 60,
            invite_timeout: 5,
            max_call_duration: 14400,
            call_setup_timeout: 60,
            session_timer_enabled: false,
            session_expires: 1800,
            min_se: 90,
            register_aor_check: "enforce"@,
            served_domains: Seq::empty(),
            trunk_local_from: "flag"@,
            ban: ban::default_ban(),
            destinations: DestinationsView {
                enabled: true,
                default_action: "allow"@,
                default_country_code: "33"@,
                rules: Seq::empty(),
                seed_irsf_rules: true,
            },
            user_limits: LimitSettingsView {
                enabled: true,
                defaults: (4, 10),
                overrides: Seq::empty(),
            },
            enable_digest_auth: false,
            sip_realm: "sbc.local"@,
        },
        api_port: 8080,
    }
}

impl Default for SbcConfig {
    fn default() -> (r: Self)
        ensures
            r@ == default_config(),
    {
        let c = SbcConfig {
            security: SecuritySettings {
                rate_limit_per_ip: 100,
                rtp_timeout: 60,
                invite_timeout: 5,
                max_call_duration: 14400,
                call_setup_timeout: 60,
                session_timer_enabled: false,
                session_expires: 1800,
                min_se: 90,
                register_aor_check: "enforce".to_string(),
                served_domains: Vec::new(),
                trunk_local_from: "flag".to_string(),
                features: SecurityFeaturesConfig::default(),
                enable_digest_auth: false,
                sip_realm: "sbc.local".to_string(),
            },
            management: ManagementSettings { api_port: 8080 },
        };
        assert(c@.security.served_domains =~= Seq::empty());
        assert(c@.security.destinations =~= default_config().security.destinations);
        assert(c@.security.user_limits =~= default_config().security.user_limits);
        c
    }
}

// ── Copies and comparisons ──────────────────────────────────────────────

impl Clone for DestinationsConfig {
    fn clone(&self) -> (r: Self)
        ensures
            r@ == self@,
    {
        let mut rules: Vec<DestinationRuleToml> = Vec::new();
        let ghost all = self@.rules;
        let mut i: usize = 0;
        while i < self.rules.len()
            invariant
                i <= self.rules@.len(),
                rules@.len() == i,
                all == self@.rules,
                forall|k: int| 0 <= k < i ==> #[trigger] rules@[k]@ == all[k],
            decreases self.rules@.len() - i,
        {
            let c = &self.rules[i];
            rules.push(
                DestinationRuleToml {
                    prefix: c.prefix.clone(),
                    action: c.action.clone(),
                    user: clone_opt(&c.user),
                    description: c.description.clone(),
                },
            );
            i = i + 1;
        }
        assert(rules@.map_values(|r: DestinationRuleToml| r@) =~= all);
        DestinationsConfig {
            enabled: self.enabled,
            default_action: self.default_action.clone(),
            default_country_code: self.default_country_code.clone(),
            rules,
            seed_irsf_rules: self.seed_irsf_rules,
        }
    }
}

impl Clone for UserLimitsConfig {
    fn clone(&self) -> (r: Self)
        ensures
            r@ == self@,
    {
        let mut overrides: Vec<UserLimitOverride> = Vec::new();
        let ghost all = self@.overrides;
        let mut i: usize = 0;
        while i < self.overrides.len()
            invariant
                i <= self.overrides@.len(),
                overrides@.len() == i,
                all == self@.overrides,
                forall|k: int| 0 <= k < i ==> override_view(#[trigger] overrides@[k]) == all[k],
            decreases self.overrides@.len() - i,
        {
            let o = &self.overrides[i];
            overrides.push(
                UserLimitOverride {
                    user: o.user.clone(),
                    max_concurrent_calls: o.max_concurrent_calls,
                    max_calls_per_minute: o.max_calls_per_minute,
                },
            );
            i = i + 1;
        }
        assert(overrides@.map_values(|o: UserLimitOverride| override_view(o)) =~= all);
        UserLimitsConfig {
            enabled: self.enabled,
            default_max_concurrent_calls: self.default_max_concurrent_calls,
            default_max_calls_per_minute: self.default_max_calls_per_minute,
            overrides,
        }
    }
}

impl Clone for SbcConfig {
    fn clone(&self) -> (r: Self)
        ensures
            r@ == self@,
    {
        let s = &self.security;
        SbcConfig {
            security: SecuritySettings {
                rate_limit_per_ip: s.rate_limit_per_ip,
                rtp_timeout: s.rtp_timeout,
                invite_timeout: s.invite_timeout,
                max_call_duration: s.max_call_duration,
                call_setup_timeout: s.call_setup_timeout,
                session_timer_enabled: s.session_timer_enabled,
                session_expires: s.session_expires,
                min_se: s.min_se,
                register_aor_check: s.register_aor_check.clone(),
                served_domains: clone_strings(&s.served_domains),
                trunk_local_from: s.trunk_local_from.clone(),
                features: SecurityFeaturesConfig {
                    ban: s.features.ban.clone(),
                    destinations: s.features.destinations.clone(),
                    user_limits: s.features.user_limits.clone(),
                },
                enable_digest_auth: s.enable_digest_auth,
                sip_realm: s.sip_realm.clone(),
            },
            management: ManagementSettings { api_port: self.management.api_port },
        }
    }
}

fn same_bans(a: &BanConfig, b: &BanConfig) -> (r: bool)
    ensures
        r == (a@ == b@),
{
    a.enabled == b.enabled && a.max_failures == b.max_failures && a.window_secs == b.window_secs
        && a.ban_duration_secs == b.ban_duration_secs && a.repeat_offender_multiplier
        == b.repeat_offender_multiplier && a.max_ban_secs == b.max_ban_secs && a.silent_drop
        == b.silent_drop && same_strings(&a.whitelist, &b.whitelist)
}

fn same_rule(a: &DestinationRuleToml, b: &DestinationRuleToml) -> (r: bool)
    ensures
        r == (a@ == b@),
{
    same_str(a.prefix.as_str(), b.prefix.as_str()) && same_str(a.action.as_str(), b.action.as_str())
        && same_opt(&a.user, &b.user) && same_str(a.description.as_str(), b.description.as_str())
}

fn same_destinations(a: &DestinationsConfig, b: &DestinationsConfig) -> (r: bool)
    ensures
        r == (a@ == b@),
{
    if a.enabled != b.enabled || a.seed_irsf_rules != b.seed_irsf_rules || !same_str(
        a.default_action.as_str(),
        b.default_action.as_str(),
    ) || !same_str(a.default_country_code.as_str(), b.default_country_code.as_str()) {
        return false;
    }
    if a.rules.len() != b.rules.len() {
        assert(a@.rules.len() != b@.rules.len());
        return false;
    }
    let mut i: usize = 0;
    while i < a.rules.len()
        invariant
            i <= a.rules@.len(),
            a.rules@.len() == b.rules@.len(),
            forall|k: int| 0 <= k < i ==> a@.rules[k] == b@.rules[k],
        decreases a.rules@.len() - i,
    {
        if !same_rule(&a.rules[i], &b.rules[i]) {
            assert(a@.rules[i as int] != b@.rules[i as int]);
            return false;
        }
        assert(a@.rules[i as int] == b@.rules[i as int]);
        i = i + 1;
    }
    assert(a@.rules =~= b@.rules);
    true
}

fn same_override(a: &UserLimitOverride, b: &UserLimitOverride) -> (r: bool)
    ensures
        r == (override_view(*a) == override_view(*b)),
{
    same_str(a.user.as_str(), b.user.as_str()) && a.max_concurrent_calls == b.max_concurrent_calls
        && a.max_calls_per_minute == b.max_calls_per_minute
}

fn same_overrides(a: &UserLimitsConfig, b: &UserLimitsConfig) -> (r: bool)
    ensures
        r == (a@.overrides == b@.overrides),
{
    if a.overrides.len() != b.overrides.len() {
        assert(a@.overrides.len() != b@.overrides.len());
        return false;
    }
    let mut i: usize = 0;
    while i < a.overrides.len()
        invariant
            i <= a.overrides@.len(),
            a.overrides@.len() == b.overrides@.len(),
            forall|k: int| 0 <= k < i ==> a@.overrides[k] == b@.overrides[k],
        decreases a.overrides@.len() - i,
    {
        if !same_override(&a.overrides[i], &b.overrides[i]) {
            assert(a@.overrides[i as int] != b@.overrides[i as int]);
            return false;
        }
        assert(a@.overrides[i as int] == b@.overrides[i as int]);
        i = i + 1;
    }
    assert(a@.overrides =~= b@.overrides);
    true
}

// ── What runs under the settings ────────────────────────────────────────

pub open spec fn not_below(n: u64, floor: u64) -> u64 {
    if n < floor {
        floor
    } else {
        n
    }
}

fn floored(n: u64, floor: u64) -> (r: u64)
    ensures
        r == not_below(n, floor),
{
    if n < floor {
        floor
    } else {
        n
    }
}

/// The longest a call may last: no limit for 0, else at least a minute (a
/// mistyped value must not cut calls).
pub open spec fn call_limit(secs: u64) -> Option<u64> {
    if secs == 0 {
        None
    } else {
        Some(not_below(secs, 60))
    }
}

/// The refresh interval on offer and its floor, where session timers are on.
pub open spec fn session_timer_of(s: SecurityView) -> Option<(u32, u32)> {
    if s.session_timer_enabled {
        Some((not_below(s.session_expires, s.min_se) as u32, s.min_se as u32))
    } else {
        None
    }
}

/// Whether the address check is enforced, the domains served besides the own,
/// and whether a local From of a trunk is refused.
pub open spec fn identity_rules_of(s: SecurityView) -> (bool, Seq<Seq<char>>, bool) {
    (
        !text::same_text(s.register_aor_check, "log"@),
        identity::domain_keys(s.served_domains),
        text::same_text(s.trunk_local_from, "reject"@),
    )
}

pub open spec fn policy_view(p: IdentityPolicy) -> (bool, Seq<Seq<char>>, bool) {
    (p.enforce_register_aor, text::string_views(p.served_domains@), p.reject_trunk_local_from)
}

pub open spec fn or_setting(stored: Option<u32>, file: u32) -> u32 {
    match stored {
        Some(n) => n,
        None => file,
    }
}

/// The user limits with the defaults that the store sets in place of those of
/// the file.
pub open spec fn limits_under(
    limits: LimitSettingsView,
    stored: (Option<u32>, Option<u32>),
) -> LimitSettingsView {
    LimitSettingsView {
        defaults: (
            or_setting(stored.0, limits.defaults.0),
            or_setting(stored.1, limits.defaults.1),
        ),
        ..limits
    }
}

/// What runs: the settings with their floors applied.
#[derive(Debug)]
pub struct RuntimeSettings {
    pub requests_per_second: u32,
    /// Requests that may come at once: two seconds' worth.
    pub burst_size: u64,
    pub rtp_timeout: u64,
    pub invite_timeout: u64,
    /// None: unlimited.
    pub max_call_duration: Option<u64>,
    pub call_setup_timeout: u64,
    pub session_timer: Option<(u32, u32)>,
    pub identity_policy: IdentityPolicy,
    pub ban: BanConfig,
    pub destinations: DestinationsConfig,
    pub user_limits: UserLimitsConfig,
}

/// What the running settings hold.
#[verifier::ext_equal]
pub struct RuntimeView {
    pub requests_per_second: u32,
    pub burst_size: u64,
    pub rtp_timeout: u64,
    pub invite_timeout: u64,
    pub max_call_duration: Option<u64>,
    pub call_setup_timeout: u64,
    pub session_timer: Option<(u32, u32)>,
    pub identity: (bool, Seq<Seq<char>>, bool),
    pub ban: BanConfigView,
    pub destinations: DestinationsView,
    pub user_limits: LimitSettingsView,
}

impl View for RuntimeSettings {
    type V = RuntimeView;

    open spec fn view(&self) -> RuntimeView {
        RuntimeView {
            requests_per_second: self.requests_per_second,
            burst_size: self.burst_size,
            rtp_timeout: self.rtp_timeout,
            invite_timeout: self.invite_timeout,
            max_call_duration: self.max_call_duration,
            call_setup_timeout: self.call_setup_timeout,
            session_timer: self.session_timer,
            identity: policy_view(self.identity_policy),
            ban: self.ban@,
            destinations: self.destinations@,
            user_limits: self.user_limits@,
        }
    }
}

/// What runs under a configuration and the defaults that the store sets.
pub open spec fn running(c: ConfigView, stored: (Option<u32>, Option<u32>)) -> RuntimeView {
    RuntimeView {
        requests_per_second: c.security.rate_limit_per_ip,
        burst_size: (2 * c.security.rate_limit_per_ip) as u64,
        rtp_timeout: not_below(c.security.rtp_timeout, 10),
        invite_timeout: not_below(c.security.invite_timeout, 1),
        max_call_duration: call_limit(c.security.max_call_duration),
        call_setup_timeout: not_below(c.security.call_setup_timeout, 10),
        session_timer: session_timer_of(c.security),
        identity: identity_rules_of(c.security),
        ban: c.security.ban,
        destinations: c.security.destinations,
        user_limits: limits_under(c.security.user_limits, stored),
    }
}

fn session_timer(s: &SecuritySettings) -> (r: Option<(u32, u32)>)
    ensures
        r == session_timer_of(s@),
{
    if s.session_timer_enabled {
        let expires: u64 = floored(s.session_expires, s.min_se);
        Some((expires as u32, s.min_se as u32))
    } else {
        None
    }
}

/// The settings to run with.
pub fn runtime_settings(config: &SbcConfig, stored: (Option<u32>, Option<u32>)) -> (r:
    RuntimeSettings)
    ensures
        r@ == running(config@, stored),
{
    let s = &config.security;
    let mut user_limits = s.features.user_limits.clone();
    if let Some(n) = stored.0 {
        user_limits.default_max_concurrent_calls = n;
    }
    if let Some(n) = stored.1 {
        user_limits.default_max_calls_per_minute = n;
    }
    assert(user_limits@.overrides == s.features.user_limits@.overrides);
    assert(user_limits@ == limits_under(s.features.user_limits@, stored));
    RuntimeSettings {
        requests_per_second: s.rate_limit_per_ip,
        burst_size: s.rate_limit_per_ip as u64 * 2,
        rtp_timeout: floored(s.rtp_timeout, 10),
        invite_timeout: floored(s.invite_timeout, 1),
        max_call_duration: if s.max_call_duration == 0 {
            None
        } else {
            Some(floored(s.max_call_duration, 60))
        },
        call_setup_timeout: floored(s.call_setup_timeout, 10),
        session_timer: session_timer(s),
        identity_policy: IdentityPolicy::from_config(
            s.register_aor_check.as_str(),
            &s.served_domains,
            s.trunk_local_from.as_str(),
        ),
        ban: s.features.ban.clone(),
        destinations: s.features.destinations.clone(),
        user_limits,
    }
}

/// Put reloaded settings in force: the bans, the default action of the
/// destinations and the limits of the users. What the policies have counted,
/// and what was set for single users and numbers, stays.
pub fn apply_security(manager: &mut SecurityManager, settings: &RuntimeSettings)
    ensures
        final(manager).bans@ == (BansView { config: settings@.ban, ..old(manager).bans@ }),
        final(manager).destinations@ == (PolicyView {
            default_deny: text::same_text(settings@.destinations.default_action, "deny"@),
            ..old(manager).destinations@
        }),
        final(manager).user_limits@ == (LimitsView {
            enabled: settings@.user_limits.enabled,
            defaults: settings@.user_limits.defaults,
            ..old(manager).user_limits@
        }),
        final(manager).log == old(manager).log,
{
    manager.bans.set_config(settings.ban.clone());
    let action = chars_of(settings.destinations.default_action.as_str());
    manager.destinations.set_default_action(is_word(action.as_slice(), "deny"));
    manager.user_limits.set_enabled(settings.user_limits.enabled);
    manager.user_limits.set_defaults(
        settings.user_limits.default_max_concurrent_calls,
        settings.user_limits.default_max_calls_per_minute,
    );
}

// ── What a reload changes ───────────────────────────────────────────────

pub open spec fn key_if(changed: bool, key: Seq<char>) -> Seq<Seq<char>> {
    if changed {
        seq![key]
    } else {
        Seq::empty()
    }
}

/// The names of the settings on which two running configurations differ.
pub open spec fn differing(a: RuntimeView, b: RuntimeView) -> Seq<Seq<char>> {
    key_if(a.requests_per_second != b.requests_per_second, "security.rate_limit_per_ip"@) + key_if(
        a.rtp_timeout != b.rtp_timeout,
        "security.rtp_timeout"@,
    ) + key_if(a.invite_timeout != b.invite_timeout, "security.invite_timeout"@) + key_if(
        a.max_call_duration != b.max_call_duration,
        "security.max_call_duration"@,
    ) + key_if(a.call_setup_timeout != b.call_setup_timeout, "security.call_setup_timeout"@)
        + key_if(a.session_timer != b.session_timer, "security.session_timer"@) + key_if(
        a.identity != b.identity,
        "security.identity"@,
    ) + key_if(a.ban != b.ban, "security.ban"@) + key_if(
        a.destinations != b.destinations,
        "security.destinations"@,
    ) + key_if(a.user_limits != b.user_limits, "security.user_limits"@)
}

/// The settings whose effective value a reload changes.
pub open spec fn applied_keys(
    effective: ConfigView,
    loaded: ConfigView,
    stored: (Option<u32>, Option<u32>),
) -> Seq<Seq<char>> {
    differing(running(effective, stored), running(loaded, stored))
}

/// The settings that the loaded file changes but that only a restart applies.
pub open spec fn restart_keys(effective: ConfigView, loaded: ConfigView) -> Seq<Seq<char>> {
    key_if(effective.api_port != loaded.api_port, "management.api_port"@) + key_if(
        effective.security.enable_digest_auth != loaded.security.enable_digest_auth,
        "security.enable_digest_auth"@,
    ) + key_if(
        effective.security.sip_realm != loaded.security.sip_realm,
        "security.sip_realm"@,
    )
}

fn note_key(out: &mut Vec<String>, changed: bool, key: &str)
    ensures
        text::string_views(final(out)@) == text::string_views(old(out)@) + key_if(changed, key@),
{
    let ghost before = text::string_views(out@);
    if changed {
        out.push(key.to_string());
        assert(text::string_views(out@) =~= before + seq![key@]);
    } else {
        assert(text::string_views(out@) =~= before + Seq::<Seq<char>>::empty());
    }
}

fn same_policy(a: &IdentityPolicy, b: &IdentityPolicy) -> (r: bool)
    ensures
        r == (policy_view(*a) == policy_view(*b)),
{
    a.enforce_register_aor == b.enforce_register_aor && a.reject_trunk_local_from
        == b.reject_trunk_local_from && same_strings(&a.served_domains, &b.served_domains)
}

/// The settings whose effective value a reload changes, by name.
pub fn config_changes(
    effective: &SbcConfig,
    loaded: &SbcConfig,
    stored: (Option<u32>, Option<u32>),
) -> (r: Vec<String>)
    ensures
        text::string_views(r@) == applied_keys(effective@, loaded@, stored),
{
    let a = runtime_settings(effective, stored);
    let b = runtime_settings(loaded, stored);
    let mut out: Vec<String> = Vec::new();
    assert(text::string_views(out@) =~= Seq::empty());
    note_key(
        &mut out,
        a.requests_per_second != b.requests_per_second,
        "security.rate_limit_per_ip",
    );
    note_key(&mut out, a.rtp_timeout != b.rtp_timeout, "security.rtp_timeout");
    note_key(&mut out, a.invite_timeout != b.invite_timeout, "security.invite_timeout");
    note_key(&mut out, a.max_call_duration != b.max_call_duration, "security.max_call_duration");
    note_key(
        &mut out,
        a.call_setup_timeout != b.call_setup_timeout,
        "security.call_setup_timeout",
    );
    note_key(&mut out, a.session_timer != b.session_timer, "security.session_timer");
    note_key(&mut out, !same_policy(&a.identity_policy, &b.identity_policy), "security.identity");
    note_key(&mut out, !same_bans(&a.ban, &b.ban), "security.ban");
    note_key(
        &mut out,
        !same_destinations(&a.destinations, &b.destinations),
        "security.destinations",
    );
    let limits = a.user_limits.enabled == b.user_limits.enabled
        && a.user_limits.default_max_concurrent_calls == b.user_limits.default_max_concurrent_calls
        && a.user_limits.default_max_calls_per_minute == b.user_limits.default_max_calls_per_minute
        && same_overrides(&a.user_limits, &b.user_limits);
    note_key(&mut out, !limits, "security.user_limits");
    assert(text::string_views(out@) =~= differing(a@, b@));
    out
}

/// The settings that the loaded file changes but that only a restart applies,
/// by name.
pub fn config_diff(effective: &SbcConfig, loaded: &SbcConfig) -> (r: Vec<String>)
    ensures
        text::string_views(r@) == restart_keys(effective@, loaded@),
{
    let mut out: Vec<String> = Vec::new();
    assert(text::string_views(out@) =~= Seq::empty());
    note_key(
        &mut out,
        effective.management.api_port != loaded.management.api_port,
        "management.api_port",
    );
    note_key(
        &mut out,
        effective.security.enable_digest_auth != loaded.security.enable_digest_auth,
        "security.enable_digest_auth",
    );
    note_key(
        &mut out,
        !same_str(effective.security.sip_realm.as_str(), loaded.security.sip_realm.as_str()),
        "security.sip_realm",
    );
    assert(text::string_views(out@) =~= restart_keys(effective@, loaded@));
    out
}

/// The loaded configuration with the settings that need a restart as they
/// are.
pub open spec fn overlaid(effective: ConfigView, loaded: ConfigView) -> ConfigView {
    ConfigView {
        api_port: effective.api_port,
        security: SecurityView {
            enable_digest_auth: effective.security.enable_digest_auth,
            sip_realm: effective.security.sip_realm,
            ..loaded.security
        },
    }
}

/// What runs after a reload: the settings of the file that a reload applies
/// over those that need a restart.
pub fn overlay_reload_keys(effective: &SbcConfig, loaded: &SbcConfig) -> (r: SbcConfig)
    ensures
        r@ == overlaid(effective@, loaded@),
{
    let mut out = loaded.clone();
    out.management.api_port = effective.management.api_port;
    out.security.enable_digest_auth = effective.security.enable_digest_auth;
    out.security.sip_realm = effective.security.sip_realm.clone();
    assert(out@ == overlaid(effective@, loaded@));
    out
}

/// Loading the same file again changes nothing, and what it cannot apply is
/// named again.
pub proof fn law_same_file_applies_nothing(
    effective: ConfigView,
    loaded: ConfigView,
    stored: (Option<u32>, Option<u32>),
)
    ensures
        applied_keys(overlaid(effective, loaded), loaded, stored) == Seq::<Seq<char>>::empty(),
        overlaid(overlaid(effective, loaded), loaded) == overlaid(effective, loaded),
        restart_keys(overlaid(effective, loaded), loaded) == restart_keys(effective, loaded),
{
    assert(running(overlaid(effective, loaded), stored) == running(loaded, stored));
    assert(differing(running(loaded, stored), running(loaded, stored)) =~= Seq::<
        Seq<char>,
    >::empty());
}

/// The settings that run after a reload are those of the loaded file.
pub proof fn law_reload_applies_the_file(
    effective: ConfigView,
    loaded: ConfigView,
    stored: (Option<u32>, Option<u32>),
)
    ensures
        running(overlaid(effective, loaded), stored) == running(loaded, stored),
        overlaid(effective, loaded).api_port == effective.api_port,
        overlaid(effective, loaded).security.sip_realm == effective.security.sip_realm,
{
}

} // verus!
