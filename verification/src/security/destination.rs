//! Destination blocking: longest-prefix rules on canonicalized dialed
//! numbers, per user or global, applied before a trunk is selected.

use crate::text::{chars_of, clone_opt, decimal_of, has_prefix, is_word, only_digits, same, same_str, string_of};
use crate::text;
use vstd::prelude::*;
use vstd::slice::slice_subrange;

verus! {

#[derive(Debug)]
pub struct DestinationsConfig {
    pub enabled: bool,
    /// "allow" (blocklist mode) or "deny" (allowlist mode).
    pub default_action: String,
    /// Country code used to canonicalize national numbers ("33" → +33…).
    pub default_country_code: String,
    pub rules: Vec<DestinationRuleToml>,
    /// Seed the international premium and satellite ranges when no deny rule
    /// is configured.
    pub seed_irsf_rules: bool,
}

/// Everything is allowed but the seeded rules.
pub open spec fn default_destinations(c: DestinationsConfig) -> bool {
    &&& c.enabled
    &&& c.default_action@ == "allow"@
    &&& c.default_country_code@ == "33"@
    &&& c.rules@.len() == 0
    &&& c.seed_irsf_rules
}

impl Default for DestinationsConfig {
    fn default() -> (r: Self)
        ensures
            default_destinations(r),
    {
        DestinationsConfig {
            enabled: true,
            default_action: "allow".to_string(),
            default_country_code: "33".to_string(),
            rules: Vec::new(),
            seed_irsf_rules: true,
        }
    }
}

#[derive(Debug)]
pub struct DestinationRuleToml {
    pub prefix: String,
    /// "allow" or "deny".
    pub action: String,
    pub user: Option<String>,
    pub description: String,
}

#[derive(Debug)]
pub struct DestinationRule {
    pub id: String,
    pub prefix: String,
    pub deny: bool,
    /// None = global rule.
    pub user: Option<String>,
    pub description: String,
    pub enabled: bool,
}

/// What a rule holds.
#[verifier::ext_equal]
pub struct RuleView {
    pub id: Seq<char>,
    pub prefix: Seq<char>,
    pub deny: bool,
    pub user: Option<Seq<char>>,
    pub description: Seq<char>,
    pub enabled: bool,
}

impl View for DestinationRule {
    type V = RuleView;

    open spec fn view(&self) -> RuleView {
        RuleView {
            id: self.id@,
            prefix: self.prefix@,
            deny: self.deny,
            user: text::opt_string(self.user),
            description: self.description@,
            enabled: self.enabled,
        }
    }
}

pub open spec fn rule_views(v: Seq<DestinationRule>) -> Seq<RuleView> {
    v.map_values(|r: DestinationRule| r@)
}

impl Clone for DestinationRule {
    fn clone(&self) -> (r: Self)
        ensures
            r@ == self@,
    {
        DestinationRule {
            id: self.id.clone(),
            prefix: self.prefix.clone(),
            deny: self.deny,
            user: clone_opt(&self.user),
            description: self.description.clone(),
            enabled: self.enabled,
        }
    }
}

#[derive(Debug, Clone, PartialEq)]
pub enum DestinationDecision {
    Allowed,
    Blocked { rule_id: String, description: String },
}

/// What a decision holds: None when allowed, rule and description when blocked.
pub open spec fn decision_view(d: DestinationDecision) -> Option<(Seq<char>, Seq<char>)> {
    match d {
        DestinationDecision::Allowed => None,
        DestinationDecision::Blocked { rule_id, description } => Some((rule_id@, description@)),
    }
}

#[derive(Debug)]
pub struct DestinationPolicy {
    rules: Vec<DestinationRule>,
    default_deny: bool,
    default_cc: String,
    enabled: bool,
    blocked_total: u64,
}

/// What a policy holds.
#[verifier::ext_equal]
pub struct PolicyView {
    pub rules: Seq<RuleView>,
    pub default_deny: bool,
    pub default_cc: Seq<char>,
    pub enabled: bool,
    pub blocked_total: u64,
}

impl View for DestinationPolicy {
    type V = PolicyView;

    closed spec fn view(&self) -> PolicyView {
        PolicyView {
            rules: rule_views(self.rules@),
            default_deny: self.default_deny,
            default_cc: self.default_cc@,
            enabled: self.enabled,
            blocked_total: self.blocked_total,
        }
    }
}

// ── Canonical numbers ───────────────────────────────────────────────────

pub open spec fn is_separator(c: char) -> bool {
    c == ' ' || c == '-' || c == '.'
}

/// The text without spaces, hyphens and dots.
pub open spec fn without_separators(s: Seq<char>) -> Seq<char>
    decreases s.len(),
{
    if s.len() == 0 {
        Seq::empty()
    } else if is_separator(s.last()) {
        without_separators(s.drop_last())
    } else {
        without_separators(s.drop_last()).push(s.last())
    }
}

/// Canonical form of a dialed string: `00xx…` becomes `+xx…`, `0x…` becomes
/// `+<cc>x…`, `+…` stays; what is not a number is returned as dialed.
pub open spec fn canonical_number(dialed: Seq<char>, cc: Seq<char>) -> Seq<char> {
    let d = without_separators(dialed);
    if d.len() > 0 && d[0] == '+' {
        d
    } else if !text::all_digits(d) {
        dialed
    } else if d.len() >= 2 && d[0] == '0' && d[1] == '0' {
        "+"@ + d.skip(2)
    } else if d.len() >= 1 && d[0] == '0' {
        "+"@ + cc + d.skip(1)
    } else {
        d
    }
}

fn strip_separators(s: &[char]) -> (r: Vec<char>)
    ensures
        r@ == without_separators(s@),
{
    let mut out: Vec<char> = Vec::new();
    let mut i: usize = 0;
    assert(s@.take(0) =~= Seq::empty());
    while i < s.len()
        invariant
            i <= s@.len(),
            out@ == without_separators(s@.take(i as int)),
        decreases s@.len() - i,
    {
        let c: char = s[i];
        assert(s@.take(i + 1).drop_last() =~= s@.take(i as int));
        if !(c == ' ' || c == '-' || c == '.') {
            out.push(c);
        }
        i = i + 1;
    }
    assert(s@.take(s@.len() as int) =~= s@);
    out
}

// ── Longest-prefix decision ─────────────────────────────────────────────

/// The rule speaks of this call: enabled, global or of this user, and its
/// prefix begins the canonical or the dialed form.
pub open spec fn rule_applies(
    r: RuleView,
    canonical: Seq<char>,
    dialed: Seq<char>,
    user: Option<Seq<char>>,
) -> bool {
    &&& r.enabled
    &&& r.user is None || r.user == user
    &&& text::starts_with(canonical, r.prefix) || text::starts_with(dialed, r.prefix)
}

/// `a` ranks at least as high as `b`: a user's rule over a global one, then
/// the longer prefix, then deny over allow.
pub open spec fn outranks(a: RuleView, b: RuleView) -> bool {
    let la = vstd::utf8::encode_utf8(a.prefix).len();
    let lb = vstd::utf8::encode_utf8(b.prefix).len();
    if a.user is Some != b.user is Some {
        a.user is Some
    } else if la != lb {
        la > lb
    } else {
        a.deny || !b.deny
    }
}

/// The rule that decides: of the highest rank among those that apply, the
/// last one on a tie.
pub open spec fn deciding_rule(
    rules: Seq<RuleView>,
    canonical: Seq<char>,
    dialed: Seq<char>,
    user: Option<Seq<char>>,
) -> Option<RuleView>
    decreases rules.len(),
{
    if rules.len() == 0 {
        None
    } else {
        let before = deciding_rule(rules.drop_last(), canonical, dialed, user);
        let r = rules.last();
        if rule_applies(r, canonical, dialed, user) && (before is None || outranks(r, before->0)) {
            Some(r)
        } else {
            before
        }
    }
}

/// What a policy decides of a call.
pub open spec fn destination_verdict(
    p: PolicyView,
    dialed: Seq<char>,
    user: Option<Seq<char>>,
) -> Option<(Seq<char>, Seq<char>)> {
    if !p.enabled {
        None
    } else {
        match deciding_rule(p.rules, canonical_number(dialed, p.default_cc), dialed, user) {
            Some(r) => if r.deny {
                Some((r.id, r.description))
            } else {
                None
            },
            None => if p.default_deny {
                Some(("default"@, "default deny"@))
            } else {
                None
            },
        }
    }
}

// ── Construction ────────────────────────────────────────────────────────

/// The rule that the `i`-th configured entry makes.
pub open spec fn configured_rule(c: DestinationRuleToml, i: int) -> RuleView {
    RuleView {
        id: "cfg-"@ + text::decimal(i as nat),
        prefix: c.prefix@,
        deny: text::same_text(c.action@, "deny"@),
        user: text::opt_string(c.user),
        description: c.description@,
        enabled: true,
    }
}

pub open spec fn configured_rules(rules: Seq<DestinationRuleToml>) -> Seq<RuleView> {
    Seq::new(rules.len(), |i: int| configured_rule(rules[i], i))
}

pub open spec fn seed_rule(prefix: Seq<char>, description: Seq<char>) -> RuleView {
    RuleView {
        id: "irsf"@ + prefix,
        prefix,
        deny: true,
        user: None,
        description,
        enabled: true,
    }
}

/// International premium and satellite ranges.
pub open spec fn seed_rules() -> Seq<RuleView> {
    seq![
        seed_rule("+881"@, "Global Mobile Satellite System"@),
        seed_rule("+882"@, "International Networks"@),
        seed_rule("+883"@, "International Networks"@),
        seed_rule("+979"@, "International Premium Rate"@),
    ]
}

pub open spec fn any_deny(rules: Seq<RuleView>) -> bool {
    exists|i: int| 0 <= i < rules.len() && (#[trigger] rules[i]).deny
}

/// The rules that a configuration starts with.
pub open spec fn initial_rules(rules: Seq<DestinationRuleToml>, seed: bool) -> Seq<RuleView> {
    let own = configured_rules(rules);
    if seed && !any_deny(own) {
        own + seed_rules()
    } else {
        own
    }
}

fn make_seed(prefix: &str, description: &str) -> (r: DestinationRule)
    ensures
        r@ == seed_rule(prefix@, description@),
{
    let mut id = "irsf".to_string();
    id.push_str(prefix);
    DestinationRule {
        id,
        prefix: prefix.to_string(),
        deny: true,
        user: None,
        description: description.to_string(),
        enabled: true,
    }
}

impl DestinationPolicy {
    /// How many calls were blocked.
    pub fn blocked_total(&self) -> (r: u64)
        ensures
            r == self@.blocked_total,
    {
        self.blocked_total
    }

    pub fn new(config: DestinationsConfig) -> (r: Self)
        ensures
            r@ == (PolicyView {
                rules: initial_rules(config.rules@, config.seed_irsf_rules),
                default_deny: text::same_text(config.default_action@, "deny"@),
                default_cc: config.default_country_code@,
                enabled: config.enabled,
                blocked_total: 0,
            }),
    {
        let mut rules: Vec<DestinationRule> = Vec::new();
        let mut denies: bool = false;
        let mut i: usize = 0;
        let ghost own = configured_rules(config.rules@);
        while i < config.rules.len()
            invariant
                i <= config.rules@.len(),
                own == configured_rules(config.rules@),
                rule_views(rules@) == own.take(i as int),
                denies == any_deny(own.take(i as int)),
            decreases config.rules@.len() - i,
        {
            let c = &config.rules[i];
            let mut id = "cfg-".to_string();
            id.push_str(decimal_of(i as u64).as_str());
            let action = chars_of(c.action.as_str());
            let deny: bool = is_word(action.as_slice(), "deny");
            let rule = DestinationRule {
                id,
                prefix: c.prefix.clone(),
                deny,
                user: clone_opt(&c.user),
                description: c.description.clone(),
                enabled: true,
            };
            let ghost before = own.take(i as int);
            let ghost after = own.take(i + 1);
            let ghost v = rules@;
            assert(rule@ == own[i as int]);
            rules.push(rule);
            assert(rule_views(rules@) =~= rule_views(v).push(own[i as int]));
            assert(after =~= before.push(own[i as int]));
            proof {
                if any_deny(before) {
                    let k = choose|k: int| 0 <= k < before.len() && (#[trigger] before[k]).deny;
                    assert(after[k].deny);
                } else if deny {
                    assert(after[i as int].deny);
                } else if any_deny(after) {
                    let k = choose|k: int| 0 <= k < after.len() && (#[trigger] after[k]).deny;
                    assert(k < i ==> before[k].deny);
                }
            }
            denies = denies || deny;
            i = i + 1;
        }
        assert(own.take(own.len() as int) =~= own);
        if config.seed_irsf_rules && !denies {
            let ghost v = rules@;
            rules.push(make_seed("+881", "Global Mobile Satellite System"));
            rules.push(make_seed("+882", "International Networks"));
            rules.push(make_seed("+883", "International Networks"));
            rules.push(make_seed("+979", "International Premium Rate"));
            assert(rule_views(rules@) =~= rule_views(v) + seed_rules());
        }
        let action = chars_of(config.default_action.as_str());
        DestinationPolicy {
            rules,
            default_deny: is_word(action.as_slice(), "deny"),
            default_cc: config.default_country_code,
            enabled: config.enabled,
            blocked_total: 0,
        }
    }

    /// Canonical form of a dialed string.
    pub fn canonicalize(&self, dialed: &str) -> (r: String)
        ensures
            r@ == canonical_number(dialed@, self@.default_cc),
    {
        let raw = chars_of(dialed);
        let d = strip_separators(raw.as_slice());
        if d.len() > 0 && d[0] == '+' {
            return string_of(d.as_slice());
        }
        if !only_digits(d.as_slice()) {
            return dialed.to_string();
        }
        if d.len() >= 2 && d[0] == '0' && d[1] == '0' {
            let rest = slice_subrange(d.as_slice(), 2, d.len());
            assert(rest@ =~= d@.skip(2));
            let mut out = "+".to_string();
            out.push_str(string_of(rest).as_str());
            return out;
        }
        if d.len() >= 1 && d[0] == '0' {
            let rest = slice_subrange(d.as_slice(), 1, d.len());
            assert(rest@ =~= d@.skip(1));
            let mut out = "+".to_string();
            out.push_str(self.default_cc.as_str());
            out.push_str(string_of(rest).as_str());
            return out;
        }
        string_of(d.as_slice())
    }

    /// Longest-prefix decision. Per-user rules beat global ones; in the same
    /// scope the longest prefix wins; on an exact tie deny wins. The canonical
    /// and the dialed form are both matched. A refusal is counted.
    pub fn check(&mut self, dialed: &str, user: Option<&str>) -> (r: DestinationDecision)
        ensures
            decision_view(r) == destination_verdict(old(self)@, dialed@, text::opt_str(user)),
            final(self)@ == (PolicyView {
                blocked_total: if decision_view(r) is Some {
                    vstd::wrapping::u64_specs::wrapping_add(old(self)@.blocked_total, 1)
                } else {
                    old(self)@.blocked_total
                },
                ..old(self)@
            }),
    {
        if !self.enabled {
            return DestinationDecision::Allowed;
        }
        let canonical = self.canonicalize(dialed);
        let c = chars_of(canonical.as_str());
        let d = chars_of(dialed);
        let ghost rv = rule_views(self.rules@);
        let ghost u = text::opt_str(user);
        let mut best: Option<usize> = None;
        let mut i: usize = 0;
        assert(rv.take(0) =~= Seq::empty());
        while i < self.rules.len()
            invariant
                i <= self.rules@.len(),
                rv == rule_views(self.rules@),
                u == text::opt_str(user),
                match best {
                    Some(b) => b < i && deciding_rule(rv.take(i as int), c@, d@, u) == Some(
                        rv[b as int],
                    ),
                    None => deciding_rule(rv.take(i as int), c@, d@, u) is None,
                },
            decreases self.rules@.len() - i,
        {
            let rule = &self.rules[i];
            assert(rv.take(i + 1).drop_last() =~= rv.take(i as int));
            assert(rv.take(i + 1).last() == rule@);
            if applies(rule, c.as_slice(), d.as_slice(), user) {
                match best {
                    None => {
                        best = Some(i);
                    },
                    Some(b) => {
                        if ranks_over(rule, &self.rules[b]) {
                            best = Some(i);
                        }
                    },
                }
            }
            i = i + 1;
        }
        assert(rv.take(rv.len() as int) =~= rv);
        match best {
            Some(b) => {
                if self.rules[b].deny {
                    self.blocked_total = self.blocked_total.wrapping_add(1);
                    DestinationDecision::Blocked {
                        rule_id: self.rules[b].id.clone(),
                        description: self.rules[b].description.clone(),
                    }
                } else {
                    DestinationDecision::Allowed
                }
            },
            None => {
                if self.default_deny {
                    self.blocked_total = self.blocked_total.wrapping_add(1);
                    DestinationDecision::Blocked {
                        rule_id: "default".to_string(),
                        description: "default deny".to_string(),
                    }
                } else {
                    DestinationDecision::Allowed
                }
            },
        }
    }

    pub fn list_rules(&self) -> (r: Vec<DestinationRule>)
        ensures
            rule_views(r@) == self@.rules,
    {
        let mut out: Vec<DestinationRule> = Vec::new();
        let mut i: usize = 0;
        while i < self.rules.len()
            invariant
                i <= self.rules@.len(),
                rule_views(out@) == rule_views(self.rules@).take(i as int),
            decreases self.rules@.len() - i,
        {
            let ghost before = out@;
            out.push(self.rules[i].clone());
            assert(rule_views(out@) =~= rule_views(before).push(self.rules@[i as int]@));
            assert(rule_views(self.rules@).take(i + 1) =~= rule_views(self.rules@).take(
                i as int,
            ).push(self.rules@[i as int]@));
            i = i + 1;
        }
        assert(rule_views(self.rules@).take(self.rules@.len() as int) =~= rule_views(self.rules@));
        out
    }

    pub fn add_rule(&mut self, rule: DestinationRule)
        ensures
            final(self)@ == (PolicyView { rules: old(self)@.rules.push(rule@), ..old(self)@ }),
    {
        let ghost before = self.rules@;
        self.rules.push(rule);
        assert(rule_views(self.rules@) =~= rule_views(before).push(rule@));
    }

    /// Removes every rule with this id; tells whether there was one.
    pub fn remove_rule(&mut self, id: &str) -> (r: bool)
        ensures
            final(self)@ == (PolicyView { rules: rules_without(old(self)@.rules, id@), ..old(self)@
            }),
            r == has_rule(old(self)@.rules, id@),
    {
        let wanted = chars_of(id);
        let mut kept: Vec<DestinationRule> = Vec::new();
        let mut found: bool = false;
        let mut i: usize = 0;
        let ghost rv = rule_views(self.rules@);
        assert(rv.take(0) =~= Seq::empty());
        assert(rule_views(kept@) =~= Seq::empty());
        while i < self.rules.len()
            invariant
                i <= self.rules@.len(),
                wanted@ == id@,
                self.rules@ == old(self).rules@,
                self.default_deny == old(self).default_deny,
                self.default_cc == old(self).default_cc,
                self.enabled == old(self).enabled,
                self.blocked_total == old(self).blocked_total,
                rv == rule_views(self.rules@),
                rule_views(kept@) == rules_without(rv.take(i as int), id@),
                found == has_rule(rv.take(i as int), id@),
            decreases self.rules@.len() - i,
        {
            let this = chars_of(self.rules[i].id.as_str());
            let ghost before = rv.take(i as int);
            let ghost after = rv.take(i + 1);
            let ghost v = kept@;
            assert(after.drop_last() =~= before);
            assert(after.last() == rv[i as int]);
            if same(this.as_slice(), wanted.as_slice()) {
                assert(after[i as int].id == id@);
                found = true;
            } else {
                let rule = self.rules[i].clone();
                kept.push(rule);
                assert(rule_views(kept@) =~= rule_views(v).push(rv[i as int]));
                proof {
                    if has_rule(before, id@) {
                        let k = choose|k: int|
                            0 <= k < before.len() && (#[trigger] before[k]).id == id@;
                        assert(after[k].id == id@);
                    }
                    if has_rule(after, id@) {
                        let k = choose|k: int|
                            0 <= k < after.len() && (#[trigger] after[k]).id == id@;
                        assert(before[k].id == id@);
                    }
                }
            }
            i = i + 1;
        }
        assert(rv.take(rv.len() as int) =~= rv);
        self.rules = kept;
        found
    }

    pub fn set_default_action(&mut self, deny: bool)
        ensures
            final(self)@ == (PolicyView { default_deny: deny, ..old(self)@ }),
    {
        self.default_deny = deny;
    }

    pub fn default_action_deny(&self) -> (r: bool)
        ensures
            r == self@.default_deny,
    {
        self.default_deny
    }
}

/// The rules whose id is another.
pub open spec fn rules_without(rules: Seq<RuleView>, id: Seq<char>) -> Seq<RuleView>
    decreases rules.len(),
{
    if rules.len() == 0 {
        Seq::empty()
    } else if rules.last().id == id {
        rules_without(rules.drop_last(), id)
    } else {
        rules_without(rules.drop_last(), id).push(rules.last())
    }
}

pub open spec fn has_rule(rules: Seq<RuleView>, id: Seq<char>) -> bool {
    exists|i: int| 0 <= i < rules.len() && (#[trigger] rules[i]).id == id
}

fn applies(rule: &DestinationRule, canonical: &[char], dialed: &[char], user: Option<&str>) -> (r:
    bool)
    ensures
        r == rule_applies(rule@, canonical@, dialed@, text::opt_str(user)),
{
    if !rule.enabled {
        return false;
    }
    if let Some(owner) = &rule.user {
        match user {
            Some(u) => {
                if !same_str(owner.as_str(), u) {
                    return false;
                }
            },
            None => {
                return false;
            },
        }
    }
    has_prefix(canonical, rule.prefix.as_str()) || has_prefix(dialed, rule.prefix.as_str())
}

fn ranks_over(a: &DestinationRule, b: &DestinationRule) -> (r: bool)
    ensures
        r == outranks(a@, b@),
{
    let la: usize = a.prefix.as_str().as_bytes().len();
    let lb: usize = b.prefix.as_str().as_bytes().len();
    if a.user.is_some() != b.user.is_some() {
        a.user.is_some()
    } else if la != lb {
        la > lb
    } else {
        a.deny || !b.deny
    }
}

// ── Laws ────────────────────────────────────────────────────────────────

proof fn lemma_outranks_transitive(a: RuleView, b: RuleView, c: RuleView)
    requires
        outranks(a, b),
        outranks(b, c),
    ensures
        outranks(a, c),
{
}

/// The deciding rule is one of the rules, applies to the call, and no rule
/// that applies ranks strictly higher.
pub proof fn law_deciding_rule_is_highest(
    rules: Seq<RuleView>,
    canonical: Seq<char>,
    dialed: Seq<char>,
    user: Option<Seq<char>>,
)
    ensures
        deciding_rule(rules, canonical, dialed, user) is None <==> forall|i: int|
            0 <= i < rules.len() ==> !rule_applies(#[trigger] rules[i], canonical, dialed, user),
        deciding_rule(rules, canonical, dialed, user) matches Some(r) ==> {
            &&& rules.contains(r)
            &&& rule_applies(r, canonical, dialed, user)
            &&& forall|i: int|
                0 <= i < rules.len() && rule_applies(#[trigger] rules[i], canonical, dialed, user)
                    ==> outranks(r, rules[i])
        },
    decreases rules.len(),
{
    if rules.len() > 0 {
        let rest = rules.drop_last();
        let last = rules.last();
        law_deciding_rule_is_highest(rest, canonical, dialed, user);
        let before = deciding_rule(rest, canonical, dialed, user);
        let all = deciding_rule(rules, canonical, dialed, user);
        assert forall|i: int| 0 <= i < rest.len() implies rest[i] == #[trigger] rules[i] by {}
        assert(rules[rules.len() - 1] == last);
        if all is Some {
            let r = all->0;
            if r == last && rule_applies(last, canonical, dialed, user) {
                assert(rules.contains(last));
            } else {
                let k = choose|k: int| 0 <= k < rest.len() && rest[k] == r;
                assert(rules[k] == r);
            }
            assert forall|i: int|
                0 <= i < rules.len() && rule_applies(
                    #[trigger] rules[i],
                    canonical,
                    dialed,
                    user,
                ) implies outranks(r, rules[i]) by {
                if i < rest.len() {
                    assert(rest[i] == rules[i]);
                    assert(before is Some);
                    assert(outranks(before->0, rest[i]));
                    if r != before->0 {
                        lemma_outranks_transitive(r, before->0, rules[i]);
                    }
                }
            }
        } else {
            assert forall|i: int| 0 <= i < rules.len() implies !rule_applies(
                #[trigger] rules[i],
                canonical,
                dialed,
                user,
            ) by {
                if i < rest.len() {
                    assert(rest[i] == rules[i]);
                }
            }
        }
        if all is Some {
            let r = all->0;
            let k = choose|k: int| 0 <= k < rules.len() && rules[k] == r;
            assert(rule_applies(rules[k], canonical, dialed, user));
        }
    }
}

/// Where a rule of the user applies, a rule of that user decides, whatever
/// the global rules say.
pub proof fn law_user_rule_beats_global(
    rules: Seq<RuleView>,
    canonical: Seq<char>,
    dialed: Seq<char>,
    user: Option<Seq<char>>,
    i: int,
)
    requires
        0 <= i < rules.len(),
        rule_applies(rules[i], canonical, dialed, user),
        rules[i].user is Some,
    ensures
        deciding_rule(rules, canonical, dialed, user) matches Some(r) && r.user == user,
{
    law_deciding_rule_is_highest(rules, canonical, dialed, user);
}

/// Among the rules that apply in the same scope none has a longer prefix than
/// the one that decides, and none of the same length denies where it allows.
pub proof fn law_longest_prefix_wins_and_ties_deny(
    rules: Seq<RuleView>,
    canonical: Seq<char>,
    dialed: Seq<char>,
    user: Option<Seq<char>>,
    i: int,
)
    requires
        0 <= i < rules.len(),
        rule_applies(rules[i], canonical, dialed, user),
    ensures
        deciding_rule(rules, canonical, dialed, user) matches Some(r) && (r.user is Some
            == rules[i].user is Some ==> {
            &&& vstd::utf8::encode_utf8(r.prefix).len() >= vstd::utf8::encode_utf8(
                rules[i].prefix,
            ).len()
            &&& vstd::utf8::encode_utf8(r.prefix).len() == vstd::utf8::encode_utf8(
                rules[i].prefix,
            ).len() && rules[i].deny ==> r.deny
        }),
{
    law_deciding_rule_is_highest(rules, canonical, dialed, user);
}

/// After a removal no rule with that id is left, and removing again finds
/// nothing.
pub proof fn law_removed_rule_is_gone(rules: Seq<RuleView>, id: Seq<char>)
    ensures
        !has_rule(rules_without(rules, id), id),
        rules_without(rules_without(rules, id), id) == rules_without(rules, id),
    decreases rules.len(),
{
    if rules.len() > 0 {
        let rest = rules.drop_last();
        law_removed_rule_is_gone(rest, id);
        if rules.last().id != id {
            let a = rules_without(rest, id);
            let b = a.push(rules.last());
            assert(b.drop_last() =~= a);
            assert forall|i: int| 0 <= i < b.len() implies (#[trigger] b[i]).id != id by {
                if i < a.len() {
                    assert(a[i] == b[i]);
                }
            }
        }
    }
}

/// A disabled rule never decides: dropping it changes no verdict.
pub proof fn law_disabled_rule_is_ignored(
    rules: Seq<RuleView>,
    off: RuleView,
    canonical: Seq<char>,
    dialed: Seq<char>,
    user: Option<Seq<char>>,
)
    requires
        !off.enabled,
    ensures
        deciding_rule(rules.push(off), canonical, dialed, user) == deciding_rule(
            rules,
            canonical,
            dialed,
            user,
        ),
{
    assert(rules.push(off).drop_last() =~= rules);
}

} // verus!
