//! Profiles: named sets of rules that allow or block notifications and
//! adjust their style, timeouts and history.

use vstd::prelude::*;

use crate::config::history::HistoryOverride;
use crate::config::overrides::NotificationStyleOverride;
use crate::config::timeouts::TimeoutOverride;
use crate::notification::{opt_chars, Notification};
use crate::string_map::{lemma_string_map, StringMap};
use crate::text::str_eq;

verus! {

broadcast use vstd::string::group_string_axioms;

#[derive(Clone, Copy, Debug, PartialEq, Eq, Structural)]
pub enum RuleAction {
    Allow,
    Block,
}

impl Default for RuleAction {
    fn default() -> (a: Self)
        ensures
            a == RuleAction::Allow,
    {
        RuleAction::Allow
    }
}

pub struct Rule {
    pub action: Option<RuleAction>,
    pub app_name: Option<String>,
    pub desktop_entry: Option<String>,
    pub summary: Option<String>,
    pub body: Option<String>,
    pub category: Option<String>,
    pub stack_tag: Option<String>,
    pub urgency: Option<u8>,
    pub transient: Option<bool>,
    pub resident: Option<bool>,
    pub hints: StringMap,
    pub notification: NotificationStyleOverride,
    pub history: HistoryOverride,
}

pub struct ProfileConfig {
    pub active: String,
    pub allow_profile_override: bool,
}

pub struct Profile {
    pub default_action: RuleAction,
    pub rules: Vec<Rule>,
    pub notification: NotificationStyleOverride,
    pub timeouts: TimeoutOverride,
    pub history: HistoryOverride,
}

/// A text matcher holds when it is unset or equal to the text.
pub open spec fn text_matches(expected: Option<String>, actual: Seq<char>) -> bool {
    match expected {
        Some(e) => e@ == actual,
        None => true,
    }
}

/// A matcher on an optional hint holds when it is unset or the hint is
/// present and equal.
pub open spec fn hint_text_matches(expected: Option<String>, actual: Option<String>) -> bool {
    match expected {
        Some(e) => opt_chars(actual) == Some(e@),
        None => true,
    }
}

pub open spec fn value_matches<T>(expected: Option<T>, actual: Option<T>) -> bool {
    match expected {
        Some(e) => actual == Some(e),
        None => true,
    }
}

/// Whether every matcher a rule sets holds for the notification.
pub open spec fn rule_matches(r: Rule, n: Notification) -> bool {
    &&& text_matches(r.app_name, n.app_name@)
    &&& hint_text_matches(r.desktop_entry, n.hints.desktop_entry)
    &&& text_matches(r.summary, n.summary@)
    &&& text_matches(r.body, n.body@)
    &&& hint_text_matches(r.category, n.hints.category)
    &&& hint_text_matches(r.stack_tag, n.hints.stack_tag)
    &&& value_matches(r.urgency, n.hints.urgency)
    &&& value_matches(r.transient, n.hints.transient)
    &&& value_matches(r.resident, n.hints.resident)
    &&& forall|k: Seq<char>|
        r.hints@.contains_key(k) ==> n.hints.hint_model(k) == Some(r.hints@[k])
}

/// Whether every matcher `loose` sets, `strict` sets to the same value.
pub open spec fn matchers_within(loose: Rule, strict: Rule) -> bool {
    &&& (loose.app_name is None || loose.app_name == strict.app_name)
    &&& (loose.desktop_entry is None || loose.desktop_entry == strict.desktop_entry)
    &&& (loose.summary is None || loose.summary == strict.summary)
    &&& (loose.body is None || loose.body == strict.body)
    &&& (loose.category is None || loose.category == strict.category)
    &&& (loose.stack_tag is None || loose.stack_tag == strict.stack_tag)
    &&& (loose.urgency is None || loose.urgency == strict.urgency)
    &&& (loose.transient is None || loose.transient == strict.transient)
    &&& (loose.resident is None || loose.resident == strict.resident)
    &&& loose.hints@.submap_of(strict.hints@)
}

/// Matching is monotone: a rule that asks for less, a part of what another
/// asks, matches every notification the other matches.
pub proof fn lemma_fewer_matchers_match_more(loose: Rule, strict: Rule, n: Notification)
    requires
        matchers_within(loose, strict),
        rule_matches(strict, n),
    ensures
        rule_matches(loose, n),
{
    assert forall|k: Seq<char>| loose.hints@.contains_key(k) implies n.hints.hint_model(k) == Some(
        loose.hints@[k],
    ) by {
        assert(strict.hints@.contains_key(k));
    }
}

/// Whether a rule sets no matcher at all.
pub open spec fn sets_no_matcher(r: Rule) -> bool {
    &&& r.app_name is None
    &&& r.desktop_entry is None
    &&& r.summary is None
    &&& r.body is None
    &&& r.category is None
    &&& r.stack_tag is None
    &&& r.urgency is None
    &&& r.transient is None
    &&& r.resident is None
    &&& r.hints@ == Map::<Seq<char>, Seq<char>>::empty()
}

/// Each matcher reads its own field of the notification: a rule setting no
/// matcher matches everything, and a rule that sets only its app-name,
/// summary or body matcher matches exactly the notifications whose app
/// name, summary or body is that text, whatever their other fields hold.
pub proof fn lemma_matchers_read_their_fields(r: Rule, n: Notification, e: String)
    ensures
        sets_no_matcher(r) ==> rule_matches(r, n),
        sets_no_matcher(Rule { app_name: None, ..r }) && r.app_name == Some(e) ==> (rule_matches(
            r,
            n,
        ) <==> n.app_name@ == e@),
        sets_no_matcher(Rule { summary: None, ..r }) && r.summary == Some(e) ==> (rule_matches(r, n)
            <==> n.summary@ == e@),
        sets_no_matcher(Rule { body: None, ..r }) && r.body == Some(e) ==> (rule_matches(r, n)
            <==> n.body@ == e@),
        sets_no_matcher(Rule { category: None, ..r }) && r.category == Some(e) ==> (rule_matches(
            r,
            n,
        ) <==> (n.hints.category is Some && n.hints.category->Some_0@ == e@)),
        sets_no_matcher(Rule { urgency: None, ..r }) && r.urgency is Some ==> (rule_matches(r, n)
            <==> n.hints.urgency == r.urgency),
{
}

/// Whether a rule sets at least one matcher.
pub open spec fn rule_has_matcher(r: Rule) -> bool {
    ||| r.app_name is Some
    ||| r.desktop_entry is Some
    ||| r.summary is Some
    ||| r.body is Some
    ||| r.category is Some
    ||| r.stack_tag is Some
    ||| r.urgency is Some
    ||| r.transient is Some
    ||| r.resident is Some
    ||| r.hints@.dom().len() != 0
}

/// The index of the first rule that matches, if any.
pub open spec fn first_match(rules: Seq<Rule>, n: Notification) -> Option<int> {
    if exists|i: int| 0 <= i < rules.len() && rule_matches(rules[i], n) {
        Some(
            choose|i: int|
                0 <= i < rules.len() && rule_matches(rules[i], n) && forall|j: int|
                    0 <= j < i ==> !rule_matches(rules[j], n),
        )
    } else {
        None
    }
}

/// What a profile does with a notification: the first matching rule's
/// action when it sets one, otherwise the profile's default action.
pub open spec fn profile_action(p: Profile, n: Notification) -> RuleAction {
    match first_match(p.rules@, n) {
        Some(i) => match p.rules@[i].action {
            Some(a) => a,
            None => p.default_action,
        },
        None => p.default_action,
    }
}

/// The rule `first_match` picks is the first matching one.
pub proof fn lemma_first_match(rules: Seq<Rule>, n: Notification, i: int)
    requires
        0 <= i < rules.len(),
        rule_matches(rules[i], n),
        forall|j: int| 0 <= j < i ==> !rule_matches(rules[j], n),
    ensures
        first_match(rules, n) == Some(i),
{
    let k = choose|k: int|
        0 <= k < rules.len() && rule_matches(rules[k], n) && forall|j: int|
            0 <= j < k ==> !rule_matches(rules[j], n);
    assert(k == i) by {
        if k < i {
            assert(!rule_matches(rules[k], n));
        }
        if i < k {
            assert(!rule_matches(rules[i], n));
        }
    }
}

fn text_match(expected: &Option<String>, actual: &str) -> (b: bool)
    ensures
        b == match *expected {
            Some(e) => e@ == actual@,
            None => true,
        },
{
    match expected {
        Some(e) => str_eq(actual, e.as_str()),
        None => true,
    }
}

fn hint_match(expected: &Option<String>, actual: Option<&str>) -> (b: bool)
    ensures
        b == match *expected {
            Some(e) => match actual {
                Some(a) => a@ == e@,
                None => false,
            },
            None => true,
        },
{
    match expected {
        Some(e) => match actual {
            Some(a) => str_eq(a, e.as_str()),
            None => false,
        },
        None => true,
    }
}

impl Rule {
    /// Whether every matcher this rule sets holds for the notification.
    pub fn matches(&self, notification: &Notification) -> (b: bool)
        requires
            self.hints.wf(),
            notification.wf(),
        ensures
            b == rule_matches(*self, *notification),
    {
        let app_name = text_match(&self.app_name, notification.app_name.as_str());
        let desktop_entry = hint_match(&self.desktop_entry, notification.desktop_entry());
        let summary = text_match(&self.summary, notification.summary.as_str());
        let body = text_match(&self.body, notification.body.as_str());
        let category = hint_match(&self.category, notification.category());
        let stack_tag = hint_match(&self.stack_tag, notification.stack_tag());
        let urgency = match self.urgency {
            Some(e) => notification.urgency() == Some(e),
            None => true,
        };
        let transient = match self.transient {
            Some(e) => notification.transient() == Some(e),
            None => true,
        };
        let resident = match self.resident {
            Some(e) => notification.resident() == Some(e),
            None => true,
        };
        if !(app_name && desktop_entry && summary && body && category && stack_tag && urgency
            && transient && resident) {
            return false;
        }
        proof {
            lemma_string_map(self.hints);
        }
        let mut i: usize = 0;
        while i < self.hints.len()
            invariant
                self.hints.wf(),
                notification.wf(),
                i <= self.hints.pairs().len(),
                forall|j: int|
                    0 <= j < i ==> notification.hints.hint_model(self.hints.pairs()[j].0) == Some(
                        self.hints.pairs()[j].1,
                    ),
            decreases self.hints.pairs().len() - i,
        {
            let key = self.hints.key_at(i);
            let expected = self.hints.value_at(i);
            let matched = match notification.hint(key.as_str()) {
                Some(actual) => str_eq(actual, expected.as_str()),
                None => false,
            };
            if !matched {
                proof {
                    lemma_string_map(self.hints);
                    let k = self.hints.pairs()[i as int].0;
                    assert(self.hints@.contains_key(k));
                    assert(self.hints@[k] == self.hints.pairs()[i as int].1);
                }
                return false;
            }
            i = i + 1;
        }
        proof {
            assert forall|k: Seq<char>| self.hints@.contains_key(k) implies notification.hints.hint_model(
                k,
            ) == Some(self.hints@[k]) by {
                let j = choose|j: int| 0 <= j < self.hints.pairs().len() && self.hints.pairs()[j].0 == k;
                assert(self.hints@[self.hints.pairs()[j].0] == self.hints.pairs()[j].1);
            }
        }
        true
    }

    /// Whether this rule sets at least one matcher.
    pub fn has_matcher(&self) -> (b: bool)
        requires
            self.hints.wf(),
        ensures
            b == rule_has_matcher(*self),
    {
        proof {
            lemma_string_map(self.hints);
        }
        self.app_name.is_some() || self.desktop_entry.is_some() || self.summary.is_some()
            || self.body.is_some() || self.category.is_some() || self.stack_tag.is_some()
            || self.urgency.is_some() || self.transient.is_some() || self.resident.is_some()
            || !self.hints.is_empty()
    }
}

impl Default for ProfileConfig {
    fn default() -> (c: Self)
        ensures
            c.active@ == "default"@,
            !c.allow_profile_override,
    {
        ProfileConfig { active: String::from_str("default"), allow_profile_override: false }
    }
}

impl Default for Profile {
    fn default() -> (p: Self)
        ensures
            p.default_action == RuleAction::Allow,
            p.rules@.len() == 0,
            p.notification.is_empty_spec(),
            p.timeouts.low is None && p.timeouts.normal is None && p.timeouts.critical is None,
            p.history.enabled is None,
    {
        Profile {
            default_action: RuleAction::Allow,
            rules: Vec::new(),
            notification: NotificationStyleOverride::default(),
            timeouts: TimeoutOverride::default(),
            history: HistoryOverride::default(),
        }
    }
}

impl Profile {
    pub open spec fn wf(&self) -> bool {
        forall|i: int| 0 <= i < self.rules@.len() ==> (#[trigger] self.rules@[i]).hints.wf()
    }

    /// Whether the profile allows everything and changes nothing.
    pub open spec fn is_default_spec(&self) -> bool {
        &&& self.default_action == RuleAction::Allow
        &&& self.rules@.len() == 0
        &&& self.notification.is_empty_spec()
        &&& self.timeouts.low is None && self.timeouts.normal is None && self.timeouts.critical is None
        &&& self.history.enabled is None
    }

    pub fn is_default(&self) -> (b: bool)
        ensures
            b == self.is_default_spec(),
    {
        self.default_action == RuleAction::Allow && self.rules.len() == 0
            && self.notification.is_empty() && self.timeouts.is_empty() && self.history.is_empty()
    }

    /// The first rule that matches the notification.
    pub fn matching_rule(&self, notification: &Notification) -> (r: Option<&Rule>)
        requires
            self.wf(),
            notification.wf(),
        ensures
            match first_match(self.rules@, *notification) {
                Some(i) => r == Some(&self.rules@[i]),
                None => r is None,
            },
    {
        let mut i: usize = 0;
        while i < self.rules.len()
            invariant
                self.wf(),
                notification.wf(),
                i <= self.rules@.len(),
                forall|j: int| 0 <= j < i ==> !rule_matches(self.rules@[j], *notification),
            decreases self.rules@.len() - i,
        {
            if self.rules[i].matches(notification) {
                proof {
                    lemma_first_match(self.rules@, *notification, i as int);
                }
                return Some(&self.rules[i]);
            }
            i = i + 1;
        }
        proof {
            assert(!exists|j: int| 0 <= j < self.rules@.len() && rule_matches(self.rules@[j], *notification));
        }
        None
    }

    /// What this profile does with the notification.
    pub fn action_for(&self, notification: &Notification) -> (a: RuleAction)
        requires
            self.wf(),
            notification.wf(),
        ensures
            a == profile_action(*self, *notification),
    {
        match self.matching_rule(notification) {
            Some(rule) => match rule.action {
                Some(action) => action,
                None => self.default_action,
            },
            None => self.default_action,
        }
    }
}

} // verus!
