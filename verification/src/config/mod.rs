//! Configuration: notification styles, templates, timeouts, history and
//! profiles, and how they combine for one notification.

pub mod template;
pub mod color;
pub mod style;
pub mod overrides;
pub mod timeouts;
pub mod history;
pub mod profiles;
pub mod placement;

use vstd::prelude::*;

use crate::config::history::{history_applied, HistoryConfig};
use crate::config::overrides::style_applied;
use crate::config::profiles::{
    first_match, rule_has_matcher, Profile, ProfileConfig, RuleAction,
};
use crate::config::style::{NotificationConfig, NotificationModel};
use crate::config::timeouts::{timeouts_applied, TimeoutConfig, NEVER};
use crate::text::str_eq;
use crate::name_map::{lemma_name_map, NameMap};
use crate::notification::{opt_chars, Notification};

verus! {

broadcast use vstd::string::group_string_axioms;

pub struct PigeonConfig {
    pub timeouts: TimeoutConfig,
    pub notification: NotificationConfig,
    pub profile: ProfileConfig,
    pub profiles: NameMap<Profile>,
    pub history: HistoryConfig,
}

/// Why a configuration is rejected.
#[derive(Debug)]
pub enum ConfigError {
    /// The minimum card width or height is zero.
    ZeroMinimumSize,
    /// `notification.min_width` exceeds `notification.max_width`.
    MinWidthAboveMax,
    /// `notification.min_height` exceeds `notification.max_height`.
    MinHeightAboveMax,
    /// The active profile is not among the profiles.
    UnknownActiveProfile(String),
    /// A rule of the named profile, at the given index, has no matcher.
    RuleWithoutMatcher { profile: String, index: usize },
}

/// What a notification gets from the configuration: whether it is shown,
/// and its style, timeouts and history setting.
pub struct Presentation {
    pub action: RuleAction,
    pub style: NotificationConfig,
    pub timeouts: TimeoutConfig,
    pub history: HistoryConfig,
}

/// The content of a [`Presentation`].
pub struct PresentationModel {
    pub action: RuleAction,
    pub style: NotificationModel,
    pub timeouts: TimeoutConfig,
    pub history: HistoryConfig,
}

impl View for Presentation {
    type V = PresentationModel;

    open spec fn view(&self) -> PresentationModel {
        PresentationModel {
            action: self.action,
            style: self.style@,
            timeouts: self.timeouts,
            history: self.history,
        }
    }
}

/// The name of the profile every other profile builds on.
pub open spec fn default_name() -> Seq<char> {
    "default"@
}

/// The presentation the named profile gives a notification: the profile's
/// settings laid over the default profile's, which are laid over the base
/// configuration, then the first matching rule's style and history laid on
/// top. `None` when the default or the named profile is missing.
pub open spec fn presentation_model(c: PigeonConfig, name: Seq<char>, n: Notification) -> Option<
    PresentationModel,
> {
    if !c.profiles@.contains_key(default_name()) || !c.profiles@.contains_key(name) {
        None
    } else {
        let d = c.profiles@[default_name()];
        let default_style = style_applied(d.notification, c.notification@);
        let default_timeouts = timeouts_applied(d.timeouts, c.timeouts);
        let default_history = history_applied(d.history, c.history);
        let p = c.profiles@[name];
        let style = if name == default_name() {
            default_style
        } else {
            style_applied(p.notification, default_style)
        };
        let timeouts = if name == default_name() {
            default_timeouts
        } else {
            timeouts_applied(p.timeouts, default_timeouts)
        };
        let history = if name == default_name() {
            default_history
        } else {
            history_applied(p.history, default_history)
        };
        Some(
            match first_match(p.rules@, n) {
                Some(i) => {
                    let r = p.rules@[i];
                    PresentationModel {
                        action: match r.action {
                            Some(a) => a,
                            None => p.default_action,
                        },
                        style: style_applied(r.notification, style),
                        timeouts,
                        history: history_applied(r.history, history),
                    }
                },
                None => PresentationModel { action: p.default_action, style, timeouts, history },
            },
        )
    }
}

/// The presentation a notification gets: from the profile it names, when
/// profiles may be picked per notification and that one gives a
/// presentation, otherwise from the active profile.
pub open spec fn presentation_for_model(c: PigeonConfig, n: Notification) -> Option<PresentationModel> {
    if c.profile.allow_profile_override && opt_chars(n.hints.profile) is Some && presentation_model(
        c,
        opt_chars(n.hints.profile)->Some_0,
        n,
    ) is Some {
        presentation_model(c, opt_chars(n.hints.profile)->Some_0, n)
    } else {
        presentation_model(c, c.profile.active@, n)
    }
}

/// The kinds of problem `validate` reports.
pub enum ConfigProblem {
    ZeroMinimumSize,
    MinWidthAboveMax,
    MinHeightAboveMax,
    UnknownActiveProfile,
    RuleWithoutMatcher,
}

/// The first problem `validate` reports, if any.
pub open spec fn validation_problem(c: PigeonConfig) -> Option<ConfigProblem> {
    if c.notification.min_width == 0 || c.notification.min_height == 0 {
        Some(ConfigProblem::ZeroMinimumSize)
    } else if c.notification.min_width > c.notification.max_width {
        Some(ConfigProblem::MinWidthAboveMax)
    } else if c.notification.min_height > c.notification.max_height {
        Some(ConfigProblem::MinHeightAboveMax)
    } else if !c.profiles@.contains_key(c.profile.active@) {
        Some(ConfigProblem::UnknownActiveProfile)
    } else if exists|i: int, j: int|
        0 <= i < c.profiles.entries().len() && 0 <= j < c.profiles.entries()[i].1.rules@.len()
            && !rule_has_matcher(c.profiles.entries()[i].1.rules@[j]) {
        Some(ConfigProblem::RuleWithoutMatcher)
    } else {
        None
    }
}

/// The first problem a freshly read configuration has once the `default`
/// profile it may lack is added: as [`validation_problem`], except that an
/// active profile named `default` is always known.
pub open spec fn load_problem(c: PigeonConfig) -> Option<ConfigProblem> {
    if c.notification.min_width == 0 || c.notification.min_height == 0 {
        Some(ConfigProblem::ZeroMinimumSize)
    } else if c.notification.min_width > c.notification.max_width {
        Some(ConfigProblem::MinWidthAboveMax)
    } else if c.notification.min_height > c.notification.max_height {
        Some(ConfigProblem::MinHeightAboveMax)
    } else if !c.profiles@.contains_key(c.profile.active@) && c.profile.active@ != default_name() {
        Some(ConfigProblem::UnknownActiveProfile)
    } else if exists|i: int, j: int|
        0 <= i < c.profiles.entries().len() && 0 <= j < c.profiles.entries()[i].1.rules@.len()
            && !rule_has_matcher(c.profiles.entries()[i].1.rules@[j]) {
        Some(ConfigProblem::RuleWithoutMatcher)
    } else {
        None
    }
}

/// The first rule of the chosen profile that matches decides: its action,
/// when it sets one, is the presentation's action, and every style setting
/// its override sets takes the rule's value, whatever the base
/// configuration and the profiles say.
pub proof fn lemma_matching_rule_decides(c: PigeonConfig, name: Seq<char>, n: Notification, i: int)
    requires
        c.profiles@.contains_key(default_name()),
        c.profiles@.contains_key(name),
        first_match(c.profiles@[name].rules@, n) == Some(i),
    ensures
        ({
            let r = c.profiles@[name].rules@[i];
            let m = presentation_model(c, name, n)->Some_0;
            let o = r.notification;
            &&& presentation_model(c, name, n) is Some
            &&& (r.action matches Some(a) ==> m.action == a)
            &&& (o.corner_radius matches Some(v) ==> m.style.corner_radius == v)
            &&& (o.outer_padding matches Some(v) ==> m.style.outer_padding == v)
            &&& (o.color matches Some(v) ==> m.style.color == v@)
            &&& (o.border.width matches Some(v) ==> m.style.border.width == v)
            &&& (o.border.color matches Some(v) ==> m.style.border.color == v@)
            &&& (o.thumbnail.size matches Some(v) ==> m.style.thumbnail.size == v)
            &&& (o.thumbnail.gap matches Some(v) ==> m.style.thumbnail.gap == v)
            &&& (o.progress.inset matches Some(v) ==> m.style.progress.inset == v)
            &&& (o.progress.color matches Some(v) ==> m.style.progress.color == v@)
            &&& (o.body.font_size matches Some(v) ==> m.style.body.font_size == v)
            &&& (r.history.enabled matches Some(v) ==> m.history.enabled == v)
        }),
{
}

/// Adding the `default` profile, without rules, turns the problem a read
/// configuration has into the problem `validate` finds.
proof fn lemma_load_problem(before: PigeonConfig, after: PigeonConfig)
    requires
        after.notification == before.notification,
        after.profile.active@ == before.profile.active@,
        after.profiles@.dom() == before.profiles@.dom().insert(default_name()),
        before.profiles@.contains_key(default_name()) ==> after.profiles.entries()
            == before.profiles.entries(),
        !before.profiles@.contains_key(default_name()) ==> {
            &&& after.profiles.entries().len() == before.profiles.entries().len() + 1
            &&& after.profiles.entries().drop_last() == before.profiles.entries()
            &&& after.profiles.entries().last().1.rules@.len() == 0
        },
    ensures
        validation_problem(after) == load_problem(before),
        forall|i: int|
            0 <= i < after.profiles.entries().len() && after.profiles.entries()[i].1.rules@.len() > 0
                ==> i < before.profiles.entries().len() && #[trigger] after.profiles.entries()[i]
                == before.profiles.entries()[i],
{
    let a = after.profiles.entries();
    let b = before.profiles.entries();
    assert(after.profiles@.contains_key(after.profile.active@) <==> (before.profiles@.contains_key(
        before.profile.active@,
    ) || before.profile.active@ == default_name()));
    if !before.profiles@.contains_key(default_name()) {
        assert forall|i: int| 0 <= i < b.len() implies #[trigger] a[i] == b[i] by {
            assert(a.drop_last()[i] == a[i]);
        }
    }
    let ea = exists|i: int, j: int|
        0 <= i < a.len() && 0 <= j < a[i].1.rules@.len() && !rule_has_matcher(a[i].1.rules@[j]);
    let eb = exists|i: int, j: int|
        0 <= i < b.len() && 0 <= j < b[i].1.rules@.len() && !rule_has_matcher(b[i].1.rules@[j]);
    if ea {
        let (i, j) = choose|i: int, j: int|
            0 <= i < a.len() && 0 <= j < a[i].1.rules@.len() && !rule_has_matcher(a[i].1.rules@[j]);
        assert(i < b.len());
        assert(a[i] == b[i]);
        assert(eb);
    }
    if eb {
        let (i, j) = choose|i: int, j: int|
            0 <= i < b.len() && 0 <= j < b[i].1.rules@.len() && !rule_has_matcher(b[i].1.rules@[j]);
        assert(a[i] == b[i]);
        assert(ea);
    }
}

impl PigeonConfig {
    /// The profiles' maps and rules are well formed.
    pub open spec fn wf(&self) -> bool {
        &&& self.profiles.wf()
        &&& forall|i: int|
            0 <= i < self.profiles.entries().len() ==> (#[trigger] self.profiles.entries()[i]).1.wf()
    }

    /// A loaded configuration: well formed, with a default and an active
    /// profile.
    pub open spec fn loaded(&self) -> bool {
        &&& self.wf()
        &&& self.profiles@.contains_key(default_name())
        &&& self.profiles@.contains_key(self.profile.active@)
    }

    pub fn profile(&self, name: &str) -> (r: Option<&Profile>)
        requires
            self.wf(),
        ensures
            match r {
                Some(p) => self.profiles@.contains_key(name@) && self.profiles@[name@] == *p,
                None => !self.profiles@.contains_key(name@),
            },
    {
        self.profiles.get(name)
    }

    /// Adds an empty `default` profile when there is none.
    pub fn ensure_default_profile(&mut self)
        requires
            old(self).wf(),
        ensures
            final(self).wf(),
            final(self).profiles@.contains_key(default_name()),
            old(self).profiles@.contains_key(default_name()) ==> final(self).profiles@ == old(
                self,
            ).profiles@,
            final(self).profiles@.dom() == old(self).profiles@.dom().insert(default_name()),
            final(self).timeouts == old(self).timeouts,
            final(self).notification@ == old(self).notification@,
            final(self).profile.active@ == old(self).profile.active@,
            final(self).profile.allow_profile_override == old(self).profile.allow_profile_override,
            final(self).history == old(self).history,
            final(self).notification == old(self).notification,
            old(self).profiles@.contains_key(default_name()) ==> final(self).profiles.entries()
                == old(self).profiles.entries(),
            !old(self).profiles@.contains_key(default_name()) ==> {
                &&& final(self).profiles.entries().len() == old(self).profiles.entries().len() + 1
                &&& final(self).profiles.entries().drop_last() == old(self).profiles.entries()
                &&& final(self).profiles.entries().last().0@ == default_name()
                &&& final(self).profiles.entries().last().1.rules@.len() == 0
            },
    {
        let name = String::from_str("default");
        let ghost before = self.profiles.entries();
        self.profiles.insert_if_absent(name, Profile::default());
        proof {
            let after = self.profiles.entries();
            assert forall|i: int| 0 <= i < after.len() implies (#[trigger] after[i]).1.wf() by {
                if i < before.len() {
                    assert(after[i] == before[i]);
                }
            }
            assert(self.profiles@.dom() =~= old(self).profiles@.dom().insert(default_name()));
        }
    }
}

impl Default for PigeonConfig {
    /// The built-in settings, with an empty `default` profile active.
    fn default() -> (c: Self)
        ensures
            c.loaded(),
            c.timeouts == (TimeoutConfig { low: 3000, normal: 5000, critical: NEVER }),
            c.profile.active@ == default_name(),
            !c.profile.allow_profile_override,
            c.profiles@.dom() == Set::<Seq<char>>::empty().insert(default_name()),
            c.profiles@[default_name()].is_default_spec(),
            !c.history.enabled,
    {
        let mut profiles: NameMap<Profile> = NameMap::new();
        profiles.insert_if_absent(String::from_str("default"), Profile::default());
        let c = PigeonConfig {
            timeouts: TimeoutConfig::default(),
            notification: NotificationConfig::default(),
            profile: ProfileConfig::default(),
            profiles,
            history: HistoryConfig::default(),
        };
        proof {
            assert(c.profiles.entries().len() == 1);
            assert(c.profiles@ =~= Map::<Seq<char>, Profile>::empty().insert(default_name(), c.profiles.entries()[0].1));
            assert(c.profiles@.dom() =~= Set::<Seq<char>>::empty().insert(default_name()));
        }
        c
    }
}

impl PigeonConfig {
    /// Whether the profiles hold nothing but an unchanged `default` one, so
    /// they need not be written out.
    pub fn profiles_are_implicit(&self) -> (b: bool)
        requires
            self.wf(),
        ensures
            b == (self.profiles.entries().len() == 1 && self.profiles@.contains_key(default_name())
                && self.profiles@[default_name()].is_default_spec()),
    {
        self.profiles.len() == 1 && match self.profiles.get("default") {
            Some(profile) => profile.is_default(),
            None => false,
        }
    }

    /// Checks the card sizes, the active profile and that every rule has a
    /// matcher.
    pub fn validate(&self) -> (r: Result<(), ConfigError>)
        requires
            self.wf(),
        ensures
            match validation_problem(*self) {
                None => r is Ok,
                Some(ConfigProblem::ZeroMinimumSize) => r matches Err(ConfigError::ZeroMinimumSize),
                Some(ConfigProblem::MinWidthAboveMax) => r matches Err(ConfigError::MinWidthAboveMax),
                Some(ConfigProblem::MinHeightAboveMax) => r matches Err(ConfigError::MinHeightAboveMax),
                Some(ConfigProblem::UnknownActiveProfile) => r matches Err(ConfigError::UnknownActiveProfile(a)) && a@
                    == self.profile.active@,
                Some(ConfigProblem::RuleWithoutMatcher) => r matches Err(ConfigError::RuleWithoutMatcher { profile, index }) && exists|
                    i: int,
                |
                    0 <= i < self.profiles.entries().len() && self.profiles.entries()[i].0@
                        == profile@ && index < self.profiles.entries()[i].1.rules@.len()
                        && !rule_has_matcher(self.profiles.entries()[i].1.rules@[index as int])
                        && (forall|j: int|
                        0 <= j < index ==> rule_has_matcher(
                            #[trigger] self.profiles.entries()[i].1.rules@[j],
                        )) && (forall|k: int, j: int|
                        0 <= k < i && 0 <= j < self.profiles.entries()[k].1.rules@.len()
                            ==> rule_has_matcher(self.profiles.entries()[k].1.rules@[j])),
            },
    {
        let notification = &self.notification;
        if notification.min_width == 0 || notification.min_height == 0 {
            return Err(ConfigError::ZeroMinimumSize);
        }
        if notification.min_width > notification.max_width {
            return Err(ConfigError::MinWidthAboveMax);
        }
        if notification.min_height > notification.max_height {
            return Err(ConfigError::MinHeightAboveMax);
        }
        if !self.profiles.contains_key(self.profile.active.as_str()) {
            return Err(ConfigError::UnknownActiveProfile(self.profile.active.clone()));
        }
        let mut i: usize = 0;
        while i < self.profiles.len()
            invariant
                self.wf(),
                validation_problem(*self) is None || validation_problem(*self) == Some(
                    ConfigProblem::RuleWithoutMatcher,
                ),
                i <= self.profiles.entries().len(),
                forall|k: int, j: int|
                    0 <= k < i && 0 <= j < self.profiles.entries()[k].1.rules@.len()
                        ==> rule_has_matcher(self.profiles.entries()[k].1.rules@[j]),
            decreases self.profiles.entries().len() - i,
        {
            let profile = self.profiles.value_at(i);
            assert(profile.wf());
            let mut j: usize = 0;
            while j < profile.rules.len()
                invariant
                    self.wf(),
                    validation_problem(*self) is None || validation_problem(*self) == Some(
                        ConfigProblem::RuleWithoutMatcher,
                    ),
                    forall|k: int, l: int|
                        0 <= k < i && 0 <= l < self.profiles.entries()[k].1.rules@.len()
                            ==> rule_has_matcher(self.profiles.entries()[k].1.rules@[l]),
                    profile.wf(),
                    i < self.profiles.entries().len(),
                    *profile == self.profiles.entries()[i as int].1,
                    j <= profile.rules@.len(),
                    forall|l: int| 0 <= l < j ==> rule_has_matcher(#[trigger] profile.rules@[l]),
                decreases profile.rules@.len() - j,
            {
                assert(profile.rules@[j as int].hints.wf());
                if !profile.rules[j].has_matcher() {
                    let name = self.profiles.name_at(i).clone();
                    proof {
                        assert(!rule_has_matcher(self.profiles.entries()[i as int].1.rules@[j as int]));
                        assert(validation_problem(*self) == Some(ConfigProblem::RuleWithoutMatcher));
                    }
                    return Err(ConfigError::RuleWithoutMatcher { profile: name, index: j });
                }
                j = j + 1;
            }
            i = i + 1;
        }
        Ok(())
    }

    /// Completes a freshly read configuration: adds the `default` profile
    /// when missing and checks the result.
    pub fn into_loaded(self) -> (r: Result<PigeonConfig, ConfigError>)
        requires
            self.wf(),
        ensures
            match load_problem(self) {
                None => r matches Ok(c) && c.loaded() && c.timeouts == self.timeouts
                    && c.notification@ == self.notification@ && c.history == self.history
                    && c.profile.active@ == self.profile.active@
                    && c.profile.allow_profile_override == self.profile.allow_profile_override
                    && c.profiles@.dom() == self.profiles@.dom().insert(default_name())
                    && (self.profiles@.contains_key(default_name()) ==> c.profiles@
                    == self.profiles@) && (!self.profiles@.contains_key(default_name())
                    ==> c.profiles@[default_name()].rules@.len() == 0 && forall|k: Seq<char>|
                    #[trigger] self.profiles@.contains_key(k) ==> c.profiles@[k]
                    == self.profiles@[k]),
                Some(ConfigProblem::ZeroMinimumSize) => r matches Err(ConfigError::ZeroMinimumSize),
                Some(ConfigProblem::MinWidthAboveMax) => r matches Err(ConfigError::MinWidthAboveMax),
                Some(ConfigProblem::MinHeightAboveMax) => r matches Err(ConfigError::MinHeightAboveMax),
                Some(ConfigProblem::UnknownActiveProfile) => r matches Err(ConfigError::UnknownActiveProfile(a)) && a@
                    == self.profile.active@,
                Some(ConfigProblem::RuleWithoutMatcher) => r matches Err(ConfigError::RuleWithoutMatcher { profile, index }) && exists|
                    i: int,
                |
                    0 <= i < self.profiles.entries().len() && self.profiles.entries()[i].0@
                        == profile@ && index < self.profiles.entries()[i].1.rules@.len()
                        && !rule_has_matcher(self.profiles.entries()[i].1.rules@[index as int])
                        && (forall|j: int|
                        0 <= j < index ==> rule_has_matcher(
                            #[trigger] self.profiles.entries()[i].1.rules@[j],
                        )) && (forall|k: int, j: int|
                        0 <= k < i && 0 <= j < self.profiles.entries()[k].1.rules@.len()
                            ==> rule_has_matcher(self.profiles.entries()[k].1.rules@[j])),
            },
    {
        let ghost read = self;
        let mut config = self;
        config.ensure_default_profile();
        proof {
            lemma_load_problem(read, config);
        }
        match config.validate() {
            Ok(()) => {
                proof {
                    assert(validation_problem(config) is None);
                }
                Ok(config)
            },
            Err(e) => Err(e),
        }
    }

    /// The presentation the named profile gives a notification, or `None`
    /// when that profile or the default one is missing.
    pub fn profile_presentation(&self, name: &str, notification: &Notification) -> (r: Option<
        Presentation,
    >)
        requires
            self.wf(),
            notification.wf(),
        ensures
            match presentation_model(*self, name@, *notification) {
                Some(m) => r is Some && r->Some_0@ == m,
                None => r is None,
            },
    {
        proof {
            reveal_strlit("default");
            lemma_name_map(self.profiles);
        }
        let default_profile = match self.profile("default") {
            Some(p) => p,
            None => {
                return None;
            },
        };
        let default_style = default_profile.notification.apply_to(&self.notification);
        let default_timeouts = default_profile.timeouts.apply_to(&self.timeouts);
        let default_history = default_profile.history.apply_to(&self.history);
        let profile = match self.profile(name) {
            Some(p) => p,
            None => {
                return None;
            },
        };
        proof {
            let k = choose|k: int|
                0 <= k < self.profiles.entries().len() && self.profiles.entries()[k].0@ == name@;
            assert(self.profiles@[self.profiles.entries()[k].0@] == self.profiles.entries()[k].1);
            assert(self.profiles.entries()[k].1.wf());
        }
        let (style, timeouts, history) = if str_eq(name, "default") {
            (default_style, default_timeouts, default_history)
        } else {
            (
                profile.notification.apply_to(&default_style),
                profile.timeouts.apply_to(&default_timeouts),
                profile.history.apply_to(&default_history),
            )
        };
        match profile.matching_rule(notification) {
            Some(rule) => Some(
                Presentation {
                    action: match rule.action {
                        Some(action) => action,
                        None => profile.default_action,
                    },
                    style: rule.notification.apply_to(&style),
                    timeouts,
                    history: rule.history.apply_to(&history),
                },
            ),
            None => Some(
                Presentation { action: profile.default_action, style, timeouts, history },
            ),
        }
    }

    /// The presentation a notification gets; a loaded configuration always
    /// gives one.
    pub fn presentation_for(&self, notification: &Notification) -> (p: Presentation)
        requires
            self.loaded(),
            notification.wf(),
        ensures
            presentation_for_model(*self, *notification) == Some(p@),
    {
        if self.profile.allow_profile_override {
            if let Some(name) = notification.profile() {
                if let Some(presentation) = self.profile_presentation(name, notification) {
                    return presentation;
                }
            }
        }
        self.profile_presentation(self.profile.active.as_str(), notification).unwrap()
    }
}

} // verus!
