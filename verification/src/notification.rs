//! Notifications as the daemon stores them, with their normalized hints.

use std::sync::Arc;

use vstd::prelude::*;

use crate::images::Image;
use crate::string_map::StringMap;
use crate::text::str_eq;

verus! {

broadcast use vstd::string::group_string_axioms;

/// Limit on the number of free-form string hints kept per notification.
pub const MAX_STRING_HINTS: usize = 64;

pub struct NotificationHints {
    pub desktop_entry: Option<String>,
    pub category: Option<String>,
    pub urgency: Option<u8>,
    pub progress: Option<i32>,
    pub transient: Option<bool>,
    pub resident: Option<bool>,
    pub profile: Option<String>,
    pub stack_tag: Option<String>,
    pub strings: StringMap,
}

/// The characters of an optional string.
pub open spec fn opt_chars(o: Option<String>) -> Option<Seq<char>> {
    match o {
        Some(s) => Some(s@),
        None => None,
    }
}

/// The characters of an optional string, or nothing when it is absent.
pub open spec fn chars_or_empty(o: Option<String>) -> Seq<char> {
    match o {
        Some(s) => s@,
        None => Seq::empty(),
    }
}

fn opt_str(o: &Option<String>) -> (r: Option<&str>)
    ensures
        match r {
            Some(s) => o is Some && s@ == o->Some_0@,
            None => o is None,
        },
{
    match o {
        Some(s) => Some(s.as_str()),
        None => None,
    }
}

/// The content of [`NotificationHints`].
#[verifier::ext_equal]
pub struct HintsModel {
    pub desktop_entry: Option<Seq<char>>,
    pub category: Option<Seq<char>>,
    pub urgency: Option<u8>,
    pub progress: Option<i32>,
    pub transient: Option<bool>,
    pub resident: Option<bool>,
    pub profile: Option<Seq<char>>,
    pub stack_tag: Option<Seq<char>>,
    pub strings: Map<Seq<char>, Seq<char>>,
}

impl View for NotificationHints {
    type V = HintsModel;

    open spec fn view(&self) -> HintsModel {
        HintsModel {
            desktop_entry: opt_chars(self.desktop_entry),
            category: opt_chars(self.category),
            urgency: self.urgency,
            progress: self.progress,
            transient: self.transient,
            resident: self.resident,
            profile: opt_chars(self.profile),
            stack_tag: opt_chars(self.stack_tag),
            strings: self.strings@,
        }
    }
}

impl Default for NotificationHints {
    fn default() -> (h: Self)
        ensures
            h.desktop_entry is None,
            h.category is None,
            h.urgency is None,
            h.progress is None,
            h.transient is None,
            h.resident is None,
            h.profile is None,
            h.stack_tag is None,
            h.strings.wf(),
            h.strings.pairs().len() == 0,
            h.strings@ == Map::<Seq<char>, Seq<char>>::empty(),
    {
        NotificationHints {
            desktop_entry: None,
            category: None,
            urgency: None,
            progress: None,
            transient: None,
            resident: None,
            profile: None,
            stack_tag: None,
            strings: StringMap::new(),
        }
    }
}

impl NotificationHints {
    pub open spec fn wf(&self) -> bool {
        self.strings.wf() && self.strings.pairs().len() <= MAX_STRING_HINTS
    }

    /// The value a hint lookup gives for `key`: the named hints first, then
    /// the free-form strings.
    pub open spec fn hint_model(&self, key: Seq<char>) -> Option<Seq<char>> {
        if key == "desktop-entry"@ {
            opt_chars(self.desktop_entry)
        } else if key == "category"@ {
            opt_chars(self.category)
        } else if key == "x-pigeon-profile"@ {
            opt_chars(self.profile)
        } else if key == "x-dunst-stack-tag"@ || key == "x-canonical-private-synchronous"@ {
            opt_chars(self.stack_tag)
        } else if self.strings@.contains_key(key) {
            Some(self.strings@[key])
        } else {
            None
        }
    }

    /// Stores a free-form string hint; a new key is dropped once the limit
    /// of string hints is reached, an existing key is always updated.
    pub fn insert_string(&mut self, key: String, value: String)
        requires
            old(self).wf(),
        ensures
            final(self).wf(),
            final(self).desktop_entry == old(self).desktop_entry,
            final(self).category == old(self).category,
            final(self).urgency == old(self).urgency,
            final(self).progress == old(self).progress,
            final(self).transient == old(self).transient,
            final(self).resident == old(self).resident,
            final(self).profile == old(self).profile,
            final(self).stack_tag == old(self).stack_tag,
            final(self).strings@ == (if old(self).strings.pairs().len() < MAX_STRING_HINTS
                || old(self).strings@.contains_key(key@) {
                old(self).strings@.insert(key@, value@)
            } else {
                old(self).strings@
            }),
    {
        if self.strings.len() < MAX_STRING_HINTS || self.strings.contains_key(key.as_str()) {
            self.strings.insert(key, value);
        }
    }

    pub fn hint(&self, key: &str) -> (r: Option<&str>)
        requires
            self.wf(),
        ensures
            match r {
                Some(v) => self.hint_model(key@) == Some(v@),
                None => self.hint_model(key@) is None,
            },
    {
        if str_eq(key, "desktop-entry") {
            opt_str(&self.desktop_entry)
        } else if str_eq(key, "category") {
            opt_str(&self.category)
        } else if str_eq(key, "x-pigeon-profile") {
            opt_str(&self.profile)
        } else if str_eq(key, "x-dunst-stack-tag") || str_eq(key, "x-canonical-private-synchronous") {
            opt_str(&self.stack_tag)
        } else {
            match self.strings.get(key) {
                Some(value) => Some(value.as_str()),
                None => None,
            }
        }
    }
}

pub struct Notification {
    pub id: u32,
    pub app_name: String,
    pub app_icon: String,
    pub summary: String,
    pub body: String,
    pub img: Option<Arc<Image>>,
    pub actions: StringMap,
    pub hints: NotificationHints,
}

impl Notification {
    pub open spec fn wf(&self) -> bool {
        self.hints.wf() && self.actions.wf()
    }

    pub fn hint(&self, key: &str) -> (r: Option<&str>)
        requires
            self.wf(),
        ensures
            match r {
                Some(v) => self.hints.hint_model(key@) == Some(v@),
                None => self.hints.hint_model(key@) is None,
            },
    {
        self.hints.hint(key)
    }

    pub fn urgency(&self) -> (r: Option<u8>)
        ensures
            r == self.hints.urgency,
    {
        self.hints.urgency
    }

    pub fn progress(&self) -> (r: Option<i32>)
        ensures
            r == self.hints.progress,
    {
        self.hints.progress
    }

    pub fn category(&self) -> (r: Option<&str>)
        ensures
            match r {
                Some(s) => self.hints.category is Some && s@ == self.hints.category->Some_0@,
                None => self.hints.category is None,
            },
    {
        opt_str(&self.hints.category)
    }

    pub fn desktop_entry(&self) -> (r: Option<&str>)
        ensures
            match r {
                Some(s) => self.hints.desktop_entry is Some && s@
                    == self.hints.desktop_entry->Some_0@,
                None => self.hints.desktop_entry is None,
            },
    {
        opt_str(&self.hints.desktop_entry)
    }

    pub fn transient(&self) -> (r: Option<bool>)
        ensures
            r == self.hints.transient,
    {
        self.hints.transient
    }

    pub fn resident(&self) -> (r: Option<bool>)
        ensures
            r == self.hints.resident,
    {
        self.hints.resident
    }

    pub fn profile(&self) -> (r: Option<&str>)
        ensures
            match r {
                Some(s) => self.hints.profile is Some && s@ == self.hints.profile->Some_0@,
                None => self.hints.profile is None,
            },
    {
        opt_str(&self.hints.profile)
    }

    pub fn stack_tag(&self) -> (r: Option<&str>)
        ensures
            match r {
                Some(s) => self.hints.stack_tag is Some && s@ == self.hints.stack_tag->Some_0@,
                None => self.hints.stack_tag is None,
            },
    {
        opt_str(&self.hints.stack_tag)
    }
}

} // verus!
