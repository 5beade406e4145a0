//! The notification history: what is recorded of each notification, and
//! where the history file lives.

use vstd::prelude::*;

use crate::config::history::HistoryConfig;
use crate::notification::{opt_chars, Notification, NotificationHints};
use crate::string_map::pair_models;
use crate::text::{chars_of, push_char};

verus! {

broadcast use vstd::string::group_string_axioms;

/// The hints recorded with a notification.
pub struct HistoryHints {
    pub desktop_entry: Option<String>,
    pub category: Option<String>,
    pub urgency: Option<u8>,
    pub progress: Option<i32>,
    pub transient: Option<bool>,
    pub resident: Option<bool>,
    pub profile: Option<String>,
    pub stack_tag: Option<String>,
    /// The free-form string hints, in the order they were set.
    pub strings: Vec<(String, String)>,
}

/// One line of the history: a notification and when it arrived.
pub struct HistoryEntry {
    pub timestamp_unix_ms: u64,
    pub app_name: String,
    pub app_icon: String,
    pub summary: String,
    pub body: String,
    pub has_image: bool,
    pub hints: HistoryHints,
}

fn clone_opt(o: &Option<String>) -> (r: Option<String>)
    ensures
        opt_chars(r) == opt_chars(*o),
{
    match o {
        Some(s) => Some(s.clone()),
        None => None,
    }
}

impl HistoryHints {
    /// A copy of a notification's hints.
    pub fn new(hints: &NotificationHints) -> (h: Self)
        requires
            hints.wf(),
        ensures
            opt_chars(h.desktop_entry) == opt_chars(hints.desktop_entry),
            opt_chars(h.category) == opt_chars(hints.category),
            h.urgency == hints.urgency,
            h.progress == hints.progress,
            h.transient == hints.transient,
            h.resident == hints.resident,
            opt_chars(h.profile) == opt_chars(hints.profile),
            opt_chars(h.stack_tag) == opt_chars(hints.stack_tag),
            pair_models(h.strings@) == hints.strings.pairs(),
    {
        let mut strings: Vec<(String, String)> = Vec::new();
        let mut i: usize = 0;
        while i < hints.strings.len()
            invariant
                hints.wf(),
                i <= hints.strings.pairs().len(),
                pair_models(strings@) == hints.strings.pairs().take(i as int),
            decreases hints.strings.pairs().len() - i,
        {
            let key = hints.strings.key_at(i).clone();
            let value = hints.strings.value_at(i).clone();
            let ghost before = strings@;
            strings.push((key, value));
            proof {
                assert(pair_models(strings@) =~= pair_models(before).push((key@, value@)));
                assert(hints.strings.pairs().take(i + 1) =~= hints.strings.pairs().take(
                    i as int,
                ).push(hints.strings.pairs()[i as int]));
            }
            i = i + 1;
        }
        proof {
            assert(hints.strings.pairs().take(hints.strings.pairs().len() as int)
                =~= hints.strings.pairs());
        }
        HistoryHints {
            desktop_entry: clone_opt(&hints.desktop_entry),
            category: clone_opt(&hints.category),
            urgency: hints.urgency,
            progress: hints.progress,
            transient: hints.transient,
            resident: hints.resident,
            profile: clone_opt(&hints.profile),
            stack_tag: clone_opt(&hints.stack_tag),
            strings,
        }
    }
}

/// The history line for a notification that arrived at `timestamp_unix_ms`,
/// or `None` when the history is turned off.
pub fn history_entry(config: &HistoryConfig, notification: &Notification, timestamp_unix_ms: u64) -> (r:
    Option<HistoryEntry>)
    requires
        notification.wf(),
    ensures
        !config.enabled ==> r is None,
        config.enabled ==> match r {
            Some(e) => {
                &&& e.timestamp_unix_ms == timestamp_unix_ms
                &&& e.app_name@ == notification.app_name@
                &&& e.app_icon@ == notification.app_icon@
                &&& e.summary@ == notification.summary@
                &&& e.body@ == notification.body@
                &&& e.has_image == notification.img is Some
                &&& opt_chars(e.hints.desktop_entry) == opt_chars(notification.hints.desktop_entry)
                &&& opt_chars(e.hints.category) == opt_chars(notification.hints.category)
                &&& e.hints.urgency == notification.hints.urgency
                &&& e.hints.progress == notification.hints.progress
                &&& e.hints.transient == notification.hints.transient
                &&& e.hints.resident == notification.hints.resident
                &&& opt_chars(e.hints.profile) == opt_chars(notification.hints.profile)
                &&& opt_chars(e.hints.stack_tag) == opt_chars(notification.hints.stack_tag)
                &&& pair_models(e.hints.strings@) == notification.hints.strings.pairs()
            },
            None => false,
        },
{
    if !config.enabled {
        return None;
    }
    Some(
        HistoryEntry {
            timestamp_unix_ms,
            app_name: notification.app_name.clone(),
            app_icon: notification.app_icon.clone(),
            summary: notification.summary.clone(),
            body: notification.body.clone(),
            has_image: notification.img.is_some(),
            hints: HistoryHints::new(&notification.hints),
        },
    )
}

/// Milliseconds since the Unix epoch as recorded: 0 for a clock before the
/// epoch, and the largest `u64` for one beyond it.
pub fn timestamp_unix_ms(since_epoch_ms: Option<u128>) -> (t: u64)
    ensures
        t == match since_epoch_ms {
            None => 0,
            Some(ms) => if ms > u64::MAX {
                u64::MAX as int
            } else {
                ms as int
            },
        },
{
    match since_epoch_ms {
        None => 0,
        Some(ms) => if ms > u64::MAX as u128 {
            u64::MAX
        } else {
            ms as u64
        },
    }
}

/// `rel` appended to the directory `base`, with a `/` between them unless
/// `base` is empty or already ends in one.
pub open spec fn joined(base: Seq<char>, rel: Seq<char>) -> Seq<char> {
    if base.len() == 0 {
        rel
    } else if base.last() == '/' {
        base + rel
    } else {
        base.push('/') + rel
    }
}

fn push_all(s: &mut String, t: &str)
    ensures
        final(s)@ == old(s)@ + t@,
{
    let chars = chars_of(t);
    let ghost start = s@;
    let mut i: usize = 0;
    while i < chars.len()
        invariant
            i <= chars@.len(),
            chars@ == t@,
            s@ == start + t@.take(i as int),
        decreases chars@.len() - i,
    {
        push_char(s, chars[i]);
        proof {
            assert(t@.take(i + 1) =~= t@.take(i as int).push(t@[i as int]));
        }
        i = i + 1;
    }
    proof {
        assert(t@.take(t@.len() as int) =~= t@);
    }
}

/// Joins a relative path onto a directory.
pub fn join_path(base: &str, rel: &str) -> (p: String)
    ensures
        p@ == joined(base@, rel@),
{
    let mut p = String::new();
    push_all(&mut p, base);
    let chars = chars_of(base);
    if chars.len() > 0 && chars[chars.len() - 1] != '/' {
        push_char(&mut p, '/');
    }
    push_all(&mut p, rel);
    proof {
        assert(Seq::<char>::empty() + base@ =~= base@);
        if base@.len() == 0 {
            assert(base@ + rel@ =~= rel@);
        }
    }
    p
}

/// The directory a base environment value, or `$HOME` joined with a
/// fallback, or the current directory gives.
pub open spec fn base_dir(value: Option<Seq<char>>, home: Option<Seq<char>>, under_home: Seq<char>) -> Seq<
    char,
> {
    match value {
        Some(v) => v,
        None => match home {
            Some(h) => joined(h, under_home),
            None => "."@,
        },
    }
}

fn base_dir_of(value: Option<&str>, home: Option<&str>, under_home: &str) -> (d: String)
    ensures
        d@ == base_dir(
            match value {
                Some(v) => Some(v@),
                None => None,
            },
            match home {
                Some(h) => Some(h@),
                None => None,
            },
            under_home@,
        ),
{
    match value {
        Some(v) => v.to_owned(),
        None => match home {
            Some(h) => join_path(h, under_home),
            None => {
                proof {
                    reveal_strlit(".");
                }
                ".".to_owned()
            },
        },
    }
}

/// The history file: `pigeon/history.jsonl` under `$XDG_STATE_HOME`, or
/// under `$HOME/.local/state`, or under the current directory.
pub fn path(xdg_state_home: Option<&str>, home: Option<&str>) -> (p: String)
    ensures
        p@ == joined(
            base_dir(
                match xdg_state_home {
                    Some(v) => Some(v@),
                    None => None,
                },
                match home {
                    Some(h) => Some(h@),
                    None => None,
                },
                ".local/state"@,
            ),
            "pigeon/history.jsonl"@,
        ),
{
    let dir = base_dir_of(xdg_state_home, home, ".local/state");
    join_path(dir.as_str(), "pigeon/history.jsonl")
}

/// The configuration file: `$PIGEOND_CONFIG` when set, otherwise
/// `pigeond/config.toml` under `$XDG_CONFIG_HOME`, or under
/// `$HOME/.config`, or under the current directory.
pub fn default_config_path(pigeond_config: Option<&str>, xdg_config_home: Option<&str>, home: Option<
    &str,
>) -> (p: String)
    ensures
        match pigeond_config {
            Some(c) => p@ == c@,
            None => p@ == joined(
                base_dir(
                    match xdg_config_home {
                        Some(v) => Some(v@),
                        None => None,
                    },
                    match home {
                        Some(h) => Some(h@),
                        None => None,
                    },
                    ".config"@,
                ),
                "pigeond/config.toml"@,
            ),
        },
{
    match pigeond_config {
        Some(c) => c.to_owned(),
        None => {
            let dir = base_dir_of(xdg_config_home, home, ".config");
            join_path(dir.as_str(), "pigeond/config.toml")
        },
    }
}

} // verus!
