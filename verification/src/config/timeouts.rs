//! How long notifications stay up, by urgency.

use vstd::prelude::*;

use crate::text::str_eq;

verus! {

broadcast use vstd::string::group_string_axioms;

/// Milliseconds, with `u64::MAX` meaning "never expires".
#[derive(Clone, Copy, Debug, PartialEq, Eq, Structural)]
pub struct TimeoutConfig {
    pub low: u64,
    pub normal: u64,
    pub critical: u64,
}

#[derive(Clone, Copy, Debug, PartialEq, Eq, Structural)]
pub struct TimeoutOverride {
    pub low: Option<u64>,
    pub normal: Option<u64>,
    pub critical: Option<u64>,
}

/// The timeout that stands for "never".
pub const NEVER: u64 = 0xffff_ffff_ffff_ffff;

/// The message for a timeout word other than `never`.
pub open spec fn timeout_word_message() -> Seq<char> {
    "timeout must be milliseconds or \"never\""@
}

impl Default for TimeoutConfig {
    fn default() -> (c: Self)
        ensures
            c == (TimeoutConfig { low: 3000, normal: 5000, critical: NEVER }),
    {
        TimeoutConfig { low: 3000, normal: 5000, critical: NEVER }
    }
}

impl Default for TimeoutOverride {
    fn default() -> (o: Self)
        ensures
            o.low is None && o.normal is None && o.critical is None,
    {
        TimeoutOverride { low: None, normal: None, critical: None }
    }
}

/// The timeouts that result from laying `o` over `base`.
pub open spec fn timeouts_applied(o: TimeoutOverride, base: TimeoutConfig) -> TimeoutConfig {
    TimeoutConfig {
        low: match o.low {
            Some(v) => v,
            None => base.low,
        },
        normal: match o.normal {
            Some(v) => v,
            None => base.normal,
        },
        critical: match o.critical {
            Some(v) => v,
            None => base.critical,
        },
    }
}

impl TimeoutOverride {
    pub fn is_empty(&self) -> (b: bool)
        ensures
            b == (self.low is None && self.normal is None && self.critical is None),
    {
        self.low.is_none() && self.normal.is_none() && self.critical.is_none()
    }

    pub fn apply_to(&self, base: &TimeoutConfig) -> (resolved: TimeoutConfig)
        ensures
            resolved == timeouts_applied(*self, *base),
    {
        let mut resolved = *base;
        if let Some(value) = self.low {
            resolved.low = value;
        }
        if let Some(value) = self.normal {
            resolved.normal = value;
        }
        if let Some(value) = self.critical {
            resolved.critical = value;
        }
        resolved
    }
}

/// The timeout a word in the configuration stands for: only `never` is one.
pub fn timeout_from_word(value: &str) -> (r: Result<u64, String>)
    ensures
        value@ == "never"@ ==> r == Ok::<u64, String>(NEVER),
        value@ != "never"@ ==> r is Err && r->Err_0@ == timeout_word_message(),
{
    if str_eq(value, "never") {
        Ok(NEVER)
    } else {
        Err(String::from_str("timeout must be milliseconds or \"never\""))
    }
}

/// Whether a timeout is written as the word `never` rather than a number.
pub fn is_never(timeout: u64) -> (b: bool)
    ensures
        b == (timeout == NEVER),
{
    timeout == NEVER
}

/// An override that sets nothing leaves the timeouts as they are, and one
/// applied over a configuration it has already been applied to changes
/// nothing more.
pub proof fn lemma_timeout_override_laws(o: TimeoutOverride, base: TimeoutConfig)
    ensures
        (o.low is None && o.normal is None && o.critical is None) ==> timeouts_applied(o, base)
            == base,
        timeouts_applied(o, timeouts_applied(o, base)) == timeouts_applied(o, base),
{
}

} // verus!
