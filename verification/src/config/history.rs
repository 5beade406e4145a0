//! Whether shown notifications are written to the history file.

use vstd::prelude::*;

verus! {

#[derive(Clone, Copy, Debug, PartialEq, Eq, Structural)]
pub struct HistoryConfig {
    pub enabled: bool,
}

#[derive(Clone, Copy, Debug, PartialEq, Eq, Structural)]
pub struct HistoryOverride {
    pub enabled: Option<bool>,
}

impl Default for HistoryConfig {
    fn default() -> (c: Self)
        ensures
            !c.enabled,
    {
        HistoryConfig { enabled: false }
    }
}

impl Default for HistoryOverride {
    fn default() -> (o: Self)
        ensures
            o.enabled is None,
    {
        HistoryOverride { enabled: None }
    }
}

/// The history setting that results from laying `o` over `base`.
pub open spec fn history_applied(o: HistoryOverride, base: HistoryConfig) -> HistoryConfig {
    match o.enabled {
        Some(enabled) => HistoryConfig { enabled },
        None => base,
    }
}

impl HistoryOverride {
    pub fn is_empty(&self) -> (b: bool)
        ensures
            b == (self.enabled is None),
    {
        self.enabled.is_none()
    }

    pub fn apply_to(&self, base: &HistoryConfig) -> (resolved: HistoryConfig)
        ensures
            resolved == history_applied(*self, *base),
    {
        let mut resolved = *base;
        if let Some(enabled) = self.enabled {
            resolved.enabled = enabled;
        }
        resolved
    }
}

} // verus!
