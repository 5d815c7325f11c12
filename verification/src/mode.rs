//! Soft vs strict enforcement, and the enforcement actually achieved.
use vstd::prelude::*;

use crate::text::{owned, push_str};

verus! {

/// Controls whether strict NUMA policies are enforced or fall back gracefully.
///
/// In soft mode (the default) operations degrade gracefully when kernel
/// features or privileges are unavailable; in strict mode they fail with a
/// structured error instead.
#[derive(Debug, Clone, Copy, PartialEq, Eq, Structural, Hash)]
pub enum HardMode {
    /// Best-effort enforcement with graceful degradation.
    Soft,
    /// Strict enforcement; fail if policy cannot be guaranteed.
    Strict,
}

impl HardMode {
    /// Check if this is soft mode.
    pub fn is_soft(self) -> (r: bool)
        ensures
            r == (self == HardMode::Soft),
    {
        matches!(self, HardMode::Soft)
    }

    /// Check if this is strict mode.
    pub fn is_strict(self) -> (r: bool)
        ensures
            r == (self == HardMode::Strict),
    {
        matches!(self, HardMode::Strict)
    }
}

impl Default for HardMode {
    fn default() -> (r: Self)
        ensures
            r == HardMode::Soft,
    {
        HardMode::Soft
    }
}

/// Reports the actual enforcement level achieved for an operation.
#[derive(Debug, Clone, PartialEq, Eq)]
pub enum EnforcementLevel {
    /// The policy is fully enforced.
    Strict,
    /// The policy was applied but is not guaranteed.
    BestEffort {
        /// Why strict enforcement was not possible.
        reason: String,
    },
    /// No NUMA policy was applied.
    NotApplied {
        /// Why no policy could be applied.
        reason: String,
    },
}

impl EnforcementLevel {
    /// Create a strict enforcement level.
    pub fn strict() -> (r: Self)
        ensures
            r is Strict,
    {
        EnforcementLevel::Strict
    }

    /// Create a best-effort enforcement level.
    pub fn best_effort(reason: &str) -> (r: Self)
        ensures
            r matches EnforcementLevel::BestEffort { reason: x } && x@ == reason@,
    {
        EnforcementLevel::BestEffort { reason: owned(reason) }
    }

    /// Create a none enforcement level.
    pub fn none(reason: &str) -> (r: Self)
        ensures
            r matches EnforcementLevel::NotApplied { reason: x } && x@ == reason@,
    {
        EnforcementLevel::NotApplied { reason: owned(reason) }
    }

    /// Check if this is strict enforcement.
    pub fn is_strict(&self) -> (r: bool)
        ensures
            r == self is Strict,
    {
        matches!(self, EnforcementLevel::Strict)
    }

    /// Check if this is best-effort enforcement.
    pub fn is_best_effort(&self) -> (r: bool)
        ensures
            r == self is BestEffort,
    {
        matches!(self, EnforcementLevel::BestEffort { .. })
    }

    /// Check if no enforcement was applied.
    pub fn is_none(&self) -> (r: bool)
        ensures
            r == self is NotApplied,
    {
        matches!(self, EnforcementLevel::NotApplied { .. })
    }

    /// The reason given for degraded enforcement, if any.
    pub open spec fn reason_text(&self) -> Option<Seq<char>> {
        match self {
            EnforcementLevel::Strict => Option::None,
            EnforcementLevel::BestEffort { reason } => Some(reason@),
            EnforcementLevel::NotApplied { reason } => Some(reason@),
        }
    }

    /// Get the degradation reason, if any.
    pub fn reason(&self) -> (r: Option<&str>)
        ensures
            match self.reason_text() {
                Some(t) => r matches Some(x) && x@ == t,
                Option::None => r is None,
            },
    {
        match self {
            EnforcementLevel::Strict => Option::None,
            EnforcementLevel::BestEffort { reason } => Some(reason.as_str()),
            EnforcementLevel::NotApplied { reason } => Some(reason.as_str()),
        }
    }

    /// The display text: "strict", "best-effort (reason)" or "none (reason)".
    pub fn to_string(&self) -> (r: String)
        ensures
            r@ == match self {
                EnforcementLevel::Strict => "strict"@,
                EnforcementLevel::BestEffort { reason } => "best-effort ("@ + reason@ + ")"@,
                EnforcementLevel::NotApplied { reason } => "none ("@ + reason@ + ")"@,
            },
    {
        let mut s = String::new();
        match self {
            EnforcementLevel::Strict => {
                push_str(&mut s, "strict");
            },
            EnforcementLevel::BestEffort { reason } => {
                push_str(&mut s, "best-effort (");
                push_str(&mut s, reason.as_str());
                push_str(&mut s, ")");
            },
            EnforcementLevel::NotApplied { reason } => {
                push_str(&mut s, "none (");
                push_str(&mut s, reason.as_str());
                push_str(&mut s, ")");
            },
        }
        assert(s@ =~= match self {
            EnforcementLevel::Strict => "strict"@,
            EnforcementLevel::BestEffort { reason } => "best-effort ("@ + reason@ + ")"@,
            EnforcementLevel::NotApplied { reason } => "none ("@ + reason@ + ")"@,
        });
        s
    }
}

impl Default for EnforcementLevel {
    fn default() -> (r: Self)
        ensures
            r is Strict,
    {
        EnforcementLevel::Strict
    }
}

} // verus!
