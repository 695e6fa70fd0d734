//! Pins: until when, why and how firmly a prefix is kept resident.
use vstd::prelude::*;

verus! {

/// Why a pin exists.
#[derive(Debug, Clone, Copy, PartialEq, Eq, Structural)]
pub enum PinReason {
    /// Nothing holds the prefix.
    Unset,
    WaitingTool,
    Prefetch,
    Manual,
    Affinity,
}

impl Default for PinReason {
    fn default() -> (res: Self)
        ensures
            res == PinReason::Unset,
    {
        PinReason::Unset
    }
}

impl PinReason {
    /// The name of the variant.
    pub open spec fn label(self) -> Seq<char> {
        match self {
            PinReason::Unset => "None"@,
            PinReason::WaitingTool => "WaitingTool"@,
            PinReason::Prefetch => "Prefetch"@,
            PinReason::Manual => "Manual"@,
            PinReason::Affinity => "Affinity"@,
        }
    }

    /// The name of the variant, as sent to the engine.
    pub fn name(self) -> (res: String)
        ensures
            res@ == self.label(),
    {
        match self {
            PinReason::Unset => "None".to_string(),
            PinReason::WaitingTool => "WaitingTool".to_string(),
            PinReason::Prefetch => "Prefetch".to_string(),
            PinReason::Manual => "Manual".to_string(),
            PinReason::Affinity => "Affinity".to_string(),
        }
    }
}

/// Pin lifecycle for a prefix (or trajectory-bound KV).
#[derive(Debug, Clone, Copy, PartialEq, Eq, Structural)]
pub struct PinInfo {
    /// Absolute deadline; `None` means unpinned.
    pub pin_until_ms: Option<u64>,
    /// Why this pin exists (tool wait, prefetch, manual, ...).
    pub reason: PinReason,
    /// Soft priority among pins when memory pressure forces unpin.
    pub strength: u8,
}

/// The pin that holds nothing.
pub open spec fn no_pin() -> PinInfo {
    PinInfo { pin_until_ms: None, reason: PinReason::Unset, strength: 0 }
}

impl Default for PinInfo {
    fn default() -> (res: Self)
        ensures
            res == no_pin(),
    {
        PinInfo { pin_until_ms: None, reason: PinReason::Unset, strength: 0 }
    }
}

impl PinInfo {
    /// The pin holds at time `now_ms`: its deadline lies strictly ahead.
    pub open spec fn holds(self, now_ms: u64) -> bool {
        self.pin_until_ms matches Some(until) && until > now_ms
    }

    pub fn is_pinned(&self, now_ms: u64) -> (res: bool)
        ensures
            res == self.holds(now_ms),
    {
        match self.pin_until_ms {
            Some(until) => until > now_ms,
            None => false,
        }
    }

    pub fn pin_until(until_ms: u64, reason: PinReason, strength: u8) -> (res: Self)
        ensures
            res == (PinInfo { pin_until_ms: Some(until_ms), reason, strength }),
    {
        PinInfo { pin_until_ms: Some(until_ms), reason, strength }
    }

    pub fn unpin(&mut self)
        ensures
            *final(self) == no_pin(),
    {
        self.pin_until_ms = None;
        self.reason = PinReason::Unset;
        self.strength = 0;
    }
}

/// A pin only ever runs out: once it no longer holds it never holds again.
pub proof fn law_pin_expires(p: PinInfo, now: u64, later: u64)
    requires
        now <= later,
        !p.holds(now),
    ensures
        !p.holds(later),
{
}

/// An unpinned prefix is held at no time.
pub proof fn law_unpinned_never_holds(now: u64)
    ensures
        !no_pin().holds(now),
{
}

} // verus!
