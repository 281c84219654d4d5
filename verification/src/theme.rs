//! The theme settings that are not colors: the color mode and the shared motion.
use vstd::prelude::*;

verus! {

/// The active color mode.
#[derive(Clone, Copy, Debug, PartialEq, Eq, Structural)]
pub enum ThemeMode {
    /// The light palette.
    Light,
    /// The dark palette.
    Dark,
}

/// Curves supported by the shared transition helper.
#[derive(Clone, Copy, Debug, PartialEq, Eq, Structural)]
pub enum UiEasing {
    /// Constant-speed motion.
    Linear,
    /// Fast response followed by a smooth stop.
    EaseOut,
    /// Smooth acceleration and deceleration for changes within a layout.
    EaseInOut,
}

impl Default for UiEasing {
    fn default() -> (easing: Self)
        ensures
            easing == UiEasing::EaseInOut,
    {
        UiEasing::EaseInOut
    }
}

/// The duration of `millis` milliseconds (what `Duration::from_millis` returns).
pub uninterp spec fn millis_duration(millis: u64) -> core::time::Duration;

/// Calls `Duration::from_millis`. The contract only names the result.
#[verifier::external_body]
fn duration_from_millis(millis: u64) -> (duration: core::time::Duration)
    ensures
        duration == millis_duration(millis),
{
    core::time::Duration::from_millis(millis)
}

/// Shared transition durations and preferences.
pub struct UiMotion {
    /// Thumb and small-state transitions (150ms by default).
    pub fast: core::time::Duration,
    /// Panel and layout transitions (200ms by default).
    pub normal: core::time::Duration,
    /// Application preference; true removes movement without removing state feedback.
    pub reduced: bool,
    /// Shared easing for reversible state transitions.
    pub easing: UiEasing,
}

impl Default for UiMotion {
    fn default() -> (motion: Self)
        ensures
            motion.fast == millis_duration(150),
            motion.normal == millis_duration(200),
            !motion.reduced,
            motion.easing == UiEasing::EaseInOut,
    {
        UiMotion {
            fast: duration_from_millis(150),
            normal: duration_from_millis(200),
            reduced: false,
            easing: UiEasing::EaseInOut,
        }
    }
}

} // verus!
