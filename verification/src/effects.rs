//! Tracker effect commands carried on a pattern row.
use vstd::prelude::*;

verus! {

/// A tracker effect command attached to a row (the effect column of a
/// MOD/XM-style pattern).
#[derive(Debug, Clone, Copy, PartialEq, Eq, Hash, Structural)]
pub enum EffectCommand {
    /// Set the channel volume (0-64 in tracker units).
    SetVolume(u8),
    /// Pitch vibrato with the given speed and depth.
    Vibrato { speed: u8, depth: u8 },
}

} // verus!
