//! Keeping the console from suspending.

use vstd::prelude::*;
use crate::bgm::Player;

verus! {

/// Microseconds between two ticks.
pub const TICK_US: u32 = 10_000_000;

/// Whether this turn ticks: only while a playback session is up.
pub fn ticks(player: &Player) -> (r: bool)
    ensures
        r == player@.ready,
{
    player.session_active()
}

} // verus!
