//! Landing and walking: F lands the ship when a planet surface is in range and
//! takes off again from the surface (not mid-battle); the flight pipeline only
//! runs in flight.

use vstd::prelude::*;
use crate::battle::Phase;
use crate::pause::AppState;

verus! {

/// Surface entities render on this layer; the camera switches to it on foot.
pub const SURFACE_LAYER: usize = 1;

/// Whether the player flies the ship or walks on a planet.
#[derive(Clone, Copy, PartialEq, Eq, Debug, Hash, Structural)]
pub enum Mode {
    Flight,
    OnFoot,
}

impl Default for Mode {
    /// A session starts in flight.
    fn default() -> (m: Mode)
        ensures
            m == Mode::Flight,
    {
        Mode::Flight
    }
}

/// The mode to switch to after this frame's F key. In flight, F lands when some
/// planet surface is within landing range; on foot, F takes off, but walking
/// and take-off are disabled while a battle is under way.
pub fn mode_after_f(mode: Mode, phase: Phase, f_pressed: bool, planet_in_range: bool) -> (next: Option<Mode>)
    ensures
        next == (if !f_pressed {
            None::<Mode>
        } else if mode == Mode::Flight {
            if planet_in_range {
                Some(Mode::OnFoot)
            } else {
                None::<Mode>
            }
        } else if phase == Phase::Roam {
            Some(Mode::Flight)
        } else {
            None::<Mode>
        }),
{
    if !f_pressed {
        return None;
    }
    match mode {
        Mode::Flight => if planet_in_range {
            Some(Mode::OnFoot)
        } else {
            None
        },
        Mode::OnFoot => if phase == Phase::Roam {
            Some(Mode::Flight)
        } else {
            None
        },
    }
}

/// Whether the avatar may walk and the foot camera follow the mouse: on foot,
/// outside battles.
pub fn walking_enabled(mode: Mode, phase: Phase) -> (enabled: bool)
    ensures
        enabled == (mode == Mode::OnFoot && phase == Phase::Roam),
{
    mode == Mode::OnFoot && phase == Phase::Roam
}

/// Whether the flight pipeline (input, movement, origin, sync, camera,
/// streaming) ticks this frame: only in flight and only while not paused.
pub fn flight_frame_runs(state: AppState, mode: Mode) -> (runs: bool)
    ensures
        runs == (state == AppState::Running && mode == Mode::Flight),
{
    state == AppState::Running && mode == Mode::Flight
}

} // verus!
