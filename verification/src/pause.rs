//! Pausing: Esc flips the game between running and paused, the per-frame
//! pipeline only ticks while running, and Q quits from the pause menu.

use vstd::prelude::*;

verus! {

/// Top-level app state. `Running` ticks the sim; `Paused` freezes it and shows
/// the pause menu.
#[derive(Clone, Copy, PartialEq, Eq, Debug, Hash, Structural)]
pub enum AppState {
    Running,
    Paused,
}

impl Default for AppState {
    /// A session starts running.
    fn default() -> (s: AppState)
        ensures
            s == AppState::Running,
    {
        AppState::Running
    }
}

/// The other state.
pub open spec fn toggled(s: AppState) -> AppState {
    match s {
        AppState::Running => AppState::Paused,
        AppState::Paused => AppState::Running,
    }
}

/// The state to switch to this frame: Esc flips it, otherwise nothing changes.
pub fn toggle_pause(state: AppState, esc_pressed: bool) -> (next: Option<AppState>)
    ensures
        next == (if esc_pressed {
            Some(toggled(state))
        } else {
            None::<AppState>
        }),
{
    if esc_pressed {
        Some(match state {
            AppState::Running => AppState::Paused,
            AppState::Paused => AppState::Running,
        })
    } else {
        None
    }
}

/// Q quits, but only from behind the pause menu.
pub fn quits(state: AppState, q_pressed: bool) -> (quit: bool)
    ensures
        quit == (q_pressed && state == AppState::Paused),
{
    q_pressed && state == AppState::Paused
}

/// Whether the per-frame pipeline (input, movement, origin, sync, camera,
/// streaming) runs in `state`: it is frozen while paused.
pub fn frame_runs(state: AppState) -> (runs: bool)
    ensures
        runs == (state == AppState::Running),
{
    state == AppState::Running
}

/// Pressing Esc twice comes back to where it started.
pub proof fn lemma_toggle_twice(s: AppState)
    ensures
        toggled(toggled(s)) == s,
{
}

} // verus!
