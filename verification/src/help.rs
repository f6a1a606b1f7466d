//! The toggleable controls reference (H, or gamepad Start), and how an
//! overlay panel follows its open flag.

use vstd::prelude::*;

verus! {

/// What to do with an overlay panel this frame.
#[derive(Clone, Copy, PartialEq, Eq, Debug, Structural)]
pub enum PanelAction {
    Spawn,
    Despawn,
    Keep,
}

/// Spawn the panel when it should be open and is not shown, despawn it when it
/// should be closed and is shown, else leave it.
pub open spec fn panel_for(open: bool, shown: bool) -> PanelAction {
    if open && !shown {
        PanelAction::Spawn
    } else if !open && shown {
        PanelAction::Despawn
    } else {
        PanelAction::Keep
    }
}

/// Bring the panel in line with its flag.
pub fn panel_action(open: bool, shown: bool) -> (action: PanelAction)
    ensures
        action == panel_for(open, shown),
{
    if open && !shown {
        PanelAction::Spawn
    } else if !open && shown {
        PanelAction::Despawn
    } else {
        PanelAction::Keep
    }
}

/// Whether the panel is on screen after `action`.
pub open spec fn shown_after(shown: bool, action: PanelAction) -> bool {
    match action {
        PanelAction::Spawn => true,
        PanelAction::Despawn => false,
        PanelAction::Keep => shown,
    }
}

/// After one sync the panel is on screen exactly when it is open, and a second
/// sync leaves it alone.
pub proof fn lemma_panel_follows_flag(open: bool, shown: bool)
    ensures
        shown_after(shown, panel_for(open, shown)) == open,
        panel_for(open, shown_after(shown, panel_for(open, shown))) == PanelAction::Keep,
{
}

/// The controls overlay's state.
pub struct HelpView {
    pub open: bool,
}

impl Default for HelpView {
    /// Closed at start.
    fn default() -> (v: HelpView)
        ensures
            !v.open,
    {
        HelpView { open: false }
    }
}

impl HelpView {
    /// H (or Start) flips the overlay.
    pub fn toggle(&mut self, pressed: bool)
        ensures
            final(self).open == (old(self).open != pressed),
    {
        if pressed {
            self.open = !self.open;
        }
    }
}

} // verus!
