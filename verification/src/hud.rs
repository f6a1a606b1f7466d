//! The HUD's backing data that is not geometry: the crystal wallet and the
//! current objective. (Ship condition bars, speed and distances are floating
//! point and live with the renderer.)

use vstd::prelude::*;
use crate::text::{decimal, push_decimal};

verus! {

/// Crystals collected (one reward per capture).
pub struct Wallet {
    pub crystals: u32,
}

impl Default for Wallet {
    /// An empty wallet.
    fn default() -> (w: Wallet)
        ensures
            w.crystals == 0,
    {
        Wallet { crystals: 0 }
    }
}

/// The objective line shown top left.
pub struct Objective(pub String);

impl Default for Objective {
    /// The opening objective.
    fn default() -> (o: Objective)
        ensures
            o.0@ == "Find a new planet"@,
    {
        Objective(String::from_str("Find a new planet"))
    }
}

/// The crystal counter: a diamond and the count.
pub fn crystals_text(wallet: &Wallet) -> (text: String)
    ensures
        text@ == "\u{25C6} "@ + decimal(wallet.crystals as nat),
{
    let mut text = String::from_str("\u{25C6} ");
    push_decimal(&mut text, wallet.crystals as u64);
    text
}

/// The distance read-out: to the selected target when there is one, else to
/// the nearest world; a warp marker while the autopilot flies; then the keys.
pub fn distance_text(to_target: bool, distance: &str, warping: bool) -> (text: String)
    ensures
        text@ == (if to_target {
            "TARGET"@
        } else {
            "NEAREST"@
        }) + "  "@ + distance@ + (if warping {
            "  \u{25B6} WARP"@
        } else {
            ""@
        }) + "\n[T] target   [G] warp"@,
{
    let mut text = if to_target {
        String::from_str("TARGET")
    } else {
        String::from_str("NEAREST")
    };
    text.append("  ");
    text.append(distance);
    if warping {
        text.append("  \u{25B6} WARP");
    } else {
        text.append("");
    }
    text.append("\n[T] target   [G] warp");
    text
}

} // verus!
