//! The colour themes cycled with T. Their palettes are colours; what is decided
//! here is which theme follows which.

use vstd::prelude::*;
use crate::creatures::same_text;

verus! {

/// The three built-in themes.
#[derive(Clone, Copy, PartialEq, Eq, Debug, Structural)]
pub enum ThemeKind {
    DarkNeon,
    CleanPastel,
    Earthy,
}

pub open spec fn theme_name(k: ThemeKind) -> Seq<char> {
    match k {
        ThemeKind::DarkNeon => "dark_neon"@,
        ThemeKind::CleanPastel => "clean_pastel"@,
        ThemeKind::Earthy => "earthy"@,
    }
}

/// The theme that follows `k` in the cycle.
pub open spec fn following(k: ThemeKind) -> ThemeKind {
    match k {
        ThemeKind::DarkNeon => ThemeKind::CleanPastel,
        ThemeKind::CleanPastel => ThemeKind::Earthy,
        ThemeKind::Earthy => ThemeKind::DarkNeon,
    }
}

impl ThemeKind {
    /// The theme the game starts with.
    pub fn initial() -> (k: ThemeKind)
        ensures
            k == ThemeKind::DarkNeon,
    {
        ThemeKind::DarkNeon
    }

    /// The theme's name.
    pub fn name(self) -> (name: &'static str)
        ensures
            name@ == theme_name(self),
    {
        match self {
            ThemeKind::DarkNeon => "dark_neon",
            ThemeKind::CleanPastel => "clean_pastel",
            ThemeKind::Earthy => "earthy",
        }
    }
}

/// The theme T switches to from the theme named `current`: dark neon, then
/// clean pastel, then earthy; any other name goes back to dark neon.
pub open spec fn next_of(current: Seq<char>) -> ThemeKind {
    if current == theme_name(ThemeKind::DarkNeon) {
        ThemeKind::CleanPastel
    } else if current == theme_name(ThemeKind::CleanPastel) {
        ThemeKind::Earthy
    } else {
        ThemeKind::DarkNeon
    }
}

/// The theme T switches to from the theme named `current`.
pub fn next_theme(current: &str) -> (next: ThemeKind)
    ensures
        next == next_of(current@),
{
    if same_text(current, "dark_neon") {
        ThemeKind::CleanPastel
    } else if same_text(current, "clean_pastel") {
        ThemeKind::Earthy
    } else {
        ThemeKind::DarkNeon
    }
}

/// From each theme, T moves on to the one after it in the cycle.
pub proof fn lemma_next_follows(k: ThemeKind)
    ensures
        next_of(theme_name(k)) == following(k),
{
    reveal_strlit("dark_neon");
    reveal_strlit("clean_pastel");
    reveal_strlit("earthy");
    assert(theme_name(ThemeKind::DarkNeon).len() != theme_name(ThemeKind::CleanPastel).len());
    assert(theme_name(ThemeKind::DarkNeon).len() != theme_name(ThemeKind::Earthy).len());
    assert(theme_name(ThemeKind::CleanPastel).len() != theme_name(ThemeKind::Earthy).len());
}

/// Pressing T three times comes back to the same theme.
pub proof fn lemma_three_presses_cycle(k: ThemeKind)
    ensures
        next_of(theme_name(next_of(theme_name(next_of(theme_name(k)))))) == k,
{
    lemma_next_follows(k);
    lemma_next_follows(following(k));
    lemma_next_follows(following(following(k)));
}

} // verus!
