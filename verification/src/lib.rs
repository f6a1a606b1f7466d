//! Galaxy Roamer: the rules and generators behind a small space-exploration and
//! creature-collecting game, with their contracts proved by Verus.

pub mod planet;
pub mod creatures;
pub mod text;
pub mod save;
pub mod battle;
pub mod rng;
pub mod galaxy;
pub mod city;
pub mod pause;
pub mod theme;
pub mod onfoot;
pub mod help;
pub mod party;
pub mod targeting;
pub mod warp;
pub mod hud;
pub mod toast;
