//! A falling-sand simulation: a square grid of material cells that fall, flow,
//! burn, dissolve and grow under local rules, advanced one tick at a time over
//! a pair of grids, one read and one written.

pub mod brush;
pub mod cells;
pub mod census;
pub mod coins;
pub mod frame;
pub mod game;
pub mod input;
pub mod laws;
pub mod model;
pub mod passes;
pub mod render;
pub mod rules;
pub mod sums;
pub mod tick;
pub mod vines;
