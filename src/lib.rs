//! A grid of foraging agents driven by small neural controllers.
//!
//! The library holds the world: agent positions and hunger, the food index,
//! sensor rays, wrap-around movement and the bookkeeping of one tick. The
//! controller that turns sensor readings into moves is supplied by the caller.

pub mod random;
pub mod food;
pub mod cell;
pub mod game;
pub mod tick;
