//! A falling-sand simulation kernel on a coarse 10-unit grid.
//!
//! Particles spawn at grid-aligned positions, fall one cell per tick, and
//! settle into stable piles: a particle blocked from below either freezes in
//! place (when the pile beneath it is walled in on both sides) or is displaced
//! one cell toward an open side. The whole per-tick step is a pure function of
//! the current particle list; the only nondeterminism is a random left/right
//! tie-break, which callers can replace with an explicit coin sequence.

pub mod engine;
pub mod grid;
pub mod pixel;
