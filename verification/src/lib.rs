//! A deterministic 2D deformable-body simulator: a grid of point masses
//! joined by elastic bonds, advanced by semi-implicit Euler integration and
//! resolved against static circular and axis-aligned box obstacles.
//!
//! Every quantity is a fixed-point integer in scaled units (the caller picks
//! the scale; one time unit is `TIME_SCALE` ticks of `dt`). This makes each
//! step an exact function of the previous state, so two simulations built
//! and stepped alike agree bit for bit.

pub mod num;
pub mod state;
pub mod topology;
pub mod forces;
pub mod integrate;
pub mod collision;
pub mod sim;
pub mod laws;
