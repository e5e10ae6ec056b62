//! Sixteen-lane signed 8-bit vectors over a 128-bit register, with lane-wise
//! arithmetic, boolean-lane masks, partial loads and stores, and reductions.

pub mod vectori128;
