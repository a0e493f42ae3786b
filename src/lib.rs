//! Surface picking and density brushing for a block-partitioned signed-density terrain.
//!
//! World positions are fixed-point integers: one world unit is `FIXED_ONE` steps.
//! Density samples are integers; a sign change marks the terrain surface.
pub mod block;
pub mod brush;
pub mod controls;
pub mod cursor;
pub mod density;
pub mod editor;
pub mod geometry;
