//! A fixed-point 2D particle solver: circular bodies under gravity, pushed
//! apart when they overlap, held inside a circular arena, damped, and moved by
//! Verlet integration, one tick at a time.
pub mod arith;
pub mod body;
pub mod world;
pub mod laws;
