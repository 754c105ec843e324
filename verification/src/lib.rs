//! Core of a progressive Monte-Carlo ray tracer: the deterministic random
//! number stream that drives sampling, the partition of the image into
//! vertical strips, and the pass/row bookkeeping that lets rendering be
//! paused after any row and resumed later without losing work.
//!
//! Everything that touches floating-point colour math, threads or the screen
//! lives outside this crate; the functions here decide *where* samples go and
//! *when* a pass is finished, and those decisions are verified.

pub mod camera;
pub mod random;
pub mod view;
