//! Kaolin: a flexbox-style layout engine producing ordered draw commands.
//!
//! A tree of containers and text runs is laid out against a fixed viewport:
//! widths are fitted bottom-up, grown/shrunk top-down, text is wrapped against
//! final widths, heights are grown, absolute positions are assigned, and a
//! pre-order walk emits rectangle and text-line commands.
//!
//! All geometry is measured in integer layout units; `style::sizing::MAX_DIM`
//! is the ceiling on every dimension and stands in for an unbounded maximum.

pub mod commands;
pub mod elements;
pub mod kaolin;
pub mod measure;
pub mod style;

pub use kaolin::Kaolin;
