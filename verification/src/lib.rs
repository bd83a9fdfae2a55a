//! An animated checkerboard pattern: a bounded triangle-wave oscillator
//! drives the cell size, and a pattern generator fills a pixel buffer
//! with colors chosen by checkerboard cell parity.

pub mod color;
pub mod oscillator;
pub mod pattern;
