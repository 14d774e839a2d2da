//! The core of an interactive N-body gravity simulator that draws into a
//! pixel buffer: typed coordinate spaces, the rasteriser of brush and marker
//! shapes, the reduction of key and mouse events, and the frame state with
//! its pixel buffer. Every function is verified against its contract.
//!
//! The particles themselves and their physics are floating-point work and
//! live with the program that opens the window. A frame therefore has two
//! halves: [`gravity_sim::GravitySim::begin_frame`] reads the inputs and
//! says what the particle world has to do, and
//! [`gravity_sim::GravitySim::end_frame`] draws the particles it is handed.

pub mod colour;
pub mod config;
pub mod gravity_sim;
pub mod input;
pub mod shape;
pub mod space;
