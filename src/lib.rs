//! Rasterizing the wireframe of a spinning solid onto a grid of characters:
//! the canvas, the stepping line walk with clipping, the outlines of faces,
//! the terminal steps that draw a frame in place, and the run options.

pub mod canvas;
pub mod cli;
pub mod frame;
pub mod renderer;
