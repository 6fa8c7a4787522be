//! Core logic of a grid-based snake game, verified.
//!
//! The library owns everything with algorithmic content: grid geometry and
//! food placement, the snake's movement, growth and death detection, the
//! bounded input queue, the fixed-tick game state machine, and the software
//! framebuffer with its drawing routines. Windowing, keyboard decoding,
//! glyph rasterization and surface presentation are left to the surrounding
//! application, which talks to the library through plain values.

pub mod frame;
pub mod game;
pub mod geom;
pub mod input;
mod rng;
pub mod snake;
pub mod text;
pub mod world;
