//! A side-scrolling runner game: the runner jumps over obstacles that scroll in
//! from the right, and the run ends when one of them is hit.
//!
//! The simulation works on fixed-point integers (see `physics::SUBPIXELS`);
//! drawing and input belong to the surrounding application, which hands the
//! library the number of jump presses of each frame.

pub mod game;
pub mod obstacle;
pub mod physics;
pub mod score;
pub mod spawner;

pub use game::{AppStatus, DinoGame};
pub use obstacle::Enemy;
