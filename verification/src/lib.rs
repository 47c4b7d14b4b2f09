//! Core logic of a terminal snake game: the snake's movement and collision
//! state machine, the game state with food placement, the key-to-command
//! mapping, and the fixed-timestep scheduling decisions. Terminal I/O and the
//! keyboard thread live outside this crate and talk to it in plain values.

pub mod game;
pub mod sched;
pub mod snake;
