//! Terminal arcade games: a geometry kernel in game and screen space, and
//! the state machines of a growing snake, a paddle game, a falling-block
//! puzzle and a shooting gallery, each update with its rules proved.
use vstd::prelude::*;

pub mod game;
pub mod keep;
pub mod point;
pub mod pong;
pub mod snake;
pub mod space_invaders;
pub mod tetris;
mod rng;

verus! {

} // verus!
