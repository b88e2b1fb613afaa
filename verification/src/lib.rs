//! Core of a guess-the-number game: a secret in [1, 100], a per-game
//! attempt counter, and a fixed table marking which values were already
//! tried. Drivers (an interactive loop, an HTTP handler) call [`game::GuessGame::play`]
//! and render the outcome with the helpers in [`response`].

pub mod game;
pub mod response;
mod rng;
