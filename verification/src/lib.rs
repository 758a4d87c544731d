//! `openpark` is a park simulator in the spirit of `RollerCoaster` Tycoon.
//!
//! This crate is the verified core of the game: the ground and what it costs,
//! the things built on it, the track rides are laid out of, the lines guests
//! stand in, the money, and the tools a player holds. Every rule here carries
//! a contract, and Verus checks the code against it.

pub mod cli;
pub mod demo;
pub mod park;
pub mod save;
pub mod text;
pub mod tool;
