//! The parts of the jarvish shell that decide and compute: completion by a zsh
//! that is kept running, the colours of the command line, the prompt, and what
//! the assistant says.
//!
//! Files, processes and the terminal are left to the caller: a function that
//! stands before or behind such work takes what came of it and returns what is
//! to be done next. Two functions ask the machine themselves: the right prompt
//! reads the clock and the time zone, and the name of a new initialisation
//! script holds a random number.

pub mod bridge;
pub mod budget;
pub mod capture;
pub mod daemon;
pub mod escape;
pub mod framing;
pub mod git;
pub mod highlighter;
pub mod jarvis;
pub mod lifecycle;
pub mod prompt;
pub mod provider;
pub mod settings;
pub mod spawn;
pub mod stale;
pub mod style;
pub mod text;
