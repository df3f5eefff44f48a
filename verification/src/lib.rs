//! Stdin-oriented text utilities: the line-level logic behind each command.
pub mod commands;
pub mod io;
pub mod pattern;
pub mod text;
