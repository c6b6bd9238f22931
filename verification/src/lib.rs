//! A word-guessing game: scoring of guesses, player records and their
//! text form, and the rules that sequence a session.

pub mod database;
pub mod dictionary;
pub mod game;
pub mod players;
pub mod registry;
pub mod scoring;
pub mod session;
pub mod text;
