//! A memory-gauge keeper for matches of the Digimon card game played over
//! chat: players open a game against each other, spend and gain energy, pass
//! the turn and customise the gauge picture of their game. The library reads
//! each message as a command, keeps the table of running games, and says what
//! to send back; sending, looking up user names and drawing are done outside.
pub mod color;
pub mod commands;
pub mod game;
pub mod gauge;
pub mod invariants;
pub mod render;
pub mod responses;
pub mod text;
