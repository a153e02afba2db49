//! Game logic of Fortyone, a multiplayer 41-Rummy card game: cards and
//! their text form, the round engine, the server's session decisions and
//! the client's view of a game.

pub mod auth;
pub mod card;
pub mod client;
pub mod config;
pub mod error;
pub mod game;
pub mod ids;
pub mod manager;
pub mod session;
pub mod text;
