//! Reconciliation engine for a game server's polled admin state: unique
//! player identities, match lifecycles and per-match participation.
pub mod args;
mod clock;
pub mod cookies;
pub mod game_session;
pub mod html;
pub mod identity;
pub mod models;
pub mod parse;
pub mod player_session;
pub mod text;
