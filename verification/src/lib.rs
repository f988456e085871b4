//! A draughts arena: the rules engine that lists the legal move sequences of a
//! position under the forced-maximum-capture rule, and the session logic that
//! lets a human play against a submitted program.

pub mod api;
pub mod config;
pub mod docker;
pub mod game;
