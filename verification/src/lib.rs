//! Xiangqi (Chinese chess) rules engine, search, and the pure logic of the
//! online game server, with contracts checked by Verus.

pub mod board;
pub mod movegen;
pub mod rules;
pub mod text;
pub mod search;
pub mod game;
pub mod proto;
pub mod room;
pub mod db;
pub mod auth;
pub mod oauth;
pub mod handlers;
pub mod session;
pub mod state;
pub mod api;
pub mod util;
pub mod mail;
pub mod backup;
pub mod hub;
pub mod laws;
