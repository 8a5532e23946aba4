//! The decision logic of a hub that spreads one language model over several
//! workers.
//!
//! Everything here is a function from plain values to plain values: sockets,
//! clocks, environment variables and JSON rendering live in the program
//! around this library.

pub mod api;
pub mod auth;
pub mod chance;
pub mod duo;
pub mod facts;
pub mod frame;
pub mod hash;
pub mod http;
pub mod hub;
pub mod idmap;
pub mod json;
pub mod laws;
pub mod message;
pub mod narrow;
pub mod pipeline;
pub mod reply;
pub mod roster;
pub mod score;
pub mod server;
pub mod session;
pub mod settings;
pub mod text;
pub mod wireguard;
pub mod worker;
