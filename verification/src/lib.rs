//! Backend engine for a two-team word-association party game.
//!
//! The library holds the verified core: the board, the per-team and
//! per-game state machines, the room and server directories, and the
//! JSON codec for requests and broadcast snapshots.  Socket handling
//! and the event loop live outside the library and drive it through
//! plain values: connection tokens are `usize`, text is UTF-8 bytes.

pub mod board;
pub mod bytes;
pub mod error;
pub mod game;
pub mod gameteam;
pub mod ident;
pub mod idgenerator;
pub mod json;
pub mod request;
pub mod response;
pub mod room;
pub mod roster;
pub mod server;
pub mod stream;
pub mod team;
pub mod text;
