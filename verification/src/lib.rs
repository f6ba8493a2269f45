//! Client-side logic for the forexpros.com snapshot stream, a realtime
//! instrument source for investing.com.
//!
//! - `url`: the address of a randomly chosen stream server;
//! - `protocol`: the messages the client sends and the key by which it knows
//!   the frames of its pair;
//! - `frame`: where the JSON text of a snapshot sits in a frame, and how it
//!   is unescaped;
//! - `session`: the client's decisions, as a state machine driven by the
//!   caller, which performs the network I/O;
//! - `text`: substring search and pattern removal over characters.

pub mod text;
pub mod frame;
pub mod url;
pub mod protocol;
pub mod session;
