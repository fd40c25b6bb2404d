//! A small in-memory key/value and publish/subscribe server core speaking
//! the RESP line protocol: the frame codec, the command model, the shared
//! store and the decisions of the connection and subscribe sessions.

pub mod frame;
pub mod text;
pub mod parse;
pub mod cmd;
pub mod db;
pub mod session;
pub mod client;
pub mod accept;
