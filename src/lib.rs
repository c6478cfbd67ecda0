//! An in-memory, multi-keyspace key/value store: its wire codec, command
//! layer and keyspace engine, each stated and proved with Verus.

pub mod blob;
pub mod client;
pub mod command;
pub mod command_laws;
pub mod connection;
pub mod digits;
pub mod display;
pub mod encode;
pub mod frame;
pub mod frame_laws;
pub mod keyspace;
pub mod text;
