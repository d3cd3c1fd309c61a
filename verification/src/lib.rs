//! The core of a small Minecraft-protocol server: the wire format (VarInts
//! and strings), reading the packets a client sends in each stage of its
//! connection, what the server answers and how the connection moves on,
//! the configuration files, and the player registry.

pub mod config;
pub mod logs;
pub mod server;
pub mod world;
