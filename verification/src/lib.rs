//! Minecraft protocol and world-format primitives with verified contracts.
pub mod buffers;
pub mod varint;
pub mod text;
pub mod state;
pub mod packet;
pub mod handshake;
pub mod status;
pub mod login;
pub mod config;
pub mod nbt;
pub mod chunk;
pub mod compress;
pub mod framing;
pub mod login_packet;
pub mod level_chunk;
pub mod region;
pub mod column;
pub mod server_state;
pub mod play;
pub mod ping;
pub mod world;
pub mod templates;
