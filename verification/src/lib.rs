//! Clipboard synchronisation between two machines: payload encoding,
//! transfer framing over Noise, configuration and the echo-suppressing
//! synchronisation state.

pub mod text;
pub mod wire;
pub mod key;
pub mod clip;
pub mod proto;
pub mod daemon;
pub mod config;
