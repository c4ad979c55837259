//! Stateless scanner for UDP and TCP game-service protocols.
//!
//! Replies are authenticated by a cookie recomputed from the packet's
//! apparent source, so no per-target state is kept between probe and reply.
pub mod bytes;
pub mod config;
pub mod cookie;
pub mod decimal;
pub mod fingerprint;
pub mod frames;
pub mod protocols;
pub mod tcp;
pub mod tcpscanner;
pub mod text;
pub mod udpscanner;
pub mod utils;
