//! Verified core of the node-access tools: mapping syntax, relay URLs, frame
//! encryption, stream multiplexing, SOCKS5 negotiation and provider routing.

pub mod access;
pub mod calls;
pub mod crypto;
pub mod frame;
pub mod legacy_cli;
pub mod mapping;
pub mod mux;
pub mod mux_laws;
pub mod number;
pub mod relay_ws;
pub mod serve;
pub mod serve_laws;
pub mod socks;
pub mod socks_laws;
pub mod text;
pub mod text_map;
