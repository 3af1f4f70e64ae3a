//! A SOCKS5 proxy that carries each connection through a framed tunnel.
pub mod bytes;
pub mod cert;
pub mod cli;
pub mod client;
pub mod crypto;
pub mod direct;
pub mod encrypted;
pub mod frame;
pub mod ip;
pub mod laws;
pub mod log;
pub mod plain;
pub mod process;
pub mod protocol;
pub mod proxy;
pub mod quic;
pub mod secret;
pub mod server;
pub mod stream;
pub mod text;
