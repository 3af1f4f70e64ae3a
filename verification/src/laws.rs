//! What holds of the library as a whole, said in characters, bytes and numbers.
pub mod addresses;
pub mod certificates;
pub mod commands;
pub mod frames;
pub mod headers;
pub mod hosts;
pub mod keys;
pub mod lines;
pub mod messages;
pub mod numbers;
pub mod socks;
pub mod tunnels;
