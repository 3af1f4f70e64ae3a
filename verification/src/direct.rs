//! The direct variant of the tunnel: frames that carry their nonce, and a
//! header and a status without frames where there is no encryption.
pub mod client;
pub mod crypto;
pub mod server;
pub mod tunnel;
