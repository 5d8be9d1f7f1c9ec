//! MyLLM Connect: the pairing, authorization and status logic of the
//! desktop companion that lets the MyLLM iOS app reach the user's own model
//! server over HTTPS.

pub mod encoding;
pub mod ollama;
pub mod pairing;
pub mod platform;
pub mod proxy;
pub mod share;
pub mod tailscale;
pub mod text;
