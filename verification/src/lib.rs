//! Password-based file encryption with AES-256-GCM or ChaCha20-Poly1305,
//! the byte containers that carry an encrypted file or a batch of them,
//! and the request logic that turns uploads into containers and back.

pub mod models;
pub mod outside;
pub mod encryption;
pub mod container;
pub mod handlers;
pub mod utils;
