pub mod bytes;
pub mod codec;
pub mod commands;
pub mod crypto;
pub mod generator;
pub mod secret;
pub mod store;
pub mod vault;
