//! Layered configuration and structured logging for services.

pub mod bootstrap;
pub mod config;
pub mod logging;
pub mod text;

pub use bootstrap::{Bootstrap, InitError, Options};
