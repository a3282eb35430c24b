//! A sandbox execution host: a registry of owned resources, instances that
//! cycle script fragments through slots, and the four operations (register,
//! poll, run, cancel) that script code drives them with.

pub mod config;
pub mod error;
pub mod host;
pub mod instance;
pub mod registry;
pub mod value;
