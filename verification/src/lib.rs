//! The protocol, the rules and the text formats of a meter reader for Tuya devices on the
//! local network.

pub mod base64;
pub mod bytes;
pub mod calendar;
pub mod config;
pub mod control;
pub mod crypto;
pub mod device;
pub mod discovery;
pub mod dps;
pub mod frame;
pub mod hass;
pub mod json;
pub mod logfile;
pub mod logger;
pub mod meter;
pub mod query;
pub mod server;
pub mod session;
pub mod text;
