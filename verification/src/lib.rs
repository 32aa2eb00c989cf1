//! The verified core of Poliwave: reading the output of the platform WiFi
//! scanners and network utilities, building and ordering the network list,
//! and judging the connection from the diagnostic probes.

pub mod command_text;
pub mod decimal;
pub mod diagnostics;
pub mod macos;
pub mod netsh;
pub mod ping;
pub mod scan;
pub mod text;
pub mod wifi;
