//! Monitoring of HomePlug AV powerline networks: the protocol, the scan, the health
//! check, the probe and the live monitor, without the input and output around them.

pub mod args;
pub mod check;
pub mod clock;
pub mod net;
pub mod probe;
pub mod protocol;
pub mod report;
pub mod restart;
pub mod scanner;
pub mod setup;
pub mod text;
pub mod tui;
pub mod types;
