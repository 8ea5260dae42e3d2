//! Local-network discovery and port scanning, with verified parsing and
//! reconciliation logic.
//!
//! The crate answers three questions about a network: which devices are
//! alive on a subnet, which ports on a target host are open, and what kind
//! of service listens there. All decision and parsing logic is verified;
//! the process-spawning and socket I/O around it lives outside the library
//! and hands in plain values.

use vstd::prelude::*;

pub mod advanced;
pub mod diag;
pub mod discovery;
pub mod docker;
pub mod export;
pub mod interfaces;
pub mod ports;
pub mod portscan;
pub mod process;
pub mod services;
pub mod sorting;
pub mod text;


