//! Verified core of the `edl` download manager: segment planning, speed
//! limiting, configuration parsing, header and RPC request handling, and the
//! task bookkeeping that the download engine relies on.

pub mod cli;
pub mod config;
pub mod daemon;
pub mod download_core;
pub mod net;
pub mod rpc;
pub mod storage;
pub mod util;
