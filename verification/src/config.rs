//! The configuration of the host and of the litigator, as plain values.
use vstd::prelude::*;

verus! {

/// Where an event log keeps its records: the application's name, and a
/// directory to keep them under in place of the usual one.
#[derive(Clone, Debug)]
pub struct EventLogConfig {
    pub app_name: String,
    pub prefix: Option<String>,
}

/// How the host runs its onion service: the directory of its keys, the
/// port of the proxy, the port the application listens on, the port the
/// service exposes, and the path of the application.
#[derive(Clone, Debug)]
pub struct TorConfig {
    pub directory: String,
    pub socks_port: u16,
    pub application_port: u16,
    pub exposed_application_port: u16,
    pub application_path: String,
}

} // verus!
