//! The configuration value the daemon's loops share.
//!
//! The core consumes a configuration as plain values: the home directory
//! under which the mailbox document and received files live, and the two
//! listener endpoints. Loading and saving the configuration file, and
//! finding the home directory, belong to the surrounding program; it
//! hands the result in through [`Config::new`] or field by field.

use vstd::prelude::*;

verus! {

use vstd::string::StringExecFns;
use crate::util::{listen_default_address, LISTEN_DEFAULT_PORT, LOCAL_DEFAULT_PORT};

/// The configuration of one relay instance.
#[derive(Debug, Clone, PartialEq)]
pub struct Config {
    /// The home folder: the mailbox document and received files live under it.
    pub raven_home: String,
    /// Where the remote listener accepts transfer envelopes.
    pub receiver: Receiver,
    /// Where the local control listener accepts control envelopes.
    pub local: Local,
}

/// The remote listener's endpoint.
#[derive(Debug, Clone, PartialEq)]
pub struct Receiver {
    /// The IPv4 address the remote listener binds.
    pub address: String,
    /// The port the remote listener binds.
    pub port: u16,
}

/// The local control listener's endpoint.
#[derive(Debug, Clone, PartialEq)]
pub struct Local {
    /// The IPv4 address the local control listener binds.
    pub address: String,
    /// The port the local control listener binds.
    pub port: u16,
}

impl Default for Receiver {
    /// The default remote endpoint: every interface, port 12345.
    fn default() -> (r: Receiver)
        ensures
            r.address@ == "0.0.0.0"@,
            r.port == LISTEN_DEFAULT_PORT,
    {
        Receiver { address: listen_default_address(), port: LISTEN_DEFAULT_PORT }
    }
}

impl Default for Local {
    /// The default control endpoint: every interface, port 23455.
    fn default() -> (r: Local)
        ensures
            r.address@ == "0.0.0.0"@,
            r.port == LOCAL_DEFAULT_PORT,
    {
        Local { address: listen_default_address(), port: LOCAL_DEFAULT_PORT }
    }
}

impl Config {
    /// A configuration with the given home folder and both endpoints at
    /// their defaults.
    pub fn new(raven_home: String) -> (r: Config)
        ensures
            r.raven_home@ == raven_home@,
            r.receiver.address@ == "0.0.0.0"@,
            r.receiver.port == LISTEN_DEFAULT_PORT,
            r.local.address@ == "0.0.0.0"@,
            r.local.port == LOCAL_DEFAULT_PORT,
    {
        Config { raven_home, receiver: Default::default(), local: Default::default() }
    }
}

} // verus!
