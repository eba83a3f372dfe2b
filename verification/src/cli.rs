//! The commands a user can give the relay's command-line front ends.
//!
//! These are the parsed forms only; reading the actual command line is
//! the front ends' business. The daemon-side front end knows every
//! subcommand here, the control front end all but `Receive`.

use vstd::prelude::*;

verus! {

/// A parsed command line: one subcommand per invocation.
#[derive(Debug, Clone, PartialEq)]
pub struct Cli {
    pub commands: Subcommands,
}

/// The subcommands of the relay's command line.
#[derive(Debug, Clone, PartialEq)]
pub enum Subcommands {
    /// Listen for inbound transfer envelopes.
    Receive { from: Option<String>, port: Option<u16> },
    /// Send a text message to another instance.
    Send { to: String, port: u16, message: String },
    /// Send a file to another instance.
    SendFile { to: String, port: u16, file: String },
    /// Manage the mailbox of received messages and files.
    Mailbox { commands: MailboxSubcommands },
}

/// The mailbox management subcommands.
#[derive(Debug, Clone, PartialEq)]
pub enum MailboxSubcommands {
    /// List the messages and files in the mailbox.
    List { files: bool, messages: bool },
    /// Delete a message or file by its index.
    Delete { index: usize, file: bool, message: bool },
    /// Show a message or file by its index.
    Show { index: usize, file: bool, message: bool },
}

} // verus!
