//! A point-to-point relay for text messages and file attachments on a
//! trusted local network.
//!
//! The crate holds the daemon's transfer pipeline: the wire envelopes and
//! their codec ([`raven`]), the persistent mailbox store ([`mailbox`]), the
//! collision-free file naming and address checks ([`util`]), the per-request
//! decision logic of the two accept loops and of the outbound dispatcher
//! ([`daemon`], [`send`], [`front`]), and the configuration value they share
//! ([`config`]). Network and file system access stay outside; every function
//! here is a total computation on plain values, with its behaviour stated in
//! its contract. The clock is the one outside call, behind [`timestamp`]'s
//! trusted reader; [`wire`] and [`text`] hold the byte- and text-level
//! building blocks the components share.

pub mod cli;
pub mod config;
pub mod daemon;
pub mod front;
pub mod mailbox;
pub mod raven;
pub mod send;
pub mod text;
pub mod timestamp;
pub mod util;
pub mod wire;
