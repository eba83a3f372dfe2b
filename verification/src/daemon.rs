//! The per-request decisions of the daemon's two accept loops.
//!
//! The surrounding program owns the sockets. For each inbound network
//! connection it reads to end-of-stream and hands the bytes to
//! [`receive`], which decodes the transfer envelope and says what to do:
//! persist the updated mailbox, or store a file under a collision-free
//! name and then record it. For each local control connection it hands
//! the bytes to [`control_request`], performs the dispatch if one is
//! asked, and replies with what [`control_reply`] builds. A failure
//! anywhere concerns only that connection; the loops go on.

use vstd::prelude::*;

verus! {

use vstd::string::StringExecFns;
use crate::mailbox::{MailBox, MailMessageView};
use crate::raven::{
    Raven, RavenView, SysRaven, SysRavenView, decode_raven, decode_sys_raven, encode_raven,
    encode_sys_raven, spec_decode_raven, spec_decode_sys_raven, spec_encode_raven,
    spec_encode_sys_raven,
};
use crate::timestamp::Timestamp;
use crate::util::{is_disambiguation, is_ipv4_address, names_contain, non_colliding_filename, spec_is_ipv4};
use crate::wire::DecodeError;

/// What the surrounding program must do after one inbound transfer
/// envelope was handled.
#[derive(Debug, Clone, PartialEq)]
pub enum Arrival {
    /// The envelope was a text message; it is already in the mailbox,
    /// which must now be persisted.
    SaveText,
    /// The envelope was a file: write `content` to `path` — a name free
    /// among the existing ones — and only then record it with
    /// [`MailBox::add_file`] and persist.
    StoreFile { path: String, content: Vec<u8> },
}

/// Handles the bytes of one inbound connection: decodes the transfer
/// envelope, appends a text message to the mailbox or picks the
/// collision-free path for a file, and reports what remains to be done.
/// A decode failure changes nothing and abandons only this connection.
pub fn receive(
    mailbox: &mut MailBox,
    bytes: &[u8],
    sender: String,
    now: Timestamp,
    data_dir: &str,
    existing: &Vec<String>,
) -> (r: Result<Arrival, DecodeError>)
    requires
        existing@.len() < usize::MAX,
    ensures
        match r {
            Ok(a) => match spec_decode_raven(bytes@) {
                Ok(v) => match v {
                    RavenView::Text { text } => a is SaveText && final(mailbox)@.messages == old(mailbox)@.messages.push(MailMessageView { from: sender@, when: now, text }) && final(mailbox)@.files == old(mailbox)@.files,
                    RavenView::File { name, content } => (a matches Arrival::StoreFile {
                        path,
                        content: stored,
                    } && stored@ == content && !names_contain(existing.deep_view(), path@)
                        && is_disambiguation(
                        data_dir@ + "/"@ + name,
                        existing.deep_view(),
                        path@,
                    )) && final(mailbox)@ == old(mailbox)@,
                },
                Err(_) => false,
            },
            Err(e) => spec_decode_raven(bytes@) == Err::<RavenView, DecodeError>(e) && final(mailbox)@ == old(mailbox)@,
        },
{
    match decode_raven(bytes) {
        Err(e) => Err(e),
        Ok(Raven::Text { text }) => {
            mailbox.add_message(sender, now, text);
            Ok(Arrival::SaveText)
        },
        Ok(Raven::File { name, content }) => {
            let mut desired = String::from_str(data_dir);
            desired.append("/");
            desired.append(name.as_str());
            let path = non_colliding_filename(desired.as_str(), existing);
            Ok(Arrival::StoreFile { path, content })
        },
    }
}

/// What the local control listener must do for one control connection.
#[derive(Debug, Clone, PartialEq)]
pub enum ControlStep {
    /// Write `reply` back and close; no outbound work is asked.
    Reply { reply: Vec<u8> },
    /// Open an outbound connection to `to:port`, write `envelope`, close
    /// the sending side, and reply with what [`control_reply`] builds
    /// from the outcome.
    Dispatch { to: String, port: u16, envelope: Vec<u8> },
}

/// Handles the bytes of one control connection. A well-formed `Send`
/// request to a well-formed IPv4 destination becomes a dispatch carrying
/// the encoded text transfer envelope; anything else is answered with an
/// error reply at once, and no network work is attempted.
pub fn control_request(request: &[u8]) -> (r: ControlStep)
    ensures
        match spec_decode_sys_raven(request@) {
            Ok(v) => match v {
                SysRavenView::Send { to, port, message } => if spec_is_ipv4(to) {
                    r matches ControlStep::Dispatch { to: t, port: p, envelope } && t@ == to && p
                        == port && envelope@ == spec_encode_raven(
                        RavenView::Text { text: message },
                    )
                } else {
                    r matches ControlStep::Reply { reply } && reply@ == spec_encode_sys_raven(
                        SysRavenView::Error { message: "invalid destination address"@ },
                    )
                },
                _ => r matches ControlStep::Reply { reply } && reply@ == spec_encode_sys_raven(
                    SysRavenView::Error { message: "unsupported control request"@ },
                ),
            },
            Err(_) => r matches ControlStep::Reply { reply } && reply@ == spec_encode_sys_raven(
                SysRavenView::Error { message: "malformed control request"@ },
            ),
        },
{
    match decode_sys_raven(request) {
        Ok(SysRaven::Send { to, port, message }) => {
            if is_ipv4_address(to.as_str()) {
                let envelope = encode_raven(&Raven::Text { text: message });
                ControlStep::Dispatch { to, port, envelope }
            } else {
                let reply = encode_sys_raven(
                    &SysRaven::Error { message: String::from_str("invalid destination address") },
                );
                ControlStep::Reply { reply }
            }
        },
        Ok(_) => {
            let reply = encode_sys_raven(
                &SysRaven::Error { message: String::from_str("unsupported control request") },
            );
            ControlStep::Reply { reply }
        },
        Err(_) => {
            let reply = encode_sys_raven(
                &SysRaven::Error { message: String::from_str("malformed control request") },
            );
            ControlStep::Reply { reply }
        },
    }
}

/// Builds the control reply for a dispatch outcome: `Okay` when the
/// envelope was handed to the transport, `Error` with the cause when not.
pub fn control_reply(outcome: Result<(), String>) -> (r: Vec<u8>)
    ensures
        match outcome {
            Ok(_) => r@ == spec_encode_sys_raven(SysRavenView::Okay),
            Err(m) => r@ == spec_encode_sys_raven(SysRavenView::Error { message: m@ }),
        },
{
    match outcome {
        Ok(_) => encode_sys_raven(&SysRaven::Okay),
        Err(message) => encode_sys_raven(&SysRaven::Error { message }),
    }
}

} // verus!
