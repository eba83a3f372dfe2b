//! The dispatcher's compute half: building outbound transfer envelopes.
//!
//! The surrounding program opens the outbound connection and writes the
//! bytes built here; closing the connection marks the end of the one
//! message it carries. Both builders refuse a destination that is not a
//! well-formed IPv4 address before any network work is attempted.

use vstd::prelude::*;

verus! {

use vstd::string::StringExecFns;
use crate::raven::{Raven, RavenView, encode_raven, spec_encode_raven};
use crate::util::{basename, is_ipv4_address, spec_basename, spec_is_ipv4};

/// Builds the wire bytes that send `message` as a text transfer
/// envelope to `to`, or refuses a malformed destination address.
pub fn send(to: &str, message: String) -> (r: Result<Vec<u8>, String>)
    ensures
        spec_is_ipv4(to@) ==> (r matches Ok(v) && v@ == spec_encode_raven(
            RavenView::Text { text: message@ },
        )),
        !spec_is_ipv4(to@) ==> (r matches Err(e) && e@ == "Invalid ipv4 address "@ + to@),
{
    if !is_ipv4_address(to) {
        let mut e = String::from_str("Invalid ipv4 address ");
        e.append(to);
        return Err(e);
    }
    Ok(encode_raven(&Raven::Text { text: message }))
}

/// Builds the wire bytes that send the file at `file`, already read
/// into `content`, as a file transfer envelope to `to`: the envelope
/// carries the file's base name, not its whole path. A malformed
/// destination address is refused.
pub fn send_file(to: &str, file: &str, content: Vec<u8>) -> (r: Result<Vec<u8>, String>)
    ensures
        spec_is_ipv4(to@) ==> (r matches Ok(v) && v@ == spec_encode_raven(
            RavenView::File { name: spec_basename(file@), content: content@ },
        )),
        !spec_is_ipv4(to@) ==> (r matches Err(e) && e@ == "Invalid address"@),
{
    if !is_ipv4_address(to) {
        return Err(String::from_str("Invalid address"));
    }
    let name = basename(file).to_owned();
    Ok(encode_raven(&Raven::File { name, content }))
}

} // verus!
