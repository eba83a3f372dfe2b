//! The interactive front end's compute half.
//!
//! The front end talks to the daemon over the local control socket:
//! [`send_request`] builds the control envelope asking for a send, and
//! [`read_reply`] judges the daemon's answer. [`manage`] carries out a
//! mailbox command like [`crate::mailbox::manage`], but insists that a
//! delete or show names either a file or a message.

use vstd::prelude::*;

verus! {

use vstd::string::StringExecFns;
use crate::cli::MailboxSubcommands;
use crate::mailbox::{
    MailBox, ManageEffect, file_not_found_line, message_not_found_line, spec_file_not_found,
    spec_list_lines, spec_message_not_found,
};
use crate::raven::{
    SysRaven, SysRavenView, decode_sys_raven, encode_sys_raven, spec_decode_sys_raven,
    spec_encode_sys_raven,
};
use crate::util::{is_ipv4_address, spec_is_ipv4};

/// Builds the control envelope asking the daemon to send `message` to
/// the peer at `to:port`, or refuses a malformed destination address
/// before anything reaches the daemon.
pub fn send_request(to: &str, port: u16, message: &str) -> (r: Result<Vec<u8>, String>)
    ensures
        spec_is_ipv4(to@) ==> (r matches Ok(v) && v@ == spec_encode_sys_raven(
            SysRavenView::Send { to: to@, port, message: message@ },
        )),
        !spec_is_ipv4(to@) ==> (r matches Err(e) && e@ == "Invalid ipv4 address "@ + to@),
{
    if !is_ipv4_address(to) {
        let mut e = String::from_str("Invalid ipv4 address ");
        e.append(to);
        return Err(e);
    }
    let envelope = SysRaven::Send {
        to: to.to_owned(),
        port,
        message: message.to_owned(),
    };
    Ok(encode_sys_raven(&envelope))
}

/// Judges the daemon's reply to a send request: `Okay` means the
/// message went out, `Error` carries the daemon's cause, and anything
/// else on the wire is itself an error.
pub fn read_reply(bytes: &[u8]) -> (r: Result<(), String>)
    ensures
        match spec_decode_sys_raven(bytes@) {
            Ok(v) => match v {
                SysRavenView::Okay => r is Ok,
                SysRavenView::Error { message } => r matches Err(e) && e@
                    == "Error sending message: "@ + message,
                SysRavenView::Send { .. } => r matches Err(e) && e@ == "Unexpected response"@,
            },
            Err(_) => r matches Err(e) && e@ == "Error deserializing response"@,
        },
{
    match decode_sys_raven(bytes) {
        Ok(SysRaven::Okay) => Ok(()),
        Ok(SysRaven::Error { message }) => {
            let mut e = String::from_str("Error sending message: ");
            e.append(message.as_str());
            Err(e)
        },
        Ok(SysRaven::Send { .. }) => Err(String::from_str("Unexpected response")),
        Err(_) => Err(String::from_str("Error deserializing response")),
    }
}

/// Carries out one mailbox command for the front end. Unlike
/// [`crate::mailbox::manage`], a delete or show that names neither a
/// file nor a message is refused rather than silently done.
pub fn manage(command: &MailboxSubcommands, mailbox: &mut MailBox) -> (r: Result<
    ManageEffect,
    String,
>)
    ensures
        match *command {
            MailboxSubcommands::List { files, messages } => final(mailbox)@ == old(mailbox)@ && (
            r matches Ok(eff) && eff.lines.deep_view() == spec_list_lines(
                old(mailbox)@,
                messages,
                files,
            ) && eff.save == false && eff.unlink is None),
            MailboxSubcommands::Delete { index, file, message } => {
                if file && message {
                    final(mailbox)@ == old(mailbox)@ && (r matches Err(e) && e@
                        == "You can't delete a file and a message at the same time"@)
                } else if file {
                    final(mailbox)@.messages == old(mailbox)@.messages && (r matches Ok(eff)
                        && eff.save == true && (if index < old(mailbox)@.files.len() {
                        final(mailbox)@.files == old(mailbox)@.files.remove(index as int) && (
                        eff.unlink matches Some(name) && name@ == old(mailbox)@.files[
                            index as int].name) && eff.lines.deep_view() == Seq::<
                            Seq<char>,
                        >::empty()
                    } else {
                        final(mailbox)@.files == old(mailbox)@.files && eff.unlink is None
                            && eff.lines.deep_view() == seq![spec_file_not_found(index as nat)]
                    }))
                } else if message {
                    final(mailbox)@.files == old(mailbox)@.files && (r matches Ok(eff) && eff.save
                        == true && eff.unlink is None && (if index < old(mailbox)@.messages.len() {
                        final(mailbox)@.messages == old(mailbox)@.messages.remove(index as int)
                            && eff.lines.deep_view() == Seq::<Seq<char>>::empty()
                    } else {
                        final(mailbox)@.messages == old(mailbox)@.messages
                            && eff.lines.deep_view() == seq![
                            spec_message_not_found(index as nat),
                        ]
                    }))
                } else {
                    final(mailbox)@ == old(mailbox)@ && (r matches Err(e) && e@
                        == "You must specify if you want to delete a file or a message"@)
                }
            },
            MailboxSubcommands::Show { index, file, message } => final(mailbox)@ == old(mailbox)@
                && {
                if file && message {
                    r matches Err(e) && e@
                        == "You can't show a file and a message at the same time"@
                } else if !file && !message {
                    r matches Err(e) && e@
                        == "You must specify if you want to see a file or a message"@
                } else {
                    r matches Ok(eff) && eff.save == false && eff.unlink is None
                        && eff.lines.deep_view() == (if file {
                        if index < old(mailbox)@.files.len() {
                            seq!["File: "@ + old(mailbox)@.files[index as int].name]
                        } else {
                            seq![spec_file_not_found(index as nat)]
                        }
                    } else {
                        if index < old(mailbox)@.messages.len() {
                            seq![old(mailbox)@.messages[index as int].text]
                        } else {
                            seq![spec_message_not_found(index as nat)]
                        }
                    })
                }
            },
        },
{
    match command {
        MailboxSubcommands::List { files, messages } => {
            let lines = mailbox.list(*messages, *files);
            Ok(ManageEffect { lines, save: false, unlink: None })
        },
        MailboxSubcommands::Delete { index, file, message } => {
            if *file && *message {
                return Err(String::from_str(
                    "You can't delete a file and a message at the same time",
                ));
            }
            if !*file && !*message {
                return Err(String::from_str(
                    "You must specify if you want to delete a file or a message",
                ));
            }
            let mut lines: Vec<String> = Vec::new();
            let mut unlink: Option<String> = None;
            if *file {
                match mailbox.remove_file(*index) {
                    Some(name) => {
                        unlink = Some(name);
                    },
                    None => {
                        lines.push(file_not_found_line(*index));
                        proof {
                            assert(lines.deep_view() =~= seq![spec_file_not_found(*index as nat)]);
                        }
                    },
                }
            } else {
                let removed = mailbox.remove_message(*index);
                if !removed {
                    lines.push(message_not_found_line(*index));
                    proof {
                        assert(lines.deep_view() =~= seq![spec_message_not_found(*index as nat)]);
                    }
                }
            }
            proof {
                if lines@.len() == 0 {
                    assert(lines.deep_view() =~= Seq::<Seq<char>>::empty());
                }
            }
            Ok(ManageEffect { lines, save: true, unlink })
        },
        MailboxSubcommands::Show { index, file, message } => {
            if *file && *message {
                return Err(String::from_str(
                    "You can't show a file and a message at the same time",
                ));
            }
            if !*file && !*message {
                return Err(String::from_str(
                    "You must specify if you want to see a file or a message",
                ));
            }
            let mut lines: Vec<String> = Vec::new();
            if *file {
                match mailbox.show_file(*index) {
                    Some(name) => {
                        let mut line = String::from_str("File: ");
                        line.append(name.as_str());
                        lines.push(line);
                        proof {
                            assert(lines.deep_view() =~= seq![
                                "File: "@ + mailbox@.files[*index as int].name,
                            ]);
                        }
                    },
                    None => {
                        lines.push(file_not_found_line(*index));
                        proof {
                            assert(lines.deep_view() =~= seq![spec_file_not_found(*index as nat)]);
                        }
                    },
                }
            } else {
                match mailbox.show_message(*index) {
                    Some(text) => {
                        let line = text.clone();
                        lines.push(line);
                        proof {
                            assert(lines.deep_view() =~= seq![
                                mailbox@.messages[*index as int].text,
                            ]);
                        }
                    },
                    None => {
                        lines.push(message_not_found_line(*index));
                        proof {
                            assert(lines.deep_view() =~= seq![
                                spec_message_not_found(*index as nat),
                            ]);
                        }
                    },
                }
            }
            Ok(ManageEffect { lines, save: false, unlink: None })
        },
    }
}

} // verus!
