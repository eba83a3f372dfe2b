//! The mailbox: the durable record of received messages and files.
//!
//! A [`MailBox`] holds two independent ordered sequences, one of text
//! messages and one of stored files, never interleaved. The indices the
//! list/show/delete commands use are positions in the respective
//! sequence at the time of the command; deleting an entry shifts the
//! later ones down. The whole store is turned into one byte document by
//! [`MailBox::to_document`] and read back by [`MailBox::from_document`];
//! reading and writing that document on disk is the surrounding
//! program's business, as is deleting a removed file's bytes.

use vstd::prelude::*;

verus! {

use vstd::bytes::{spec_u16_to_le_bytes, spec_u64_to_le_bytes};
use vstd::string::{StrSliceExecFns, StringExecFns};
use vstd::utf8::encode_utf8;
use crate::cli::MailboxSubcommands;
use crate::text::spec_dec_str;
use crate::text::u64_to_dec_string;
use crate::timestamp::{Timestamp, render_timestamp, spec_timestamp_str};
use crate::wire::{
    DecodeError, spec_encode_str, spec_parse_byte, spec_parse_str, spec_parse_u16, spec_parse_u64,
    lemma_parse_str_encode, lemma_parse_u16_encode, lemma_parse_u64_encode, read_byte,
    read_string, read_u16, read_u64, write_str, write_u16, write_u64,
};

/// How many characters of a message the listing shows before an ellipsis.
pub const SUMMARY_LEN: usize = 32;

/// A text message the daemon has received.
#[derive(Debug, Clone, PartialEq)]
pub struct MailMessage {
    /// The sender's observed network address.
    pub from: String,
    /// When the message arrived.
    pub when: Timestamp,
    /// The message itself.
    pub text: String,
}

/// The mathematical value of a received message.
pub struct MailMessageView {
    pub from: Seq<char>,
    pub when: Timestamp,
    pub text: Seq<char>,
}

impl View for MailMessage {
    type V = MailMessageView;

    open spec fn view(&self) -> MailMessageView {
        MailMessageView { from: self.from@, when: self.when, text: self.text@ }
    }
}

/// A file the daemon has received and stored.
#[derive(Debug, Clone, PartialEq)]
pub struct MailFile {
    /// The sender's observed network address.
    pub from: String,
    /// When the file arrived.
    pub when: Timestamp,
    /// The path under which the file was stored.
    pub name: String,
}

/// The mathematical value of a received file record.
pub struct MailFileView {
    pub from: Seq<char>,
    pub when: Timestamp,
    pub name: Seq<char>,
}

impl View for MailFile {
    type V = MailFileView;

    open spec fn view(&self) -> MailFileView {
        MailFileView { from: self.from@, when: self.when, name: self.name@ }
    }
}

/// The record of what the daemon has received.
#[derive(Debug, Clone, PartialEq)]
pub struct MailBox {
    /// The received text messages, in order of arrival.
    pub messages: Vec<MailMessage>,
    /// The received file records, in order of arrival.
    pub files: Vec<MailFile>,
}

/// The mathematical value of a mailbox.
pub struct MailBoxView {
    pub messages: Seq<MailMessageView>,
    pub files: Seq<MailFileView>,
}

/// The mathematical values of a sequence of message records.
pub open spec fn messages_view(v: Seq<MailMessage>) -> Seq<MailMessageView> {
    Seq::new(v.len(), |i: int| v[i]@)
}

/// The mathematical values of a sequence of file records.
pub open spec fn files_view(v: Seq<MailFile>) -> Seq<MailFileView> {
    Seq::new(v.len(), |i: int| v[i]@)
}

impl View for MailBox {
    type V = MailBoxView;

    open spec fn view(&self) -> MailBoxView {
        MailBoxView { messages: messages_view(self.messages@), files: files_view(self.files@) }
    }
}

/// The listing's one-line summary of a message: arrival time, sender,
/// and the text, cut to [`SUMMARY_LEN`] characters with an ellipsis
/// when it is longer.
pub open spec fn spec_message_summary(m: MailMessageView) -> Seq<char> {
    let shown = if m.text.len() > SUMMARY_LEN {
        m.text.take(SUMMARY_LEN as int) + "..."@
    } else {
        m.text
    };
    "["@ + spec_timestamp_str(m.when) + "] From: "@ + m.from + " :: "@ + shown
}

/// The listing's one-line summary of a file record: arrival time,
/// sender, and the stored path.
pub open spec fn spec_file_summary(f: MailFileView) -> Seq<char> {
    "["@ + spec_timestamp_str(f.when) + "] From: "@ + f.from + " :: "@ + f.name
}

/// One listing line: the entry's index, then its summary.
pub open spec fn spec_message_line(i: nat, m: MailMessageView) -> Seq<char> {
    spec_dec_str(i) + ": "@ + spec_message_summary(m)
}

/// One listing line: the entry's index, then its summary.
pub open spec fn spec_file_line(i: nat, f: MailFileView) -> Seq<char> {
    spec_dec_str(i) + ": "@ + spec_file_summary(f)
}

/// What listing a mailbox prints. Both filters off means both on; the
/// shown sections keep insertion order under their headers.
pub open spec fn spec_list_lines(mb: MailBoxView, messages: bool, files: bool) -> Seq<Seq<char>> {
    let mm = messages || (!messages && !files);
    let ff = files || (!messages && !files);
    (if mm {
        seq!["Messages:"@] + Seq::new(mb.messages.len(), |i: int| spec_message_line(i as nat, mb.messages[i]))
    } else {
        Seq::empty()
    }) + (if ff {
        seq!["Files:"@] + Seq::new(mb.files.len(), |i: int| spec_file_line(i as nat, mb.files[i]))
    } else {
        Seq::empty()
    })
}

/// Law: listing with both filters off is the same listing as with both
/// filters on.
pub proof fn lemma_list_default_filters(mb: MailBoxView)
    ensures
        spec_list_lines(mb, false, false) == spec_list_lines(mb, true, true),
{
}

impl MailMessage {
    /// The one-line summary of this message, per [`spec_message_summary`].
    pub fn summary(&self) -> (r: String)
        ensures
            r@ == spec_message_summary(self@),
    {
        let mut out = String::from_str("[");
        let ts = render_timestamp(&self.when);
        out.append(ts.as_str());
        out.append("] From: ");
        out.append(self.from.as_str());
        out.append(" :: ");
        let len = self.text.as_str().unicode_len();
        if len > SUMMARY_LEN {
            let shown = self.text.as_str().substring_char(0, SUMMARY_LEN);
            out.append(shown);
            out.append("...");
            proof {
                assert(shown@ =~= self.text@.take(SUMMARY_LEN as int));
                assert(out@ =~= spec_message_summary(self@));
            }
        } else {
            out.append(self.text.as_str());
            proof {
                assert(out@ =~= spec_message_summary(self@));
            }
        }
        out
    }
}

impl MailFile {
    /// The one-line summary of this file record, per [`spec_file_summary`].
    pub fn summary(&self) -> (r: String)
        ensures
            r@ == spec_file_summary(self@),
    {
        let mut out = String::from_str("[");
        let ts = render_timestamp(&self.when);
        out.append(ts.as_str());
        out.append("] From: ");
        out.append(self.from.as_str());
        out.append(" :: ");
        out.append(self.name.as_str());
        proof {
            assert(out@ =~= spec_file_summary(self@));
        }
        out
    }
}

impl MailBox {
    /// An empty mailbox.
    pub fn new() -> (r: Self)
        ensures
            r@.messages == Seq::<MailMessageView>::empty(),
            r@.files == Seq::<MailFileView>::empty(),
    {
        let r = MailBox { messages: Vec::new(), files: Vec::new() };
        proof {
            assert(r@.messages =~= Seq::<MailMessageView>::empty());
            assert(r@.files =~= Seq::<MailFileView>::empty());
        }
        r
    }

    /// Appends a received message to the store.
    pub fn add_message(&mut self, from: String, when: Timestamp, text: String)
        ensures
            final(self)@.messages == old(self)@.messages.push(
                MailMessageView { from: from@, when, text: text@ },
            ),
            final(self)@.files == old(self)@.files,
    {
        self.messages.push(MailMessage { from, when, text });
        proof {
            assert(self@.messages =~= old(self)@.messages.push(
                MailMessageView { from: from@, when, text: text@ },
            ));
            assert(self@.files =~= old(self)@.files);
        }
    }

    /// Appends a received file record to the store.
    pub fn add_file(&mut self, from: String, when: Timestamp, name: String)
        ensures
            final(self)@.files == old(self)@.files.push(
                MailFileView { from: from@, when, name: name@ },
            ),
            final(self)@.messages == old(self)@.messages,
    {
        self.files.push(MailFile { from, when, name });
        proof {
            assert(self@.files =~= old(self)@.files.push(
                MailFileView { from: from@, when, name: name@ },
            ));
            assert(self@.messages =~= old(self)@.messages);
        }
    }

    /// Removes the message at `index`. An out-of-range index removes
    /// nothing, changes nothing, and says so by returning false.
    pub fn remove_message(&mut self, index: usize) -> (removed: bool)
        ensures
            index < old(self)@.messages.len() ==> removed && final(self)@.messages == old(self)@.messages.remove(index as int) && final(self)@.files == old(self)@.files,
            index >= old(self)@.messages.len() ==> !removed && final(self)@.messages == old(self)@.messages && final(self)@.files == old(self)@.files,
    {
        if index >= self.messages.len() {
            return false;
        }
        self.messages.remove(index);
        proof {
            assert(self@.messages =~= old(self)@.messages.remove(index as int));
            assert(self@.files =~= old(self)@.files);
        }
        true
    }

    /// Removes the file record at `index` and hands back the stored path
    /// so the caller can delete the file itself. An out-of-range index
    /// removes nothing, changes nothing, and returns nothing.
    pub fn remove_file(&mut self, index: usize) -> (removed: Option<String>)
        ensures
            index < old(self)@.files.len() ==> (removed matches Some(name)
                && name@ == old(self)@.files[index as int].name) && final(self)@.files == old(self)@.files.remove(index as int) && final(self)@.messages == old(self)@.messages,
            index >= old(self)@.files.len() ==> removed is None && final(self)@.files == old(self)@.files && final(self)@.messages == old(self)@.messages,
    {
        if index >= self.files.len() {
            return None;
        }
        let record = self.files.remove(index);
        proof {
            assert(self@.files =~= old(self)@.files.remove(index as int));
            assert(self@.messages =~= old(self)@.messages);
        }
        Some(record.name)
    }

    /// The text of the message at `index`, or nothing when the index is
    /// out of range. Read-only.
    pub fn show_message(&self, index: usize) -> (r: Option<&String>)
        ensures
            index < self@.messages.len() ==> (r matches Some(text) && text@ == self@.messages[
                index as int].text),
            index >= self@.messages.len() ==> r is None,
    {
        if index < self.messages.len() {
            Some(&self.messages[index].text)
        } else {
            None
        }
    }

    /// The stored path of the file record at `index`, or nothing when
    /// the index is out of range. Read-only.
    pub fn show_file(&self, index: usize) -> (r: Option<&String>)
        ensures
            index < self@.files.len() ==> (r matches Some(name) && name@ == self@.files[
                index as int].name),
            index >= self@.files.len() ==> r is None,
    {
        if index < self.files.len() {
            Some(&self.files[index].name)
        } else {
            None
        }
    }

    /// The listing lines of this mailbox, per [`spec_list_lines`]:
    /// both filters off means both on.
    pub fn list(&self, messages: bool, files: bool) -> (r: Vec<String>)
        ensures
            r.deep_view() == spec_list_lines(self@, messages, files),
    {
        let mut show_messages = messages;
        let mut show_files = files;
        if !show_messages && !show_files {
            show_messages = true;
            show_files = true;
        }
        let mut out: Vec<String> = Vec::new();
        let ghost msection = if show_messages {
            seq!["Messages:"@] + Seq::new(self@.messages.len(), |i: int| spec_message_line(i as nat, self@.messages[i]))
        } else {
            Seq::<Seq<char>>::empty()
        };
        if show_messages {
            out.push(String::from_str("Messages:"));
            let mut i: usize = 0;
            while i < self.messages.len()
                invariant
                    i <= self.messages@.len(),
                    self@.messages.len() == self.messages@.len(),
                    out.deep_view() =~= seq!["Messages:"@] + Seq::new(
                        i as nat,
                        |j: int| spec_message_line(j as nat, self@.messages[j]),
                    ),
                decreases self.messages@.len() - i,
            {
                let mut line = u64_to_dec_string(i as u64);
                line.append(": ");
                let summary = self.messages[i].summary();
                line.append(summary.as_str());
                proof {
                    assert(line@ =~= spec_message_line(i as nat, self@.messages[i as int]));
                }
                let ghost prev = out.deep_view();
                out.push(line);
                i += 1;
                proof {
                    assert(out.deep_view() =~= prev.push(line@));
                    assert(prev.push(line@) =~= seq!["Messages:"@] + Seq::new(
                        i as nat,
                        |j: int| spec_message_line(j as nat, self@.messages[j]),
                    ));
                }
            }
            proof {
                assert(out.deep_view() =~= msection);
            }
        }
        if show_files {
            out.push(String::from_str("Files:"));
            let ghost base = out.deep_view();
            let mut i: usize = 0;
            while i < self.files.len()
                invariant
                    i <= self.files@.len(),
                    self@.files.len() == self.files@.len(),
                    base == msection + seq!["Files:"@],
                    out.deep_view() =~= base + Seq::new(
                        i as nat,
                        |j: int| spec_file_line(j as nat, self@.files[j]),
                    ),
                decreases self.files@.len() - i,
            {
                let mut line = u64_to_dec_string(i as u64);
                line.append(": ");
                let summary = self.files[i].summary();
                line.append(summary.as_str());
                proof {
                    assert(line@ =~= spec_file_line(i as nat, self@.files[i as int]));
                }
                let ghost prev = out.deep_view();
                out.push(line);
                i += 1;
                proof {
                    assert(out.deep_view() =~= prev.push(line@));
                    assert(prev.push(line@) =~= base + Seq::new(
                        i as nat,
                        |j: int| spec_file_line(j as nat, self@.files[j]),
                    ));
                }
            }
        }
        proof {
            assert(out.deep_view() =~= spec_list_lines(self@, messages, files));
        }
        out
    }
}

/// The notice printed when no message sits at the asked index.
pub open spec fn spec_message_not_found(i: nat) -> Seq<char> {
    "Message `"@ + spec_dec_str(i) + "` not found"@
}

/// The notice printed when no file record sits at the asked index.
pub open spec fn spec_file_not_found(i: nat) -> Seq<char> {
    "File `"@ + spec_dec_str(i) + "` not found"@
}

/// Builds the notice of [`spec_message_not_found`].
pub fn message_not_found_line(i: usize) -> (r: String)
    ensures
        r@ == spec_message_not_found(i as nat),
{
    let mut s = String::from_str("Message `");
    let d = u64_to_dec_string(i as u64);
    s.append(d.as_str());
    s.append("` not found");
    proof {
        assert(s@ =~= spec_message_not_found(i as nat));
    }
    s
}

/// Builds the notice of [`spec_file_not_found`].
pub fn file_not_found_line(i: usize) -> (r: String)
    ensures
        r@ == spec_file_not_found(i as nat),
{
    let mut s = String::from_str("File `");
    let d = u64_to_dec_string(i as u64);
    s.append(d.as_str());
    s.append("` not found");
    proof {
        assert(s@ =~= spec_file_not_found(i as nat));
    }
    s
}

/// What a mailbox command asks the surrounding program to do beyond
/// mutating the store: print lines, persist the store, delete a file.
#[derive(Debug, Clone, PartialEq)]
pub struct ManageEffect {
    /// The lines to print, in order.
    pub lines: Vec<String>,
    /// Whether the store must be persisted again.
    pub save: bool,
    /// A stored file whose bytes should be deleted from disk.
    pub unlink: Option<String>,
}

/// Carries out one mailbox command against the store and says what the
/// surrounding program must do for it. Listing maps the `List` flags to
/// their sections; deleting or showing both a file and a message at once
/// is refused; an out-of-range index only produces a "not found" notice.
pub fn manage(command: &MailboxSubcommands, mailbox: &mut MailBox) -> (r: Result<
    ManageEffect,
    String,
>)
    ensures
        match *command {
            MailboxSubcommands::List { files, messages } => final(mailbox)@ == old(mailbox)@ && (
            r matches Ok(eff) && eff.lines.deep_view() == spec_list_lines(
                old(mailbox)@,
                messages,
                files,
            ) && eff.save == false && eff.unlink is None),
            MailboxSubcommands::Delete { index, file, message } => {
                if file && message {
                    final(mailbox)@ == old(mailbox)@ && (r matches Err(e) && e@
                        == "You can't delete a file and a message at the same time"@)
                } else if file {
                    final(mailbox)@.messages == old(mailbox)@.messages && (r matches Ok(eff)
                        && eff.save == true && (if index < old(mailbox)@.files.len() {
                        final(mailbox)@.files == old(mailbox)@.files.remove(index as int) && (
                        eff.unlink matches Some(name) && name@ == old(mailbox)@.files[
                            index as int].name) && eff.lines.deep_view() == Seq::<
                            Seq<char>,
                        >::empty()
                    } else {
                        final(mailbox)@.files == old(mailbox)@.files && eff.unlink is None
                            && eff.lines.deep_view() == seq![spec_file_not_found(index as nat)]
                    }))
                } else if message {
                    final(mailbox)@.files == old(mailbox)@.files && (r matches Ok(eff) && eff.save
                        == true && eff.unlink is None && (if index < old(mailbox)@.messages.len() {
                        final(mailbox)@.messages == old(mailbox)@.messages.remove(index as int)
                            && eff.lines.deep_view() == Seq::<Seq<char>>::empty()
                    } else {
                        final(mailbox)@.messages == old(mailbox)@.messages
                            && eff.lines.deep_view() == seq![
                            spec_message_not_found(index as nat),
                        ]
                    }))
                } else {
                    final(mailbox)@ == old(mailbox)@ && (r matches Ok(eff) && eff.save == true
                        && eff.unlink is None && eff.lines.deep_view() == Seq::<
                        Seq<char>,
                    >::empty())
                }
            },
            MailboxSubcommands::Show { index, file, message } => final(mailbox)@ == old(mailbox)@
                && {
                if file && message {
                    r matches Err(e) && e@
                        == "You can't show a file and a message at the same time"@
                } else {
                    r matches Ok(eff) && eff.save == false && eff.unlink is None
                        && eff.lines.deep_view() == (if file {
                        if index < old(mailbox)@.files.len() {
                            seq!["File: "@ + old(mailbox)@.files[index as int].name]
                        } else {
                            seq![spec_file_not_found(index as nat)]
                        }
                    } else if message {
                        if index < old(mailbox)@.messages.len() {
                            seq![old(mailbox)@.messages[index as int].text]
                        } else {
                            seq![spec_message_not_found(index as nat)]
                        }
                    } else {
                        Seq::<Seq<char>>::empty()
                    })
                }
            },
        },
{
    match command {
        MailboxSubcommands::List { files, messages } => {
            let lines = mailbox.list(*messages, *files);
            Ok(ManageEffect { lines, save: false, unlink: None })
        },
        MailboxSubcommands::Delete { index, file, message } => {
            if *file && *message {
                return Err(String::from_str(
                    "You can't delete a file and a message at the same time",
                ));
            }
            let mut lines: Vec<String> = Vec::new();
            let mut unlink: Option<String> = None;
            if *file {
                match mailbox.remove_file(*index) {
                    Some(name) => {
                        unlink = Some(name);
                    },
                    None => {
                        lines.push(file_not_found_line(*index));
                        proof {
                            assert(lines.deep_view() =~= seq![spec_file_not_found(*index as nat)]);
                        }
                    },
                }
            } else if *message {
                let removed = mailbox.remove_message(*index);
                if !removed {
                    lines.push(message_not_found_line(*index));
                    proof {
                        assert(lines.deep_view() =~= seq![spec_message_not_found(*index as nat)]);
                    }
                }
            }
            proof {
                if lines@.len() == 0 {
                    assert(lines.deep_view() =~= Seq::<Seq<char>>::empty());
                }
            }
            Ok(ManageEffect { lines, save: true, unlink })
        },
        MailboxSubcommands::Show { index, file, message } => {
            if *file && *message {
                return Err(String::from_str(
                    "You can't show a file and a message at the same time",
                ));
            }
            let mut lines: Vec<String> = Vec::new();
            if *file {
                match mailbox.show_file(*index) {
                    Some(name) => {
                        let mut line = String::from_str("File: ");
                        line.append(name.as_str());
                        lines.push(line);
                        proof {
                            assert(lines.deep_view() =~= seq![
                                "File: "@ + mailbox@.files[*index as int].name,
                            ]);
                        }
                    },
                    None => {
                        lines.push(file_not_found_line(*index));
                        proof {
                            assert(lines.deep_view() =~= seq![spec_file_not_found(*index as nat)]);
                        }
                    },
                }
            } else if *message {
                match mailbox.show_message(*index) {
                    Some(text) => {
                        let line = text.clone();
                        lines.push(line);
                        proof {
                            assert(lines.deep_view() =~= seq![
                                mailbox@.messages[*index as int].text,
                            ]);
                        }
                    },
                    None => {
                        lines.push(message_not_found_line(*index));
                        proof {
                            assert(lines.deep_view() =~= seq![
                                spec_message_not_found(*index as nat),
                            ]);
                        }
                    },
                }
            }
            proof {
                if lines@.len() == 0 {
                    assert(lines.deep_view() =~= Seq::<Seq<char>>::empty());
                }
            }
            Ok(ManageEffect { lines, save: false, unlink: None })
        },
    }
}

/// A timestamp in the document: the year little-endian, then month,
/// day, hour, minute and second as one byte each.
pub open spec fn spec_encode_ts(t: Timestamp) -> Seq<u8> {
    spec_u16_to_le_bytes(t.year) + seq![t.month, t.day, t.hour, t.minute, t.second]
}

/// Reads a timestamp from the front of the input.
pub open spec fn spec_parse_ts(b: Seq<u8>) -> Result<(Timestamp, Seq<u8>), DecodeError> {
    match spec_parse_u16(b) {
        Err(e) => Err(e),
        Ok((year, r1)) => match spec_parse_byte(r1) {
            Err(e) => Err(e),
            Ok((month, r2)) => match spec_parse_byte(r2) {
                Err(e) => Err(e),
                Ok((day, r3)) => match spec_parse_byte(r3) {
                    Err(e) => Err(e),
                    Ok((hour, r4)) => match spec_parse_byte(r4) {
                        Err(e) => Err(e),
                        Ok((minute, r5)) => match spec_parse_byte(r5) {
                            Err(e) => Err(e),
                            Ok((second, r6)) => Ok(
                                (Timestamp { year, month, day, hour, minute, second }, r6),
                            ),
                        },
                    },
                },
            },
        },
    }
}

/// Parsing a printed timestamp yields the timestamp and the trailing input.
pub proof fn lemma_parse_ts_encode(t: Timestamp, rest: Seq<u8>)
    ensures
        spec_parse_ts(spec_encode_ts(t) + rest) == Ok::<(Timestamp, Seq<u8>), DecodeError>(
            (t, rest),
        ),
{
    let tail = seq![t.month, t.day, t.hour, t.minute, t.second] + rest;
    assert(spec_encode_ts(t) + rest =~= spec_u16_to_le_bytes(t.year) + tail);
    lemma_parse_u16_encode(t.year, tail);
    assert(tail[0] == t.month && tail[1] == t.day && tail[2] == t.hour && tail[3] == t.minute
        && tail[4] == t.second);
    assert(tail.skip(1).skip(1).skip(1).skip(1).skip(1) =~= rest);
    assert(tail.skip(1)[0] == t.day);
    assert(tail.skip(1).skip(1)[0] == t.hour);
    assert(tail.skip(1).skip(1).skip(1)[0] == t.minute);
    assert(tail.skip(1).skip(1).skip(1).skip(1)[0] == t.second);
}

/// Appends a timestamp to the document.
fn write_ts(out: &mut Vec<u8>, t: &Timestamp)
    ensures
        final(out)@ == old(out)@ + spec_encode_ts(*t),
{
    write_u16(out, t.year);
    out.push(t.month);
    out.push(t.day);
    out.push(t.hour);
    out.push(t.minute);
    out.push(t.second);
    proof {
        assert(out@ =~= old(out)@ + spec_encode_ts(*t));
    }
}

/// Reads a timestamp at `pos`, per [`spec_parse_ts`].
fn read_ts(b: &[u8], pos: usize) -> (r: Result<(Timestamp, usize), DecodeError>)
    requires
        pos <= b@.len(),
    ensures
        match r {
            Ok(p) => p.1 <= b@.len() && spec_parse_ts(b@.skip(pos as int)) == Ok::<
                (Timestamp, Seq<u8>),
                DecodeError,
            >((p.0, b@.skip(p.1 as int))),
            Err(e) => spec_parse_ts(b@.skip(pos as int)) == Err::<(Timestamp, Seq<u8>), DecodeError>(
                e,
            ),
        },
{
    let (year, p1) = match read_u16(b, pos) {
        Ok(p) => p,
        Err(e) => {
            return Err(e);
        },
    };
    let (month, p2) = match read_byte(b, p1) {
        Ok(p) => p,
        Err(e) => {
            return Err(e);
        },
    };
    let (day, p3) = match read_byte(b, p2) {
        Ok(p) => p,
        Err(e) => {
            return Err(e);
        },
    };
    let (hour, p4) = match read_byte(b, p3) {
        Ok(p) => p,
        Err(e) => {
            return Err(e);
        },
    };
    let (minute, p5) = match read_byte(b, p4) {
        Ok(p) => p,
        Err(e) => {
            return Err(e);
        },
    };
    let (second, p6) = match read_byte(b, p5) {
        Ok(p) => p,
        Err(e) => {
            return Err(e);
        },
    };
    Ok((Timestamp { year, month, day, hour, minute, second }, p6))
}

/// A message record in the document: sender, arrival time, text.
pub open spec fn spec_encode_message(m: MailMessageView) -> Seq<u8> {
    spec_encode_str(m.from) + spec_encode_ts(m.when) + spec_encode_str(m.text)
}

/// Reads a message record from the front of the input.
pub open spec fn spec_parse_message(b: Seq<u8>) -> Result<(MailMessageView, Seq<u8>), DecodeError> {
    match spec_parse_str(b) {
        Err(e) => Err(e),
        Ok((from, r1)) => match spec_parse_ts(r1) {
            Err(e) => Err(e),
            Ok((when, r2)) => match spec_parse_str(r2) {
                Err(e) => Err(e),
                Ok((text, r3)) => Ok((MailMessageView { from, when, text }, r3)),
            },
        },
    }
}

/// A file record in the document: sender, arrival time, stored path.
pub open spec fn spec_encode_file(f: MailFileView) -> Seq<u8> {
    spec_encode_str(f.from) + spec_encode_ts(f.when) + spec_encode_str(f.name)
}

/// Reads a file record from the front of the input.
pub open spec fn spec_parse_file(b: Seq<u8>) -> Result<(MailFileView, Seq<u8>), DecodeError> {
    match spec_parse_str(b) {
        Err(e) => Err(e),
        Ok((from, r1)) => match spec_parse_ts(r1) {
            Err(e) => Err(e),
            Ok((when, r2)) => match spec_parse_str(r2) {
                Err(e) => Err(e),
                Ok((name, r3)) => Ok((MailFileView { from, when, name }, r3)),
            },
        },
    }
}

/// A message record whose text fields fit their length prefixes; every
/// record an executable value can hold is one.
pub open spec fn wf_mail_message(m: MailMessageView) -> bool {
    encode_utf8(m.from).len() <= u64::MAX && encode_utf8(m.text).len() <= u64::MAX
}

/// A file record whose text fields fit their length prefixes.
pub open spec fn wf_mail_file(f: MailFileView) -> bool {
    encode_utf8(f.from).len() <= u64::MAX && encode_utf8(f.name).len() <= u64::MAX
}

/// A mailbox whose counts and text fields fit their length prefixes;
/// every mailbox an executable value can hold is one.
pub open spec fn wf_mailbox(mb: MailBoxView) -> bool {
    &&& mb.messages.len() <= u64::MAX
    &&& mb.files.len() <= u64::MAX
    &&& forall|i: int| 0 <= i < mb.messages.len() ==> wf_mail_message(#[trigger] mb.messages[i])
    &&& forall|i: int| 0 <= i < mb.files.len() ==> wf_mail_file(#[trigger] mb.files[i])
}

/// Parsing a printed message record yields the record and the trailing input.
pub proof fn lemma_parse_message_encode(m: MailMessageView, rest: Seq<u8>)
    requires
        wf_mail_message(m),
    ensures
        spec_parse_message(spec_encode_message(m) + rest) == Ok::<
            (MailMessageView, Seq<u8>),
            DecodeError,
        >((m, rest)),
{
    let tail2 = spec_encode_str(m.text) + rest;
    let tail1 = spec_encode_ts(m.when) + tail2;
    assert(spec_encode_message(m) + rest =~= spec_encode_str(m.from) + tail1);
    lemma_parse_str_encode(m.from, tail1);
    lemma_parse_ts_encode(m.when, tail2);
    lemma_parse_str_encode(m.text, rest);
}

/// Parsing a printed file record yields the record and the trailing input.
pub proof fn lemma_parse_file_encode(f: MailFileView, rest: Seq<u8>)
    requires
        wf_mail_file(f),
    ensures
        spec_parse_file(spec_encode_file(f) + rest) == Ok::<
            (MailFileView, Seq<u8>),
            DecodeError,
        >((f, rest)),
{
    let tail2 = spec_encode_str(f.name) + rest;
    let tail1 = spec_encode_ts(f.when) + tail2;
    assert(spec_encode_file(f) + rest =~= spec_encode_str(f.from) + tail1);
    lemma_parse_str_encode(f.from, tail1);
    lemma_parse_ts_encode(f.when, tail2);
    lemma_parse_str_encode(f.name, rest);
}

/// Appends a message record to the document.
fn write_message(out: &mut Vec<u8>, m: &MailMessage)
    ensures
        final(out)@ == old(out)@ + spec_encode_message(m@),
{
    write_str(out, m.from.as_str());
    write_ts(out, &m.when);
    write_str(out, m.text.as_str());
    proof {
        assert(out@ =~= old(out)@ + spec_encode_message(m@));
    }
}

/// Appends a file record to the document.
fn write_file(out: &mut Vec<u8>, f: &MailFile)
    ensures
        final(out)@ == old(out)@ + spec_encode_file(f@),
{
    write_str(out, f.from.as_str());
    write_ts(out, &f.when);
    write_str(out, f.name.as_str());
    proof {
        assert(out@ =~= old(out)@ + spec_encode_file(f@));
    }
}

/// Reads a message record at `pos`, per [`spec_parse_message`].
fn read_message(b: &[u8], pos: usize) -> (r: Result<(MailMessage, usize), DecodeError>)
    requires
        pos <= b@.len(),
    ensures
        match r {
            Ok(p) => p.1 <= b@.len() && spec_parse_message(b@.skip(pos as int)) == Ok::<
                (MailMessageView, Seq<u8>),
                DecodeError,
            >((p.0@, b@.skip(p.1 as int))),
            Err(e) => spec_parse_message(b@.skip(pos as int)) == Err::<
                (MailMessageView, Seq<u8>),
                DecodeError,
            >(e),
        },
{
    let (from, p1) = match read_string(b, pos) {
        Ok(p) => p,
        Err(e) => {
            return Err(e);
        },
    };
    let (when, p2) = match read_ts(b, p1) {
        Ok(p) => p,
        Err(e) => {
            return Err(e);
        },
    };
    let (text, p3) = match read_string(b, p2) {
        Ok(p) => p,
        Err(e) => {
            return Err(e);
        },
    };
    Ok((MailMessage { from, when, text }, p3))
}

/// Reads a file record at `pos`, per [`spec_parse_file`].
fn read_file(b: &[u8], pos: usize) -> (r: Result<(MailFile, usize), DecodeError>)
    requires
        pos <= b@.len(),
    ensures
        match r {
            Ok(p) => p.1 <= b@.len() && spec_parse_file(b@.skip(pos as int)) == Ok::<
                (MailFileView, Seq<u8>),
                DecodeError,
            >((p.0@, b@.skip(p.1 as int))),
            Err(e) => spec_parse_file(b@.skip(pos as int)) == Err::<
                (MailFileView, Seq<u8>),
                DecodeError,
            >(e),
        },
{
    let (from, p1) = match read_string(b, pos) {
        Ok(p) => p,
        Err(e) => {
            return Err(e);
        },
    };
    let (when, p2) = match read_ts(b, p1) {
        Ok(p) => p,
        Err(e) => {
            return Err(e);
        },
    };
    let (name, p3) = match read_string(b, p2) {
        Ok(p) => p,
        Err(e) => {
            return Err(e);
        },
    };
    Ok((MailFile { from, when, name }, p3))
}

/// The message records of the document, one after another.
pub open spec fn spec_encode_messages(ms: Seq<MailMessageView>) -> Seq<u8>
    decreases ms.len(),
{
    if ms.len() == 0 {
        Seq::empty()
    } else {
        spec_encode_message(ms[0]) + spec_encode_messages(ms.drop_first())
    }
}

/// The file records of the document, one after another.
pub open spec fn spec_encode_files(fs: Seq<MailFileView>) -> Seq<u8>
    decreases fs.len(),
{
    if fs.len() == 0 {
        Seq::empty()
    } else {
        spec_encode_file(fs[0]) + spec_encode_files(fs.drop_first())
    }
}

/// One record encodes to its record encoding.
proof fn lemma_encode_messages_one(m: MailMessageView)
    ensures
        spec_encode_messages(seq![m]) == spec_encode_message(m),
{
    assert(seq![m].drop_first() =~= Seq::<MailMessageView>::empty());
    assert(spec_encode_messages(Seq::<MailMessageView>::empty()) =~= Seq::<u8>::empty());
    assert(spec_encode_messages(seq![m]) =~= spec_encode_message(m));
}

/// One record encodes to its record encoding.
proof fn lemma_encode_files_one(f: MailFileView)
    ensures
        spec_encode_files(seq![f]) == spec_encode_file(f),
{
    assert(seq![f].drop_first() =~= Seq::<MailFileView>::empty());
    assert(spec_encode_files(Seq::<MailFileView>::empty()) =~= Seq::<u8>::empty());
    assert(spec_encode_files(seq![f]) =~= spec_encode_file(f));
}

/// Record encoding distributes over concatenation.
proof fn lemma_encode_messages_app(xs: Seq<MailMessageView>, ys: Seq<MailMessageView>)
    ensures
        spec_encode_messages(xs + ys) == spec_encode_messages(xs) + spec_encode_messages(ys),
    decreases xs.len(),
{
    if xs.len() == 0 {
        assert(xs + ys =~= ys);
        assert(spec_encode_messages(xs) + spec_encode_messages(ys) =~= spec_encode_messages(ys));
    } else {
        assert((xs + ys)[0] == xs[0]);
        assert((xs + ys).drop_first() =~= xs.drop_first() + ys);
        lemma_encode_messages_app(xs.drop_first(), ys);
        assert(spec_encode_messages(xs + ys) =~= spec_encode_messages(xs) + spec_encode_messages(
            ys,
        ));
    }
}

/// Record encoding distributes over concatenation.
proof fn lemma_encode_files_app(xs: Seq<MailFileView>, ys: Seq<MailFileView>)
    ensures
        spec_encode_files(xs + ys) == spec_encode_files(xs) + spec_encode_files(ys),
    decreases xs.len(),
{
    if xs.len() == 0 {
        assert(xs + ys =~= ys);
        assert(spec_encode_files(xs) + spec_encode_files(ys) =~= spec_encode_files(ys));
    } else {
        assert((xs + ys)[0] == xs[0]);
        assert((xs + ys).drop_first() =~= xs.drop_first() + ys);
        lemma_encode_files_app(xs.drop_first(), ys);
        assert(spec_encode_files(xs + ys) =~= spec_encode_files(xs) + spec_encode_files(ys));
    }
}

/// Reads `n` message records from the front of the input.
pub open spec fn spec_parse_messages(b: Seq<u8>, n: nat) -> Result<
    (Seq<MailMessageView>, Seq<u8>),
    DecodeError,
>
    decreases n,
{
    if n == 0 {
        Ok((Seq::empty(), b))
    } else {
        match spec_parse_message(b) {
            Err(e) => Err(e),
            Ok((m, r)) => match spec_parse_messages(r, (n - 1) as nat) {
                Err(e) => Err(e),
                Ok((ms, r2)) => Ok((seq![m] + ms, r2)),
            },
        }
    }
}

/// Reads `n` file records from the front of the input.
pub open spec fn spec_parse_files(b: Seq<u8>, n: nat) -> Result<
    (Seq<MailFileView>, Seq<u8>),
    DecodeError,
>
    decreases n,
{
    if n == 0 {
        Ok((Seq::empty(), b))
    } else {
        match spec_parse_file(b) {
            Err(e) => Err(e),
            Ok((f, r)) => match spec_parse_files(r, (n - 1) as nat) {
                Err(e) => Err(e),
                Ok((fs, r2)) => Ok((seq![f] + fs, r2)),
            },
        }
    }
}

/// Parsing printed message records yields the records and the trailing input.
#[verifier::rlimit(50)]
#[verifier::spinoff_prover]
proof fn lemma_parse_messages_encode(ms: Seq<MailMessageView>, rest: Seq<u8>)
    requires
        forall|i: int| 0 <= i < ms.len() ==> wf_mail_message(#[trigger] ms[i]),
    ensures
        spec_parse_messages(spec_encode_messages(ms) + rest, ms.len()) == Ok::<
            (Seq<MailMessageView>, Seq<u8>),
            DecodeError,
        >((ms, rest)),
    decreases ms.len(),
{
    if ms.len() == 0 {
        assert(spec_encode_messages(ms) + rest =~= rest);
        assert(ms =~= Seq::<MailMessageView>::empty());
    } else {
        let tail = ms.drop_first();
        assert(spec_encode_messages(ms) + rest =~= spec_encode_message(ms[0]) + (
        spec_encode_messages(tail) + rest));
        lemma_parse_message_encode(ms[0], spec_encode_messages(tail) + rest);
        assert(forall|i: int| 0 <= i < tail.len() ==> wf_mail_message(#[trigger] tail[i]));
        lemma_parse_messages_encode(tail, rest);
        assert(seq![ms[0]] + tail =~= ms);
    }
}

/// Parsing printed file records yields the records and the trailing input.
#[verifier::rlimit(50)]
#[verifier::spinoff_prover]
proof fn lemma_parse_files_encode(fs: Seq<MailFileView>, rest: Seq<u8>)
    requires
        forall|i: int| 0 <= i < fs.len() ==> wf_mail_file(#[trigger] fs[i]),
    ensures
        spec_parse_files(spec_encode_files(fs) + rest, fs.len()) == Ok::<
            (Seq<MailFileView>, Seq<u8>),
            DecodeError,
        >((fs, rest)),
    decreases fs.len(),
{
    if fs.len() == 0 {
        assert(spec_encode_files(fs) + rest =~= rest);
        assert(fs =~= Seq::<MailFileView>::empty());
    } else {
        let tail = fs.drop_first();
        assert(spec_encode_files(fs) + rest =~= spec_encode_file(fs[0]) + (spec_encode_files(tail)
            + rest));
        lemma_parse_file_encode(fs[0], spec_encode_files(tail) + rest);
        assert(forall|i: int| 0 <= i < tail.len() ==> wf_mail_file(#[trigger] tail[i]));
        lemma_parse_files_encode(tail, rest);
        assert(seq![fs[0]] + tail =~= fs);
    }
}

/// The whole persisted document: the message count and the messages,
/// then the file count and the files.
pub open spec fn spec_encode_mailbox(mb: MailBoxView) -> Seq<u8> {
    spec_u64_to_le_bytes(mb.messages.len() as u64) + spec_encode_messages(mb.messages)
        + spec_u64_to_le_bytes(mb.files.len() as u64) + spec_encode_files(mb.files)
}

/// The mailbox a document holds, or why it holds none. Only a complete
/// document with nothing after it is accepted.
pub open spec fn spec_parse_mailbox(b: Seq<u8>) -> Result<MailBoxView, DecodeError> {
    match spec_parse_u64(b) {
        Err(e) => Err(e),
        Ok((n1, r1)) => match spec_parse_messages(r1, n1 as nat) {
            Err(e) => Err(e),
            Ok((ms, r2)) => match spec_parse_u64(r2) {
                Err(e) => Err(e),
                Ok((n2, r3)) => match spec_parse_files(r3, n2 as nat) {
                    Err(e) => Err(e),
                    Ok((fs, r4)) => if r4.len() == 0 {
                        Ok(MailBoxView { messages: ms, files: fs })
                    } else {
                        Err(DecodeError::TrailingBytes)
                    },
                },
            },
        },
    }
}

/// Law: parsing an encoded mailbox document yields the mailbox back,
/// structurally equal — the persistence round trip.
pub proof fn lemma_mailbox_round_trip(mb: MailBoxView)
    requires
        wf_mailbox(mb),
    ensures
        spec_parse_mailbox(spec_encode_mailbox(mb)) == Ok::<MailBoxView, DecodeError>(mb),
{
    let b = spec_encode_mailbox(mb);
    let tail1 = spec_encode_messages(mb.messages) + (spec_u64_to_le_bytes(mb.files.len() as u64)
        + (spec_encode_files(mb.files) + Seq::<u8>::empty()));
    assert(b =~= spec_u64_to_le_bytes(mb.messages.len() as u64) + tail1);
    lemma_parse_u64_encode(mb.messages.len() as u64, tail1);
    lemma_parse_messages_encode(
        mb.messages,
        spec_u64_to_le_bytes(mb.files.len() as u64) + (spec_encode_files(mb.files)
            + Seq::<u8>::empty()),
    );
    lemma_parse_u64_encode(
        mb.files.len() as u64,
        spec_encode_files(mb.files) + Seq::<u8>::empty(),
    );
    lemma_parse_files_encode(mb.files, Seq::<u8>::empty());
}

/// Whatever a timestamp read accepts was a printed timestamp.
proof fn lemma_parse_ts_sound(b: Seq<u8>, t: Timestamp, r: Seq<u8>)
    requires
        spec_parse_ts(b) == Ok::<(Timestamp, Seq<u8>), DecodeError>((t, r)),
    ensures
        b == spec_encode_ts(t) + r,
{
    let (year, r1) = spec_parse_u16(b)->Ok_0;
    crate::wire::lemma_parse_u16_sound(b, year, r1);
    assert(r1 =~= seq![t.month] + r1.skip(1));
    assert(r1.skip(1) =~= seq![t.day] + r1.skip(1).skip(1));
    assert(r1.skip(1).skip(1) =~= seq![t.hour] + r1.skip(1).skip(1).skip(1));
    assert(r1.skip(1).skip(1).skip(1) =~= seq![t.minute] + r1.skip(1).skip(1).skip(1).skip(1));
    assert(r1.skip(1).skip(1).skip(1).skip(1) =~= seq![t.second] + r);
    assert(b =~= spec_encode_ts(t) + r);
}

/// Whatever a message-record read accepts was a printed record.
proof fn lemma_parse_message_sound(b: Seq<u8>, m: MailMessageView, r: Seq<u8>)
    requires
        spec_parse_message(b) == Ok::<(MailMessageView, Seq<u8>), DecodeError>((m, r)),
    ensures
        b == spec_encode_message(m) + r,
        wf_mail_message(m),
{
    let (from, r1) = spec_parse_str(b)->Ok_0;
    crate::wire::lemma_parse_str_sound(b, from, r1);
    let (when, r2) = spec_parse_ts(r1)->Ok_0;
    lemma_parse_ts_sound(r1, when, r2);
    let (text, r3) = spec_parse_str(r2)->Ok_0;
    crate::wire::lemma_parse_str_sound(r2, text, r3);
    assert(b =~= spec_encode_message(m) + r);
}

/// Whatever a file-record read accepts was a printed record.
proof fn lemma_parse_file_sound(b: Seq<u8>, f: MailFileView, r: Seq<u8>)
    requires
        spec_parse_file(b) == Ok::<(MailFileView, Seq<u8>), DecodeError>((f, r)),
    ensures
        b == spec_encode_file(f) + r,
        wf_mail_file(f),
{
    let (from, r1) = spec_parse_str(b)->Ok_0;
    crate::wire::lemma_parse_str_sound(b, from, r1);
    let (when, r2) = spec_parse_ts(r1)->Ok_0;
    lemma_parse_ts_sound(r1, when, r2);
    let (name, r3) = spec_parse_str(r2)->Ok_0;
    crate::wire::lemma_parse_str_sound(r2, name, r3);
    assert(b =~= spec_encode_file(f) + r);
}

/// Whatever a run of message-record reads accepts was a printed run.
#[verifier::rlimit(50)]
#[verifier::spinoff_prover]
proof fn lemma_parse_messages_sound(b: Seq<u8>, n: nat, ms: Seq<MailMessageView>, r: Seq<u8>)
    requires
        spec_parse_messages(b, n) == Ok::<(Seq<MailMessageView>, Seq<u8>), DecodeError>((ms, r)),
    ensures
        b == spec_encode_messages(ms) + r,
        ms.len() == n,
        forall|i: int| 0 <= i < ms.len() ==> wf_mail_message(#[trigger] ms[i]),
    decreases n,
{
    if n == 0 {
        assert(ms =~= Seq::<MailMessageView>::empty());
        assert(b =~= spec_encode_messages(ms) + r);
    } else {
        let (m, r1) = spec_parse_message(b)->Ok_0;
        lemma_parse_message_sound(b, m, r1);
        let (tail, r2) = spec_parse_messages(r1, (n - 1) as nat)->Ok_0;
        lemma_parse_messages_sound(r1, (n - 1) as nat, tail, r2);
        lemma_encode_messages_one(m);
        lemma_encode_messages_app(seq![m], tail);
        assert(ms == seq![m] + tail);
        assert(b =~= spec_encode_messages(ms) + r);
        assert forall|i: int| 0 <= i < ms.len() implies wf_mail_message(#[trigger] ms[i]) by {
            if i == 0 {
                assert(ms[0] == m);
            } else {
                assert(ms[i] == tail[i - 1]);
            }
        }
    }
}

/// Whatever a run of file-record reads accepts was a printed run.
#[verifier::rlimit(50)]
#[verifier::spinoff_prover]
proof fn lemma_parse_files_sound(b: Seq<u8>, n: nat, fs: Seq<MailFileView>, r: Seq<u8>)
    requires
        spec_parse_files(b, n) == Ok::<(Seq<MailFileView>, Seq<u8>), DecodeError>((fs, r)),
    ensures
        b == spec_encode_files(fs) + r,
        fs.len() == n,
        forall|i: int| 0 <= i < fs.len() ==> wf_mail_file(#[trigger] fs[i]),
    decreases n,
{
    if n == 0 {
        assert(fs =~= Seq::<MailFileView>::empty());
        assert(b =~= spec_encode_files(fs) + r);
    } else {
        let (f, r1) = spec_parse_file(b)->Ok_0;
        lemma_parse_file_sound(b, f, r1);
        let (tail, r2) = spec_parse_files(r1, (n - 1) as nat)->Ok_0;
        lemma_parse_files_sound(r1, (n - 1) as nat, tail, r2);
        lemma_encode_files_one(f);
        lemma_encode_files_app(seq![f], tail);
        assert(fs == seq![f] + tail);
        assert(b =~= spec_encode_files(fs) + r);
        assert forall|i: int| 0 <= i < fs.len() implies wf_mail_file(#[trigger] fs[i]) by {
            if i == 0 {
                assert(fs[0] == f);
            } else {
                assert(fs[i] == tail[i - 1]);
            }
        }
    }
}

/// Law: the document reader accepts only printed documents. What parses
/// to a mailbox is that mailbox's own document, so each mailbox has
/// exactly one persisted form and the reader accepts nothing else.
#[verifier::rlimit(50)]
#[verifier::spinoff_prover]
pub proof fn lemma_mailbox_parse_sound(b: Seq<u8>, mb: MailBoxView)
    requires
        spec_parse_mailbox(b) == Ok::<MailBoxView, DecodeError>(mb),
    ensures
        b == spec_encode_mailbox(mb),
        wf_mailbox(mb),
{
    let (n1, r1) = spec_parse_u64(b)->Ok_0;
    crate::wire::lemma_parse_u64_sound(b, n1, r1);
    let (ms, r2) = spec_parse_messages(r1, n1 as nat)->Ok_0;
    lemma_parse_messages_sound(r1, n1 as nat, ms, r2);
    let (n2, r3) = spec_parse_u64(r2)->Ok_0;
    crate::wire::lemma_parse_u64_sound(r2, n2, r3);
    let (fs, r4) = spec_parse_files(r3, n2 as nat)->Ok_0;
    lemma_parse_files_sound(r3, n2 as nat, fs, r4);
    assert(r4 =~= Seq::<u8>::empty());
    assert(r3 =~= spec_encode_files(fs));
    assert(b =~= spec_encode_mailbox(mb));
}

/// The result of reading a document, seen as a mathematical value.
pub open spec fn mailbox_result_view(r: Result<MailBox, DecodeError>) -> Result<
    MailBoxView,
    DecodeError,
> {
    match r {
        Ok(mb) => Ok(mb@),
        Err(e) => Err(e),
    }
}

impl MailBox {
    /// Serializes the whole store into one byte document, per
    /// [`spec_encode_mailbox`]. The caller persists it.
    pub fn to_document(&self) -> (out: Vec<u8>)
        ensures
            out@ == spec_encode_mailbox(self@),
    {
        let mut out: Vec<u8> = Vec::new();
        write_u64(&mut out, self.messages.len() as u64);
        let ghost head = spec_u64_to_le_bytes(self.messages@.len() as u64);
        let mut i: usize = 0;
        while i < self.messages.len()
            invariant
                i <= self.messages@.len(),
                self@.messages.len() == self.messages@.len(),
                head == spec_u64_to_le_bytes(self.messages@.len() as u64),
                out@ =~= head + spec_encode_messages(self@.messages.take(i as int)),
            decreases self.messages@.len() - i,
        {
            write_message(&mut out, &self.messages[i]);
            i += 1;
            proof {
                let ms = self@.messages;
                assert(ms.take(i as int) =~= ms.take(i as int - 1) + seq![ms[i as int - 1]]);
                lemma_encode_messages_app(ms.take(i as int - 1), seq![ms[i as int - 1]]);
                lemma_encode_messages_one(ms[i as int - 1]);
                assert(out@ =~= head + spec_encode_messages(ms.take(i as int)));
            }
        }
        proof {
            assert(self@.messages.take(self.messages@.len() as int) =~= self@.messages);
        }
        write_u64(&mut out, self.files.len() as u64);
        let ghost base = out@;
        let mut i: usize = 0;
        while i < self.files.len()
            invariant
                i <= self.files@.len(),
                self@.files.len() == self.files@.len(),
                base == head + spec_encode_messages(self@.messages) + spec_u64_to_le_bytes(
                    self.files@.len() as u64,
                ),
                out@ =~= base + spec_encode_files(self@.files.take(i as int)),
            decreases self.files@.len() - i,
        {
            write_file(&mut out, &self.files[i]);
            i += 1;
            proof {
                let fs = self@.files;
                assert(fs.take(i as int) =~= fs.take(i as int - 1) + seq![fs[i as int - 1]]);
                lemma_encode_files_app(fs.take(i as int - 1), seq![fs[i as int - 1]]);
                lemma_encode_files_one(fs[i as int - 1]);
                assert(out@ =~= base + spec_encode_files(fs.take(i as int)));
            }
        }
        proof {
            assert(self@.files.take(self.files@.len() as int) =~= self@.files);
            assert(out@ =~= spec_encode_mailbox(self@));
        }
        out
    }

    /// Reads a store back from a byte document, accepting exactly the
    /// complete documents, per [`spec_parse_mailbox`].
    pub fn from_document(b: &[u8]) -> (r: Result<MailBox, DecodeError>)
        ensures
            mailbox_result_view(r) == spec_parse_mailbox(b@),
    {
        proof {
            assert(b@.skip(0) =~= b@);
        }
        let (n1, start1) = match read_u64(b, 0) {
            Ok(p) => p,
            Err(e) => {
                return Err(e);
            },
        };
        let (messages, mid) = match read_messages(b, start1, n1) {
            Ok(p) => p,
            Err(e) => {
                return Err(e);
            },
        };
        let (n2, start2) = match read_u64(b, mid) {
            Ok(p) => p,
            Err(e) => {
                return Err(e);
            },
        };
        let (files, end) = match read_files(b, start2, n2) {
            Ok(p) => p,
            Err(e) => {
                return Err(e);
            },
        };
        if end == b.len() {
            Ok(MailBox { messages, files })
        } else {
            Err(DecodeError::TrailingBytes)
        }
    }
}

/// Reads `n` message records at `pos`, per [`spec_parse_messages`].
#[verifier::rlimit(100)]
#[verifier::spinoff_prover]
#[verifier::loop_isolation(false)]
fn read_messages(b: &[u8], pos: usize, n: u64) -> (r: Result<
    (Vec<MailMessage>, usize),
    DecodeError,
>)
    requires
        pos <= b@.len(),
    ensures
        match r {
            Ok(p) => p.1 <= b@.len() && spec_parse_messages(b@.skip(pos as int), n as nat) == Ok::<
                (Seq<MailMessageView>, Seq<u8>),
                DecodeError,
            >((messages_view(p.0@), b@.skip(p.1 as int))),
            Err(e) => spec_parse_messages(b@.skip(pos as int), n as nat) == Err::<
                (Seq<MailMessageView>, Seq<u8>),
                DecodeError,
            >(e),
        },
{
    let ghost whole = spec_parse_messages(b@.skip(pos as int), n as nat);
    let mut messages: Vec<MailMessage> = Vec::new();
    let mut at = pos;
    let mut i: u64 = 0;
    while i < n
        invariant
            i <= n,
            at <= b@.len(),
            whole == (match spec_parse_messages(b@.skip(at as int), (n - i) as nat) {
                Ok(p) => Ok::<(Seq<MailMessageView>, Seq<u8>), DecodeError>(
                    (messages_view(messages@) + p.0, p.1),
                ),
                Err(e) => Err(e),
            }),
        decreases n - i,
    {
        let ghost pre = messages_view(messages@);
        let (m, at2) = match read_message(b, at) {
            Ok(p) => p,
            Err(e) => {
                proof {
                    assert(spec_parse_messages(b@.skip(at as int), (n - i) as nat) == Err::<
                        (Seq<MailMessageView>, Seq<u8>),
                        DecodeError,
                    >(e));
                }
                return Err(e);
            },
        };
        messages.push(m);
        proof {
            assert(messages_view(messages@) =~= pre.push(m@));
            let r2 = spec_parse_messages(b@.skip(at2 as int), (n - i - 1) as nat);
            if r2 is Ok {
                let (ms, rest) = r2->Ok_0;
                assert(pre.push(m@) + ms =~= pre + (seq![m@] + ms));
            }
        }
        at = at2;
        i += 1;
    }
    proof {
        assert(spec_parse_messages(b@.skip(at as int), 0) == Ok::<
            (Seq<MailMessageView>, Seq<u8>),
            DecodeError,
        >((Seq::empty(), b@.skip(at as int))));
        assert(messages_view(messages@) + Seq::<MailMessageView>::empty() =~= messages_view(
            messages@,
        ));
    }
    Ok((messages, at))
}

/// Reads `n` file records at `pos`, per [`spec_parse_files`].
#[verifier::rlimit(100)]
#[verifier::spinoff_prover]
#[verifier::loop_isolation(false)]
fn read_files(b: &[u8], pos: usize, n: u64) -> (r: Result<(Vec<MailFile>, usize), DecodeError>)
    requires
        pos <= b@.len(),
    ensures
        match r {
            Ok(p) => p.1 <= b@.len() && spec_parse_files(b@.skip(pos as int), n as nat) == Ok::<
                (Seq<MailFileView>, Seq<u8>),
                DecodeError,
            >((files_view(p.0@), b@.skip(p.1 as int))),
            Err(e) => spec_parse_files(b@.skip(pos as int), n as nat) == Err::<
                (Seq<MailFileView>, Seq<u8>),
                DecodeError,
            >(e),
        },
{
    let ghost whole = spec_parse_files(b@.skip(pos as int), n as nat);
    let mut files: Vec<MailFile> = Vec::new();
    let mut at = pos;
    let mut i: u64 = 0;
    while i < n
        invariant
            i <= n,
            at <= b@.len(),
            whole == (match spec_parse_files(b@.skip(at as int), (n - i) as nat) {
                Ok(p) => Ok::<(Seq<MailFileView>, Seq<u8>), DecodeError>(
                    (files_view(files@) + p.0, p.1),
                ),
                Err(e) => Err(e),
            }),
        decreases n - i,
    {
        let ghost pre = files_view(files@);
        let (f, at2) = match read_file(b, at) {
            Ok(p) => p,
            Err(e) => {
                proof {
                    assert(spec_parse_files(b@.skip(at as int), (n - i) as nat) == Err::<
                        (Seq<MailFileView>, Seq<u8>),
                        DecodeError,
                    >(e));
                }
                return Err(e);
            },
        };
        files.push(f);
        proof {
            assert(files_view(files@) =~= pre.push(f@));
            let r2 = spec_parse_files(b@.skip(at2 as int), (n - i - 1) as nat);
            if r2 is Ok {
                let (fs, rest) = r2->Ok_0;
                assert(pre.push(f@) + fs =~= pre + (seq![f@] + fs));
            }
        }
        at = at2;
        i += 1;
    }
    proof {
        assert(spec_parse_files(b@.skip(at as int), 0) == Ok::<
            (Seq<MailFileView>, Seq<u8>),
            DecodeError,
        >((Seq::empty(), b@.skip(at as int))));
        assert(files_view(files@) + Seq::<MailFileView>::empty() =~= files_view(files@));
    }
    Ok((files, at))
}

} // verus!
