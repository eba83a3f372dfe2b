//! The mailbox store: listing, indices, persistence.

use rv_raven::cli::MailboxSubcommands;
use rv_raven::mailbox::{self, MailBox, ManageEffect};
use rv_raven::timestamp::Timestamp;
use rv_raven::wire::DecodeError;

fn noon() -> Timestamp {
    Timestamp { year: 2024, month: 5, day: 1, hour: 12, minute: 30, second: 0 }
}

fn sample() -> MailBox {
    let mut mb = MailBox::new();
    mb.add_message("1.2.3.4:50000".to_string(), noon(), "hello".to_string());
    mb.add_file("5.6.7.8:50001".to_string(), noon(), "/tmp/r/data/notes.txt".to_string());
    mb
}

#[test]
fn list_shows_both_sections() {
    let mb = sample();
    let lines = mb.list(true, true);
    assert_eq!(
        lines,
        vec![
            "Messages:".to_string(),
            "0: [2024-05-01T12:30:00] From: 1.2.3.4:50000 :: hello".to_string(),
            "Files:".to_string(),
            "0: [2024-05-01T12:30:00] From: 5.6.7.8:50001 :: /tmp/r/data/notes.txt".to_string(),
        ]
    );
}

#[test]
fn list_filters_sections() {
    let mb = sample();
    assert_eq!(
        mb.list(true, false),
        vec![
            "Messages:".to_string(),
            "0: [2024-05-01T12:30:00] From: 1.2.3.4:50000 :: hello".to_string(),
        ]
    );
    assert_eq!(
        mb.list(false, true),
        vec![
            "Files:".to_string(),
            "0: [2024-05-01T12:30:00] From: 5.6.7.8:50001 :: /tmp/r/data/notes.txt".to_string(),
        ]
    );
}

#[test]
fn list_with_no_filters_means_both() {
    let mb = sample();
    assert_eq!(mb.list(false, false), mb.list(true, true));
}

#[test]
fn long_messages_are_cut_with_ellipsis() {
    let mut mb = MailBox::new();
    mb.add_message(
        "1.2.3.4:1".to_string(),
        noon(),
        "abcdefghijklmnopqrstuvwxyz0123456789".to_string(),
    );
    let lines = mb.list(true, false);
    assert_eq!(
        lines[1],
        "0: [2024-05-01T12:30:00] From: 1.2.3.4:1 :: abcdefghijklmnopqrstuvwxyz012345...",
    );
}

#[test]
fn out_of_range_indices_change_nothing() {
    let mut mb = sample();
    let before = mb.clone();
    assert!(!mb.remove_message(1));
    assert_eq!(mb, before);
    assert_eq!(mb.remove_file(7), None);
    assert_eq!(mb, before);
    assert_eq!(mb.show_message(1), None);
    assert_eq!(mb.show_file(42), None);
    assert_eq!(mb, before);
}

#[test]
fn remove_shifts_later_entries() {
    let mut mb = MailBox::new();
    mb.add_message("a:1".to_string(), noon(), "first".to_string());
    mb.add_message("a:1".to_string(), noon(), "second".to_string());
    assert!(mb.remove_message(0));
    assert_eq!(mb.messages.len(), 1);
    assert_eq!(mb.messages[0].text, "second");
}

#[test]
fn remove_file_hands_back_the_stored_path() {
    let mut mb = sample();
    assert_eq!(mb.remove_file(0), Some("/tmp/r/data/notes.txt".to_string()));
    assert!(mb.files.is_empty());
}

#[test]
fn show_reads_without_changing() {
    let mb = sample();
    assert_eq!(mb.show_message(0), Some(&"hello".to_string()));
    assert_eq!(mb.show_file(0), Some(&"/tmp/r/data/notes.txt".to_string()));
}

#[test]
fn document_round_trip() {
    let mb = sample();
    let doc = mb.to_document();
    assert_eq!(MailBox::from_document(&doc), Ok(mb));
}

#[test]
fn empty_document_round_trip() {
    let mb = MailBox::new();
    let doc = mb.to_document();
    assert_eq!(MailBox::from_document(&doc), Ok(mb));
}

#[test]
fn document_rejects_truncation_and_trailing() {
    let mb = sample();
    let doc = mb.to_document();
    assert_eq!(MailBox::from_document(&doc[..doc.len() - 1]), Err(DecodeError::Truncated));
    let mut longer = doc.clone();
    longer.push(0);
    assert_eq!(MailBox::from_document(&longer), Err(DecodeError::TrailingBytes));
    assert_eq!(MailBox::from_document(&[]), Err(DecodeError::Truncated));
}

#[test]
fn manage_list_prints_and_keeps_the_store() {
    let mut mb = sample();
    let before = mb.clone();
    let eff = mailbox::manage(
        &MailboxSubcommands::List { files: false, messages: false },
        &mut mb,
    )
    .unwrap();
    assert_eq!(eff.lines, before.list(true, true));
    assert!(!eff.save);
    assert_eq!(eff.unlink, None);
    assert_eq!(mb, before);
}

#[test]
fn manage_delete_file_asks_for_unlink() {
    let mut mb = sample();
    let eff = mailbox::manage(
        &MailboxSubcommands::Delete { index: 0, file: true, message: false },
        &mut mb,
    )
    .unwrap();
    assert_eq!(
        eff,
        ManageEffect {
            lines: vec![],
            save: true,
            unlink: Some("/tmp/r/data/notes.txt".to_string()),
        }
    );
    assert!(mb.files.is_empty());
    assert_eq!(mb.messages.len(), 1);
}

#[test]
fn manage_delete_out_of_range_reports_not_found() {
    let mut mb = sample();
    let before = mb.clone();
    let eff = mailbox::manage(
        &MailboxSubcommands::Delete { index: 3, file: false, message: true },
        &mut mb,
    )
    .unwrap();
    assert_eq!(eff.lines, vec!["Message `3` not found".to_string()]);
    assert!(eff.save);
    assert_eq!(eff.unlink, None);
    assert_eq!(mb, before);
}

#[test]
fn manage_refuses_file_and_message_at_once() {
    let mut mb = sample();
    let r = mailbox::manage(
        &MailboxSubcommands::Delete { index: 0, file: true, message: true },
        &mut mb,
    );
    assert_eq!(r, Err("You can't delete a file and a message at the same time".to_string()));
    let r = mailbox::manage(
        &MailboxSubcommands::Show { index: 0, file: true, message: true },
        &mut mb,
    );
    assert_eq!(r, Err("You can't show a file and a message at the same time".to_string()));
}

#[test]
fn manage_show_prints_the_entry() {
    let mut mb = sample();
    let eff = mailbox::manage(
        &MailboxSubcommands::Show { index: 0, file: false, message: true },
        &mut mb,
    )
    .unwrap();
    assert_eq!(eff.lines, vec!["hello".to_string()]);
    let eff = mailbox::manage(
        &MailboxSubcommands::Show { index: 0, file: true, message: false },
        &mut mb,
    )
    .unwrap();
    assert_eq!(eff.lines, vec!["File: /tmp/r/data/notes.txt".to_string()]);
    let eff = mailbox::manage(
        &MailboxSubcommands::Show { index: 9, file: true, message: false },
        &mut mb,
    )
    .unwrap();
    assert_eq!(eff.lines, vec!["File `9` not found".to_string()]);
}

#[test]
fn front_manage_insists_on_a_kind() {
    let mut mb = sample();
    let r = rv_raven::front::manage(
        &MailboxSubcommands::Delete { index: 0, file: false, message: false },
        &mut mb,
    );
    assert_eq!(r, Err("You must specify if you want to delete a file or a message".to_string()));
    let r = rv_raven::front::manage(
        &MailboxSubcommands::Show { index: 0, file: false, message: false },
        &mut mb,
    );
    assert_eq!(r, Err("You must specify if you want to see a file or a message".to_string()));
}
