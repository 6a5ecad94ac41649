use maildirs::{Error, Flag, FlagSet, FsOp, Maildir, MaildirEntry};

fn rename(from: &str, to: &str) -> FsOp {
    FsOp::Rename { from: from.to_string(), to: to.to_string() }
}

#[test]
fn handle_reads_its_file_name() {
    let mut entry = MaildirEntry::new("/m/cur/1.host:2,ST");
    assert_eq!(entry.path(), "/m/cur/1.host:2,ST");
    assert_eq!(entry.info_separator(), ":");
    assert_eq!(entry.file_name(), Ok("1.host:2,ST"));
    assert_eq!(entry.id(), Ok("1.host"));
    assert_eq!(entry.flags(), Ok(FlagSet::from_flags(&[Flag::Seen, Flag::Trashed])));
    assert!(entry.has_trash_flag());
    assert_eq!(entry.clone(), entry);

    entry.set_info_separator(";");
    assert_eq!(entry.id(), Ok("1.host:2,ST"));
    assert_eq!(entry.flags(), Ok(FlagSet::new()));
    assert!(!entry.has_trash_flag());

    let other = MaildirEntry::new("/m/cur/1.host;2,S").with_info_separator(";");
    assert_eq!(other.id(), Ok("1.host"));
    assert!(!other.has_trash_flag());
}

#[test]
fn handle_keeps_its_path_in_one_spelling() {
    let entry = MaildirEntry::new("/m//cur/./1.host:2,S/");
    assert_eq!(entry.path(), "/m/cur/1.host:2,S");
    assert_eq!(entry.file_name(), Ok("1.host:2,S"));
    assert_eq!(entry.id(), Ok("1.host"));
    assert_eq!(entry.flags(), Ok(FlagSet::from_flags(&[Flag::Seen])));
    assert_eq!(MaildirEntry::new("a/b/").file_name(), Ok("b"));
    assert_eq!(entry, MaildirEntry::new("/m/cur/1.host:2,S"));
    assert!(entry.lies_in("/m/cur"));
    assert!(entry.lies_in("/m//cur/"));
    assert!(!entry.lies_in("/m"));
}

#[test]
fn handle_on_a_path_without_file_name_fails() {
    let entry = MaildirEntry::new("/m/cur/..");
    let error = Error::GetMaildirEntryFileNameError("/m/cur/..".to_string());
    assert_eq!(entry.file_name(), Err(error.clone()));
    assert_eq!(entry.id(), Err(error.clone()));
    assert_eq!(entry.flags(), Err(error.clone()));
    assert!(!entry.has_trash_flag());
    assert_eq!(entry.insert_flags(&[Flag::Seen]), Err(error.clone()));
    assert_eq!(entry.insert_flag(Flag::Seen), Err(error.clone()));
    assert_eq!(entry.remove_flags(&[Flag::Seen]), Err(error.clone()));
    assert_eq!(entry.remove_flag(Flag::Seen), Err(error.clone()));
    assert_eq!(entry.update_flags(&[]), Err(error.clone()));
    assert_eq!(entry.format_file_name(FlagSet::new()), Err(error.clone()));
    assert_eq!(entry.copy(&Maildir::from("/t")), Err(error.clone()));
    assert_eq!(entry.move_to(&Maildir::from("/t")), Err(error));
}

#[test]
fn unchanged_flags_ask_for_no_renaming() {
    let entry = MaildirEntry::new("/m/cur/m:2,PS");
    assert_eq!(entry.insert_flags(&[Flag::Seen, Flag::Passed]), Ok(None));
    assert_eq!(entry.insert_flags(&[]), Ok(None));
    assert_eq!(entry.insert_flag(Flag::Passed), Ok(None));
    assert_eq!(entry.remove_flags(&[Flag::Draft, Flag::Trashed]), Ok(None));
    assert_eq!(entry.remove_flags(&[]), Ok(None));
    assert_eq!(entry.remove_flag(Flag::Replied), Ok(None));
}

#[test]
fn changed_flags_ask_for_a_renaming_in_place() {
    let entry = MaildirEntry::new("/m/cur/m:2,PS");
    assert_eq!(
        entry.insert_flags(&[Flag::Trashed, Flag::Seen, Flag::Draft]),
        Ok(Some(rename("/m/cur/m:2,PS", "/m/cur/m:2,DPST")))
    );
    assert_eq!(
        entry.remove_flags(&[Flag::Passed, Flag::Flagged]),
        Ok(Some(rename("/m/cur/m:2,PS", "/m/cur/m:2,S")))
    );
    assert_eq!(
        entry.update_flags(&[Flag::Replied]),
        Ok(rename("/m/cur/m:2,PS", "/m/cur/m:2,R"))
    );
    assert_eq!(
        entry.update_flags(&[Flag::Seen, Flag::Passed]),
        Ok(rename("/m/cur/m:2,PS", "/m/cur/m:2,PS"))
    );
    let fresh = MaildirEntry::new("/m/new/m");
    assert_eq!(fresh.insert_flag(Flag::Seen), Ok(Some(rename("/m/new/m", "/m/new/m:2,S"))));
    assert_eq!(
        fresh.format_file_name(FlagSet::from_flags(&[Flag::Draft])),
        Ok("m:2,D".to_string())
    );
}

#[test]
fn handle_follows_its_own_renaming_only() {
    let mut entry = MaildirEntry::new("/m/cur/m:2,S");
    entry.follow(&rename("/m/cur/other", "/m/cur/m:2,T"));
    assert_eq!(entry.path(), "/m/cur/m:2,S");
    entry.follow(&FsOp::Copy { from: "/m/cur/m:2,S".to_string(), to: "/t/cur/m:2,S".to_string() });
    assert_eq!(entry.path(), "/m/cur/m:2,S");
    entry.follow(&FsOp::RemoveFile("/m/cur/m:2,S".to_string()));
    assert_eq!(entry.path(), "/m/cur/m:2,S");
    entry.follow(&rename("/m/cur//m:2,S", "/m/cur/m:2,ST/"));
    assert_eq!(entry.path(), "/m/cur/m:2,ST");
    assert_eq!(entry.info_separator(), ":");
}

#[test]
fn copy_and_move_keep_the_file_name() {
    let entry = MaildirEntry::new("/m/new/m:2,S");
    let target = Maildir::from("/t");
    assert_eq!(
        entry.copy(&target),
        Ok(Some(FsOp::Copy { from: "/m/new/m:2,S".to_string(), to: "/t/cur/m:2,S".to_string() }))
    );
    assert_eq!(entry.move_to(&target), Ok(Some(rename("/m/new/m:2,S", "/t/cur/m:2,S"))));
    let own = Maildir::from("/m");
    assert_eq!(entry.move_to(&own), Ok(Some(rename("/m/new/m:2,S", "/m/cur/m:2,S"))));
    let there = MaildirEntry::new("/m/cur/m:2,S");
    assert_eq!(there.copy(&own), Ok(None));
    assert_eq!(there.move_to(&own), Ok(None));
    assert!(there.lies_in("/m/cur"));
    assert!(!there.lies_in("/m/new"));
}

#[test]
fn removal_asks_for_the_file() {
    let entry = MaildirEntry::new("/m/new/m:2,S");
    assert_eq!(entry.remove(), FsOp::RemoveFile("/m/new/m:2,S".to_string()));
}
