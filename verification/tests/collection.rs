use maildirs::{DirItem, Error, FsOp, Kind, Maildir, Maildirs, MaildirsEntry};

fn dir(path: &str) -> DirItem {
    DirItem::new(path, Kind::Dir)
}

fn mailbox_at(root: &str) -> Vec<DirItem> {
    vec![
        dir(root),
        dir(&format!("{root}/cur")),
        dir(&format!("{root}/new")),
        dir(&format!("{root}/tmp")),
    ]
}

#[test]
fn collection_keeps_its_settings() {
    let mut mdirs = Maildirs::new("/root");
    assert_eq!(mdirs.path(), "/root");
    assert_eq!(mdirs.maildir("a").info_separator(), ":");
    assert_eq!(mdirs.maildir("a").path(), "/root/a");
    mdirs.set_maildirpp(true);
    mdirs.set_info_separator(";");
    assert_eq!(mdirs.maildir("a").path(), "/root/.a");
    assert_eq!(mdirs.maildir("a").info_separator(), ";");
    assert_eq!(mdirs, Maildirs::new("/root").with_maildirpp(true).with_info_separator(";"));
    assert_ne!(mdirs, Maildirs::new("/root").with_info_separator(";"));
    assert_ne!(mdirs, Maildirs::new("/other").with_maildirpp(true).with_info_separator(";"));
    assert_eq!(mdirs.clone(), mdirs);
}

#[test]
fn collections_are_equal_by_path_and_layout() {
    assert_eq!(Maildirs::new("/root"), Maildirs::new("/root").with_info_separator(";"));
    assert_eq!(
        Maildirs::new("/root").with_maildirpp(true),
        Maildirs::new("/root").with_maildirpp(true).with_info_separator(";")
    );
    assert_ne!(Maildirs::new("/root"), Maildirs::new("/root").with_maildirpp(true));
    assert_eq!(Maildirs::new("/root"), Maildirs::new("/root/"));
    assert_ne!(Maildirs::new("/root"), Maildirs::new("/other"));
}

#[test]
fn plain_names_are_paths_below_the_collection() {
    let mdirs = Maildirs::new("/root");
    assert_eq!(mdirs.maildir("Subdir").path(), "/root/Subdir");
    assert_eq!(mdirs.maildir("Subdir/.Subdir").path(), "/root/Subdir/.Subdir");
    assert_eq!(mdirs.maildir("").path(), "/root");
    assert_eq!(mdirs.maildir("a//b/").path(), "/root/a/b");
}

#[test]
fn names_with_dots_get_one_dot_for_each_segment() {
    let mdirs = Maildirs::new("/root").with_maildirpp(true);
    assert_eq!(mdirs.maildir("Subdir").path(), "/root/.Subdir");
    assert_eq!(mdirs.maildir("Subdir/Subdir").path(), "/root/.Subdir/.Subdir");
    assert_eq!(mdirs.maildir(".Subdir/..Subdir").path(), "/root/.Subdir/.Subdir");
    assert_eq!(mdirs.maildir("Subdir/.Subdir").path(), "/root/.Subdir/.Subdir");
    assert_eq!(mdirs.maildir("/Subdir//Subdir/").path(), "/root/.Subdir/.Subdir");
    assert_eq!(mdirs.maildir("A/./B/../C").path(), "/root/.A/.B/.C");
    assert_eq!(mdirs.maildir("").path(), "/root");
}

#[test]
fn creation_asks_for_all_directories() {
    let mdirs = Maildirs::new("/root").with_maildirpp(true).with_info_separator(";");
    let (mdir, ops) = mdirs.create("Lists/Rust", &[]);
    assert_eq!(mdir, Maildir::from("/root/.Lists/.Rust").with_info_separator(";"));
    assert_eq!(
        ops,
        [
            "/root/.Lists/.Rust",
            "/root/.Lists/.Rust/cur",
            "/root/.Lists/.Rust/new",
            "/root/.Lists/.Rust/tmp",
        ]
        .map(|p| FsOp::CreateDirAll(p.to_string()))
    );
    assert_eq!(
        mdirs.remove("Lists/Rust", &[dir("/root/.Lists/.Rust")]),
        [FsOp::RemoveDirAll("/root/.Lists/.Rust".to_string())]
    );
    assert!(mdirs.remove("Lists/Rust", &[]).is_empty());
    assert!(mdirs.create("Lists/Rust", &mailbox_at("/root/.Lists/.Rust")).1.is_empty());
}

#[test]
fn lookup_wants_the_mailbox_to_exist() {
    let mdirs = Maildirs::new("/root");
    let items = mailbox_at("/root/a");
    assert_eq!(mdirs.find("a", &items), Some(Maildir::from("/root/a")));
    assert_eq!(mdirs.get("a", &items), Ok(Maildir::from("/root/a")));
    assert_eq!(mdirs.find("b", &items), None);
    assert_eq!(mdirs.get("b", &items), Err(Error::GetMaildirByNameNotFoundError("b".to_string())));
    let dotted = Maildirs::new("/root").with_maildirpp(true);
    assert_eq!(dotted.find("a", &items), None);
    assert_eq!(dotted.find("a", &mailbox_at("/root/.a")), Some(Maildir::from("/root/.a")));
}

#[test]
fn names_are_read_back_from_paths() {
    let plain = Maildirs::new("/root");
    assert_eq!(plain.name_of("/root/a/b"), Some("a/b".to_string()));
    assert_eq!(plain.name_of("/root/.a"), Some(".a".to_string()));
    assert_eq!(plain.name_of("/root"), Some(String::new()));
    assert_eq!(plain.name_of("/elsewhere/a"), None);

    let dotted = Maildirs::new("/root").with_maildirpp(true);
    assert_eq!(dotted.name_of("/root/.a/.b"), Some("a/b".to_string()));
    assert_eq!(dotted.name_of("/root/.a"), Some("a".to_string()));
    assert_eq!(dotted.name_of("/root"), Some("root".to_string()));
    assert_eq!(dotted.name_of("/root/a"), None);
    assert_eq!(dotted.name_of("/root/a/.b"), None);
    assert_eq!(dotted.name_of("/root/.a/b"), None);
    assert_eq!(dotted.name_of("/elsewhere/.a"), None);
    assert_eq!(Maildirs::new("/").with_maildirpp(true).name_of("/"), None);
    assert_eq!(
        Maildirs::new("/srv/mail/").with_maildirpp(true).name_of("/srv/mail"),
        Some("mail".to_string())
    );
    assert_eq!(dotted.name_of("/root//.a/"), Some("a".to_string()));
}

#[test]
fn walk_finds_the_mailboxes_in_the_order_of_the_list() {
    let mdirs = Maildirs::new("/root").with_info_separator(";");
    let mut items = vec![dir("/root")];
    items.extend(mailbox_at("/root/b"));
    items.push(dir("/root/no-mailbox"));
    items.push(DirItem::new("/root/file", Kind::File));
    items.extend(mailbox_at("/root/a/deep"));
    items.extend(mailbox_at("/outside"));
    let found = mdirs.iter(&items);
    let expected = vec![
        MaildirsEntry {
            maildirpp: false,
            maildir: Maildir::from("/root/b").with_info_separator(";"),
            name: "b".to_string(),
        },
        MaildirsEntry {
            maildirpp: false,
            maildir: Maildir::from("/root/a/deep").with_info_separator(";"),
            name: "a/deep".to_string(),
        },
    ];
    assert_eq!(found, expected);
    assert_eq!(found[0].clone(), found[0]);
}

#[test]
fn walk_with_dots_passes_over_what_has_no_dot() {
    let mdirs = Maildirs::new("/root").with_maildirpp(true);
    let mut items = mailbox_at("/root");
    items.extend(mailbox_at("/root/.a"));
    items.extend(mailbox_at("/root/plain"));
    items.extend(mailbox_at("/root/plain/.hidden"));
    items.extend(mailbox_at("/root/.a/.b"));
    items.push(dir("/root/.empty"));
    let names: Vec<String> = mdirs.iter(&items).into_iter().map(|e| e.name).collect();
    assert_eq!(names, ["root", "a", "a/b"]);
}
