use std::collections::{BTreeMap, BTreeSet, HashSet};

use maildirs::path::{dir_of, join};
use maildirs::{
    Delivery, DirItem, Error, Flag, FlagSet, FsOp, IdGenerator, IoFailure, IoKind, Kind, Maildir,
    MaildirEntry, Maildirs, MaildirsEntry, Timestamp, WriteAction, WriteEvent,
};
use tempfile::tempdir;

/// A file system in memory that does what the library asks for.
struct Disk {
    dirs: BTreeSet<String>,
    files: BTreeMap<String, Vec<u8>>,
    inodes: BTreeMap<String, u64>,
    next_inode: u64,
    ids: IdGenerator,
    now: Timestamp,
}

fn failure(kind: IoKind, message: &str) -> IoFailure {
    IoFailure { kind, message: message.to_string() }
}

impl Disk {
    fn new() -> Disk {
        Disk {
            dirs: BTreeSet::new(),
            files: BTreeMap::new(),
            inodes: BTreeMap::new(),
            next_inode: 100,
            ids: IdGenerator::with_host(4242, 0, Ok("testhost".to_string())),
            now: Timestamp { secs: 1_700_000_000, nanos: 123_456_789 },
        }
    }

    /// A disk on which the directory `root` and all above it exist.
    fn with_root(root: &str) -> Disk {
        let mut disk = Disk::new();
        disk.mkdir_all(root);
        disk
    }

    fn has(&self, path: &str) -> bool {
        self.dirs.contains(path) || self.files.contains_key(path)
    }

    fn parent_is_dir(&self, path: &str) -> bool {
        match dir_of(path) {
            Some(dir) => dir.is_empty() || self.dirs.contains(dir),
            None => true,
        }
    }

    fn below(&self, dir: &str) -> impl Iterator<Item = &String> + '_ {
        let stem = if dir.ends_with('/') { dir.to_string() } else { format!("{dir}/") };
        self.dirs.iter().chain(self.files.keys()).filter(move |p| p.starts_with(&stem))
    }

    fn mkdir_all(&mut self, path: &str) {
        let mut at = Some(path.to_string());
        while let Some(dir) = at {
            if dir.is_empty() {
                break;
            }
            at = dir_of(&dir).map(String::from);
            self.dirs.insert(dir);
        }
    }

    fn put(&mut self, path: &str, data: &[u8]) {
        self.files.insert(path.to_string(), data.to_vec());
        if !self.inodes.contains_key(path) {
            self.inodes.insert(path.to_string(), self.next_inode);
            self.next_inode += 1;
        }
    }

    fn perform(&mut self, op: &FsOp) -> Result<(), IoFailure> {
        match op {
            FsOp::CreateDir(path) => {
                if self.has(path) {
                    return Err(failure(IoKind::AlreadyExists, path));
                }
                if !self.parent_is_dir(path) {
                    return Err(failure(IoKind::NotFound, path));
                }
                self.dirs.insert(path.clone());
                Ok(())
            }
            FsOp::CreateDirAll(path) => {
                if self.files.contains_key(path) {
                    return Err(failure(IoKind::AlreadyExists, path));
                }
                self.mkdir_all(path);
                Ok(())
            }
            FsOp::RemoveDir(path) => {
                if !self.dirs.contains(path) {
                    return Err(failure(IoKind::NotFound, path));
                }
                if self.below(path).next().is_some() {
                    return Err(failure(IoKind::Other, "directory not empty"));
                }
                self.dirs.remove(path);
                Ok(())
            }
            FsOp::RemoveDirAll(path) => {
                if !self.dirs.contains(path) {
                    return Err(failure(IoKind::NotFound, path));
                }
                let gone: Vec<String> = self.below(path).cloned().collect();
                for p in gone {
                    self.dirs.remove(&p);
                    self.files.remove(&p);
                    self.inodes.remove(&p);
                }
                self.dirs.remove(path);
                Ok(())
            }
            FsOp::RemoveFile(path) => match self.files.remove(path) {
                Some(_) => {
                    self.inodes.remove(path);
                    Ok(())
                }
                None => Err(failure(IoKind::NotFound, path)),
            },
            FsOp::Touch(path) => {
                if !self.parent_is_dir(path) {
                    return Err(failure(IoKind::NotFound, path));
                }
                self.put(path, b"");
                Ok(())
            }
            FsOp::Rename { from, to } => {
                if !self.parent_is_dir(to) {
                    return Err(failure(IoKind::NotFound, to));
                }
                match self.files.remove(from) {
                    Some(data) => {
                        let inode = self.inodes.remove(from).unwrap();
                        self.files.insert(to.clone(), data);
                        self.inodes.insert(to.clone(), inode);
                        Ok(())
                    }
                    None => Err(failure(IoKind::NotFound, from)),
                }
            }
            FsOp::Copy { from, to } => {
                if !self.parent_is_dir(to) {
                    return Err(failure(IoKind::NotFound, to));
                }
                match self.files.get(from).cloned() {
                    Some(data) => {
                        self.put(to, &data);
                        Ok(())
                    }
                    None => Err(failure(IoKind::NotFound, from)),
                }
            }
        }
    }

    /// Performs the requests in turn and stops at the first that fails.
    fn perform_all(&mut self, ops: &[FsOp]) -> Result<(), IoFailure> {
        for op in ops {
            self.perform(op)?;
        }
        Ok(())
    }

    fn item(&self, path: &str) -> DirItem {
        let kind = if self.dirs.contains(path) { Kind::Dir } else { Kind::File };
        DirItem::new(path, kind)
    }

    /// The entries directly in `dir`.
    fn list(&self, dir: &str) -> Vec<DirItem> {
        self.below(dir)
            .filter(|p| dir_of(p) == Some(dir))
            .map(|p| self.item(p))
            .collect()
    }

    /// `root` and all below it.
    fn walk(&self, root: &str) -> Vec<DirItem> {
        let mut items = Vec::new();
        if self.has(root) {
            items.push(self.item(root));
        }
        items.extend(self.below(root).map(|p| self.item(p)));
        items
    }

    fn holds(&self, mdir: &Maildir) -> bool {
        mdir.is_present(&self.walk(mdir.path()))
    }

    fn read(&self, mdir: &Maildir) -> Vec<MaildirEntry> {
        mdir.read(&self.walk(mdir.path()))
    }

    fn iter(&self, mdirs: &Maildirs) -> HashSet<MaildirsEntry> {
        mdirs.iter(&self.walk(mdirs.path())).into_iter().collect()
    }

    fn create_all(&mut self, mdir: &Maildir) -> Result<(), IoFailure> {
        let ops = mdir.create_all(&self.walk(mdir.path()));
        self.perform_all(&ops)
    }

    fn remove_all(&mut self, mdir: &Maildir) -> Result<(), IoFailure> {
        let ops = mdir.remove_all(&self.walk(mdir.path()));
        self.perform_all(&ops)
    }

    fn remove(&mut self, mdirs: &Maildirs, name: &str) -> Result<(), IoFailure> {
        let ops = mdirs.remove(name, &self.walk(mdirs.path()));
        self.perform_all(&ops)
    }

    fn create(&mut self, mdirs: &Maildirs, name: &str) -> Maildir {
        let (mdir, ops) = mdirs.create(name, &self.walk(mdirs.path()));
        self.perform_all(&ops).unwrap();
        mdir
    }

    /// Runs a delivery to its end, doing on this disk what it asks for.
    fn run(&mut self, start: (Delivery, WriteAction), data: &[u8]) -> Result<MaildirEntry, Error> {
        let (mut delivery, mut action) = start;
        loop {
            let event = match action {
                WriteAction::CreateExclusive(path) => {
                    if self.has(&path) {
                        WriteEvent::Failed(failure(IoKind::AlreadyExists, &path))
                    } else if !self.parent_is_dir(&path) {
                        WriteEvent::Failed(failure(IoKind::NotFound, &path))
                    } else {
                        self.put(&path, b"");
                        WriteEvent::Done
                    }
                }
                WriteAction::Wait(_) => {
                    self.now.secs += 2;
                    WriteEvent::Done
                }
                WriteAction::WriteAndSync(path) => {
                    self.put(&path, data);
                    WriteEvent::Done
                }
                WriteAction::Stat(path) => match self.inodes.get(&path) {
                    Some(ino) => WriteEvent::Stat { dev: 7, ino: *ino },
                    None => WriteEvent::Failed(failure(IoKind::NotFound, &path)),
                },
                WriteAction::Rename { from, to } => match self.perform(&FsOp::Rename { from, to }) {
                    Ok(()) => WriteEvent::Done,
                    Err(f) => WriteEvent::Failed(f),
                },
                WriteAction::List(dir) => WriteEvent::Listed(self.list(&dir)),
                WriteAction::Remove(path) => {
                    let _ = self.perform(&FsOp::RemoveFile(path));
                    WriteEvent::Done
                }
                WriteAction::Done(entry) => return Ok(entry),
                WriteAction::Fail(e) => return Err(e),
            };
            action = delivery.step(event, &mut self.ids, self.now);
        }
    }

    fn write_new(&mut self, mdir: &Maildir, data: &[u8]) -> Result<MaildirEntry, Error> {
        let start = mdir.write_new(&mut self.ids, self.now);
        self.run(start, data)
    }

    fn write_cur(
        &mut self,
        mdir: &Maildir,
        data: &[u8],
        flags: &[Flag],
    ) -> Result<MaildirEntry, Error> {
        let start = mdir.write_cur(flags, &mut self.ids, self.now);
        self.run(start, data)
    }

    /// Performs the request, if there is one, and moves the handle after it.
    fn apply(&mut self, entry: &mut MaildirEntry, op: Option<FsOp>) {
        if let Some(op) = op {
            self.perform(&op).unwrap();
            entry.follow(&op);
        }
    }
}

fn fresh_root() -> String {
    tempdir().unwrap().into_path().to_str().unwrap().to_string()
}

fn flag_set(flags: &[Flag]) -> FlagSet {
    FlagSet::from_flags(flags)
}

fn entry(maildirpp: bool, path: String, name: &str) -> MaildirsEntry {
    MaildirsEntry { maildirpp, maildir: Maildir::from(&path), name: name.to_string() }
}

#[test]
fn entry_write_maildir_entry() {
    let root = fresh_root();
    let mut disk = Disk::with_root(&root);
    let mdirs = Maildirs::new(&root);
    let mdir = disk.create(&mdirs, "mdir");

    let entry = disk.write_new(&mdir, b"data").unwrap();
    let expected_path = Some(join(mdir.path(), "new"));
    assert_eq!(dir_of(entry.path()), expected_path.as_deref());
    assert!(entry.flags().unwrap().is_empty());

    let entry = disk.write_cur(&mdir, b"data", &[Flag::Passed, Flag::Seen]).unwrap();
    let expected_path = Some(join(mdir.path(), "cur"));
    assert_eq!(dir_of(entry.path()), expected_path.as_deref());

    let expected_flags = flag_set(&[Flag::Seen, Flag::Passed]);
    assert_eq!(entry.flags().unwrap(), expected_flags);
}

#[test]
fn entry_manage_maildir_entries() {
    let root = fresh_root();
    let mut disk = Disk::with_root(&root);
    let mdirs = Maildirs::new(&root);

    let a = disk.create(&mdirs, "a");
    let b = disk.create(&mdirs, "b/c");
    assert_eq!(disk.read(&a).len(), 0);
    assert_eq!(disk.read(&b).len(), 0);

    let entry = disk.write_cur(&a, b"data", &[]).unwrap();
    assert_eq!(disk.read(&a).len(), 1);
    assert_eq!(disk.read(&b).len(), 0);

    let copy = entry.copy(&b).unwrap().unwrap();
    disk.perform(&copy).unwrap();
    assert_eq!(disk.read(&a).len(), 1);
    assert_eq!(disk.read(&b).len(), 1);

    let moving = entry.move_to(&b).unwrap().unwrap();
    disk.perform(&moving).unwrap();
    assert_eq!(disk.read(&a).len(), 0);
    assert_eq!(disk.read(&b).len(), 1);
}

#[test]
fn entry_change_maildir_entry_flags() {
    let root = fresh_root();
    let mut disk = Disk::with_root(&root);
    let mdirs = Maildirs::new(&root);
    let mdir = disk.create(&mdirs, "mdir");
    let mut entry = disk.write_cur(&mdir, b"data", &[Flag::Passed]).unwrap();
    let expected_flags = flag_set(&[Flag::Passed]);
    assert_eq!(entry.flags().unwrap(), expected_flags);

    let op = entry.insert_flag(Flag::Seen).unwrap();
    disk.apply(&mut entry, op);
    let expected_flags = flag_set(&[Flag::Passed, Flag::Seen]);
    assert_eq!(entry.flags().unwrap(), expected_flags);

    let op = entry.update_flags(&[Flag::Draft, Flag::Passed]).unwrap();
    disk.apply(&mut entry, Some(op));
    let expected_flags = flag_set(&[Flag::Passed, Flag::Draft]);
    assert_eq!(entry.flags().unwrap(), expected_flags);

    let op = entry.remove_flag(Flag::Passed).unwrap();
    disk.apply(&mut entry, op);
    let expected_flags = flag_set(&[Flag::Draft]);
    assert_eq!(entry.flags().unwrap(), expected_flags);
    assert!(disk.files.contains_key(entry.path()));
}

#[test]
fn maildir_create() {
    let root = fresh_root();
    let mut disk = Disk::with_root(&root);
    let mdir = Maildir::from(&root);
    assert_eq!(disk.holds(&mdir), false);

    disk.create_all(&mdir).unwrap();
    assert_eq!(disk.holds(&mdir), true);
    assert_eq!(disk.perform_all(&mdir.create()).is_err(), true);
    assert_eq!(disk.create_all(&mdir).is_ok(), true);
}

#[test]
fn maildir_remove() {
    let root = fresh_root();
    let mut disk = Disk::with_root(&root);
    let mdir = Maildir::from(&root);

    disk.create_all(&mdir).unwrap();
    assert_eq!(disk.holds(&mdir), true);

    disk.remove_all(&mdir).unwrap();
    assert_eq!(disk.holds(&mdir), false);
}

#[test]
fn maildirpp_create() {
    let root = fresh_root();
    let mut disk = Disk::with_root(&root);
    let mdirs = Maildirs::new(&root).with_maildirpp(true);

    let subdir = disk.create(&mdirs, "Subdir");
    assert_eq!(disk.holds(&subdir), true);
    assert_eq!(subdir.path(), join(mdirs.path(), ".Subdir"));

    let subdir = disk.create(&mdirs, "Subdir/Subdir");
    assert_eq!(disk.holds(&subdir), true);
    assert_eq!(subdir.path(), join(&join(mdirs.path(), ".Subdir"), ".Subdir"));

    let subdir = disk.create(&mdirs, "Subdir/.Subdir");
    assert_eq!(disk.holds(&subdir), true);
    assert_eq!(subdir.path(), join(&join(mdirs.path(), ".Subdir"), ".Subdir"));
}

#[test]
fn maildirpp_get() {
    let root = fresh_root();
    let mut disk = Disk::with_root(&root);
    let mdirs = Maildirs::new(&root).with_maildirpp(true);
    disk.create(&mdirs, "Subdir/Subdir");

    let subdir = mdirs.get("Subdir/Subdir", &disk.walk(&root)).unwrap();
    assert_eq!(disk.holds(&subdir), true);
    assert_eq!(subdir.path(), join(&join(mdirs.path(), ".Subdir"), ".Subdir"));

    let subdir = mdirs.get(".Subdir/..Subdir", &disk.walk(&root)).unwrap();
    assert_eq!(disk.holds(&subdir), true);
    assert_eq!(subdir.path(), join(&join(mdirs.path(), ".Subdir"), ".Subdir"));
}

#[test]
fn maildirpp_iter() {
    let root = fresh_root();
    let mut disk = Disk::with_root(&root);
    let mdirs = Maildirs::new(&root).with_maildirpp(true);
    disk.create(&mdirs, "Subdir");
    disk.create(&mdirs, "Subdir/Subdir");
    disk.create(&mdirs, "A/.B/..C");
    disk.perform(&FsOp::CreateDir(join(mdirs.path(), ".dot-no-maildir"))).unwrap();
    disk.perform(&FsOp::CreateDir(join(mdirs.path(), "no-dot-no-maildir"))).unwrap();

    // it should not list missing inbox
    let expected_mdirs = HashSet::from_iter([
        entry(true, join(mdirs.path(), ".Subdir"), "Subdir"),
        entry(true, join(mdirs.path(), ".Subdir/.Subdir"), "Subdir/Subdir"),
        entry(true, join(&join(&join(mdirs.path(), ".A"), ".B"), ".C"), "A/B/C"),
    ]);

    assert_eq!(disk.iter(&mdirs), expected_mdirs);

    // create the inbox, then check that it is listed properly
    disk.create_all(&Maildir::from(mdirs.path())).unwrap();

    let root_name = maildirs::path::file_name(mdirs.path()).unwrap();
    let expected_mdirs = HashSet::from_iter([
        entry(true, mdirs.path().to_string(), &root_name),
        entry(true, join(mdirs.path(), ".Subdir"), "Subdir"),
        entry(true, join(mdirs.path(), ".Subdir/.Subdir"), "Subdir/Subdir"),
        entry(true, join(&join(&join(mdirs.path(), ".A"), ".B"), ".C"), "A/B/C"),
    ]);

    assert_eq!(disk.iter(&mdirs), expected_mdirs);
}

#[test]
fn maildirpp_remove() {
    let root = fresh_root();
    let mut disk = Disk::with_root(&root);
    let mdirs = Maildirs::new(&root).with_maildirpp(true);
    disk.create(&mdirs, "Subdir");
    disk.create(&mdirs, "Subdir/Subdir");

    let expected_mdirs = HashSet::from_iter([
        entry(true, join(mdirs.path(), ".Subdir"), "Subdir"),
        entry(true, join(mdirs.path(), ".Subdir/.Subdir"), "Subdir/Subdir"),
    ]);

    assert_eq!(disk.iter(&mdirs), expected_mdirs);

    disk.remove(&mdirs, "Subdir/.Subdir").unwrap();

    let expected_mdirs =
        HashSet::from_iter([entry(true, join(mdirs.path(), ".Subdir"), "Subdir")]);

    assert_eq!(disk.iter(&mdirs), expected_mdirs);

    disk.remove(&mdirs, "..Subdir").unwrap();

    assert_eq!(disk.iter(&mdirs), HashSet::default());
}

#[test]
fn maildirs_create() {
    let root = fresh_root();
    let mut disk = Disk::with_root(&root);
    let mdirs = Maildirs::new(&root).with_maildirpp(false);

    let subdir = disk.create(&mdirs, "Subdir");
    assert_eq!(disk.holds(&subdir), true);
    assert_eq!(subdir.path(), join(mdirs.path(), "Subdir"));

    let subdir = disk.create(&mdirs, "Subdir/Subdir");
    assert_eq!(disk.holds(&subdir), true);
    assert_eq!(subdir.path(), join(&join(mdirs.path(), "Subdir"), "Subdir"));

    let subdir = disk.create(&mdirs, "Subdir/.Subdir");
    assert_eq!(disk.holds(&subdir), true);
    assert_eq!(subdir.path(), join(&join(mdirs.path(), "Subdir"), ".Subdir"));
}

#[test]
fn maildirs_get() {
    let root = fresh_root();
    let mut disk = Disk::with_root(&root);
    let mdirs = Maildirs::new(&root).with_maildirpp(false);
    disk.create(&mdirs, "Subdir/Subdir");

    let subdir = mdirs.get("Subdir/Subdir", &disk.walk(&root)).unwrap();
    assert_eq!(disk.holds(&subdir), true);
    assert_eq!(subdir.path(), join(&join(mdirs.path(), "Subdir"), "Subdir"));
}

#[test]
fn maildirs_iter() {
    let root = fresh_root();
    let mut disk = Disk::with_root(&root);
    let mdirs = Maildirs::new(&root).with_maildirpp(false);
    disk.create(&mdirs, "Subdir");
    disk.create(&mdirs, "Subdir/Subdir");
    disk.create(&mdirs, "A/B/C");
    disk.perform(&FsOp::CreateDir(join(mdirs.path(), ".dot-no-maildir"))).unwrap();
    disk.perform(&FsOp::CreateDir(join(mdirs.path(), "no-dot-no-maildir"))).unwrap();

    // it should not list missing inbox
    let expected_mdirs = HashSet::from_iter([
        entry(false, join(mdirs.path(), "Subdir"), "Subdir"),
        entry(false, join(mdirs.path(), "Subdir/Subdir"), "Subdir/Subdir"),
        entry(false, join(&join(&join(mdirs.path(), "A"), "B"), "C"), "A/B/C"),
    ]);

    assert_eq!(disk.iter(&mdirs), expected_mdirs);
}

#[test]
fn maildirs_remove() {
    let root = fresh_root();
    let mut disk = Disk::with_root(&root);
    let mdirs = Maildirs::new(&root).with_maildirpp(false);
    disk.create(&mdirs, "Subdir");
    disk.create(&mdirs, "Subdir/Subdir");

    let expected_mdirs = HashSet::from_iter([
        entry(false, join(mdirs.path(), "Subdir"), "Subdir"),
        entry(false, join(mdirs.path(), "Subdir/Subdir"), "Subdir/Subdir"),
    ]);

    assert_eq!(disk.iter(&mdirs), expected_mdirs);

    disk.remove(&mdirs, "Subdir/Subdir").unwrap();

    let expected_mdirs =
        HashSet::from_iter([entry(false, join(mdirs.path(), "Subdir"), "Subdir")]);

    assert_eq!(disk.iter(&mdirs), expected_mdirs);

    disk.remove(&mdirs, "Subdir").unwrap();

    assert_eq!(disk.iter(&mdirs), HashSet::default());
}

#[test]
fn create_maildir() {
    let root = fresh_root();
    let mut disk = Disk::with_root(&root);
    let mdir = Maildir::from(&root);
    assert_eq!(disk.holds(&mdir), false);

    disk.create_all(&mdir).unwrap();
    assert_eq!(disk.holds(&mdir), true);
    assert_eq!(disk.perform_all(&mdir.create()).is_err(), true);
    assert_eq!(disk.create_all(&mdir).is_ok(), true);
}

#[test]
fn remove_maildir() {
    let root = fresh_root();
    let mut disk = Disk::with_root(&root);
    let mdir = Maildir::from(&root);

    disk.create_all(&mdir).unwrap();
    assert_eq!(disk.holds(&mdir), true);

    disk.remove_all(&mdir).unwrap();
    assert_eq!(disk.holds(&mdir), false);
}

#[test]
fn add_maildir_to_maildirs() {
    let root = fresh_root();
    let mut disk = Disk::with_root(&root);
    let mdirs = Maildirs::new(&root);
    let a = disk.create(&mdirs, "a");
    assert_eq!(disk.holds(&a), true);
    assert_eq!(join(mdirs.path(), "a"), a.path());
}

#[test]
fn add_maildirpp_to_maildirs() {
    let root = fresh_root();
    let mut disk = Disk::with_root(&root);
    let mdirs = Maildirs::new(&root).with_maildirpp(true);
    let a = disk.create(&mdirs, "a");
    assert_eq!(disk.holds(&a), true);
    assert_eq!(join(mdirs.path(), ".a"), a.path());
}

#[test]
fn list_maildirpp_from_maildirs() {
    let root = fresh_root();
    let mut disk = Disk::with_root(&root);
    let mdirs = Maildirs::new(&root).with_maildirpp(true);
    disk.create(&mdirs, "a");
    disk.create(&mdirs, "b");
    disk.create(&mdirs, "c");

    disk.perform(&FsOp::CreateDir(join(mdirs.path(), ".dot-no-maildir"))).unwrap();
    disk.perform(&FsOp::CreateDir(join(mdirs.path(), "no-dot-no-maildir"))).unwrap();
    disk.create_all(&Maildir::from(&join(mdirs.path(), ".dot-maildir"))).unwrap();
    disk.create_all(&Maildir::from(&join(mdirs.path(), "no-dot-maildir"))).unwrap();
    disk.create_all(&Maildir::from(mdirs.path())).unwrap();

    let expected_mdirs = HashSet::from_iter([
        Maildir::from(mdirs.path()),
        Maildir::from(&join(mdirs.path(), ".a")),
        Maildir::from(&join(mdirs.path(), ".b")),
        Maildir::from(&join(mdirs.path(), ".c")),
        Maildir::from(&join(mdirs.path(), ".dot-maildir")),
    ]);

    let found: HashSet<Maildir> = disk.iter(&mdirs).into_iter().map(|e| e.maildir).collect();
    assert_eq!(found, expected_mdirs);
}

#[test]
fn main_write_maildir_entry() {
    let root = fresh_root();
    let mut disk = Disk::with_root(&root);
    let mdirs = Maildirs::new(&root);
    let mdir = disk.create(&mdirs, "mdir");

    let entry = disk.write_new(&mdir, b"data").unwrap();
    let expected_path = Some(join(mdir.path(), "new"));
    assert_eq!(dir_of(entry.path()), expected_path.as_deref());
    assert!(entry.flags().unwrap().is_empty());

    let entry = disk.write_cur(&mdir, b"data", &[Flag::Passed, Flag::Seen]).unwrap();
    let expected_path = Some(join(mdir.path(), "cur"));
    assert_eq!(dir_of(entry.path()), expected_path.as_deref());

    let expected_flags = flag_set(&[Flag::Seen, Flag::Passed]);
    assert_eq!(entry.flags().unwrap(), expected_flags);
}

#[test]
fn main_manage_maildir_entries() {
    let root = fresh_root();
    let mut disk = Disk::with_root(&root);
    let mdirs = Maildirs::new(&root);

    let a = disk.create(&mdirs, "a");
    let b = disk.create(&mdirs, "b");
    assert_eq!(disk.read(&a).len(), 0);
    assert_eq!(disk.read(&b).len(), 0);

    let entry = disk.write_cur(&a, b"data", &[]).unwrap();
    assert_eq!(disk.read(&a).len(), 1);
    assert_eq!(disk.read(&b).len(), 0);

    let copy = entry.copy(&b).unwrap().unwrap();
    disk.perform(&copy).unwrap();
    assert_eq!(disk.read(&a).len(), 1);
    assert_eq!(disk.read(&b).len(), 1);

    let moving = entry.move_to(&b).unwrap().unwrap();
    disk.perform(&moving).unwrap();
    assert_eq!(disk.read(&a).len(), 0);
    assert_eq!(disk.read(&b).len(), 1);
}

#[test]
fn main_change_maildir_entry_flags() {
    let root = fresh_root();
    let mut disk = Disk::with_root(&root);
    let mdirs = Maildirs::new(&root);
    let mdir = disk.create(&mdirs, "mdir");
    let mut entry = disk.write_cur(&mdir, b"data", &[Flag::Passed]).unwrap();
    let expected_flags = flag_set(&[Flag::Passed]);
    assert_eq!(entry.flags().unwrap(), expected_flags);

    let op = entry.insert_flag(Flag::Seen).unwrap();
    disk.apply(&mut entry, op);
    let expected_flags = flag_set(&[Flag::Passed, Flag::Seen]);
    assert_eq!(entry.flags().unwrap(), expected_flags);

    let op = entry.update_flags(&[Flag::Draft, Flag::Passed]).unwrap();
    disk.apply(&mut entry, Some(op));
    let expected_flags = flag_set(&[Flag::Passed, Flag::Draft]);
    assert_eq!(entry.flags().unwrap(), expected_flags);

    let op = entry.remove_flag(Flag::Passed).unwrap();
    disk.apply(&mut entry, op);
    let expected_flags = flag_set(&[Flag::Draft]);
    assert_eq!(entry.flags().unwrap(), expected_flags);
}

#[test]
fn written_message_is_read_back_whole_and_without_flags() {
    let mut disk = Disk::with_root("/mail");
    let mdir = Maildir::from("/mail/M");
    disk.perform_all(&mdir.create()).unwrap();

    disk.write_new(&mdir, b"data").unwrap();

    let entries = disk.read(&mdir);
    assert_eq!(entries.len(), 1);
    assert!(entries[0].flags().unwrap().is_empty());
    assert_eq!(disk.files[entries[0].path()], b"data");
    assert_eq!(
        entries[0].path(),
        "/mail/M/new/1700000000.#1M123456789P4242V7I100.testhost"
    );
    assert!(disk.list("/mail/M/tmp").is_empty());
}

#[test]
fn message_written_to_cur_is_named_with_its_flags() {
    let mut disk = Disk::with_root("/mail");
    let mdir = Maildir::from("/mail/M");
    disk.perform_all(&mdir.create()).unwrap();

    let entry = disk.write_cur(&mdir, b"data", &[Flag::Passed, Flag::Seen]).unwrap();
    assert!(entry.path().ends_with(":2,PS"));
    assert_eq!(entry.flags().unwrap(), flag_set(&[Flag::Passed, Flag::Seen]));

    let other = mdir.with_info_separator(";");
    let entry = disk.write_cur(&other, b"data", &[Flag::Seen, Flag::Passed]).unwrap();
    assert!(entry.path().ends_with(";2,PS"));
    assert_eq!(entry.flags().unwrap(), flag_set(&[Flag::Passed, Flag::Seen]));
}

#[test]
fn flags_are_changed_by_renaming() {
    let mut disk = Disk::with_root("/mail");
    let mdir = Maildir::from("/mail/M");
    disk.perform_all(&mdir.create()).unwrap();
    let mut entry = disk.write_cur(&mdir, b"data", &[Flag::Passed]).unwrap();
    let id = entry.id().unwrap().to_string();

    let op = entry.insert_flags(&[Flag::Seen]).unwrap();
    assert_eq!(
        op,
        Some(FsOp::Rename {
            from: format!("/mail/M/cur/{id}:2,P"),
            to: format!("/mail/M/cur/{id}:2,PS"),
        })
    );
    disk.apply(&mut entry, op);
    assert_eq!(entry.flags().unwrap(), flag_set(&[Flag::Passed, Flag::Seen]));
    assert_eq!(entry.path(), format!("/mail/M/cur/{id}:2,PS"));
    assert!(disk.files.contains_key(entry.path()));

    let op = entry.remove_flags(&[Flag::Passed]).unwrap();
    disk.apply(&mut entry, op);
    assert_eq!(entry.flags().unwrap(), flag_set(&[Flag::Seen]));
    assert_eq!(entry.path(), format!("/mail/M/cur/{id}:2,S"));
    assert_eq!(disk.list("/mail/M/cur").len(), 1);
}

#[test]
fn subfolders_with_dots_are_found_by_their_names() {
    let mut disk = Disk::with_root("/root");
    let mdirs = Maildirs::new("/root").with_maildirpp(true);

    let mdir = disk.create(&mdirs, "Subdir/Subdir");
    assert_eq!(mdir.path(), "/root/.Subdir/.Subdir");
    disk.create(&mdirs, "Subdir");

    let names: HashSet<String> = disk.iter(&mdirs).into_iter().map(|e| e.name).collect();
    let expected: HashSet<String> =
        ["Subdir", "Subdir/Subdir"].into_iter().map(String::from).collect();
    assert_eq!(names, expected);
}

#[test]
fn two_processes_with_the_same_clock_deliver_two_messages() {
    let mut disk = Disk::with_root("/mail");
    let mdir = Maildir::from("/mail/M");
    disk.perform_all(&mdir.create()).unwrap();
    let now = disk.now;

    let mut first = IdGenerator::with_host(1, 0, Ok("host".to_string()));
    let mut second = IdGenerator::with_host(2, 0, Ok("host".to_string()));
    let a = mdir.write_new(&mut first, now);
    let b = mdir.write_new(&mut second, now);
    assert_ne!(a.1, b.1);

    let one = disk.run(a, b"one").unwrap();
    let two = disk.run(b, b"two").unwrap();
    assert_ne!(one.id().unwrap(), two.id().unwrap());
    assert_eq!(disk.list("/mail/M/new").len(), 2);
    assert_eq!(disk.files[one.path()], b"one");
    assert_eq!(disk.files[two.path()], b"two");
}

#[test]
fn taken_name_in_tmp_is_tried_again_under_another() {
    let mut disk = Disk::with_root("/mail");
    let mdir = Maildir::from("/mail/M");
    disk.perform_all(&mdir.create()).unwrap();
    disk.put("/mail/M/tmp/1700000000.#0M123456789P4242", b"someone else's");

    let (mut delivery, action) = mdir.write_new(&mut disk.ids, disk.now);
    assert_eq!(
        action,
        WriteAction::CreateExclusive("/mail/M/tmp/1700000000.#0M123456789P4242".to_string())
    );
    let taken = WriteEvent::Failed(failure(IoKind::AlreadyExists, "taken"));
    let action = delivery.step(taken, &mut disk.ids, disk.now);
    assert_eq!(action, WriteAction::Wait(2));
    let later = Timestamp { secs: 1_700_000_002, nanos: 5 };
    let action = delivery.step(WriteEvent::Done, &mut disk.ids, later);
    assert_eq!(
        action,
        WriteAction::CreateExclusive("/mail/M/tmp/1700000002.#1M5P4242".to_string())
    );

    let entry = disk.write_new(&mdir, b"data").unwrap();
    assert_eq!(disk.files[entry.path()], b"data");
    assert_eq!(disk.files["/mail/M/tmp/1700000000.#0M123456789P4242"], b"someone else's");
}

#[test]
fn failed_delivery_removes_its_file_before_it_reports() {
    let mdir = Maildir::from("/mail/M");
    let mut ids = IdGenerator::with_host(9, 0, Ok("host".to_string()));
    let now = Timestamp { secs: 10, nanos: 20 };
    let (mut delivery, action) = mdir.write_cur(&[Flag::Seen], &mut ids, now);
    assert_eq!(action, WriteAction::CreateExclusive("/mail/M/tmp/10.#0M20P9".to_string()));
    assert_eq!(
        delivery.step(WriteEvent::Done, &mut ids, now),
        WriteAction::WriteAndSync("/mail/M/tmp/10.#0M20P9".to_string())
    );
    assert_eq!(
        delivery.step(WriteEvent::Done, &mut ids, now),
        WriteAction::Stat("/mail/M/tmp/10.#0M20P9".to_string())
    );
    assert_eq!(
        delivery.step(WriteEvent::Stat { dev: 3, ino: 4 }, &mut ids, now),
        WriteAction::Rename {
            from: "/mail/M/tmp/10.#0M20P9".to_string(),
            to: "/mail/M/cur/10.#1M20P9V3I4.host:2,S".to_string(),
        }
    );
    let full = failure(IoKind::Other, "disk full");
    assert_eq!(
        delivery.step(WriteEvent::Failed(full.clone()), &mut ids, now),
        WriteAction::Remove("/mail/M/tmp/10.#0M20P9".to_string())
    );
    assert_eq!(
        delivery.step(WriteEvent::Done, &mut ids, now),
        WriteAction::Fail(Error::IoError(full))
    );
    assert!(delivery.is_finished());
}

#[test]
fn failure_before_the_file_exists_is_reported_at_once() {
    let mdir = Maildir::from("/mail/M");
    let mut ids = IdGenerator::with_host(9, 0, Ok("host".to_string()));
    let now = Timestamp { secs: 10, nanos: 20 };
    let (mut delivery, _) = mdir.write_new(&mut ids, now);
    let denied = failure(IoKind::PermissionDenied, "no");
    assert_eq!(
        delivery.step(WriteEvent::Failed(denied.clone()), &mut ids, now),
        WriteAction::Fail(Error::IoError(denied))
    );
}

#[test]
fn delivered_message_that_is_gone_is_reported() {
    let mdir = Maildir::from("/mail/M");
    let mut ids = IdGenerator::with_host(9, 0, Ok("host".to_string()));
    let now = Timestamp { secs: 10, nanos: 20 };
    let (mut delivery, _) = mdir.write_new(&mut ids, now);
    delivery.step(WriteEvent::Done, &mut ids, now);
    delivery.step(WriteEvent::Done, &mut ids, now);
    delivery.step(WriteEvent::Stat { dev: 3, ino: 4 }, &mut ids, now);
    assert_eq!(
        delivery.step(WriteEvent::Done, &mut ids, now),
        WriteAction::List("/mail/M/new".to_string())
    );
    let elsewhere = vec![DirItem::new("/mail/M/new/other", Kind::File)];
    assert_eq!(
        delivery.step(WriteEvent::Listed(elsewhere), &mut ids, now),
        WriteAction::Remove("/mail/M/tmp/10.#0M20P9".to_string())
    );
    assert_eq!(
        delivery.step(WriteEvent::Done, &mut ids, now),
        WriteAction::Fail(Error::FindNewMaildirEntryError(
            "/mail/M/new/10.#1M20P9V3I4.host".to_string()
        ))
    );
}

#[test]
fn host_without_a_name_in_text_fails_the_delivery() {
    let mdir = Maildir::from("/mail/M");
    let mut ids = IdGenerator::with_host(9, 0, Err("h\u{fffd}st".to_string()));
    let now = Timestamp { secs: 10, nanos: 20 };
    let (mut delivery, _) = mdir.write_new(&mut ids, now);
    delivery.step(WriteEvent::Done, &mut ids, now);
    delivery.step(WriteEvent::Done, &mut ids, now);
    assert_eq!(
        delivery.step(WriteEvent::Stat { dev: 3, ino: 4 }, &mut ids, now),
        WriteAction::Remove("/mail/M/tmp/10.#0M20P9".to_string())
    );
    assert_eq!(
        delivery.step(WriteEvent::Done, &mut ids, now),
        WriteAction::Fail(Error::Utf8Error("h\u{fffd}st".to_string()))
    );
}

#[test]
fn event_out_of_turn_ends_the_delivery() {
    let mdir = Maildir::from("/mail/M");
    let mut ids = IdGenerator::with_host(9, 0, Ok("host".to_string()));
    let now = Timestamp { secs: 10, nanos: 20 };
    let (mut delivery, _) = mdir.write_new(&mut ids, now);
    let action = delivery.step(WriteEvent::Stat { dev: 1, ino: 1 }, &mut ids, now);
    assert!(matches!(action, WriteAction::Fail(Error::IoError(_))));
    assert!(delivery.is_finished());
    let action = delivery.step(WriteEvent::Done, &mut ids, now);
    assert!(matches!(action, WriteAction::Fail(Error::IoError(_))));
}

#[test]
fn copy_and_move_into_the_own_mailbox_ask_for_nothing() {
    let mut disk = Disk::with_root("/mail");
    let mdir = Maildir::from("/mail/M");
    disk.perform_all(&mdir.create()).unwrap();
    let entry = disk.write_cur(&mdir, b"data", &[]).unwrap();

    assert_eq!(entry.copy(&mdir).unwrap(), None);
    assert_eq!(entry.move_to(&mdir).unwrap(), None);
    assert_eq!(disk.read(&mdir).len(), 1);
}

#[test]
fn copy_onto_the_same_path_is_refused() {
    let mut disk = Disk::with_root("/mail");
    let mdir = Maildir::from("/mail/M");
    disk.perform_all(&mdir.create()).unwrap();
    let entry = disk.write_cur(&mdir, b"data", &[]).unwrap();
    let id = entry.id().unwrap().to_string();
    let items = disk.walk("/mail/M");

    assert_eq!(
        mdir.copy_to(&id, &mdir, &items),
        Err(Error::CopyEmailSamePathError(entry.path().to_string()))
    );
    let other = Maildir::from("/mail/N");
    assert_eq!(
        mdir.copy_to(&id, &other, &items),
        Ok(FsOp::Copy {
            from: entry.path().to_string(),
            to: format!("/mail/N/cur/{id}:2,"),
        })
    );
    assert_eq!(
        mdir.copy_to("nobody", &other, &items),
        Err(Error::FindEmailError("nobody".to_string()))
    );
    assert_eq!(disk.read(&mdir).len(), 1);
}

#[test]
fn creating_twice_changes_nothing() {
    let mut disk = Disk::with_root("/mail");
    let mdir = Maildir::from("/mail/M");
    disk.create_all(&mdir).unwrap();
    let before = disk.walk("/mail");
    assert!(mdir.create_all(&before).is_empty());
    disk.create_all(&mdir).unwrap();
    assert_eq!(disk.walk("/mail"), before);
    assert!(disk.holds(&mdir));
}

#[test]
fn storing_creates_the_directories_that_are_missing() {
    let mut disk = Disk::with_root("/mail/M");
    let mdir = Maildir::from("/mail/M");
    disk.perform(&FsOp::CreateDir("/mail/M/new".to_string())).unwrap();

    let now = disk.now;
    let (dirs, delivery, first) = mdir.store_new(&disk.walk("/mail/M"), &mut disk.ids, now);
    assert_eq!(
        dirs,
        ["/mail/M/cur", "/mail/M/tmp"].map(|p| FsOp::CreateDirAll(p.to_string()))
    );
    disk.perform_all(&dirs).unwrap();
    let entry = disk.run((delivery, first), b"data").unwrap();
    assert!(disk.holds(&mdir));
    assert_eq!(dir_of(entry.path()), Some("/mail/M/new"));
    assert!(entry.flags().unwrap().is_empty());
    assert_eq!(disk.files[entry.path()], b"data");
    assert!(disk.list("/mail/M/tmp").is_empty());

    let (dirs, delivery, first) = mdir.store_cur(&disk.walk("/mail/M"), &mut disk.ids, now);
    assert!(dirs.is_empty());
    let entry = disk.run((delivery, first), b"more").unwrap();
    assert_eq!(dir_of(entry.path()), Some("/mail/M/cur"));
    assert!(entry.path().ends_with(":2,"));
    assert_eq!(disk.files[entry.path()], b"more");
}

#[test]
fn removing_what_is_not_there_asks_for_nothing() {
    let mut disk = Disk::with_root("/mail");
    let mdir = Maildir::from("/mail/M");
    assert!(mdir.remove_all(&disk.walk("/mail")).is_empty());
    disk.remove_all(&mdir).unwrap();
    disk.create_all(&mdir).unwrap();
    assert_eq!(
        mdir.remove_all(&disk.walk("/mail")),
        [FsOp::RemoveDirAll("/mail/M".to_string())]
    );
    disk.remove_all(&mdir).unwrap();
    assert!(!disk.holds(&mdir));
    disk.remove_all(&mdir).unwrap();
    let mdirs = Maildirs::new("/mail");
    disk.remove(&mdirs, "nothing").unwrap();
}

#[test]
fn paths_are_the_same_however_they_are_spelled() {
    let mut disk = Disk::with_root("/m");
    let mdir = Maildir::from("/m//");
    assert_eq!(mdir, Maildir::from("/m"));
    disk.perform_all(&mdir.create()).unwrap_err();
    disk.create_all(&mdir).unwrap();
    disk.put("/m/cur/x", b"data");
    let items = disk.walk("/m");

    let entry = MaildirEntry::new("/m/cur//x");
    assert_eq!(entry.path(), "/m/cur/x");
    assert_eq!(entry.copy(&mdir), Ok(None));
    assert_eq!(entry.move_to(&mdir), Ok(None));
    assert_eq!(
        Maildir::from("/m").copy_to("x", &mdir, &items),
        Err(Error::CopyEmailSamePathError("/m/cur/x".to_string()))
    );
    assert_eq!(disk.files["/m/cur/x"], b"data");

    let mdirs = Maildirs::new("/m/").with_maildirpp(true);
    let found = disk.iter(&mdirs);
    assert_eq!(found, HashSet::from_iter([entry_named(true, "/m", "m")]));
}

fn entry_named(maildirpp: bool, path: &str, name: &str) -> MaildirsEntry {
    MaildirsEntry { maildirpp, maildir: Maildir::from(path), name: name.to_string() }
}

#[test]
fn strict_removal_wants_empty_directories() {
    let mut disk = Disk::with_root("/mail");
    let mdir = Maildir::from("/mail/M");
    disk.perform_all(&mdir.create()).unwrap();
    disk.write_new(&mdir, b"data").unwrap();
    assert!(disk.perform_all(&mdir.remove()).is_err());

    let empty = Maildir::from("/mail/E");
    disk.perform_all(&empty.create()).unwrap();
    disk.perform_all(&empty.remove()).unwrap();
    assert!(!disk.holds(&empty));
    assert!(disk.perform_all(&empty.remove()).is_err());
}

#[test]
fn reader_sees_the_whole_message_or_none() {
    let mut disk = Disk::with_root("/mail");
    let mdir = Maildir::from("/mail/M");
    disk.perform_all(&mdir.create()).unwrap();
    let data = b"a message of some length";

    let (mut delivery, mut action) = mdir.write_new(&mut disk.ids, disk.now);
    let mut steps = 0;
    loop {
        let event = match action {
            WriteAction::CreateExclusive(path) => {
                disk.put(&path, b"");
                WriteEvent::Done
            }
            WriteAction::WriteAndSync(path) => {
                // A reader that looks while half of the message is written.
                disk.put(&path, &data[..data.len() / 2]);
                assert!(disk.read(&mdir).is_empty());
                disk.put(&path, data);
                WriteEvent::Done
            }
            WriteAction::Stat(path) => WriteEvent::Stat { dev: 1, ino: disk.inodes[&path] },
            WriteAction::Rename { from, to } => {
                disk.perform(&FsOp::Rename { from, to }).unwrap();
                WriteEvent::Done
            }
            WriteAction::List(dir) => WriteEvent::Listed(disk.list(&dir)),
            WriteAction::Done(entry) => {
                assert_eq!(disk.files[entry.path()], data);
                break;
            }
            other => panic!("{other:?}"),
        };
        for seen in disk.read(&mdir) {
            assert_eq!(disk.files[seen.path()], data);
        }
        action = delivery.step(event, &mut disk.ids, disk.now);
        steps += 1;
    }
    assert_eq!(steps, 5);
    assert_eq!(disk.read(&mdir).len(), 1);
}
