//! One mailbox: a directory with `cur`, `new` and `tmp` below it.

use crate::entry::{entry_views, EntryView, first_with_id, handles, MaildirEntry};
use crate::error::{Error, ErrorView};
use crate::listing::{
    DirItem, FsOp, is_listed, is_listed_as, is_picked, Kind, listed, listed_as, Pick, picked,
    Request, request_is, requests, scan, scan_dir, texts,
};
use crate::mail_entry::{Change, ChangeView, MailEntry, MailEntryView};
use crate::path::{
    canonical, dir_in, dir_of, is_canonical, join, joined, name_in, name_of, normalize,
};
use crate::text::{count_leading, same_text, to_chars, trim_start};
use crate::validate::{is_valid, validate_folder};
use vstd::prelude::*;
use vstd::string::{StringExecFns, StrSliceExecFns};

verus! {

/// The name of the directory of the messages that were seen.
pub open spec fn cur_name() -> Seq<char> {
    seq!['c', 'u', 'r']
}

/// The name of the directory of the messages that were delivered and not seen yet.
pub open spec fn new_name() -> Seq<char> {
    seq!['n', 'e', 'w']
}

/// The name of the directory in which messages are written before they are delivered.
pub open spec fn tmp_name() -> Seq<char> {
    seq!['t', 'm', 'p']
}

/// The separator between identifier and flags, unless a mailbox is given another.
pub open spec fn default_separator() -> Seq<char> {
    seq![':']
}

/// The age in seconds above which a file left in `tmp` is taken for abandoned: 36 hours.
pub const STALE_AFTER: u64 = 36 * 60 * 60;

/// The separator between identifier and flags, unless a mailbox is given another.
pub fn default_info_separator() -> (sep: &'static str)
    ensures
        sep@ == default_separator(),
{
    proof {
        reveal_strlit(":");
    }
    assert(":"@ =~= default_separator());
    ":"
}

/// What a mailbox is: where it lies, and the separator in the names of its messages.
pub struct MaildirView {
    pub root: Seq<char>,
    pub separator: Seq<char>,
}

/// A mailbox. Its path is held in canonical spelling.
#[derive(Debug, PartialEq, Eq, Hash)]
pub struct Maildir {
    root: String,
    cur: String,
    new: String,
    tmp: String,
    info_separator: &'static str,
}

impl View for Maildir {
    type V = MaildirView;

    closed spec fn view(&self) -> MaildirView {
        MaildirView { root: self.root@, separator: self.info_separator@ }
    }
}

impl Clone for Maildir {
    fn clone(&self) -> (r: Self)
        ensures
            r@ == self@,
    {
        proof {
            use_type_invariant(self);
        }
        Maildir {
            root: self.root.clone(),
            cur: self.cur.clone(),
            new: self.new.clone(),
            tmp: self.tmp.clone(),
            info_separator: self.info_separator,
        }
    }
}

impl Maildir {
    #[verifier::type_invariant]
    spec fn well_formed(self) -> bool {
        &&& is_canonical(self.root@)
        &&& self.cur@ == joined(self.root@, cur_name())
        &&& self.new@ == joined(self.root@, new_name())
        &&& self.tmp@ == joined(self.root@, tmp_name())
    }

    /// The mailbox at `root`, with the default separator. Nothing is read or created.
    pub fn from(root: &str) -> (r: Maildir)
        ensures
            r@.root == canonical(root@),
            r@.separator == default_separator(),
    {
        let root = normalize(root);
        let root = root.as_str();
        proof {
            reveal_strlit("cur");
            reveal_strlit("new");
            reveal_strlit("tmp");
        }
        assert("cur"@ =~= cur_name());
        assert("new"@ =~= new_name());
        assert("tmp"@ =~= tmp_name());
        Maildir {
            root: root.to_owned(),
            cur: join(root, "cur"),
            new: join(root, "new"),
            tmp: join(root, "tmp"),
            info_separator: default_info_separator(),
        }
    }

    /// Sets the separator between identifier and flags.
    pub fn set_info_separator(&mut self, sep: &'static str)
        ensures
            final(self)@.root == old(self)@.root,
            final(self)@.separator == sep@,
    {
        proof {
            use_type_invariant(&*self);
        }
        self.info_separator = sep;
    }

    /// The mailbox with another separator between identifier and flags.
    pub fn with_info_separator(self, sep: &'static str) -> (r: Maildir)
        ensures
            r@.root == self@.root,
            r@.separator == sep@,
    {
        let mut r = self;
        r.set_info_separator(sep);
        r
    }

    /// The path of the mailbox, in canonical spelling.
    pub fn path(&self) -> (r: &str)
        ensures
            r@ == self@.root,
            is_canonical(r@),
    {
        proof {
            use_type_invariant(self);
        }
        self.root.as_str()
    }

    /// The path of the directory of the messages that were seen.
    pub fn cur(&self) -> (r: &str)
        ensures
            r@ == self@.cur(),
            is_canonical(r@),
    {
        proof {
            use_type_invariant(self);
            lemma_directories_canonical(self@);
        }
        self.cur.as_str()
    }

    /// The path of the directory of the messages that were delivered and not seen yet.
    pub fn new(&self) -> (r: &str)
        ensures
            r@ == self@.new(),
            is_canonical(r@),
    {
        proof {
            use_type_invariant(self);
            lemma_directories_canonical(self@);
        }
        self.new.as_str()
    }

    /// The path of the directory in which messages are written before they are delivered.
    pub fn tmp(&self) -> (r: &str)
        ensures
            r@ == self@.tmp(),
            is_canonical(r@),
    {
        proof {
            use_type_invariant(self);
            lemma_directories_canonical(self@);
        }
        self.tmp.as_str()
    }

    /// The separator between identifier and flags.
    pub fn info_separator(&self) -> (r: &'static str)
        ensures
            r@ == self@.separator,
    {
        self.info_separator
    }

    /// The name of the mailbox: the file name of its path, without the dots that it starts
    /// with. Fails where the path has no file name.
    pub fn name(&self) -> (r: Result<&str, Error>)
        ensures
            match r {
                Ok(name) => name_in(self@.root).is_some() && name@ == trim_start(
                    name_in(self@.root).unwrap(),
                    '.',
                ),
                Err(e) => name_in(self@.root).is_none() && e@
                    == ErrorView::GetMaildirNameError(self@.root),
            },
    {
        match name_of(self.root.as_str()) {
            Some(name) => {
                let chars = to_chars(name);
                let dots = count_leading(chars.as_slice(), 0, '.');
                assert(chars@.subrange(0, chars.len() as int) =~= chars@);
                Ok(name.substring_char(dots, chars.len()))
            },
            None => Err(Error::GetMaildirNameError(self.root.clone())),
        }
    }

    /// Whether the mailbox exists in what the caller has listed: its path, `cur`, `new` and
    /// `tmp` are all there as directories.
    pub fn is_present(&self, items: &[DirItem]) -> (r: bool)
        ensures
            r == self@.exists_in(items@),
    {
        is_listed_as(items, self.path(), Kind::Dir) && is_listed_as(items, self.cur(), Kind::Dir)
            && is_listed_as(items, self.new(), Kind::Dir) && is_listed_as(
            items,
            self.tmp(),
            Kind::Dir,
        )
    }

    /// The requests that create the mailbox. The first fails where the mailbox's directory
    /// exists already.
    pub fn create(&self) -> (ops: Vec<FsOp>)
        ensures
            requests(ops@) == seq![
                Request::CreateDir(self@.root),
                Request::CreateDir(joined(self@.root, cur_name())),
                Request::CreateDir(joined(self@.root, new_name())),
                Request::CreateDir(joined(self@.root, tmp_name())),
            ],
    {
        let mut ops: Vec<FsOp> = Vec::new();
        ops.push(FsOp::CreateDir(self.path().to_owned()));
        ops.push(FsOp::CreateDir(self.cur().to_owned()));
        ops.push(FsOp::CreateDir(self.new().to_owned()));
        ops.push(FsOp::CreateDir(self.tmp().to_owned()));
        assert(requests(ops@) =~= seq![
            Request::CreateDir(self@.root),
            Request::CreateDir(joined(self@.root, cur_name())),
            Request::CreateDir(joined(self@.root, new_name())),
            Request::CreateDir(joined(self@.root, tmp_name())),
        ]);
        ops
    }

    /// The requests that create what is missing of the mailbox: one for each of its four
    /// directories that is not there as a directory in what the caller has listed, the
    /// mailbox's own first. Where the mailbox exists, nothing is asked for.
    pub fn create_all(&self, items: &[DirItem]) -> (ops: Vec<FsOp>)
        ensures
            requests(ops@) == self@.lacking(items@),
            self@.exists_in(items@) ==> ops@.len() == 0,
    {
        let mut ops: Vec<FsOp> = Vec::new();
        let ghost none = Seq::<Seq<char>>::empty();
        assert(requests(ops@) =~= lacking(items@, none));
        let ghost one = seq![self@.root];
        let ghost two = seq![self@.root, self@.cur()];
        let ghost three = seq![self@.root, self@.cur(), self@.new()];
        push_lacking(&mut ops, items, self.path(), Ghost(none));
        assert(none.push(self@.root) =~= one);
        push_lacking(&mut ops, items, self.cur(), Ghost(one));
        assert(one.push(self@.cur()) =~= two);
        push_lacking(&mut ops, items, self.new(), Ghost(two));
        assert(two.push(self@.new()) =~= three);
        push_lacking(&mut ops, items, self.tmp(), Ghost(three));
        assert(three.push(self@.tmp()) =~= seq![
            self@.root,
            self@.cur(),
            self@.new(),
            self@.tmp(),
        ]);
        proof {
            if self@.exists_in(items@) {
                lemma_nothing_lacks(self@, items@);
            }
        }
        ops
    }

    /// The requests that remove the mailbox, its three directories first. Each fails where its
    /// directory holds anything or is gone.
    pub fn remove(&self) -> (ops: Vec<FsOp>)
        ensures
            requests(ops@) == seq![
                Request::RemoveDir(joined(self@.root, cur_name())),
                Request::RemoveDir(joined(self@.root, new_name())),
                Request::RemoveDir(joined(self@.root, tmp_name())),
                Request::RemoveDir(self@.root),
            ],
    {
        let mut ops: Vec<FsOp> = Vec::new();
        ops.push(FsOp::RemoveDir(self.cur().to_owned()));
        ops.push(FsOp::RemoveDir(self.new().to_owned()));
        ops.push(FsOp::RemoveDir(self.tmp().to_owned()));
        ops.push(FsOp::RemoveDir(self.path().to_owned()));
        assert(requests(ops@) =~= seq![
            Request::RemoveDir(joined(self@.root, cur_name())),
            Request::RemoveDir(joined(self@.root, new_name())),
            Request::RemoveDir(joined(self@.root, tmp_name())),
            Request::RemoveDir(self@.root),
        ]);
        ops
    }

    /// The request that removes the mailbox with all that it holds. Where nothing is at the
    /// mailbox's path in what the caller has listed, nothing is asked for.
    pub fn remove_all(&self, items: &[DirItem]) -> (ops: Vec<FsOp>)
        ensures
            requests(ops@) == if listed(items@, self@.root) {
                seq![Request::RemoveDirAll(self@.root)]
            } else {
                Seq::<Request>::empty()
            },
    {
        let mut ops: Vec<FsOp> = Vec::new();
        if is_listed(items, self.path()) {
            ops.push(FsOp::RemoveDirAll(self.path().to_owned()));
            assert(requests(ops@) =~= seq![Request::RemoveDirAll(self@.root)]);
        } else {
            assert(requests(ops@) =~= Seq::<Request>::empty());
        }
        ops
    }

    /// Handles on the given paths, with the mailbox's separator.
    fn entries(&self, paths: &Vec<String>) -> (r: Vec<MaildirEntry>)
        requires
            forall|k: int| 0 <= k < paths.len() ==> is_canonical(#[trigger] paths[k]@),
        ensures
            entry_views(r@) == handles(texts(paths@), self@.separator),
    {
        let mut r: Vec<MaildirEntry> = Vec::new();
        let mut i: usize = 0;
        while i < paths.len()
            invariant
                i <= paths.len(),
                forall|k: int| 0 <= k < paths.len() ==> is_canonical(#[trigger] paths[k]@),
                entry_views(r@) == handles(texts(paths@.take(i as int)), self@.separator),
            decreases paths.len() - i,
        {
            let entry = MaildirEntry::new(paths[i].as_str()).with_info_separator(
                self.info_separator,
            );
            let ghost before = r@;
            let ghost view = entry@;
            r.push(entry);
            proof {
                assert(paths@.take(i + 1) =~= paths@.take(i as int).push(paths@[i as int]));
                assert(view == EntryView { path: paths@[i as int]@, separator: self@.separator });
                assert(entry_views(r@) =~= entry_views(before).push(view));
                assert(handles(texts(paths@.take(i + 1)), self@.separator) =~= handles(
                    texts(paths@.take(i as int)),
                    self@.separator,
                ).push(view));
            }
            i += 1;
        }
        assert(paths@.take(paths.len() as int) =~= paths@);
        r
    }

    /// The messages of the mailbox in what the caller has listed: the regular files directly in
    /// `new`, then those directly in `cur`, each group in the order of the list, without the
    /// files whose name starts with a dot.
    pub fn read(&self, items: &[DirItem]) -> (r: Vec<MaildirEntry>)
        ensures
            entry_views(r@) == handles(self@.messages(items@, Pick::Visible), self@.separator),
    {
        let mut paths = scan_dir(items, self.new(), Pick::Visible);
        let mut seen = scan_dir(items, self.cur(), Pick::Visible);
        let ghost fresh = paths@;
        let ghost old_seen = seen@;
        paths.append(&mut seen);
        assert(texts(paths@) =~= texts(fresh) + texts(old_seen));
        assert forall|k: int| 0 <= k < paths.len() implies is_canonical(#[trigger] paths[k]@) by {
            if k < fresh.len() {
                assert(paths[k] == fresh[k]);
            } else {
                assert(paths[k] == old_seen[k - fresh.len()]);
            }
        }
        self.entries(&paths)
    }

    /// The first message with the identifier `id` in what the caller has listed: the regular
    /// files directly in `new` are looked at first, then those directly in `cur`.
    pub fn find(&self, id: &str, items: &[DirItem]) -> (r: Option<MaildirEntry>)
        ensures
            match r {
                Some(entry) => self@.found(id@, items@) == Some(entry@.path) && entry@.separator
                    == self@.separator,
                None => self@.found(id@, items@).is_none(),
            },
    {
        let mut paths = scan_dir(items, self.new(), Pick::Files);
        let mut seen = scan_dir(items, self.cur(), Pick::Files);
        let ghost fresh = paths@;
        let ghost old_seen = seen@;
        paths.append(&mut seen);
        assert(texts(paths@) =~= texts(fresh) + texts(old_seen));
        assert forall|k: int| 0 <= k < paths.len() implies is_canonical(#[trigger] paths[k]@) by {
            if k < fresh.len() {
                assert(paths[k] == fresh[k]);
            } else {
                assert(paths[k] == old_seen[k - fresh.len()]);
            }
        }
        let ghost all = texts(paths@);
        assert(all.skip(0) =~= all);
        let mut i: usize = 0;
        while i < paths.len()
            invariant
                i <= paths.len(),
                forall|k: int| 0 <= k < paths.len() ==> is_canonical(#[trigger] paths[k]@),
                all == texts(paths@),
                all == self@.messages(items@, Pick::Files),
                first_with_id(all, self@.separator, id@) == first_with_id(
                    all.skip(i as int),
                    self@.separator,
                    id@,
                ),
            decreases paths.len() - i,
        {
            let entry = MaildirEntry::new(paths[i].as_str()).with_info_separator(
                self.info_separator,
            );
            proof {
                assert(all.skip(i as int)[0] == paths@[i as int]@);
                assert(all.skip(i as int).drop_first() =~= all.skip(i + 1));
                assert(entry@ == EntryView { path: paths@[i as int]@, separator: self@.separator });
            }
            let hit = match entry.id() {
                Ok(found) => same_text(found, id),
                Err(_) => false,
            };
            if hit {
                assert(first_with_id(all.skip(i as int), self@.separator, id@) == Some(
                    entry@.path,
                ));
                return Some(entry);
            }
            i += 1;
        }
        None
    }

    /// The first message with the identifier `id`, as `find` gives it. Fails where there is
    /// none.
    pub fn get(&self, id: &str, items: &[DirItem]) -> (r: Result<MaildirEntry, Error>)
        ensures
            match r {
                Ok(entry) => self@.found(id@, items@) == Some(entry@.path) && entry@.separator
                    == self@.separator,
                Err(e) => self@.found(id@, items@).is_none() && e@
                    == ErrorView::GetMaildirEntryNotFoundError(id@),
            },
    {
        match self.find(id, items) {
            Some(entry) => Ok(entry),
            None => Err(Error::GetMaildirEntryNotFoundError(id.to_owned())),
        }
    }
}

/// The name of the file that marks a mailbox as a folder of another.
pub open spec fn folder_mark() -> Seq<char> {
    "maildirfolder"@
}

/// The removals of the files directly in `dir` that are older than `STALE_AFTER`, in the order
/// of the list.
pub open spec fn stale(items: Seq<DirItem>, dir: Seq<char>) -> Seq<Request>
    decreases items.len(),
{
    if items.len() == 0 {
        Seq::empty()
    } else if picked(items.last(), dir, Pick::Files) && items.last()@.age > STALE_AFTER {
        stale(items.drop_last(), dir).push(Request::RemoveFile(items.last()@.path))
    } else {
        stale(items.drop_last(), dir)
    }
}

/// The three directories of a mailbox whose path is in canonical spelling are in canonical
/// spelling, and none of their names ends in `/`.
pub proof fn lemma_directories_canonical(mailbox: MaildirView)
    requires
        is_canonical(mailbox.root),
    ensures
        is_canonical(mailbox.cur()),
        is_canonical(mailbox.new()),
        is_canonical(mailbox.tmp()),
        mailbox.cur().len() > 0 && mailbox.cur().last() == 'r',
        mailbox.new().len() > 0 && mailbox.new().last() == 'w',
        mailbox.tmp().len() > 0 && mailbox.tmp().last() == 'p',
{
    let names = seq![cur_name(), new_name(), tmp_name()];
    assert forall|k: int| 0 <= k < 3 implies crate::path::is_component(#[trigger] names[k])
        && !names[k].contains('/') by {
        let name = names[k];
        assert(name.len() == 3);
        if name == seq!['.'] {
            assert(seq!['.'].len() == 1);
        }
        if name.contains('/') {
            let j = choose|j: int| 0 <= j < name.len() && name[j] == '/';
            assert(j == 0 || j == 1 || j == 2);
        }
    }
    assert(names[0] == cur_name() && names[1] == new_name() && names[2] == tmp_name());
    crate::path::lemma_joined_canonical(mailbox.root, cur_name());
    crate::path::lemma_joined_canonical(mailbox.root, new_name());
    crate::path::lemma_joined_canonical(mailbox.root, tmp_name());
}

/// The creation of each of the directories `dirs` that is not there as a directory in what was
/// listed.
pub open spec fn lacking(items: Seq<DirItem>, dirs: Seq<Seq<char>>) -> Seq<Request>
    decreases dirs.len(),
{
    if dirs.len() == 0 {
        Seq::empty()
    } else if listed_as(items, dirs.last(), Kind::Dir) {
        lacking(items, dirs.drop_last())
    } else {
        lacking(items, dirs.drop_last()).push(Request::CreateDirAll(dirs.last()))
    }
}

/// A mailbox that exists lacks nothing: re-creating it asks for no request, so it leaves
/// every directory as it is.
pub proof fn lemma_nothing_lacks(mailbox: MaildirView, items: Seq<DirItem>)
    requires
        mailbox.exists_in(items),
    ensures
        mailbox.lacking(items) == Seq::<Request>::empty(),
{
    let four = seq![mailbox.root, mailbox.cur(), mailbox.new(), mailbox.tmp()];
    let three = seq![mailbox.root, mailbox.cur(), mailbox.new()];
    let two = seq![mailbox.root, mailbox.cur()];
    let one = seq![mailbox.root];
    assert(four.drop_last() =~= three);
    assert(three.drop_last() =~= two);
    assert(two.drop_last() =~= one);
    assert(one.drop_last() =~= Seq::<Seq<char>>::empty());
    assert(lacking(items, one.drop_last()) =~= Seq::<Request>::empty());
    assert(lacking(items, one) =~= Seq::<Request>::empty());
    assert(lacking(items, two) =~= Seq::<Request>::empty());
    assert(lacking(items, three) =~= Seq::<Request>::empty());
}

/// Adds the creation of `dir` to `ops` if `dir` is not there as a directory.
fn push_lacking(
    ops: &mut Vec<FsOp>,
    items: &[DirItem],
    dir: &str,
    Ghost(done): Ghost<Seq<Seq<char>>>,
)
    requires
        requests(old(ops)@) == lacking(items@, done),
        is_canonical(dir@),
    ensures
        requests(final(ops)@) == lacking(items@, done.push(dir@)),
{
    assert(done.push(dir@).drop_last() =~= done);
    if !is_listed_as(items, dir, Kind::Dir) {
        let ghost before = ops@;
        ops.push(FsOp::CreateDirAll(dir.to_owned()));
        assert(requests(ops@) =~= requests(before).push(Request::CreateDirAll(dir@)));
    }
}

/// The creation of each of the directories `dirs` that is not in what was listed.
pub open spec fn missing(items: Seq<DirItem>, dirs: Seq<Seq<char>>) -> Seq<Request>
    decreases dirs.len(),
{
    if dirs.len() == 0 {
        Seq::empty()
    } else if listed(items, dirs.last()) {
        missing(items, dirs.drop_last())
    } else {
        missing(items, dirs.drop_last()).push(Request::CreateDirAll(dirs.last()))
    }
}

/// The parsed handles on the given paths; a path without a file name gives none.
pub open spec fn parsed(paths: Seq<Seq<char>>) -> Seq<MailEntryView>
    decreases paths.len(),
{
    if paths.len() == 0 {
        Seq::empty()
    } else {
        match MailEntryView::at(paths.last()) {
            Some(entry) => parsed(paths.drop_last()).push(entry),
            None => parsed(paths.drop_last()),
        }
    }
}

/// For each of the given paths, the change that moves its message into `cur`; a path whose
/// message cannot be moved there, or lies there, gives none.
pub open spec fn taken_in(paths: Seq<Seq<char>>) -> Seq<ChangeView>
    decreases paths.len(),
{
    if paths.len() == 0 {
        Seq::empty()
    } else {
        let before = taken_in(paths.drop_last());
        match MailEntryView::at(paths.last()) {
            Some(entry) => match entry.moved(cur_name()) {
                Ok(Some(change)) => before.push(change),
                _ => before,
            },
            None => before,
        }
    }
}

/// What a mailbox gives as its messages lies directly in its `new` or in its `cur`, and is
/// there in what was listed: nothing comes from `tmp`, from a directory below, or from
/// elsewhere.
pub proof fn lemma_messages_lie_in_the_mailbox(
    mailbox: MaildirView,
    items: Seq<DirItem>,
    pick: Pick,
    k: int,
)
    requires
        0 <= k < mailbox.messages(items, pick).len(),
    ensures
        ({
            let path = mailbox.messages(items, pick)[k];
            &&& dir_in(path) == Some(mailbox.new()) || dir_in(path) == Some(mailbox.cur())
            &&& listed(items, path)
        }),
{
    let fresh = scan(items, mailbox.new(), pick);
    let seen = scan(items, mailbox.cur(), pick);
    let path = mailbox.messages(items, pick)[k];
    crate::listing::lemma_scan(items, mailbox.new(), pick);
    crate::listing::lemma_scan(items, mailbox.cur(), pick);
    if k < fresh.len() {
        assert(fresh[k] == path);
        assert(fresh.contains(path));
        assert(crate::listing::takes(items, mailbox.new(), pick, path));
    } else {
        assert(seen[k - fresh.len()] == path);
        assert(seen.contains(path));
        assert(crate::listing::takes(items, mailbox.cur(), pick, path));
    }
}

/// The parsed handles of a list, as what they are.
pub open spec fn mail_views(entries: Seq<MailEntry>) -> Seq<MailEntryView> {
    entries.map_values(|e: MailEntry| e@)
}

/// The changes of a list, as what they are.
pub open spec fn change_views(changes: Seq<Change>) -> Seq<ChangeView> {
    changes.map_values(|c: Change| c@)
}

/// The mailboxes of a list, as what they are.
pub open spec fn maildir_views(mailboxes: Seq<Maildir>) -> Seq<MaildirView> {
    mailboxes.map_values(|m: Maildir| m@)
}

/// Mailboxes at the given paths, all with the separator `sep`.
pub open spec fn mailboxes_at(paths: Seq<Seq<char>>, sep: Seq<char>) -> Seq<MaildirView> {
    paths.map_values(|p: Seq<char>| MaildirView { root: p, separator: sep })
}

impl Maildir {
    /// The removals of the files that were left in `tmp` more than 36 hours ago, judged by
    /// what the caller has listed. They are to be tried in this order until one fails.
    pub fn clean_tmp(&self, items: &[DirItem]) -> (ops: Vec<FsOp>)
        ensures
            requests(ops@) == stale(items@, self@.tmp()),
    {
        let mut ops: Vec<FsOp> = Vec::new();
        let mut i: usize = 0;
        assert(requests(ops@) =~= stale(items@.take(0), self@.tmp()));
        while i < items.len()
            invariant
                i <= items.len(),
                requests(ops@) == stale(items@.take(i as int), self@.tmp()),
            decreases items.len() - i,
        {
            proof {
                let next = items@.take(i + 1);
                assert(next.drop_last() =~= items@.take(i as int));
                assert(next.last() == items@[i as int]);
            }
            if is_picked(&items[i], self.tmp(), Pick::Files) && items[i].age() > STALE_AFTER {
                let ghost before = ops@;
                ops.push(FsOp::RemoveFile(items[i].path().to_owned()));
                assert(requests(ops@) =~= requests(before).push(
                    Request::RemoveFile(items@[i as int]@.path),
                ));
            }
            i += 1;
        }
        assert(items@.take(items.len() as int) =~= items@);
        ops
    }

    /// The creation of each of `cur`, `new` and `tmp` that is not in what the caller has
    /// listed.
    pub fn ensure_dirs(&self, items: &[DirItem]) -> (ops: Vec<FsOp>)
        ensures
            requests(ops@) == missing(items@, seq![self@.cur(), self@.new(), self@.tmp()]),
    {
        let mut ops: Vec<FsOp> = Vec::new();
        let ghost dirs = seq![self@.cur(), self@.new(), self@.tmp()];
        proof {
            assert(dirs.drop_last() =~= seq![self@.cur(), self@.new()]);
            assert(dirs.drop_last().drop_last() =~= seq![self@.cur()]);
            assert(dirs.drop_last().drop_last().drop_last() =~= Seq::<Seq<char>>::empty());
            assert(requests(ops@) =~= missing(items@, Seq::<Seq<char>>::empty()));
        }
        if !is_listed(items, self.cur()) {
            let ghost before = ops@;
            ops.push(FsOp::CreateDirAll(self.cur().to_owned()));
            assert(requests(ops@) =~= requests(before).push(Request::CreateDirAll(self@.cur())));
        }
        assert(requests(ops@) == missing(items@, seq![self@.cur()]));
        if !is_listed(items, self.new()) {
            let ghost before = ops@;
            ops.push(FsOp::CreateDirAll(self.new().to_owned()));
            assert(requests(ops@) =~= requests(before).push(Request::CreateDirAll(self@.new())));
        }
        assert(requests(ops@) == missing(items@, seq![self@.cur(), self@.new()]));
        if !is_listed(items, self.tmp()) {
            let ghost before = ops@;
            ops.push(FsOp::CreateDirAll(self.tmp().to_owned()));
            assert(requests(ops@) =~= requests(before).push(Request::CreateDirAll(self@.tmp())));
        }
        ops
    }

    /// How many messages lie in `new`, in what the caller has listed: the entries directly in
    /// it that are no directory and whose name does not start with a dot.
    pub fn count_new(&self, items: &[DirItem]) -> (n: usize)
        ensures
            n == scan(items@, self@.new(), Pick::Messages).len(),
    {
        scan_dir(items, self.new(), Pick::Messages).len()
    }

    /// How many messages lie in `cur`, in what the caller has listed.
    pub fn count_cur(&self, items: &[DirItem]) -> (n: usize)
        ensures
            n == scan(items@, self@.cur(), Pick::Messages).len(),
    {
        scan_dir(items, self.cur(), Pick::Messages).len()
    }

    /// How many messages lie in `tmp`, in what the caller has listed.
    pub fn count_tmp(&self, items: &[DirItem]) -> (n: usize)
        ensures
            n == scan(items@, self@.tmp(), Pick::Messages).len(),
    {
        scan_dir(items, self.tmp(), Pick::Messages).len()
    }

    /// Parsed handles on the messages directly in `dir`.
    fn list(&self, items: &[DirItem], dir: &str) -> (r: Vec<MailEntry>)
        requires
            is_canonical(dir@),
        ensures
            mail_views(r@) == parsed(scan(items@, dir@, Pick::Messages)),
    {
        let paths = scan_dir(items, dir, Pick::Messages);
        let ghost all = texts(paths@);
        let mut r: Vec<MailEntry> = Vec::new();
        let mut i: usize = 0;
        assert(mail_views(r@) =~= parsed(all.take(0)));
        while i < paths.len()
            invariant
                i <= paths.len(),
                forall|k: int| 0 <= k < paths.len() ==> is_canonical(#[trigger] paths[k]@),
                all == texts(paths@),
                mail_views(r@) == parsed(all.take(i as int)),
            decreases paths.len() - i,
        {
            proof {
                let next = all.take(i + 1);
                assert(next.drop_last() =~= all.take(i as int));
                assert(next.last() == paths@[i as int]@);
            }
            match MailEntry::from_path(paths[i].as_str()) {
                Ok(entry) => {
                    let ghost before = r@;
                    let ghost view = entry@;
                    r.push(entry);
                    assert(mail_views(r@) =~= mail_views(before).push(view));
                },
                Err(_) => {},
            }
            i += 1;
        }
        assert(all.take(all.len() as int) =~= all);
        r
    }

    /// The messages in `cur`, in what the caller has listed.
    pub fn list_cur(&self, items: &[DirItem]) -> (r: Vec<MailEntry>)
        ensures
            mail_views(r@) == parsed(scan(items@, self@.cur(), Pick::Messages)),
    {
        self.list(items, self.cur())
    }

    /// The messages in `tmp`, in what the caller has listed.
    pub fn list_tmp(&self, items: &[DirItem]) -> (r: Vec<MailEntry>)
        ensures
            mail_views(r@) == parsed(scan(items@, self@.tmp(), Pick::Messages)),
    {
        self.list(items, self.tmp())
    }

    /// The messages in `new`, in what the caller has listed. They stay where they are.
    pub fn peek_new(&self, items: &[DirItem]) -> (r: Vec<MailEntry>)
        ensures
            mail_views(r@) == parsed(scan(items@, self@.new(), Pick::Messages)),
    {
        self.list(items, self.new())
    }

    /// The messages in `new`, in what the caller has listed, each with the renaming that
    /// takes it into `cur` and as the handle that it is after that.
    pub fn list_new(&self, items: &[DirItem]) -> (r: Vec<Change>)
        ensures
            change_views(r@) == taken_in(scan(items@, self@.new(), Pick::Messages)),
    {
        let paths = scan_dir(items, self.new(), Pick::Messages);
        let ghost all = texts(paths@);
        let mut r: Vec<Change> = Vec::new();
        let mut i: usize = 0;
        assert(change_views(r@) =~= taken_in(all.take(0)));
        while i < paths.len()
            invariant
                i <= paths.len(),
                forall|k: int| 0 <= k < paths.len() ==> is_canonical(#[trigger] paths[k]@),
                all == texts(paths@),
                change_views(r@) == taken_in(all.take(i as int)),
            decreases paths.len() - i,
        {
            proof {
                let next = all.take(i + 1);
                assert(next.drop_last() =~= all.take(i as int));
                assert(next.last() == paths@[i as int]@);
            }
            match MailEntry::from_path(paths[i].as_str()) {
                Ok(entry) => match entry.move_to_cur() {
                    Ok(Some(change)) => {
                        let ghost before = r@;
                        let ghost view = change@;
                        r.push(change);
                        assert(change_views(r@) =~= change_views(before).push(view));
                    },
                    _ => {},
                },
                Err(_) => {},
            }
            i += 1;
        }
        assert(all.take(all.len() as int) =~= all);
        r
    }

    /// The folders of the mailbox in what the caller has listed: the directories directly in
    /// it whose name starts with one dot and not with two.
    pub fn folders(&self, items: &[DirItem]) -> (r: Vec<Maildir>)
        ensures
            maildir_views(r@) == mailboxes_at(
                scan(items@, self@.root, Pick::Folders),
                self@.separator,
            ),
    {
        let paths = scan_dir(items, self.path(), Pick::Folders);
        let mut r: Vec<Maildir> = Vec::new();
        let mut i: usize = 0;
        while i < paths.len()
            invariant
                i <= paths.len(),
                forall|k: int| 0 <= k < paths.len() ==> is_canonical(#[trigger] paths[k]@),
                maildir_views(r@) == mailboxes_at(texts(paths@.take(i as int)), self@.separator),
            decreases paths.len() - i,
        {
            let mdir = Maildir::from(paths[i].as_str()).with_info_separator(self.info_separator);
            let ghost before = r@;
            let ghost view = mdir@;
            r.push(mdir);
            proof {
                assert(paths@.take(i + 1) =~= paths@.take(i as int).push(paths@[i as int]));
                assert(view == MaildirView { root: paths@[i as int]@, separator: self@.separator });
                assert(maildir_views(r@) =~= maildir_views(before).push(view));
                assert(mailboxes_at(texts(paths@.take(i + 1)), self@.separator) =~= mailboxes_at(
                    texts(paths@.take(i as int)),
                    self@.separator,
                ).push(view));
            }
            i += 1;
        }
        assert(paths@.take(paths.len() as int) =~= paths@);
        r
    }

    /// The copying of the message `id` into `cur` of the mailbox `target`, under its own file
    /// name. Fails where the mailbox holds no such message in what the caller has listed, and
    /// where the message would be copied onto itself.
    pub fn copy_to(&self, id: &str, target: &Maildir, items: &[DirItem]) -> (r: Result<FsOp, Error>)
        ensures
            request_is(r, self@.copied(id@, target@, items@)),
    {
        let entry = match self.find(id, items) {
            Some(entry) => entry,
            None => {
                return Err(Error::FindEmailError(id.to_owned()));
            },
        };
        let name = match entry.file_name() {
            Ok(name) => name,
            Err(e) => {
                return Err(e);
            },
        };
        let to = join(target.cur(), name);
        if same_text(entry.path(), to.as_str()) {
            return Err(Error::CopyEmailSamePathError(to));
        }
        Ok(FsOp::Copy { from: entry.path().to_owned(), to })
    }

    /// The renaming that moves the message `id` into `cur` of the mailbox `target`, under its
    /// own file name. Fails where the mailbox holds no such message in what the caller has
    /// listed.
    pub fn move_to(&self, id: &str, target: &Maildir, items: &[DirItem]) -> (r: Result<FsOp, Error>)
        ensures
            request_is(r, self@.moved(id@, target@, items@)),
    {
        let entry = match self.find(id, items) {
            Some(entry) => entry,
            None => {
                return Err(Error::FindEmailError(id.to_owned()));
            },
        };
        let name = match entry.file_name() {
            Ok(name) => name,
            Err(e) => {
                return Err(e);
            },
        };
        let to = join(target.cur(), name);
        Ok(FsOp::Rename { from: entry.path().to_owned(), to })
    }

    /// The removal of the message `id`. Fails where the mailbox holds no such message in what
    /// the caller has listed.
    pub fn delete(&self, id: &str, items: &[DirItem]) -> (r: Result<FsOp, Error>)
        ensures
            request_is(
                r,
                match self@.found(id@, items@) {
                    Some(path) => Ok(Request::RemoveFile(path)),
                    None => Err(ErrorView::FindEmailError(id@)),
                },
            ),
    {
        match self.find(id, items) {
            Some(entry) => Ok(entry.remove()),
            None => Err(Error::FindEmailError(id.to_owned())),
        }
    }

    /// The folder `folder` of the mailbox, and the requests that create it: beside the
    /// mailbox where the mailbox is itself a folder in what the caller has listed, else in
    /// it. Fails where `folder` holds a `/`, and where the folder lies beside a mailbox whose
    /// path has no parent or no file name.
    pub fn create_folder(&self, folder: &str, items: &[DirItem]) -> (r: Result<
        (Maildir, Vec<FsOp>),
        Error,
    >)
        ensures
            match r {
                Ok((mdir, ops)) => self@.folder_path(folder@, items@) == Ok::<
                    Seq<char>,
                    ErrorView,
                >(mdir@.root) && mdir@.separator == self@.separator && requests(ops@) == seq![
                    Request::CreateDirAll(mdir@.root),
                    Request::Touch(joined(mdir@.root, folder_mark())),
                    Request::CreateDirAll(mdir@.cur()),
                    Request::CreateDirAll(mdir@.new()),
                    Request::CreateDirAll(mdir@.tmp()),
                ],
                Err(e) => self@.folder_path(folder@, items@) == Err::<Seq<char>, ErrorView>(e@),
            },
    {
        match validate_folder(folder) {
            Ok(_) => {},
            Err(e) => {
                return Err(e);
            },
        }
        let mark = join(self.path(), "maildirfolder");
        let mut name = String::new();
        let base = if is_listed(items, mark.as_str()) {
            let up = match dir_of(self.path()) {
                Some(up) => up,
                None => {
                    return Err(Error::NoParentError(self.root.clone()));
                },
            };
            match name_of(self.path()) {
                Some(own) => {
                    name = own.to_owned();
                },
                None => {
                    return Err(Error::GetMaildirNameError(self.root.clone()));
                },
            }
            up.to_owned()
        } else {
            self.root.clone()
        };
        let ghost own = name@;
        name.push('.');
        name.append(folder);
        assert(name@ =~= own + seq!['.'] + folder@);
        assert(Seq::<char>::empty() + seq!['.'] + folder@ =~= seq!['.'] + folder@);
        let path = join(base.as_str(), name.as_str());
        let mdir = Maildir::from(path.as_str()).with_info_separator(self.info_separator);
        let mut ops: Vec<FsOp> = Vec::new();
        ops.push(FsOp::CreateDirAll(mdir.path().to_owned()));
        ops.push(FsOp::Touch(join(mdir.path(), "maildirfolder")));
        ops.push(FsOp::CreateDirAll(mdir.cur().to_owned()));
        ops.push(FsOp::CreateDirAll(mdir.new().to_owned()));
        ops.push(FsOp::CreateDirAll(mdir.tmp().to_owned()));
        assert(requests(ops@) =~= seq![
            Request::CreateDirAll(mdir@.root),
            Request::Touch(joined(mdir@.root, folder_mark())),
            Request::CreateDirAll(mdir@.cur()),
            Request::CreateDirAll(mdir@.new()),
            Request::CreateDirAll(mdir@.tmp()),
        ]);
        Ok((mdir, ops))
    }
}

/// The separator that a mailbox is built with.
#[derive(Clone, Copy, Debug, PartialEq, Eq)]
pub struct MaildirBuilder {
    pub info_separator: &'static str,
}

impl Default for MaildirBuilder {
    fn default() -> (r: Self)
        ensures
            r.info_separator@ == default_separator(),
    {
        MaildirBuilder { info_separator: default_info_separator() }
    }
}

impl MaildirBuilder {
    /// A builder with the default separator.
    pub fn new() -> (r: MaildirBuilder)
        ensures
            r.info_separator@ == default_separator(),
    {
        MaildirBuilder { info_separator: default_info_separator() }
    }

    /// Sets the separator between identifier and flags.
    pub fn set_info_separator(&mut self, sep: &'static str)
        ensures
            final(self).info_separator@ == sep@,
    {
        self.info_separator = sep;
    }

    /// The builder with another separator between identifier and flags.
    pub fn with_info_separator(self, sep: &'static str) -> (r: MaildirBuilder)
        ensures
            r.info_separator@ == sep@,
    {
        let mut r = self;
        r.set_info_separator(sep);
        r
    }

    /// The mailbox at `path` with the builder's separator, and the removals of the files that
    /// were left in its `tmp` more than 36 hours ago, judged by what the caller has listed.
    /// The removals are to be tried in this order until one fails; their failure is no
    /// failure of the mailbox.
    pub fn build(self, path: &str, items: &[DirItem]) -> (r: (Maildir, Vec<FsOp>))
        ensures
            r.0@ == (MaildirView { root: canonical(path@), separator: self.info_separator@ }),
            requests(r.1@) == stale(items@, r.0@.tmp()),
    {
        let mdir = Maildir::from(path).with_info_separator(self.info_separator);
        let ops = mdir.clean_tmp(items);
        (mdir, ops)
    }
}

impl MaildirView {
    /// Where the message `id` lies once it is carried into `cur` of the mailbox `target`
    /// under its own file name; an error where the mailbox holds no such message in what was
    /// listed.
    pub open spec fn carried(
        self,
        id: Seq<char>,
        target: MaildirView,
        items: Seq<DirItem>,
    ) -> Result<Seq<char>, ErrorView> {
        match self.found(id, items) {
            None => Err(ErrorView::FindEmailError(id)),
            Some(from) => match name_in(from) {
                None => Err(ErrorView::GetMaildirEntryFileNameError(from)),
                Some(name) => Ok(joined(target.cur(), name)),
            },
        }
    }

    /// The copying of the message `id` into `cur` of the mailbox `target`; an error where the
    /// message would be copied onto itself.
    pub open spec fn copied(
        self,
        id: Seq<char>,
        target: MaildirView,
        items: Seq<DirItem>,
    ) -> Result<Request, ErrorView> {
        match self.carried(id, target, items) {
            Err(e) => Err(e),
            Ok(to) => if self.found(id, items) == Some(to) {
                Err(ErrorView::CopyEmailSamePathError(to))
            } else {
                Ok(Request::Copy { from: self.found(id, items).unwrap(), to })
            },
        }
    }

    /// The renaming of the message `id` into `cur` of the mailbox `target`.
    pub open spec fn moved(
        self,
        id: Seq<char>,
        target: MaildirView,
        items: Seq<DirItem>,
    ) -> Result<Request, ErrorView> {
        match self.carried(id, target, items) {
            Err(e) => Err(e),
            Ok(to) => Ok(Request::Rename { from: self.found(id, items).unwrap(), to }),
        }
    }

    /// The path, in canonical spelling, of the folder `folder` of the mailbox: beside the
    /// mailbox, under the
    /// mailbox's name, a dot and the folder's name, where the mailbox is itself a folder in
    /// what was listed; else in the mailbox, under a dot and the folder's name.
    pub open spec fn folder_path(self, folder: Seq<char>, items: Seq<DirItem>) -> Result<
        Seq<char>,
        ErrorView,
    > {
        if !is_valid(folder) {
            Err(ErrorView::InvalidFolderError(folder))
        } else if listed(items, canonical(joined(self.root, folder_mark()))) {
            match dir_in(self.root) {
                None => Err(ErrorView::NoParentError(self.root)),
                Some(up) => match name_in(self.root) {
                    None => Err(ErrorView::GetMaildirNameError(self.root)),
                    Some(own) => Ok(canonical(joined(up, own + seq!['.'] + folder))),
                },
            }
        } else {
            Ok(canonical(joined(self.root, seq!['.'] + folder)))
        }
    }

    /// The path of the directory of the messages that were seen.
    pub open spec fn cur(self) -> Seq<char> {
        joined(self.root, cur_name())
    }

    /// The path of the directory of the messages that were delivered and not seen yet.
    pub open spec fn new(self) -> Seq<char> {
        joined(self.root, new_name())
    }

    /// The path of the directory in which messages are written before they are delivered.
    pub open spec fn tmp(self) -> Seq<char> {
        joined(self.root, tmp_name())
    }

    /// The creation of each of the mailbox's four directories that is not there as a directory
    /// in what was listed, the mailbox's own first.
    pub open spec fn lacking(self, items: Seq<DirItem>) -> Seq<Request> {
        lacking(items, seq![self.root, self.cur(), self.new(), self.tmp()])
    }

    /// Whether the mailbox exists in what was listed.
    pub open spec fn exists_in(self, items: Seq<DirItem>) -> bool {
        &&& listed_as(items, self.root, Kind::Dir)
        &&& listed_as(items, self.cur(), Kind::Dir)
        &&& listed_as(items, self.new(), Kind::Dir)
        &&& listed_as(items, self.tmp(), Kind::Dir)
    }

    /// The paths that a scan of `new` takes, then those that a scan of `cur` takes.
    pub open spec fn messages(self, items: Seq<DirItem>, pick: Pick) -> Seq<Seq<char>> {
        scan(items, self.new(), pick) + scan(items, self.cur(), pick)
    }

    /// The path of the first regular file in `new`, then `cur`, whose name holds the
    /// identifier `id`.
    pub open spec fn found(self, id: Seq<char>, items: Seq<DirItem>) -> Option<Seq<char>> {
        first_with_id(self.messages(items, Pick::Files), self.separator, id)
    }
}

} // verus!
