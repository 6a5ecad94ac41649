//! One message of a mailbox: a handle on the path of its file.

use crate::error::{Error, ErrorView};
use crate::flag::{Flag, FlagSet, lemma_from_set};
use crate::listing::{FsOp, Request};
use crate::maildir::{cur_name, default_info_separator, default_separator, Maildir, MaildirView};
use crate::name::{decode, decoded_flags, decoded_id, encode, encoded};
use crate::path::{
    canonical, dir_in, dir_of, is_canonical, join, joined, name_in, name_of, normalize,
    with_file_name, with_name,
};
use crate::text::same_text;
use vstd::prelude::*;

verus! {

/// What a handle is: the path of the message's file, and the separator in its name.
pub struct EntryView {
    pub path: Seq<char>,
    pub separator: Seq<char>,
}

/// A handle on one message. Its path is held in canonical spelling.
#[derive(Debug, PartialEq, Eq, Hash)]
pub struct MaildirEntry {
    path: String,
    info_separator: &'static str,
}

impl View for MaildirEntry {
    type V = EntryView;

    closed spec fn view(&self) -> EntryView {
        EntryView { path: self.path@, separator: self.info_separator@ }
    }
}

impl Clone for MaildirEntry {
    fn clone(&self) -> (r: Self)
        ensures
            r@ == self@,
    {
        proof {
            use_type_invariant(self);
        }
        MaildirEntry { path: self.path.clone(), info_separator: self.info_separator }
    }
}

impl EntryView {
    /// The file name of the message, if its path has one.
    pub open spec fn file_name(self) -> Option<Seq<char>> {
        name_in(self.path)
    }

    /// The identifier of the message, if its path has a file name.
    pub open spec fn id(self) -> Option<Seq<char>> {
        match self.file_name() {
            Some(name) => Some(decoded_id(name, self.separator)),
            None => None,
        }
    }

    /// The flags of the message, if its path has a file name.
    pub open spec fn flags(self) -> Option<Set<Flag>> {
        match self.file_name() {
            Some(name) => Some(decoded_flags(name, self.separator)),
            None => None,
        }
    }

    /// The path under which the message lies once it carries exactly the flags `flags`.
    pub open spec fn flagged(self, flags: Set<Flag>) -> Seq<char>
        recommends
            self.file_name().is_some(),
    {
        with_name(
            self.path,
            encoded(self.id().unwrap(), FlagSet::from_set(flags), self.separator),
        )
    }

    /// Whether the message lies directly in the directory `dir`.
    pub open spec fn lies_in(self, dir: Seq<char>) -> bool {
        dir_in(self.path) == Some(dir)
    }
}

/// The handles of a list, as what they are.
pub open spec fn entry_views(entries: Seq<MaildirEntry>) -> Seq<EntryView> {
    entries.map_values(|e: MaildirEntry| e@)
}

/// Handles on the given paths, all with the separator `sep`.
pub open spec fn handles(paths: Seq<Seq<char>>, sep: Seq<char>) -> Seq<EntryView> {
    paths.map_values(|p: Seq<char>| EntryView { path: p, separator: sep })
}

/// The first of the paths whose file name holds the identifier `id`.
pub open spec fn first_with_id(paths: Seq<Seq<char>>, sep: Seq<char>, id: Seq<char>) -> Option<
    Seq<char>,
>
    decreases paths.len(),
{
    if paths.len() == 0 {
        None
    } else if (EntryView { path: paths[0], separator: sep }).id() == Some(id) {
        Some(paths[0])
    } else {
        first_with_id(paths.drop_first(), sep, id)
    }
}

/// `first_with_id` gives a path with the identifier before which no path has it, or none where
/// no path has it.
pub proof fn lemma_first_with_id(paths: Seq<Seq<char>>, sep: Seq<char>, id: Seq<char>)
    ensures
        match first_with_id(paths, sep, id) {
            Some(p) => exists|k: int|
                0 <= k < paths.len() && #[trigger] paths[k] == p && (EntryView {
                    path: p,
                    separator: sep,
                }).id() == Some(id) && forall|j: int|
                    0 <= j < k ==> (EntryView { path: #[trigger] paths[j], separator: sep }).id()
                        != Some(id),
            None => forall|j: int|
                0 <= j < paths.len() ==> (EntryView {
                    path: #[trigger] paths[j],
                    separator: sep,
                }).id() != Some(id),
        },
    decreases paths.len(),
{
    if paths.len() > 0 && (EntryView { path: paths[0], separator: sep }).id() != Some(id) {
        let rest = paths.drop_first();
        lemma_first_with_id(rest, sep, id);
        match first_with_id(rest, sep, id) {
            Some(p) => {
                let k = choose|k: int|
                    0 <= k < rest.len() && #[trigger] rest[k] == p && forall|j: int|
                        0 <= j < k ==> (EntryView { path: #[trigger] rest[j], separator: sep }).id()
                            != Some(id);
                assert(paths[k + 1] == p);
                assert forall|j: int| 0 <= j < k + 1 implies (EntryView {
                    path: #[trigger] paths[j],
                    separator: sep,
                }).id() != Some(id) by {
                    if j > 0 {
                        assert(paths[j] == rest[j - 1]);
                    }
                }
            },
            None => {
                assert forall|j: int| 0 <= j < paths.len() implies (EntryView {
                    path: #[trigger] paths[j],
                    separator: sep,
                }).id() != Some(id) by {
                    if j > 0 {
                        assert(paths[j] == rest[j - 1]);
                    }
                }
            },
        }
    } else if paths.len() > 0 {
        assert(paths[0] == paths[0]);
    }
}

/// A message is never copied or moved onto itself: where it does not lie in `cur` of the
/// mailbox, the path that `copy` and `move_to` ask to fill is not its own. Where it lies
/// there, they ask for nothing.
pub proof fn lemma_never_onto_itself(entry: EntryView, mdir: MaildirView)
    requires
        !entry.lies_in(mdir.cur()),
        entry.file_name().is_some(),
    ensures
        joined(mdir.cur(), entry.file_name().unwrap()) != entry.path,
{
    let cur = mdir.cur();
    let name = entry.file_name().unwrap();
    crate::path::lemma_last_segment(entry.path);
    assert(cur.len() > 0 && cur.last() == 'r');
    crate::path::lemma_joined_splits(cur, name);
}

/// A message whose flags were changed carries the new flags and nothing else is new: once
/// the renaming that `insert_flags`, `remove_flags` or `update_flags` asks for is done and
/// followed, the handle gives exactly the flags that were asked for, the identifier that it
/// gave before, and a path in the same directory, in canonical spelling where the handle's
/// path is, so that `follow` puts the handle on exactly that path. This holds for every
/// separator without `/`; with a `/` in the separator the new name would not be one file
/// name.
pub proof fn lemma_flags_after_renaming(entry: EntryView, flags: Set<Flag>)
    requires
        entry.file_name().is_some(),
        !entry.separator.contains('/'),
    ensures
        ({
            let after = EntryView { path: entry.flagged(flags), separator: entry.separator };
            &&& after.flags() == Some(flags)
            &&& after.id() == entry.id()
            &&& dir_in(entry.path).is_some() ==> dir_in(after.path) == dir_in(entry.path)
            &&& is_canonical(entry.path) ==> is_canonical(after.path)
        }),
{
    let sep = entry.separator;
    let id = entry.id().unwrap();
    let set = FlagSet::from_set(flags);
    let name = encoded(id, set, sep);
    let old_name = entry.file_name().unwrap();
    crate::path::lemma_last_segment(entry.path);
    crate::text::lemma_rfind(old_name, crate::name::marker(sep));
    crate::flag::lemma_letters(set);
    lemma_from_set(flags, set);
    crate::flag::lemma_digitless(set);
    let m = crate::name::marker(sep);
    assert(name[(id.len() + sep.len()) as int] == '2');
    assert forall|j: int| 0 <= j < name.len() implies name[j] != '/' by {
        if j < id.len() {
            assert(name[j] == id[j]);
            assert(id[j] == old_name[j]);
            assert(old_name.contains(id[j]));
        } else if j < id.len() + sep.len() {
            assert(name[j] == sep[j - id.len()]);
            assert(sep.contains(name[j]));
        } else if j >= id.len() + m.len() {
            assert(name[j] == set.letters()[j - id.len() - m.len()]);
        }
    }
    assert(!name.contains('/'));
    assert(name != seq!['.']) by {
        assert(seq!['.'].len() == 1);
    }
    assert(name != seq!['.', '.']) by {
        if name == seq!['.', '.'] {
            assert(seq!['.', '.'].len() == 2);
            assert(id.len() + sep.len() == 0);
            assert(seq!['.', '.'][0] == '.');
        }
    }
    crate::path::lemma_with_name(entry.path, name);
    crate::name::lemma_round_trip(id, set, sep);
    if is_canonical(entry.path) {
        crate::path::lemma_with_name_canonical(entry.path, name);
    }
}

/// Whether `e` says that the path `path` has no file name.
pub open spec fn no_file_name(e: Error, path: Seq<char>) -> bool {
    e@ == ErrorView::GetMaildirEntryFileNameError(path)
}

impl MaildirEntry {
    #[verifier::type_invariant]
    spec fn well_formed(self) -> bool {
        is_canonical(self.path@)
    }

    /// A handle on the message at `path`, with the default separator.
    pub fn new(path: &str) -> (r: MaildirEntry)
        ensures
            r@.path == canonical(path@),
            r@.separator == default_separator(),
    {
        MaildirEntry { path: normalize(path), info_separator: default_info_separator() }
    }

    /// Sets the separator between identifier and flags.
    pub fn set_info_separator(&mut self, sep: &'static str)
        ensures
            final(self)@.path == old(self)@.path,
            final(self)@.separator == sep@,
    {
        proof {
            use_type_invariant(&*self);
        }
        self.info_separator = sep;
    }

    /// The handle with another separator between identifier and flags.
    pub fn with_info_separator(self, sep: &'static str) -> (r: MaildirEntry)
        ensures
            r@.path == self@.path,
            r@.separator == sep@,
    {
        let mut r = self;
        r.set_info_separator(sep);
        r
    }

    /// The path of the message's file, in canonical spelling.
    pub fn path(&self) -> (r: &str)
        ensures
            r@ == self@.path,
            is_canonical(r@),
    {
        proof {
            use_type_invariant(self);
        }
        self.path.as_str()
    }

    /// The separator between identifier and flags.
    pub fn info_separator(&self) -> (r: &'static str)
        ensures
            r@ == self@.separator,
    {
        self.info_separator
    }

    /// The name of the message's file. Fails where the path has none.
    pub fn file_name(&self) -> (r: Result<&str, Error>)
        ensures
            match r {
                Ok(name) => self@.file_name() == Some(name@),
                Err(e) => self@.file_name().is_none() && no_file_name(e, self@.path),
            },
    {
        match name_of(self.path.as_str()) {
            Some(name) => Ok(name),
            None => Err(Error::GetMaildirEntryFileNameError(self.path.clone())),
        }
    }

    /// The identifier of the message: its file name up to the last marker. Fails where the path
    /// has no file name.
    pub fn id(&self) -> (r: Result<&str, Error>)
        ensures
            match r {
                Ok(id) => self@.id() == Some(id@),
                Err(e) => self@.file_name().is_none() && no_file_name(e, self@.path),
            },
    {
        match self.file_name() {
            Ok(name) => Ok(decode(name, self.info_separator).0),
            Err(e) => Err(e),
        }
    }

    /// The flags of the message: those whose letters stand behind the last marker of its file
    /// name. Fails where the path has no file name.
    pub fn flags(&self) -> (r: Result<FlagSet, Error>)
        ensures
            match r {
                Ok(flags) => self@.flags() == Some(flags@),
                Err(e) => self@.file_name().is_none() && no_file_name(e, self@.path),
            },
    {
        match self.file_name() {
            Ok(name) => Ok(decode(name, self.info_separator).1),
            Err(e) => Err(e),
        }
    }

    /// Whether the message is marked as trashed.
    pub fn has_trash_flag(&self) -> (r: bool)
        ensures
            r == (self@.flags().is_some() && self@.flags().unwrap().contains(Flag::Trashed)),
    {
        match self.flags() {
            Ok(flags) => flags.contains(Flag::Trashed),
            Err(_) => false,
        }
    }

    /// The file name of the message with the flags `flags` in place of its own.
    pub fn format_file_name(&self, flags: FlagSet) -> (r: Result<String, Error>)
        ensures
            match r {
                Ok(name) => self@.id().is_some() && name@ == encoded(
                    self@.id().unwrap(),
                    flags,
                    self@.separator,
                ),
                Err(e) => self@.file_name().is_none() && no_file_name(e, self@.path),
            },
    {
        match self.id() {
            Ok(id) => Ok(encode(id, &flags, self.info_separator)),
            Err(e) => Err(e),
        }
    }

    /// The renaming that gives the message the flags `flags`.
    fn rename_to(&self, flags: FlagSet) -> (r: Result<FsOp, Error>)
        ensures
            match r {
                Ok(op) => self@.file_name().is_some() && op@ == (Request::Rename {
                    from: self@.path,
                    to: self@.flagged(flags@),
                }),
                Err(e) => self@.file_name().is_none() && no_file_name(e, self@.path),
            },
    {
        proof {
            lemma_from_set(flags@, flags);
        }
        match self.format_file_name(flags) {
            Ok(name) => Ok(
                FsOp::Rename {
                    from: self.path.clone(),
                    to: with_file_name(self.path.as_str(), name.as_str()),
                },
            ),
            Err(e) => Err(e),
        }
    }

    /// The renaming that adds the flag `flag` to the message, or none where it carries the flag.
    pub fn insert_flag(&self, flag: Flag) -> (r: Result<Option<FsOp>, Error>)
        ensures
            match r {
                Ok(None) => self@.flags().is_some() && self@.flags().unwrap().contains(flag),
                Ok(Some(op)) => self@.flags().is_some() && !self@.flags().unwrap().contains(flag)
                    && op@ == (Request::Rename {
                    from: self@.path,
                    to: self@.flagged(self@.flags().unwrap().insert(flag)),
                }),
                Err(e) => self@.file_name().is_none() && no_file_name(e, self@.path),
            },
    {
        let one = [flag];
        proof {
            assert(one@.to_set() =~= Set::<Flag>::empty().insert(flag)) by {
                assert(one@ =~= Seq::<Flag>::empty().push(flag));
                crate::flag::lemma_to_set_push(Seq::<Flag>::empty(), flag);
                assert(Seq::<Flag>::empty().to_set() =~= Set::<Flag>::empty());
            }
            if self@.flags().is_some() {
                let cur = self@.flags().unwrap();
                assert(cur.union(one@.to_set()) =~= cur.insert(flag));
                assert(one@.to_set().subset_of(cur) == cur.contains(flag));
            }
        }
        self.insert_flags(one.as_slice())
    }

    /// The renaming that adds the flags `flags` to the message, or none where it carries them
    /// all. Once the caller has renamed the file, `follow` moves the handle.
    pub fn insert_flags(&self, flags: &[Flag]) -> (r: Result<Option<FsOp>, Error>)
        ensures
            match r {
                Ok(None) => self@.flags().is_some() && flags@.to_set().subset_of(
                    self@.flags().unwrap(),
                ),
                Ok(Some(op)) => self@.flags().is_some() && !flags@.to_set().subset_of(
                    self@.flags().unwrap(),
                ) && op@ == (Request::Rename {
                    from: self@.path,
                    to: self@.flagged(self@.flags().unwrap().union(flags@.to_set())),
                }),
                Err(e) => self@.file_name().is_none() && no_file_name(e, self@.path),
            },
    {
        let mut set = match self.flags() {
            Ok(set) => set,
            Err(e) => {
                return Err(e);
            },
        };
        let ghost before = set@;
        let changed = set.insert_all(flags);
        proof {
            if flags@.to_set().subset_of(before) {
                assert(before.union(flags@.to_set()) =~= before);
            } else {
                let f = choose|f: Flag| flags@.to_set().contains(f) && !before.contains(f);
                assert(set@.contains(f));
            }
        }
        if !changed {
            return Ok(None);
        }
        match self.rename_to(set) {
            Ok(op) => Ok(Some(op)),
            Err(e) => Err(e),
        }
    }

    /// The renaming that takes the flag `flag` from the message, or none where it does not
    /// carry the flag.
    pub fn remove_flag(&self, flag: Flag) -> (r: Result<Option<FsOp>, Error>)
        ensures
            match r {
                Ok(None) => self@.flags().is_some() && !self@.flags().unwrap().contains(flag),
                Ok(Some(op)) => self@.flags().is_some() && self@.flags().unwrap().contains(flag)
                    && op@ == (Request::Rename {
                    from: self@.path,
                    to: self@.flagged(self@.flags().unwrap().remove(flag)),
                }),
                Err(e) => self@.file_name().is_none() && no_file_name(e, self@.path),
            },
    {
        let one = [flag];
        proof {
            assert(one@.to_set() =~= Set::<Flag>::empty().insert(flag)) by {
                assert(one@ =~= Seq::<Flag>::empty().push(flag));
                crate::flag::lemma_to_set_push(Seq::<Flag>::empty(), flag);
                assert(Seq::<Flag>::empty().to_set() =~= Set::<Flag>::empty());
            }
            if self@.flags().is_some() {
                let cur = self@.flags().unwrap();
                assert(cur.difference(one@.to_set()) =~= cur.remove(flag));
                assert(one@.to_set().disjoint(cur) == !cur.contains(flag));
            }
        }
        self.remove_flags(one.as_slice())
    }

    /// The renaming that takes the flags `flags` from the message, or none where it carries
    /// none of them. Once the caller has renamed the file, `follow` moves the handle.
    pub fn remove_flags(&self, flags: &[Flag]) -> (r: Result<Option<FsOp>, Error>)
        ensures
            match r {
                Ok(None) => self@.flags().is_some() && flags@.to_set().disjoint(
                    self@.flags().unwrap(),
                ),
                Ok(Some(op)) => self@.flags().is_some() && !flags@.to_set().disjoint(
                    self@.flags().unwrap(),
                ) && op@ == (Request::Rename {
                    from: self@.path,
                    to: self@.flagged(self@.flags().unwrap().difference(flags@.to_set())),
                }),
                Err(e) => self@.file_name().is_none() && no_file_name(e, self@.path),
            },
    {
        let mut set = match self.flags() {
            Ok(set) => set,
            Err(e) => {
                return Err(e);
            },
        };
        let ghost before = set@;
        let changed = set.remove_all(flags);
        proof {
            if flags@.to_set().disjoint(before) {
                assert(before.difference(flags@.to_set()) =~= before);
            } else {
                let f = choose|f: Flag| flags@.to_set().contains(f) && before.contains(f);
                assert(!set@.contains(f));
            }
        }
        if !changed {
            return Ok(None);
        }
        match self.rename_to(set) {
            Ok(op) => Ok(Some(op)),
            Err(e) => Err(e),
        }
    }

    /// The renaming that gives the message exactly the flags `flags`. It is asked for even
    /// where the message carries exactly these.
    pub fn update_flags(&self, flags: &[Flag]) -> (r: Result<FsOp, Error>)
        ensures
            match r {
                Ok(op) => self@.file_name().is_some() && op@ == (Request::Rename {
                    from: self@.path,
                    to: self@.flagged(flags@.to_set()),
                }),
                Err(e) => self@.file_name().is_none() && no_file_name(e, self@.path),
            },
    {
        self.rename_to(FlagSet::from_flags(flags))
    }

    /// The copying that puts the message into `cur` of the mailbox `mdir` under its own file
    /// name, or none where it lies there already.
    pub fn copy(&self, mdir: &Maildir) -> (r: Result<Option<FsOp>, Error>)
        ensures
            match r {
                Ok(None) => self@.lies_in(joined(mdir@.root, cur_name())),
                Ok(Some(op)) => !self@.lies_in(joined(mdir@.root, cur_name()))
                    && self@.file_name().is_some() && op@ == (Request::Copy {
                    from: self@.path,
                    to: joined(joined(mdir@.root, cur_name()), self@.file_name().unwrap()),
                }),
                Err(e) => !self@.lies_in(joined(mdir@.root, cur_name()))
                    && self@.file_name().is_none() && no_file_name(e, self@.path),
            },
    {
        if self.lies_in(mdir.cur()) {
            return Ok(None);
        }
        match self.file_name() {
            Ok(name) => Ok(
                Some(FsOp::Copy { from: self.path.clone(), to: join(mdir.cur(), name) }),
            ),
            Err(e) => Err(e),
        }
    }

    /// The renaming that moves the message into `cur` of the mailbox `mdir` under its own file
    /// name, or none where it lies there already.
    pub fn move_to(&self, mdir: &Maildir) -> (r: Result<Option<FsOp>, Error>)
        ensures
            match r {
                Ok(None) => self@.lies_in(joined(mdir@.root, cur_name())),
                Ok(Some(op)) => !self@.lies_in(joined(mdir@.root, cur_name()))
                    && self@.file_name().is_some() && op@ == (Request::Rename {
                    from: self@.path,
                    to: joined(joined(mdir@.root, cur_name()), self@.file_name().unwrap()),
                }),
                Err(e) => !self@.lies_in(joined(mdir@.root, cur_name()))
                    && self@.file_name().is_none() && no_file_name(e, self@.path),
            },
    {
        if self.lies_in(mdir.cur()) {
            return Ok(None);
        }
        match self.file_name() {
            Ok(name) => Ok(
                Some(FsOp::Rename { from: self.path.clone(), to: join(mdir.cur(), name) }),
            ),
            Err(e) => Err(e),
        }
    }

    /// The removal of the message's file.
    pub fn remove(&self) -> (op: FsOp)
        ensures
            op@ == Request::RemoveFile(self@.path),
    {
        FsOp::RemoveFile(self.path.clone())
    }

    /// Whether the message lies directly in the directory `dir`, however that is spelled.
    pub fn lies_in(&self, dir: &str) -> (r: bool)
        ensures
            r == self@.lies_in(canonical(dir@)),
    {
        let spelled = normalize(dir);
        match dir_of(self.path.as_str()) {
            Some(p) => same_text(p, spelled.as_str()),
            None => false,
        }
    }

    /// Moves the handle after the caller has performed `op`: where `op` renamed this message's
    /// file, the handle is on the new path; else it stays.
    pub fn follow(&mut self, op: &FsOp)
        ensures
            final(self)@.separator == old(self)@.separator,
            final(self)@.path == match op@ {
                Request::Rename { from, to } => if canonical(from) == old(self)@.path {
                    canonical(to)
                } else {
                    old(self)@.path
                },
                _ => old(self)@.path,
            },
    {
        proof {
            use_type_invariant(&*self);
        }
        match op {
            FsOp::Rename { from, to } => {
                let source = normalize(from.as_str());
                if same_text(source.as_str(), self.path.as_str()) {
                    self.path = normalize(to.as_str());
                }
            },
            _ => {},
        }
    }
}

} // verus!
