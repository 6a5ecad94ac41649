//! A message with its identifier and flags read out of its file name. The
//! names of such messages use the default separator.

use crate::error::{Error, ErrorView};
use crate::flag::{Flag, FlagSet, lemma_from_set};
use crate::listing::{DirItem, FsOp, is_listed, listed, Request};
use crate::maildir::{cur_name, default_info_separator, default_separator, new_name, tmp_name};
use crate::name::{decode, decoded_flags, decoded_id, encode, encoded};
use crate::path::{
    canonical, dir_in, dir_of, is_canonical, join, joined, name_in, name_of, normalize,
    with_file_name, with_name,
};
use crate::text::same_text;
use crate::validate::{is_valid, validate_id};
use vstd::prelude::*;

verus! {

/// What a parsed handle is.
pub struct MailEntryView {
    pub id: Seq<char>,
    pub flags: Set<Flag>,
    pub path: Seq<char>,
}

/// A handle on one message, with its identifier and flags read out of its file name. Its path
/// is held in canonical spelling.
#[derive(Debug, PartialEq, Eq, Hash)]
pub struct MailEntry {
    id: String,
    flags: FlagSet,
    path: String,
}

impl View for MailEntry {
    type V = MailEntryView;

    closed spec fn view(&self) -> MailEntryView {
        MailEntryView { id: self.id@, flags: self.flags@, path: self.path@ }
    }
}

impl Clone for MailEntry {
    fn clone(&self) -> (r: Self)
        ensures
            r@ == self@,
    {
        proof {
            use_type_invariant(self);
        }
        MailEntry { id: self.id.clone(), flags: self.flags, path: self.path.clone() }
    }
}

/// A request, and the handle as it is once the caller has performed the request.
#[derive(Debug, PartialEq, Eq, Hash)]
pub struct Change {
    pub op: FsOp,
    pub entry: MailEntry,
}

/// A change, as what it is.
pub struct ChangeView {
    pub op: Request,
    pub entry: MailEntryView,
}

impl View for Change {
    type V = ChangeView;

    open spec fn view(&self) -> ChangeView {
        ChangeView { op: self.op@, entry: self.entry@ }
    }
}

impl MailEntryView {
    /// The handle on the message at `path`, if the path has a file name.
    pub open spec fn at(path: Seq<char>) -> Option<MailEntryView> {
        match name_in(path) {
            Some(name) => Some(
                MailEntryView {
                    id: decoded_id(name, default_separator()),
                    flags: decoded_flags(name, default_separator()),
                    path,
                },
            ),
            None => None,
        }
    }

    /// The path of the message once its file name says `id` and `flags`.
    pub open spec fn renamed(self, id: Seq<char>, flags: Set<Flag>) -> Seq<char> {
        canonical(
            with_name(self.path, encoded(id, FlagSet::from_set(flags), default_separator())),
        )
    }

    /// What giving the message the identifier `id` and the flags `flags` takes: the renaming,
    /// and the handle after it; an error where the new path is taken in what was listed.
    pub open spec fn rewritten(
        self,
        id: Seq<char>,
        flags: Set<Flag>,
        items: Seq<DirItem>,
    ) -> Result<ChangeView, ErrorView> {
        let to = self.renamed(id, flags);
        if listed(items, to) {
            Err(ErrorView::AlreadyExistsError(to))
        } else {
            Ok(
                ChangeView {
                    op: Request::Rename { from: self.path, to },
                    entry: MailEntryView { id, flags, path: to },
                },
            )
        }
    }

    /// What moving the message into the directory `folder` beside its own takes: nothing
    /// where it lies in a directory of that name; else the renaming and the handle after it;
    /// an error where its path has no directory above, or that directory has none, or the
    /// path has no file name.
    pub open spec fn moved(self, folder: Seq<char>) -> Result<Option<ChangeView>, ErrorView> {
        match dir_in(self.path) {
            None => Err(ErrorView::NoParentError(self.path)),
            Some(dir) => if name_in(dir) == Some(folder) {
                Ok(None)
            } else {
                match dir_in(dir) {
                    None => Err(ErrorView::NoParentError(dir)),
                    Some(above) => match name_in(self.path) {
                        None => Err(ErrorView::GetMaildirEntryFileNameError(self.path)),
                        Some(name) => {
                            let to = canonical(joined(joined(above, folder), name));
                            Ok(
                                Some(
                                    ChangeView {
                                        op: Request::Rename { from: self.path, to },
                                        entry: MailEntryView { path: to, ..self },
                                    },
                                ),
                            )
                        },
                    },
                }
            },
        }
    }
}

/// Whether an exec result is the given result.
pub open spec fn change_is(
    r: Result<Change, Error>,
    expected: Result<ChangeView, ErrorView>,
) -> bool {
    match r {
        Ok(change) => expected == Ok::<ChangeView, ErrorView>(change@),
        Err(e) => expected == Err::<ChangeView, ErrorView>(e@),
    }
}

/// Whether an exec result is the given result.
pub open spec fn maybe_change_is(
    r: Result<Option<Change>, Error>,
    expected: Result<Option<ChangeView>, ErrorView>,
) -> bool {
    match r {
        Ok(Some(change)) => expected == Ok::<Option<ChangeView>, ErrorView>(Some(change@)),
        Ok(None) => expected == Ok::<Option<ChangeView>, ErrorView>(None),
        Err(e) => expected == Err::<Option<ChangeView>, ErrorView>(e@),
    }
}

impl MailEntry {
    #[verifier::type_invariant]
    spec fn well_formed(self) -> bool {
        is_canonical(self.path@)
    }

    /// The handle on the message at `path`: its identifier is its file name up to the last
    /// marker, its flags are those whose letters stand behind that marker. Fails where the
    /// path has no file name.
    pub fn from_path(path: &str) -> (r: Result<MailEntry, Error>)
        ensures
            match r {
                Ok(entry) => MailEntryView::at(canonical(path@)) == Some(entry@),
                Err(e) => MailEntryView::at(canonical(path@)).is_none() && e@
                    == ErrorView::GetMaildirEntryFileNameError(canonical(path@)),
            },
    {
        let spelled = normalize(path);
        let parts = match name_of(spelled.as_str()) {
            Some(name) => {
                let (id, flags) = decode(name, default_info_separator());
                Some((id.to_owned(), flags))
            },
            None => None,
        };
        match parts {
            Some((id, flags)) => Ok(MailEntry { id, flags, path: spelled }),
            None => Err(Error::GetMaildirEntryFileNameError(spelled)),
        }
    }

    /// The identifier of the message.
    pub fn id(&self) -> (r: &str)
        ensures
            r@ == self@.id,
    {
        self.id.as_str()
    }

    /// The path of the message's file, in canonical spelling.
    pub fn path(&self) -> (r: &str)
        ensures
            r@ == self@.path,
            is_canonical(r@),
    {
        proof {
            use_type_invariant(self);
        }
        self.path.as_str()
    }

    /// The flags of the message, each once, in the order of their letters.
    pub fn flags(&self) -> (r: Vec<Flag>)
        ensures
            r@.map_values(|f: Flag| f.code()) == FlagSet::from_set(self@.flags).letters(),
    {
        proof {
            lemma_from_set(self@.flags, self.flags);
        }
        self.flags.to_vec()
    }

    /// The letters of the message's flags, each once, in the order of the alphabet.
    pub fn flags_to_string(&self) -> (r: String)
        ensures
            r@ == FlagSet::from_set(self@.flags).letters(),
    {
        proof {
            lemma_from_set(self@.flags, self.flags);
        }
        self.flags.to_letters()
    }

    /// Whether the message carries the flag `flag`.
    pub fn has_flag(&self, flag: Flag) -> (r: bool)
        ensures
            r == self@.flags.contains(flag),
    {
        self.flags.contains(flag)
    }

    /// The change that writes `id` and `flags` into the message's file name.
    fn rewrite(&self, id: String, flags: FlagSet, items: &[DirItem]) -> (r: Result<Change, Error>)
        ensures
            change_is(r, self@.rewritten(id@, flags@, items@)),
    {
        proof {
            lemma_from_set(flags@, flags);
        }
        let name = encode(id.as_str(), &flags, default_info_separator());
        let to = normalize(with_file_name(self.path.as_str(), name.as_str()).as_str());
        if is_listed(items, to.as_str()) {
            return Err(Error::AlreadyExistsError(to));
        }
        Ok(
            Change {
                op: FsOp::Rename { from: self.path.clone(), to: to.clone() },
                entry: MailEntry { id, flags, path: to },
            },
        )
    }

    /// The change that gives the message the identifier `id`. Fails where `id` holds a `/`, and
    /// where the new path is taken in what the caller has listed.
    pub fn set_id(&self, id: &str, items: &[DirItem]) -> (r: Result<Change, Error>)
        ensures
            change_is(
                r,
                if is_valid(id@) {
                    self@.rewritten(id@, self@.flags, items@)
                } else {
                    Err(ErrorView::InvalidIdError(id@))
                },
            ),
    {
        match validate_id(id.to_owned()) {
            Ok(id) => self.rewrite(id, self.flags, items),
            Err(e) => Err(e),
        }
    }

    /// The change that gives the message the flag `flag`, or none where it carries the flag.
    /// Fails where the new path is taken in what the caller has listed.
    pub fn set_flag(&self, flag: Flag, items: &[DirItem]) -> (r: Result<Option<Change>, Error>)
        ensures
            maybe_change_is(
                r,
                if self@.flags.contains(flag) {
                    Ok(None)
                } else {
                    match self@.rewritten(self@.id, self@.flags.insert(flag), items@) {
                        Ok(change) => Ok(Some(change)),
                        Err(e) => Err(e),
                    }
                },
            ),
    {
        let mut flags = self.flags;
        if !flags.insert(flag) {
            return Ok(None);
        }
        match self.rewrite(self.id.clone(), flags, items) {
            Ok(change) => Ok(Some(change)),
            Err(e) => Err(e),
        }
    }

    /// The change that takes the flag `flag` from the message, or none where it does not
    /// carry the flag. Fails where the new path is taken in what the caller has listed.
    pub fn unset_flag(&self, flag: Flag, items: &[DirItem]) -> (r: Result<Option<Change>, Error>)
        ensures
            maybe_change_is(
                r,
                if !self@.flags.contains(flag) {
                    Ok(None)
                } else {
                    match self@.rewritten(self@.id, self@.flags.remove(flag), items@) {
                        Ok(change) => Ok(Some(change)),
                        Err(e) => Err(e),
                    }
                },
            ),
    {
        let mut flags = self.flags;
        if !flags.remove(flag) {
            return Ok(None);
        }
        match self.rewrite(self.id.clone(), flags, items) {
            Ok(change) => Ok(Some(change)),
            Err(e) => Err(e),
        }
    }

    /// The change that moves the message into the directory `folder` beside its own.
    fn move_to(&self, folder: &str) -> (r: Result<Option<Change>, Error>)
        ensures
            maybe_change_is(r, self@.moved(folder@)),
    {
        let dir = match dir_of(self.path.as_str()) {
            Some(dir) => dir,
            None => {
                return Err(Error::NoParentError(self.path.clone()));
            },
        };
        let there = match name_of(dir) {
            Some(name) => same_text(name, folder),
            None => false,
        };
        if there {
            return Ok(None);
        }
        let above = match dir_of(dir) {
            Some(above) => above,
            None => {
                return Err(Error::NoParentError(dir.to_owned()));
            },
        };
        let name = match name_of(self.path.as_str()) {
            Some(name) => name,
            None => {
                return Err(Error::GetMaildirEntryFileNameError(self.path.clone()));
            },
        };
        let to = normalize(join(join(above, folder).as_str(), name).as_str());
        Ok(
            Some(
                Change {
                    op: FsOp::Rename { from: self.path.clone(), to: to.clone() },
                    entry: MailEntry { id: self.id.clone(), flags: self.flags, path: to },
                },
            ),
        )
    }

    /// The change that moves the message into `new`, or none where it lies there.
    pub fn move_to_new(&self) -> (r: Result<Option<Change>, Error>)
        ensures
            maybe_change_is(r, self@.moved(new_name())),
    {
        proof {
            reveal_strlit("new");
        }
        assert("new"@ =~= new_name());
        self.move_to("new")
    }

    /// The change that moves the message into `cur`, or none where it lies there.
    pub fn move_to_cur(&self) -> (r: Result<Option<Change>, Error>)
        ensures
            maybe_change_is(r, self@.moved(cur_name())),
    {
        proof {
            reveal_strlit("cur");
        }
        assert("cur"@ =~= cur_name());
        self.move_to("cur")
    }

    /// The change that moves the message into `tmp`, or none where it lies there.
    pub fn move_to_tmp(&self) -> (r: Result<Option<Change>, Error>)
        ensures
            maybe_change_is(r, self@.moved(tmp_name())),
    {
        proof {
            reveal_strlit("tmp");
        }
        assert("tmp"@ =~= tmp_name());
        self.move_to("tmp")
    }
}

} // verus!
