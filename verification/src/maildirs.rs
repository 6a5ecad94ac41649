//! A collection of mailboxes below one directory.
//!
//! In the plain layout a mailbox's name is its path below the collection. In
//! the layout with dots each segment of a name is a directory whose name
//! starts with one dot: `Lists/Rust` lies at `.Lists/.Rust`.

use crate::error::{Error, ErrorView};
use crate::listing::{DirItem, FsOp, listed, Request, requests};
use crate::maildir::{default_info_separator, default_separator, Maildir, MaildirView};
use crate::path::{
    all_dotted, below, canonical, is_all_dotted, is_canonical, is_normal, join, joined, name_in,
    name_of, normalize, relative, relative_to, respell, split,
};
use vstd::prelude::*;

verus! {

/// What a collection is: where it lies, its layout, and the separator of its mailboxes.
pub struct MaildirsView {
    pub root: Seq<char>,
    pub maildirpp: bool,
    pub separator: Seq<char>,
}

/// A collection of mailboxes. Two collections are equal where they lie at the same path and
/// have the same layout.
#[derive(Debug, Eq)]
pub struct Maildirs {
    root: String,
    maildirpp: bool,
    info_separator: &'static str,
}

impl View for Maildirs {
    type V = MaildirsView;

    closed spec fn view(&self) -> MaildirsView {
        MaildirsView {
            root: self.root@,
            maildirpp: self.maildirpp,
            separator: self.info_separator@,
        }
    }
}

impl PartialEq for Maildirs {
    fn eq(&self, other: &Self) -> (r: bool) {
        self.maildirpp == other.maildirpp && self.root == other.root
    }
}

impl vstd::std_specs::cmp::PartialEqSpecImpl for Maildirs {
    open spec fn obeys_eq_spec() -> bool {
        true
    }

    open spec fn eq_spec(&self, other: &Self) -> bool {
        self@.maildirpp == other@.maildirpp && self@.root == other@.root
    }
}

impl Clone for Maildirs {
    fn clone(&self) -> (r: Self)
        ensures
            r@ == self@,
    {
        proof {
            use_type_invariant(self);
        }
        Maildirs {
            root: self.root.clone(),
            maildirpp: self.maildirpp,
            info_separator: self.info_separator,
        }
    }
}

/// What an entry of a collection is.
pub struct MaildirsEntryView {
    pub maildirpp: bool,
    pub maildir: MaildirView,
    pub name: Seq<char>,
}

/// A mailbox that was found in a collection, with its name there.
#[derive(Debug, PartialEq, Eq, Hash)]
pub struct MaildirsEntry {
    pub maildirpp: bool,
    pub maildir: Maildir,
    pub name: String,
}

impl View for MaildirsEntry {
    type V = MaildirsEntryView;

    open spec fn view(&self) -> MaildirsEntryView {
        MaildirsEntryView { maildirpp: self.maildirpp, maildir: self.maildir@, name: self.name@ }
    }
}

impl Clone for MaildirsEntry {
    fn clone(&self) -> (r: Self)
        ensures
            r@ == self@,
    {
        MaildirsEntry {
            maildirpp: self.maildirpp,
            maildir: self.maildir.clone(),
            name: self.name.clone(),
        }
    }
}

/// The entries of a list, as what they are.
pub open spec fn found_views(entries: Seq<MaildirsEntry>) -> Seq<MaildirsEntryView> {
    entries.map_values(|e: MaildirsEntry| e@)
}

impl MaildirsView {
    /// The path of the mailbox `name`, before it is brought into canonical spelling: in the
    /// plain layout the name below the collection, in the layout with dots each segment of
    /// the name with one dot in front.
    pub open spec fn path_of(self, name: Seq<char>) -> Seq<char> {
        if self.maildirpp {
            below(self.root, split(name), true)
        } else {
            joined(self.root, name)
        }
    }

    /// The mailbox `name`.
    pub open spec fn maildir(self, name: Seq<char>) -> MaildirView {
        MaildirView { root: canonical(self.path_of(name)), separator: self.separator }
    }

    /// The name under which the directory `path`, in canonical spelling, would be a mailbox of
    /// the collection, if it can be one. In the plain layout every path below the collection
    /// can, and the collection itself under the empty name. In the layout with dots the
    /// collection itself can, under its own file name, and every path below it whose segments
    /// all start with a dot, under the segments without their dots.
    pub open spec fn name_of(self, path: Seq<char>) -> Option<Seq<char>> {
        match relative_to(path, self.root) {
            None => None,
            Some(rest) => if !self.maildirpp {
                Some(rest)
            } else if rest.len() == 0 {
                name_in(self.root)
            } else if all_dotted(split(rest)) {
                Some(below(Seq::empty(), split(rest), false))
            } else {
                None
            },
        }
    }

    /// The entry for the directory `path`, if it can be a mailbox of the collection and is one
    /// in what was listed.
    pub open spec fn entry_at(self, path: Seq<char>, listing: Seq<DirItem>) -> Option<
        MaildirsEntryView,
    > {
        let maildir = MaildirView { root: path, separator: self.separator };
        match self.name_of(path) {
            Some(name) => if maildir.exists_in(listing) {
                Some(MaildirsEntryView { maildirpp: self.maildirpp, maildir, name })
            } else {
                None
            },
            None => None,
        }
    }

    /// The mailboxes among `items`, in their order, judged by what `listing` holds.
    pub open spec fn found_among(self, items: Seq<DirItem>, listing: Seq<DirItem>) -> Seq<
        MaildirsEntryView,
    >
        decreases items.len(),
    {
        if items.len() == 0 {
            Seq::empty()
        } else {
            let before = self.found_among(items.drop_last(), listing);
            match self.entry_at(items.last()@.path, listing) {
                Some(entry) => before.push(entry),
                None => before,
            }
        }
    }
}

/// What a walk gives is a mailbox of the collection: each entry is at the path of a listed
/// item, under the name that this path has in the collection, in the collection's layout and
/// with its separator, and the mailbox exists in what was listed.
pub proof fn lemma_found_is_listed(
    collection: MaildirsView,
    items: Seq<DirItem>,
    listing: Seq<DirItem>,
    k: int,
)
    requires
        0 <= k < collection.found_among(items, listing).len(),
    ensures
        ({
            let found = collection.found_among(items, listing)[k];
            &&& exists|i: int|
                0 <= i < items.len() && #[trigger] items[i]@.path == found.maildir.root
            &&& collection.name_of(found.maildir.root) == Some(found.name)
            &&& found.maildir.exists_in(listing)
            &&& found.maildir.separator == collection.separator
            &&& found.maildirpp == collection.maildirpp
        }),
    decreases items.len(),
{
    if items.len() > 0 {
        let before = collection.found_among(items.drop_last(), listing);
        if k < before.len() {
            lemma_found_is_listed(collection, items.drop_last(), listing, k);
            let found = before[k];
            let i = choose|i: int|
                0 <= i < items.drop_last().len() && #[trigger] items.drop_last()[i]@.path
                    == found.maildir.root;
            assert(items[i]@.path == found.maildir.root);
        } else {
            assert(items[items.len() - 1]@.path == items.last()@.path);
        }
    }
}

/// A mailbox is found under the name that it was made under: the directory of the mailbox
/// that a name gives is one that can be a mailbox of the collection, under that very name.
/// This holds for every name whose segments all name entries, and in the layout with dots
/// start without a dot, where the collection's path is not empty and does not end in `/`.
pub proof fn lemma_name_comes_back(collection: MaildirsView, name: Seq<char>)
    requires
        is_canonical(collection.root),
        collection.root.len() > 0,
        collection.root.last() != '/',
        if collection.maildirpp {
            crate::path::all_plain(split(name))
        } else {
            forall|k: int| 0 <= k < split(name).len() ==> is_normal(#[trigger] split(name)[k])
        },
    ensures
        collection.maildir(name).root == collection.path_of(name),
        collection.name_of(collection.maildir(name).root) == Some(name),
{
    let root = collection.root;
    let parts = split(name);
    crate::path::lemma_split(name);
    crate::path::lemma_unsplit_split(name);
    if collection.maildirpp {
        crate::path::lemma_dotted_name_comes_back(root, name);
        let dotted = crate::path::with_dots(parts);
        assert forall|k: int| 0 <= k < dotted.len() implies crate::path::is_component(
            #[trigger] dotted[k],
        ) && !dotted[k].contains('/') by {
            let part = parts[k];
            assert(dotted[k] == seq!['.'] + part);
            assert(dotted[k].len() == part.len() + 1);
            if dotted[k] == seq!['.'] {
                assert(seq!['.'].len() == 1);
            }
            if dotted[k].contains('/') {
                let j = choose|j: int| 0 <= j < dotted[k].len() && dotted[k][j] == '/';
                assert(part[j - 1] == '/');
                assert(part.contains('/'));
            }
        }
        crate::path::lemma_below_canonical(root, dotted);
    } else {
        assert forall|k: int| 0 <= k < parts.len() implies crate::path::is_component(
            #[trigger] parts[k],
        ) && !parts[k].contains('/') by {
            assert(is_normal(parts[k]));
        }
        crate::path::lemma_below_canonical(root, parts);
        let path = joined(root, name);
        let stem = root + seq!['/'];
        assert(path =~= root + seq!['/'] + crate::path::unsplit(parts));
        assert(stem.is_prefix_of(path)) by {
            assert(path.subrange(0, stem.len() as int) =~= stem);
        }
        assert(path.subrange(stem.len() as int, path.len() as int) =~= name);
        assert(parts.len() > 0);
        assert(is_normal(parts[0]));
        assert(name.len() > 0) by {
            if name.len() == 0 {
                assert(parts[0].len() == 0);
            }
        }
    }
}

impl Maildirs {
    #[verifier::type_invariant]
    spec fn well_formed(self) -> bool {
        is_canonical(self.root@)
    }

    /// The collection at `path`, in the plain layout, with the default separator.
    pub fn new(path: &str) -> (r: Maildirs)
        ensures
            r@ == (MaildirsView {
                root: canonical(path@),
                maildirpp: false,
                separator: default_separator(),
            }),
    {
        Maildirs {
            root: normalize(path),
            maildirpp: false,
            info_separator: default_info_separator(),
        }
    }

    /// Chooses the layout: with dots if `maildirpp`, else plain.
    pub fn set_maildirpp(&mut self, maildirpp: bool)
        ensures
            final(self)@ == (MaildirsView { maildirpp, ..old(self)@ }),
    {
        proof {
            use_type_invariant(&*self);
        }
        self.maildirpp = maildirpp;
    }

    /// The collection in the given layout.
    pub fn with_maildirpp(self, maildirpp: bool) -> (r: Maildirs)
        ensures
            r@ == (MaildirsView { maildirpp, ..self@ }),
    {
        let mut r = self;
        r.set_maildirpp(maildirpp);
        r
    }

    /// Sets the separator between identifier and flags for the mailboxes of the collection.
    pub fn set_info_separator(&mut self, sep: &'static str)
        ensures
            final(self)@ == (MaildirsView { separator: sep@, ..old(self)@ }),
    {
        proof {
            use_type_invariant(&*self);
        }
        self.info_separator = sep;
    }

    /// The collection with another separator between identifier and flags.
    pub fn with_info_separator(self, sep: &'static str) -> (r: Maildirs)
        ensures
            r@ == (MaildirsView { separator: sep@, ..self@ }),
    {
        let mut r = self;
        r.set_info_separator(sep);
        r
    }

    /// The path of the collection, in canonical spelling.
    pub fn path(&self) -> (r: &str)
        ensures
            r@ == self@.root,
            is_canonical(r@),
    {
        proof {
            use_type_invariant(self);
        }
        self.root.as_str()
    }

    /// The mailbox `name` of the collection. Nothing is read or created.
    pub fn maildir(&self, name: &str) -> (r: Maildir)
        ensures
            r@ == self@.maildir(name@),
    {
        let path = if self.maildirpp {
            respell(self.root.as_str(), name, true)
        } else {
            join(self.root.as_str(), name)
        };
        Maildir::from(path.as_str()).with_info_separator(self.info_separator)
    }

    /// The mailbox `name`, and the requests that create what is missing of it in what the
    /// caller has listed. Where the mailbox exists, nothing is asked for.
    pub fn create(&self, name: &str, items: &[DirItem]) -> (r: (Maildir, Vec<FsOp>))
        ensures
            r.0@ == self@.maildir(name@),
            requests(r.1@) == r.0@.lacking(items@),
            r.0@.exists_in(items@) ==> r.1@.len() == 0,
    {
        let mdir = self.maildir(name);
        let ops = mdir.create_all(items);
        (mdir, ops)
    }

    /// The mailbox `name`, if it exists in what the caller has listed.
    pub fn find(&self, name: &str, items: &[DirItem]) -> (r: Option<Maildir>)
        ensures
            match r {
                Some(mdir) => mdir@ == self@.maildir(name@) && mdir@.exists_in(items@),
                None => !self@.maildir(name@).exists_in(items@),
            },
    {
        let mdir = self.maildir(name);
        if mdir.is_present(items) {
            Some(mdir)
        } else {
            None
        }
    }

    /// The mailbox `name`, if it exists in what the caller has listed. Fails where it does not.
    pub fn get(&self, name: &str, items: &[DirItem]) -> (r: Result<Maildir, Error>)
        ensures
            match r {
                Ok(mdir) => mdir@ == self@.maildir(name@) && mdir@.exists_in(items@),
                Err(e) => !self@.maildir(name@).exists_in(items@) && e@
                    == ErrorView::GetMaildirByNameNotFoundError(name@),
            },
    {
        match self.find(name, items) {
            Some(mdir) => Ok(mdir),
            None => Err(Error::GetMaildirByNameNotFoundError(name.to_owned())),
        }
    }

    /// The request that removes the mailbox `name` with all that it holds. Where nothing is
    /// at its path in what the caller has listed, nothing is asked for.
    pub fn remove(&self, name: &str, items: &[DirItem]) -> (ops: Vec<FsOp>)
        ensures
            requests(ops@) == if listed(items@, self@.maildir(name@).root) {
                seq![Request::RemoveDirAll(self@.maildir(name@).root)]
            } else {
                Seq::<Request>::empty()
            },
    {
        self.maildir(name).remove_all(items)
    }

    /// The name under which the directory `path` would be a mailbox of the collection.
    pub fn name_of(&self, path: &str) -> (r: Option<String>)
        ensures
            match r {
                Some(name) => self@.name_of(canonical(path@)) == Some(name@),
                None => self@.name_of(canonical(path@)).is_none(),
            },
    {
        let spelled = normalize(path);
        let rest = match relative(spelled.as_str(), self.root.as_str()) {
            Some(rest) => rest,
            None => {
                return None;
            },
        };
        if !self.maildirpp {
            Some(rest)
        } else if rest.as_str().unicode_len() == 0 {
            match name_of(self.root.as_str()) {
                Some(name) => Some(name.to_owned()),
                None => None,
            }
        } else if is_all_dotted(rest.as_str()) {
            let nothing = String::new();
            Some(respell(nothing.as_str(), rest.as_str(), false))
        } else {
            None
        }
    }

    /// The mailboxes of the collection in what the caller has listed by walking the
    /// collection's directory: each listed path that can be a mailbox of the collection and
    /// is one in the list, in the order of the list, with its name.
    pub fn iter(&self, items: &[DirItem]) -> (r: Vec<MaildirsEntry>)
        ensures
            found_views(r@) == self@.found_among(items@, items@),
    {
        let mut r: Vec<MaildirsEntry> = Vec::new();
        let mut i: usize = 0;
        assert(found_views(r@) =~= self@.found_among(items@.take(0), items@));
        while i < items.len()
            invariant
                i <= items.len(),
                found_views(r@) == self@.found_among(items@.take(i as int), items@),
            decreases items.len() - i,
        {
            proof {
                let next = items@.take(i + 1);
                assert(next.drop_last() =~= items@.take(i as int));
                assert(next.last() == items@[i as int]);
            }
            let path = items[i].path();
            match self.name_of(path) {
                Some(name) => {
                    let maildir = Maildir::from(path).with_info_separator(self.info_separator);
                    if maildir.is_present(items) {
                        let ghost before = r@;
                        let entry = MaildirsEntry { maildirpp: self.maildirpp, maildir, name };
                        let ghost view = entry@;
                        r.push(entry);
                        assert(found_views(r@) =~= found_views(before).push(view));
                    }
                },
                None => {},
            }
            i += 1;
        }
        assert(items@.take(items.len() as int) =~= items@);
        r
    }
}

} // verus!
