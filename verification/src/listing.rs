//! What the caller has read from the file system, and what it is asked to do there.
//!
//! The library never touches a file. The caller lists directories and hands the
//! entries over as `DirItem`s; the library answers with `FsOp`s, which the
//! caller performs in the order given.

use crate::error::{Error, ErrorView};
use crate::path::{
    canonical, dir_in, dir_of, is_canonical, last_segment, last_segment_of, name_in, normalize,
};
use crate::text::{same_text, to_chars};
use vstd::prelude::*;

verus! {

/// What kind of entry a path leads to, links followed.
#[derive(Clone, Copy, Debug, PartialEq, Eq, Hash, Structural)]
pub enum Kind {
    /// A directory.
    Dir,
    /// A regular file.
    File,
    /// Anything else: a link that leads nowhere, a socket, a device.
    Other,
}

/// One entry that the caller found in the file system. Its path is held in canonical
/// spelling.
#[derive(Debug, PartialEq, Eq, Hash)]
pub struct DirItem {
    path: String,
    kind: Kind,
    age: u64,
}

/// What a listed entry is.
pub struct ItemView {
    /// The path of the entry, in canonical spelling.
    pub path: Seq<char>,
    /// What the path leads to.
    pub kind: Kind,
    /// The seconds since the entry was last modified.
    pub age: u64,
}

impl View for DirItem {
    type V = ItemView;

    closed spec fn view(&self) -> ItemView {
        ItemView { path: self.path@, kind: self.kind, age: self.age }
    }
}

impl Clone for DirItem {
    fn clone(&self) -> (r: Self)
        ensures
            r@ == self@,
    {
        proof {
            use_type_invariant(self);
        }
        DirItem { path: self.path.clone(), kind: self.kind, age: self.age }
    }
}

/// A request to the file system.
#[derive(Clone, Debug, PartialEq, Eq, Hash)]
pub enum FsOp {
    /// Create the directory; fail if it exists or its parent does not.
    CreateDir(String),
    /// Create the directory and its missing parents; succeed if it exists.
    CreateDirAll(String),
    /// Remove the directory; fail if it is not empty.
    RemoveDir(String),
    /// Remove the directory and all below it.
    RemoveDirAll(String),
    /// Remove the file.
    RemoveFile(String),
    /// Create an empty file; succeed if it exists.
    Touch(String),
    /// Rename the entry at `from` to `to` in one step.
    Rename { from: String, to: String },
    /// Copy the file at `from` to `to`.
    Copy { from: String, to: String },
}

/// A request, with its paths as text.
pub enum Request {
    CreateDir(Seq<char>),
    CreateDirAll(Seq<char>),
    RemoveDir(Seq<char>),
    RemoveDirAll(Seq<char>),
    RemoveFile(Seq<char>),
    Touch(Seq<char>),
    Rename { from: Seq<char>, to: Seq<char> },
    Copy { from: Seq<char>, to: Seq<char> },
}

impl View for FsOp {
    type V = Request;

    open spec fn view(&self) -> Request {
        match self {
            FsOp::CreateDir(p) => Request::CreateDir(p@),
            FsOp::CreateDirAll(p) => Request::CreateDirAll(p@),
            FsOp::RemoveDir(p) => Request::RemoveDir(p@),
            FsOp::RemoveDirAll(p) => Request::RemoveDirAll(p@),
            FsOp::RemoveFile(p) => Request::RemoveFile(p@),
            FsOp::Touch(p) => Request::Touch(p@),
            FsOp::Rename { from, to } => Request::Rename { from: from@, to: to@ },
            FsOp::Copy { from, to } => Request::Copy { from: from@, to: to@ },
        }
    }
}

/// The requests of a list, with their paths as text.
pub open spec fn requests(ops: Seq<FsOp>) -> Seq<Request> {
    ops.map_values(|op: FsOp| op@)
}

/// Whether a result is the given one: the same request, or the same error.
pub open spec fn request_is(r: Result<FsOp, Error>, expected: Result<Request, ErrorView>) -> bool {
    match r {
        Ok(op) => expected == Ok::<Request, ErrorView>(op@),
        Err(e) => expected == Err::<Request, ErrorView>(e@),
    }
}

impl DirItem {
    #[verifier::type_invariant]
    spec fn well_formed(self) -> bool {
        is_canonical(self.path@)
    }

    /// An entry of the given kind at `path`, modified just now.
    pub fn new(path: &str, kind: Kind) -> (r: DirItem)
        ensures
            r@ == (ItemView { path: canonical(path@), kind, age: 0 }),
    {
        DirItem { path: normalize(path), kind, age: 0 }
    }

    /// An entry of the given kind at `path` that was last modified `age` seconds ago.
    pub fn aged(path: &str, kind: Kind, age: u64) -> (r: DirItem)
        ensures
            r@ == (ItemView { path: canonical(path@), kind, age }),
    {
        DirItem { path: normalize(path), kind, age }
    }

    /// The path of the entry, in canonical spelling.
    pub fn path(&self) -> (r: &str)
        ensures
            r@ == self@.path,
            is_canonical(r@),
    {
        proof {
            use_type_invariant(self);
        }
        self.path.as_str()
    }

    /// What the path leads to.
    pub fn kind(&self) -> (r: Kind)
        ensures
            r == self@.kind,
    {
        self.kind
    }

    /// The seconds since the entry was last modified.
    pub fn age(&self) -> (r: u64)
        ensures
            r == self@.age,
    {
        self.age
    }
}

/// Whether the entries hold `path` as one of the given kind.
pub open spec fn listed_as(items: Seq<DirItem>, path: Seq<char>, kind: Kind) -> bool {
    exists|i: int|
        0 <= i < items.len() && #[trigger] items[i]@.path == path && items[i]@.kind == kind
}

/// Whether the entries hold `path`, as whatever kind.
pub open spec fn listed(items: Seq<DirItem>, path: Seq<char>) -> bool {
    exists|i: int| 0 <= i < items.len() && #[trigger] items[i]@.path == path
}

/// Whether the entries hold `path`, however it is spelled, as one of the given kind.
pub fn is_listed_as(items: &[DirItem], path: &str, kind: Kind) -> (r: bool)
    ensures
        r == listed_as(items@, canonical(path@), kind),
{
    let spelled = normalize(path);
    let place = spelled.as_str();
    let mut i: usize = 0;
    while i < items.len()
        invariant
            i <= items.len(),
            place@ == canonical(path@),
            is_canonical(place@),
            forall|j: int|
                0 <= j < i ==> !(#[trigger] items@[j]@.path == place@ && items@[j]@.kind == kind),
        decreases items.len() - i,
    {
        if items[i].kind() == kind && same_text(items[i].path(), place) {
            return true;
        }
        i += 1;
    }
    false
}

/// Whether the entries hold `path`, however it is spelled, as whatever kind.
pub fn is_listed(items: &[DirItem], path: &str) -> (r: bool)
    ensures
        r == listed(items@, canonical(path@)),
{
    let spelled = normalize(path);
    let place = spelled.as_str();
    let mut i: usize = 0;
    while i < items.len()
        invariant
            i <= items.len(),
            place@ == canonical(path@),
            is_canonical(place@),
            forall|j: int| 0 <= j < i ==> #[trigger] items@[j]@.path != place@,
        decreases items.len() - i,
    {
        if same_text(items[i].path(), place) {
            return true;
        }
        i += 1;
    }
    false
}

/// Which entries of a directory a scan takes.
#[derive(Clone, Copy, Debug, PartialEq, Eq, Structural)]
pub enum Pick {
    /// Regular files.
    Files,
    /// Regular files whose name does not start with a dot.
    Visible,
    /// Entries that are no directory and whose name does not start with a dot.
    Messages,
    /// Directories whose name starts with one dot and not with two.
    Folders,
}

/// Whether a name starts with a dot.
pub open spec fn dotted(name: Seq<char>) -> bool {
    name.len() > 0 && name[0] == '.'
}

/// Whether a name starts with two dots.
pub open spec fn twice_dotted(name: Seq<char>) -> bool {
    name.len() > 1 && name[0] == '.' && name[1] == '.'
}

/// Whether a scan of the directory `dir` takes the entry `item`.
pub open spec fn picked(item: DirItem, dir: Seq<char>, pick: Pick) -> bool {
    let name = last_segment(item@.path);
    &&& dir_in(item@.path) == Some(dir)
    &&& match pick {
        Pick::Files => item@.kind == Kind::File,
        Pick::Visible => item@.kind == Kind::File && !dotted(name),
        Pick::Messages => item@.kind != Kind::Dir && name_in(item@.path).is_some() && !dotted(
            name,
        ),
        Pick::Folders => item@.kind == Kind::Dir && dotted(name) && !twice_dotted(name),
    }
}

/// The paths of the entries that a scan of `dir` takes, in the order of the list.
pub open spec fn scan(items: Seq<DirItem>, dir: Seq<char>, pick: Pick) -> Seq<Seq<char>>
    decreases items.len(),
{
    if items.len() == 0 {
        Seq::empty()
    } else if picked(items.last(), dir, pick) {
        scan(items.drop_last(), dir, pick).push(items.last()@.path)
    } else {
        scan(items.drop_last(), dir, pick)
    }
}

/// The texts of a list of strings.
pub open spec fn texts(v: Seq<String>) -> Seq<Seq<char>> {
    v.map_values(|s: String| s@)
}

/// Whether `path` is the path of an entry that a scan of `dir` takes.
pub open spec fn takes(items: Seq<DirItem>, dir: Seq<char>, pick: Pick, path: Seq<char>) -> bool {
    exists|i: int|
        0 <= i < items.len() && picked(#[trigger] items[i], dir, pick) && items[i]@.path == path
}

/// A scan gives exactly the paths of the picked entries, and no more paths than there are
/// entries.
pub proof fn lemma_scan(items: Seq<DirItem>, dir: Seq<char>, pick: Pick)
    ensures
        forall|path: Seq<char>| #[trigger]
            scan(items, dir, pick).contains(path) <==> takes(items, dir, pick, path),
        scan(items, dir, pick).len() <= items.len(),
    decreases items.len(),
{
    let all = scan(items, dir, pick);
    if items.len() > 0 {
        let rest = items.drop_last();
        let last = items.last();
        let sub = scan(rest, dir, pick);
        lemma_scan(rest, dir, pick);
        assert forall|path: Seq<char>| #[trigger]
            all.contains(path) <==> takes(items, dir, pick, path) by {
            if all.contains(path) {
                let k = choose|k: int| 0 <= k < all.len() && all[k] == path;
                if k < sub.len() {
                    assert(sub[k] == path);
                    assert(sub.contains(path));
                    let i = choose|i: int|
                        0 <= i < rest.len() && picked(#[trigger] rest[i], dir, pick)
                            && rest[i]@.path == path;
                    assert(items[i] == rest[i]);
                } else {
                    assert(picked(items[items.len() - 1], dir, pick));
                }
            }
            if takes(items, dir, pick, path) {
                let i = choose|i: int|
                    0 <= i < items.len() && picked(#[trigger] items[i], dir, pick)
                        && items[i]@.path == path;
                if i < rest.len() {
                    assert(items[i] == rest[i]);
                    assert(takes(rest, dir, pick, path));
                    assert(sub.contains(path));
                    let k = choose|k: int| 0 <= k < sub.len() && sub[k] == path;
                    assert(all[k] == path);
                } else {
                    assert(all[all.len() - 1] == path);
                }
            }
        }
    } else {
        assert forall|path: Seq<char>| #[trigger]
            all.contains(path) <==> takes(items, dir, pick, path) by {}
    }
}

/// Whether a scan of the directory `dir` takes the entry `item`.
pub fn is_picked(item: &DirItem, dir: &str, pick: Pick) -> (r: bool)
    ensures
        r == picked(*item, canonical(dir@), pick),
{
    let spelled = normalize(dir);
    let place = spelled.as_str();
    let inside = match dir_of(item.path()) {
        Some(p) => same_text(p, place),
        None => false,
    };
    if !inside {
        return false;
    }
    let name = to_chars(last_segment_of(item.path()));
    let dot = name.len() > 0 && name[0] == '.';
    match pick {
        Pick::Files => item.kind() == Kind::File,
        Pick::Visible => item.kind() == Kind::File && !dot,
        Pick::Messages => item.kind() != Kind::Dir && !dot && crate::path::names_entry(
            name.as_slice(),
        ),
        Pick::Folders => item.kind() == Kind::Dir && dot && !(name.len() > 1 && name[1] == '.'),
    }
}

/// The paths of the entries that a scan of `dir` takes, in the order of the list.
pub fn scan_dir(items: &[DirItem], dir: &str, pick: Pick) -> (r: Vec<String>)
    ensures
        texts(r@) == scan(items@, canonical(dir@), pick),
        forall|k: int| 0 <= k < r.len() ==> is_canonical(#[trigger] r[k]@),
{
    let spelled = normalize(dir);
    let place = spelled.as_str();
    let mut r: Vec<String> = Vec::new();
    let mut i: usize = 0;
    assert(texts(r@) =~= scan(items@.take(0), place@, pick));
    while i < items.len()
        invariant
            i <= items.len(),
            place@ == canonical(dir@),
            is_canonical(place@),
            texts(r@) == scan(items@.take(i as int), place@, pick),
            forall|k: int| 0 <= k < r.len() ==> is_canonical(#[trigger] r[k]@),
        decreases items.len() - i,
    {
        proof {
            let next = items@.take(i + 1);
            assert(next.drop_last() =~= items@.take(i as int));
            assert(next.last() == items@[i as int]);
        }
        if is_picked(&items[i], place, pick) {
            let ghost before = r@;
            r.push(items[i].path().to_owned());
            assert(texts(r@) =~= texts(before).push(items@[i as int]@.path));
        }
        i += 1;
    }
    assert(items@.take(items.len() as int) =~= items@);
    r
}

} // verus!
