//! Paths as text.
//!
//! A path is a string whose segments are separated by `/`. A path is read by
//! its components: the segments that are neither empty nor `.`. Two texts with
//! the same components, both starting with `/` or both not, are the same path;
//! `canonical` is the one spelling of it, with one `/` between two components
//! and none at the end. Handles, mailboxes, collections and listed entries
//! hold their paths in that spelling, so that for them the text decides: the
//! functions `name_in`, `dir_in`, `with_name` and `relative_to` cut such a
//! text at its last `/`. No path is resolved against a file system, and `..`
//! is a component like any other, except that it is no file name.

use crate::text::{
    count_leading, from_chars, last_index_of, last_index_of_char, lemma_last_index_of,
    lemma_last_index_of_is, matches_at, same_chars, to_chars, trim_start,
};
use vstd::prelude::*;
use vstd::slice::slice_subrange;
use vstd::string::{StringExecFns, StrSliceExecFns};

verus! {

/// `name` below the directory `base`.
pub open spec fn joined(base: Seq<char>, name: Seq<char>) -> Seq<char> {
    if base.len() == 0 {
        name
    } else if base.last() == '/' {
        base + name
    } else {
        base + seq!['/'] + name
    }
}

/// The text after the last `/` of `path`, or all of `path` where it has none.
pub open spec fn last_segment(path: Seq<char>) -> Seq<char> {
    match last_index_of(path, '/') {
        Some(i) => path.subrange(i + 1, path.len() as int),
        None => path,
    }
}

/// Whether a segment names an entry: it is not empty, not `.` and not `..`.
pub open spec fn is_normal(segment: Seq<char>) -> bool {
    segment.len() > 0 && segment != seq!['.'] && segment != seq!['.', '.']
}

/// The name of the entry that a path in canonical spelling leads to: its last segment, if that
/// names an entry.
pub open spec fn name_in(path: Seq<char>) -> Option<Seq<char>> {
    if is_normal(last_segment(path)) {
        Some(last_segment(path))
    } else {
        None
    }
}

/// The directory that holds the entry at a path in canonical spelling: the text before the
/// last `/`. A path without `/` lies in the directory with the empty name, a path directly
/// below the root in `/`; the empty path and `/` have no parent.
pub open spec fn dir_in(path: Seq<char>) -> Option<Seq<char>> {
    match last_index_of(path, '/') {
        None => if path.len() == 0 {
            None
        } else {
            Some(Seq::empty())
        },
        Some(i) => if i > 0 {
            Some(path.subrange(0, i))
        } else if path.len() == 1 {
            None
        } else {
            Some(seq!['/'])
        },
    }
}

/// `path` with `name` in place of its last segment.
pub open spec fn with_name(path: Seq<char>, name: Seq<char>) -> Seq<char> {
    match last_index_of(path, '/') {
        Some(i) => path.subrange(0, i + 1) + name,
        None => name,
    }
}

/// What is left of `path` below `root`: nothing for `root` itself, the text after `root` and a
/// `/` for a path that starts so, and no value for a path that does not lie below `root`.
pub open spec fn relative_to(path: Seq<char>, root: Seq<char>) -> Option<Seq<char>> {
    let stem = if root.len() == 0 || root.last() == '/' {
        root
    } else {
        root + seq!['/']
    };
    if path == root {
        Some(Seq::empty())
    } else if stem.is_prefix_of(path) {
        Some(path.subrange(stem.len() as int, path.len() as int))
    } else {
        None
    }
}

/// The last segment of a path holds no `/`.
pub proof fn lemma_last_segment(path: Seq<char>)
    ensures
        !last_segment(path).contains('/'),
{
    lemma_last_index_of(path, '/');
    let name = last_segment(path);
    if name.contains('/') {
        let j = choose|j: int| 0 <= j < name.len() && name[j] == '/';
        match last_index_of(path, '/') {
            Some(i) => {
                assert(name[j] == path[i + 1 + j]);
            },
            None => {},
        }
    }
}

/// A name without `/`, joined to a directory that does not end in `/`, lies in that directory
/// under that name.
pub proof fn lemma_joined_splits(base: Seq<char>, name: Seq<char>)
    requires
        !name.contains('/'),
        base.len() > 0,
        base.last() != '/',
    ensures
        last_segment(joined(base, name)) == name,
        dir_in(joined(base, name)) == Some(base),
        with_name(joined(base, name), name) == joined(base, name),
        relative_to(joined(base, name), base) == Some(name),
{
    let p = joined(base, name);
    let i = base.len() as int;
    assert(p[i] == '/');
    assert forall|j: int| i < j < p.len() implies p[j] != '/' by {
        assert(p[j] == name[j - i - 1]);
        assert(name.contains(p[j]));
    }
    lemma_last_index_of_is(p, '/', i);
    assert(p.subrange(i + 1, p.len() as int) =~= name);
    assert(p.subrange(0, i) =~= base);
    assert(p.subrange(0, i + 1) + name =~= p);
    let stem = base + seq!['/'];
    assert(stem.is_prefix_of(p)) by {
        assert(p.subrange(0, stem.len() as int) =~= stem);
    }
    assert(p.subrange(stem.len() as int, p.len() as int) =~= name);
    assert(p != base);
}

/// Replacing the last segment leaves the parent as it is and gives the new last segment.
pub proof fn lemma_with_name(path: Seq<char>, name: Seq<char>)
    requires
        !name.contains('/'),
        name.len() > 0,
    ensures
        last_segment(with_name(path, name)) == name,
        dir_in(with_name(path, name)) == dir_in(path) || dir_in(path).is_none(),
{
    lemma_last_index_of(path, '/');
    let q = with_name(path, name);
    match last_index_of(path, '/') {
        Some(i) => {
            assert(q[i] == '/');
            assert forall|j: int| i < j < q.len() implies q[j] != '/' by {
                assert(q[j] == name[j - i - 1]);
                assert(name.contains(q[j]));
            }
            lemma_last_index_of_is(q, '/', i);
            assert(q.subrange(i + 1, q.len() as int) =~= name);
            assert(q.subrange(0, i) =~= path.subrange(0, i));
        },
        None => {
            assert forall|j: int| 0 <= j < q.len() implies q[j] != '/' by {
                assert(name.contains(q[j]));
            }
            lemma_last_index_of(q, '/');
        },
    }
}

/// `name` below the directory `base`.
pub fn join(base: &str, name: &str) -> (r: String)
    ensures
        r@ == joined(base@, name@),
{
    let b = to_chars(base);
    if b.len() == 0 {
        return name.to_owned();
    }
    let mut r = base.to_owned();
    if b[b.len() - 1] != '/' {
        r.push('/');
    }
    r.append(name);
    r
}

/// The last segment of `path`.
pub fn last_segment_of(path: &str) -> (r: &str)
    ensures
        r@ == last_segment(path@),
{
    let p = to_chars(path);
    match last_index_of_char(p.as_slice(), '/') {
        Some(i) => path.substring_char(i + 1, p.len()),
        None => path,
    }
}

/// Whether a segment names an entry: it is not empty, not `.` and not `..`.
pub fn names_entry(segment: &[char]) -> (r: bool)
    ensures
        r == is_normal(segment@),
{
    let n = segment.len();
    if n == 0 {
        false
    } else if n == 1 && segment[0] == '.' {
        assert(segment@ =~= seq!['.']);
        false
    } else if n == 2 && segment[0] == '.' && segment[1] == '.' {
        assert(segment@ =~= seq!['.', '.']);
        false
    } else {
        proof {
            if segment@ == seq!['.'] {
                assert(seq!['.'].len() == 1);
                assert(seq!['.'][0] == '.');
            }
            if segment@ == seq!['.', '.'] {
                assert(seq!['.', '.'].len() == 2);
                assert(seq!['.', '.'][0] == '.');
                assert(seq!['.', '.'][1] == '.');
            }
        }
        true
    }
}

/// The name of the entry that a path in canonical spelling leads to.
pub fn name_of(path: &str) -> (r: Option<&str>)
    ensures
        match r {
            Some(name) => name_in(path@) == Some(name@),
            None => name_in(path@).is_none(),
        },
{
    let name = last_segment_of(path);
    let chars = to_chars(name);
    if names_entry(chars.as_slice()) {
        Some(name)
    } else {
        None
    }
}

/// The directory that holds the entry at a path in canonical spelling.
pub fn dir_of(path: &str) -> (r: Option<&str>)
    ensures
        match r {
            Some(dir) => dir_in(path@) == Some(dir@),
            None => dir_in(path@).is_none(),
        },
{
    let p = to_chars(path);
    match last_index_of_char(p.as_slice(), '/') {
        None => {
            if p.len() == 0 {
                None
            } else {
                assert(path@.subrange(0, 0) =~= Seq::<char>::empty());
                Some(path.substring_char(0, 0))
            }
        },
        Some(i) => {
            if i > 0 {
                Some(path.substring_char(0, i))
            } else if p.len() == 1 {
                None
            } else {
                proof {
                    lemma_last_index_of(path@, '/');
                }
                assert(path@.subrange(0, 1) =~= seq!['/']);
                Some(path.substring_char(0, 1))
            }
        },
    }
}

/// `path` with `name` in place of its last segment.
pub fn with_file_name(path: &str, name: &str) -> (r: String)
    ensures
        r@ == with_name(path@, name@),
{
    let p = to_chars(path);
    match last_index_of_char(p.as_slice(), '/') {
        Some(i) => {
            let mut r = from_chars(p.as_slice(), 0, i + 1);
            r.append(name);
            r
        },
        None => name.to_owned(),
    }
}

/// The segments of `path`: the texts between its `/`, empty ones too. A path without `/` is one
/// segment.
pub open spec fn split(path: Seq<char>) -> Seq<Seq<char>>
    decreases path.len(),
{
    if path.len() == 0 {
        seq![Seq::empty()]
    } else {
        let before = split(path.drop_last());
        if path.last() == '/' {
            before.push(Seq::empty())
        } else {
            before.drop_last().push(before.last().push(path.last()))
        }
    }
}

/// A path has at least one segment, no segment holds a `/`, and there is one segment more than
/// there are `/` in the path.
pub proof fn lemma_split(path: Seq<char>)
    ensures
        split(path).len() >= 1,
        forall|k: int| 0 <= k < split(path).len() ==> !(#[trigger] split(path)[k]).contains('/'),
        split(path).len() == 1 + path.filter(|c: char| c == '/').len(),
    decreases path.len(),
{
    let slash = |c: char| c == '/';
    if path.len() > 0 {
        let shorter = path.drop_last();
        let before = split(shorter);
        lemma_split(shorter);
        reveal(Seq::filter);
        assert(path.filter(slash) == if slash(path.last()) {
            shorter.filter(slash).push(path.last())
        } else {
            shorter.filter(slash)
        });
        assert forall|k: int| 0 <= k < split(path).len() implies !(#[trigger] split(
            path,
        )[k]).contains('/') by {
            let seg = split(path)[k];
            if k < before.len() - 1 {
                assert(seg == before[k]);
            } else if path.last() == '/' {
                if k == before.len() - 1 {
                    assert(seg == before[k]);
                }
            } else {
                let grown = before.last().push(path.last());
                assert(seg == grown);
                if grown.contains('/') {
                    let j = choose|j: int| 0 <= j < grown.len() && grown[j] == '/';
                    assert(before.last()[j] == '/');
                    assert(before.last().contains('/'));
                    assert(before[before.len() - 1].contains('/'));
                }
            }
        }
    } else {
        reveal(Seq::filter);
        assert(path.filter(slash) =~= Seq::<char>::empty());
        assert(!Seq::<char>::empty().contains('/'));
    }
}

/// A segment as it is written below a collection: without the dots that it starts with, and,
/// if `dots`, with one dot in front.
pub open spec fn respelled(segment: Seq<char>, dots: bool) -> Seq<char> {
    if dots {
        seq!['.'] + trim_start(segment, '.')
    } else {
        trim_start(segment, '.')
    }
}

/// The path below `base` that the segments lead to when each is respelled. Segments that name
/// no entry (empty ones, `.` and `..`) are left out.
pub open spec fn below(base: Seq<char>, segments: Seq<Seq<char>>, dots: bool) -> Seq<char>
    decreases segments.len(),
{
    if segments.len() == 0 {
        base
    } else if is_normal(segments.last()) {
        joined(below(base, segments.drop_last(), dots), respelled(segments.last(), dots))
    } else {
        below(base, segments.drop_last(), dots)
    }
}

/// Whether each segment that names an entry starts with a dot.
pub open spec fn all_dotted(segments: Seq<Seq<char>>) -> bool {
    forall|k: int|
        0 <= k < segments.len() && is_normal(#[trigger] segments[k]) ==> segments[k][0] == '.'
}

/// The path that is made of the given segments, with a `/` between each two.
pub open spec fn unsplit(segments: Seq<Seq<char>>) -> Seq<char>
    decreases segments.len(),
{
    if segments.len() == 0 {
        Seq::empty()
    } else if segments.len() == 1 {
        segments[0]
    } else {
        unsplit(segments.drop_last()) + seq!['/'] + segments.last()
    }
}

/// Whether each segment names an entry, holds no `/`, and starts without a dot.
pub open spec fn all_plain(segments: Seq<Seq<char>>) -> bool {
    forall|k: int|
        0 <= k < segments.len() ==> {
            let segment = #[trigger] segments[k];
            is_normal(segment) && !segment.contains('/') && segment[0] != '.'
        }
}

/// The segments, each with a dot in front.
pub open spec fn with_dots(segments: Seq<Seq<char>>) -> Seq<Seq<char>> {
    segments.map_values(|segment: Seq<char>| seq!['.'] + segment)
}

/// A path is made of its segments: putting them together again gives the path.
pub proof fn lemma_unsplit_split(path: Seq<char>)
    ensures
        unsplit(split(path)) == path,
    decreases path.len(),
{
    if path.len() == 0 {
        assert(split(path)[0] =~= path);
    } else {
        let shorter = path.drop_last();
        let before = split(shorter);
        lemma_unsplit_split(shorter);
        lemma_split(shorter);
        let c = path.last();
        assert(path =~= shorter.push(c));
        if c == '/' {
            let all = before.push(Seq::empty());
            assert(all.drop_last() =~= before);
            assert(unsplit(all) =~= shorter + seq!['/'] + Seq::<char>::empty());
        } else {
            let grown = before.last().push(c);
            let all = before.drop_last().push(grown);
            if before.len() == 1 {
                assert(unsplit(all) =~= shorter.push(c));
            } else {
                assert(all.drop_last() =~= before.drop_last());
                assert(unsplit(all) =~= (unsplit(before.drop_last()) + seq!['/']
                    + before.last()).push(c));
            }
        }
    }
}

/// A text without `/` is one segment.
pub proof fn lemma_split_one(segment: Seq<char>)
    requires
        !segment.contains('/'),
    ensures
        split(segment) == seq![segment],
    decreases segment.len(),
{
    if segment.len() == 0 {
        assert(segment =~= Seq::<char>::empty());
        assert(split(segment) =~= seq![segment]);
    } else {
        let shorter = segment.drop_last();
        assert forall|j: int| 0 <= j < shorter.len() implies shorter[j] != '/' by {
            assert(segment[j] == shorter[j]);
            assert(segment.contains(segment[j]));
        }
        lemma_split_one(shorter);
        assert(segment.contains(segment.last()));
        assert(shorter.push(segment.last()) =~= segment);
        let before = split(shorter);
        assert(before.len() == 1 && before[0] == shorter);
        assert(before.drop_last() =~= Seq::<Seq<char>>::empty());
        assert(before.last() == shorter);
        assert(split(segment) =~= seq![segment]);
    }
}

/// The segments of two paths with a `/` between them are the segments of the first and then
/// those of the second.
pub proof fn lemma_split_joined(a: Seq<char>, b: Seq<char>)
    ensures
        split(a + seq!['/'] + b) == split(a) + split(b),
    decreases b.len(),
{
    let whole = a + seq!['/'] + b;
    if b.len() == 0 {
        assert(whole.drop_last() =~= a);
        assert(split(b) =~= seq![Seq::<char>::empty()]);
        assert(split(whole) =~= split(a) + split(b));
    } else {
        let shorter = b.drop_last();
        lemma_split_joined(a, shorter);
        lemma_split(shorter);
        lemma_split(a);
        assert(whole.drop_last() =~= a + seq!['/'] + shorter);
        assert(whole.last() == b.last());
        let x = split(a) + split(shorter);
        assert(x.last() == split(shorter).last());
        if b.last() == '/' {
            assert(split(whole) =~= split(a) + split(b));
        } else {
            assert(x.drop_last() =~= split(a) + split(shorter).drop_last());
            assert(split(whole) =~= split(a) + split(b));
        }
    }
}

/// Segments without `/` that are put together are found again by `split`.
pub proof fn lemma_split_unsplit(segments: Seq<Seq<char>>)
    requires
        segments.len() > 0,
        forall|k: int| 0 <= k < segments.len() ==> !(#[trigger] segments[k]).contains('/'),
    ensures
        split(unsplit(segments)) == segments,
    decreases segments.len(),
{
    if segments.len() == 1 {
        lemma_split_one(segments[0]);
        assert(seq![segments[0]] =~= segments);
    } else {
        let before = segments.drop_last();
        assert forall|k: int| 0 <= k < before.len() implies !(#[trigger] before[k]).contains(
            '/',
        ) by {
            assert(before[k] == segments[k]);
        }
        lemma_split_unsplit(before);
        lemma_split_joined(unsplit(before), segments.last());
        lemma_split_one(segments.last());
        assert(before + seq![segments.last()] =~= segments);
    }
}

/// Plain segments that are put together give a text that is not empty and does not end in `/`.
proof fn lemma_unsplit_end(segments: Seq<Seq<char>>)
    requires
        segments.len() > 0,
        forall|k: int|
            0 <= k < segments.len() ==> (#[trigger] segments[k]).len() > 0 && !segments[k].contains(
                '/',
            ),
    ensures
        unsplit(segments).len() > 0,
        unsplit(segments).last() != '/',
{
    let last = segments[segments.len() - 1];
    assert(last.contains(last.last()));
    if segments.len() > 1 {
        assert(unsplit(segments).last() == last.last());
    } else {
        assert(unsplit(segments) == last);
    }
}

/// Below a directory whose name does not end in `/`, segments that name entries and are
/// spelled as they are lead to the directory, a `/`, and the segments put together.
proof fn lemma_below_unsplit(
    base: Seq<char>,
    segments: Seq<Seq<char>>,
    spelled: Seq<Seq<char>>,
    dots: bool,
)
    requires
        base.len() == 0 || base.last() != '/',
        segments.len() > 0,
        spelled.len() == segments.len(),
        forall|k: int|
            0 <= k < segments.len() ==> is_normal(#[trigger] segments[k]) && spelled[k]
                == respelled(segments[k], dots) && spelled[k].len() > 0 && !spelled[k].contains(
                '/',
            ),
    ensures
        below(base, segments, dots) == if base.len() == 0 {
            unsplit(spelled)
        } else {
            base + seq!['/'] + unsplit(spelled)
        },
    decreases segments.len(),
{
    let last = spelled.last();
    assert(spelled[spelled.len() - 1] == respelled(segments[segments.len() - 1], dots));
    if segments.len() == 1 {
        assert(below(base, segments.drop_last(), dots) == base);
        assert(unsplit(spelled) == last);
    } else {
        let init = segments.drop_last();
        let spelled_init = spelled.drop_last();
        assert forall|k: int| 0 <= k < init.len() implies is_normal(#[trigger] init[k])
            && spelled_init[k] == respelled(init[k], dots) && spelled_init[k].len() > 0
            && !spelled_init[k].contains('/') by {
            assert(init[k] == segments[k]);
            assert(spelled_init[k] == spelled[k]);
        }
        lemma_below_unsplit(base, init, spelled_init, dots);
        assert forall|k: int| 0 <= k < spelled_init.len() implies (#[trigger] spelled_init[k]).len()
            > 0 && !spelled_init[k].contains('/') by {
            assert(is_normal(init[k]));
        }
        lemma_unsplit_end(spelled_init);
        let before = below(base, init, dots);
        assert(before.len() > 0 && before.last() != '/') by {
            if base.len() > 0 {
                assert(before.last() == unsplit(spelled_init).last());
            }
        }
        assert(below(base, segments, dots) =~= if base.len() == 0 {
            unsplit(spelled)
        } else {
            base + seq!['/'] + unsplit(spelled)
        });
    }
}

/// A segment that starts without a dot is spelled as it is, or with one dot in front.
proof fn lemma_respelled_plain(segment: Seq<char>)
    requires
        segment.len() > 0,
        segment[0] != '.',
    ensures
        respelled(segment, false) == segment,
        respelled(segment, true) == seq!['.'] + segment,
        respelled(seq!['.'] + segment, false) == segment,
        is_normal(seq!['.'] + segment),
{
    crate::text::lemma_leading_is(segment, '.', 0);
    assert(segment.subrange(0, segment.len() as int) =~= segment);
    let dotted = seq!['.'] + segment;
    crate::text::lemma_leading_is(dotted, '.', 1);
    assert(dotted.subrange(1, dotted.len() as int) =~= segment);
    assert(dotted != seq!['.']) by {
        assert(seq!['.'].len() == 1);
    }
    assert(dotted != seq!['.', '.']) by {
        if dotted == seq!['.', '.'] {
            assert(seq!['.', '.'][1] == '.');
            assert(dotted[1] == segment[0]);
        }
    }
}

/// A name of plain segments is found again behind its path: the path that the name leads to
/// below a directory, each segment with a dot in front, is that directory, a `/` and a rest;
/// the segments of the rest all start with a dot, and without their dots they spell the name.
pub proof fn lemma_dotted_name_comes_back(root: Seq<char>, name: Seq<char>)
    requires
        root.len() > 0,
        root.last() != '/',
        all_plain(split(name)),
    ensures
        ({
            let path = below(root, split(name), true);
            let rest = unsplit(with_dots(split(name)));
            &&& path == root + seq!['/'] + rest
            &&& relative_to(path, root) == Some(rest)
            &&& rest.len() > 0
            &&& all_dotted(split(rest))
            &&& below(Seq::empty(), split(rest), false) == name
        }),
{
    let segments = split(name);
    let dotted = with_dots(segments);
    lemma_split(name);
    lemma_unsplit_split(name);
    assert forall|k: int| 0 <= k < segments.len() implies is_normal(#[trigger] segments[k])
        && dotted[k] == respelled(segments[k], true) && segments[k] == respelled(
        segments[k],
        false,
    ) && dotted[k].len() > 0 && !dotted[k].contains('/') && is_normal(dotted[k])
        && respelled(dotted[k], false) == segments[k] && dotted[k][0] == '.' by {
        let segment = segments[k];
        lemma_respelled_plain(segment);
        if dotted[k].contains('/') {
            let j = choose|j: int| 0 <= j < dotted[k].len() && dotted[k][j] == '/';
            assert(segment[j - 1] == '/');
            assert(segment.contains('/'));
        }
    }
    lemma_below_unsplit(root, segments, dotted, true);
    let rest = unsplit(dotted);
    let path = root + seq!['/'] + rest;
    lemma_unsplit_end(dotted);
    let stem = root + seq!['/'];
    assert(stem.is_prefix_of(path)) by {
        assert(path.subrange(0, stem.len() as int) =~= stem);
    }
    assert(path.subrange(stem.len() as int, path.len() as int) =~= rest);
    lemma_split_unsplit(dotted);
    lemma_below_unsplit(Seq::empty(), dotted, segments, false);
    lemma_below_unsplit(Seq::empty(), segments, segments, false);
}

/// Whether a segment is a component of a path: it is neither empty nor `.`.
pub open spec fn is_component(segment: Seq<char>) -> bool {
    segment.len() > 0 && segment != seq!['.']
}

/// The components among the segments, in their order.
pub open spec fn components(segments: Seq<Seq<char>>) -> Seq<Seq<char>>
    decreases segments.len(),
{
    if segments.len() == 0 {
        Seq::empty()
    } else if is_component(segments.last()) {
        components(segments.drop_last()).push(segments.last())
    } else {
        components(segments.drop_last())
    }
}

/// Whether a path starts at the root of the file system.
pub open spec fn is_absolute(path: Seq<char>) -> bool {
    path.len() > 0 && path[0] == '/'
}

/// `text`, behind a `/` if `absolute`.
pub open spec fn rooted(absolute: bool, text: Seq<char>) -> Seq<char> {
    if absolute {
        seq!['/'] + text
    } else {
        text
    }
}

/// The one spelling of a path: a `/` in front if the path is absolute, then its components
/// with one `/` between each two. The current directory is the empty text.
pub open spec fn canonical(path: Seq<char>) -> Seq<char> {
    rooted(is_absolute(path), unsplit(components(split(path))))
}

/// Whether a path is written in its canonical spelling.
pub open spec fn is_canonical(path: Seq<char>) -> bool {
    canonical(path) == path
}

/// The file name of a path, however it is spelled: its last component, unless that is `..`.
pub open spec fn file_name_of(path: Seq<char>) -> Option<Seq<char>> {
    name_in(canonical(path))
}

/// The directory that holds the entry at a path, however the path is spelled: the path
/// without its last component, in canonical spelling.
pub open spec fn parent_of(path: Seq<char>) -> Option<Seq<char>> {
    dir_in(canonical(path))
}

/// The components of two lists of segments, one behind the other, are the components of the
/// first and then those of the second.
pub proof fn lemma_components_concat(a: Seq<Seq<char>>, b: Seq<Seq<char>>)
    ensures
        components(a + b) == components(a) + components(b),
    decreases b.len(),
{
    if b.len() == 0 {
        assert(a + b =~= a);
        assert(components(a) + components(b) =~= components(a));
    } else {
        lemma_components_concat(a, b.drop_last());
        assert((a + b).drop_last() =~= a + b.drop_last());
        assert((a + b).last() == b.last());
        assert(components(a + b) =~= components(a) + components(b));
    }
}

/// Each component is one of the segments, and is neither empty nor `.`.
pub proof fn lemma_components(segments: Seq<Seq<char>>)
    ensures
        forall|k: int|
            0 <= k < components(segments).len() ==> is_component(
                #[trigger] components(segments)[k],
            ) && segments.contains(components(segments)[k]),
    decreases segments.len(),
{
    if segments.len() > 0 {
        let before = segments.drop_last();
        lemma_components(before);
        assert forall|k: int| 0 <= k < components(segments).len() implies is_component(
            #[trigger] components(segments)[k],
        ) && segments.contains(components(segments)[k]) by {
            if k < components(before).len() {
                let c = components(before)[k];
                assert(components(segments)[k] == c);
                let i = choose|i: int| 0 <= i < before.len() && before[i] == c;
                assert(segments[i] == c);
            } else {
                assert(segments[segments.len() - 1] == segments.last());
            }
        }
    }
}

/// Segments that are all components are their own components.
pub proof fn lemma_components_all(segments: Seq<Seq<char>>)
    requires
        forall|k: int| 0 <= k < segments.len() ==> is_component(#[trigger] segments[k]),
    ensures
        components(segments) == segments,
    decreases segments.len(),
{
    if segments.len() > 0 {
        let before = segments.drop_last();
        assert forall|k: int| 0 <= k < before.len() implies is_component(#[trigger] before[k]) by {
            assert(before[k] == segments[k]);
        }
        lemma_components_all(before);
        assert(is_component(segments[segments.len() - 1]));
        assert(before.push(segments.last()) =~= segments);
    } else {
        assert(components(segments) =~= segments);
    }
}

/// The components of a path hold no `/`.
pub proof fn lemma_components_of_path(path: Seq<char>)
    ensures
        forall|k: int|
            0 <= k < components(split(path)).len() ==> {
                let c = #[trigger] components(split(path))[k];
                is_component(c) && !c.contains('/')
            },
{
    lemma_components(split(path));
    lemma_split(path);
    assert forall|k: int| 0 <= k < components(split(path)).len() implies {
        let c = #[trigger] components(split(path))[k];
        is_component(c) && !c.contains('/')
    } by {
        let c = components(split(path))[k];
        let i = choose|i: int| 0 <= i < split(path).len() && split(path)[i] == c;
        assert(!split(path)[i].contains('/'));
    }
}

/// One segment alone is the one component, if it is one.
pub proof fn lemma_components_one(segment: Seq<char>)
    ensures
        components(seq![segment]) == if is_component(segment) {
            seq![segment]
        } else {
            Seq::<Seq<char>>::empty()
        },
{
    let one = seq![segment];
    let none = Seq::<Seq<char>>::empty();
    assert(one.drop_last() =~= none);
    assert(components(none) =~= none);
    assert(one.last() == segment);
    assert(none.push(segment) =~= one);
}

/// Components that are put together start with the first character of the first.
proof fn lemma_unsplit_start(segments: Seq<Seq<char>>)
    requires
        segments.len() > 0,
        segments[0].len() > 0,
    ensures
        unsplit(segments).len() > 0,
        unsplit(segments)[0] == segments[0][0],
    decreases segments.len(),
{
    if segments.len() > 1 {
        let before = segments.drop_last();
        assert(before[0] == segments[0]);
        lemma_unsplit_start(before);
    }
}

/// Components that are put together, behind a `/` or not, are a path in canonical spelling
/// with exactly these components.
pub proof fn lemma_spelled(absolute: bool, parts: Seq<Seq<char>>)
    requires
        forall|k: int|
            0 <= k < parts.len() ==> is_component(#[trigger] parts[k]) && !parts[k].contains('/'),
    ensures
        is_absolute(rooted(absolute, unsplit(parts))) == absolute,
        components(split(rooted(absolute, unsplit(parts)))) == parts,
        is_canonical(rooted(absolute, unsplit(parts))),
{
    let text = unsplit(parts);
    let c = rooted(absolute, text);
    let nothing = Seq::<char>::empty();
    assert(split(nothing) =~= seq![nothing]);
    lemma_components_one(nothing);
    if parts.len() == 0 {
        assert(text =~= nothing);
        assert(parts =~= Seq::<Seq<char>>::empty());
        if absolute {
            assert(c =~= nothing + seq!['/'] + nothing);
            lemma_split_joined(nothing, nothing);
            lemma_components_concat(seq![nothing], seq![nothing]);
            assert(components(split(c)) =~= parts);
        } else {
            assert(c =~= nothing);
        }
    } else {
        assert(is_component(parts[0]));
        assert(parts[0].contains(parts[0][0]));
        lemma_unsplit_start(parts);
        lemma_split_unsplit(parts);
        lemma_components_all(parts);
        if absolute {
            assert(c =~= nothing + seq!['/'] + text);
            lemma_split_joined(nothing, text);
            lemma_components_concat(seq![nothing], parts);
            assert(components(seq![nothing]) + parts =~= parts);
        }
    }
}

/// What the canonical spelling of a path is made of: it is absolute where the path is, its
/// components are the path's, and it is its own canonical spelling.
pub proof fn lemma_canonical_parts(path: Seq<char>)
    ensures
        is_absolute(canonical(path)) == is_absolute(path),
        components(split(canonical(path))) == components(split(path)),
        is_canonical(canonical(path)),
{
    lemma_components_of_path(path);
    lemma_spelled(is_absolute(path), components(split(path)));
}

/// The canonical spelling decides whether two texts are the same path: they have the same
/// canonical spelling exactly where both are absolute or both are not, and their components
/// are the same.
pub proof fn lemma_canonical_decides(a: Seq<char>, b: Seq<char>)
    ensures
        canonical(a) == canonical(b) <==> is_absolute(a) == is_absolute(b) && components(split(a))
            == components(split(b)),
{
    lemma_canonical_parts(a);
    lemma_canonical_parts(b);
}

/// Components that are put together one list behind the other are the two texts with a `/`
/// between them.
pub proof fn lemma_unsplit_concat(a: Seq<Seq<char>>, b: Seq<Seq<char>>)
    requires
        a.len() > 0,
        b.len() > 0,
    ensures
        unsplit(a + b) == unsplit(a) + seq!['/'] + unsplit(b),
    decreases b.len(),
{
    assert((a + b).drop_last() =~= a + b.drop_last());
    assert((a + b).last() == b.last());
    if b.len() == 1 {
        assert(a + b.drop_last() =~= a);
        assert(unsplit(b) == b.last());
    } else {
        lemma_unsplit_concat(a, b.drop_last());
        assert(unsplit(a + b) =~= unsplit(a) + seq!['/'] + unsplit(b));
    }
}

/// Components that are put together and set below a directory in canonical spelling give a
/// path in canonical spelling.
pub proof fn lemma_below_canonical(base: Seq<char>, parts: Seq<Seq<char>>)
    requires
        is_canonical(base),
        base.len() > 0,
        base.last() != '/',
        parts.len() > 0,
        forall|k: int|
            0 <= k < parts.len() ==> is_component(#[trigger] parts[k]) && !parts[k].contains('/'),
    ensures
        is_canonical(base + seq!['/'] + unsplit(parts)),
    decreases parts.len(),
{
    let last = parts.last();
    assert(is_component(parts[parts.len() - 1]));
    if parts.len() == 1 {
        assert(unsplit(parts) == last);
        lemma_joined_canonical(base, last);
    } else {
        let before = parts.drop_last();
        assert forall|k: int| 0 <= k < before.len() implies is_component(#[trigger] before[k])
            && !before[k].contains('/') by {
            assert(before[k] == parts[k]);
        }
        lemma_below_canonical(base, before);
        lemma_unsplit_end_of(before);
        let dir = base + seq!['/'] + unsplit(before);
        assert(dir.last() == unsplit(before).last());
        lemma_joined_canonical(dir, last);
        assert(joined(dir, last) =~= base + seq!['/'] + unsplit(parts));
    }
}

/// A path in canonical spelling that holds a `/` behind its start is its directory, a `/` and
/// its last component; the directory is in canonical spelling and does not end in `/`.
pub proof fn lemma_canonical_cut(path: Seq<char>)
    requires
        is_canonical(path),
    ensures
        match last_index_of(path, '/') {
            Some(i) => if i > 0 {
                &&& is_canonical(path.subrange(0, i))
                &&& path.subrange(0, i).last() != '/'
            } else {
                true
            },
            None => true,
        },
{
    let parts = components(split(path));
    let absolute = is_absolute(path);
    lemma_components_of_path(path);
    lemma_last_index_of(path, '/');
    match last_index_of(path, '/') {
        Some(i) => {
            if i > 0 {
                if parts.len() == 0 {
                    assert(unsplit(parts) =~= Seq::<char>::empty());
                    assert(path.len() <= 1);
                } else if parts.len() == 1 {
                    assert(unsplit(parts) == parts[0]);
                    assert(is_component(parts[0]));
                    if absolute {
                        assert(path[i] == parts[0][i - 1]);
                    } else {
                        assert(path[i] == parts[0][i]);
                    }
                    assert(parts[0].contains('/'));
                } else {
                    let before = parts.drop_last();
                    let last = parts.last();
                    assert(is_component(parts[parts.len() - 1]));
                    assert forall|k: int| 0 <= k < before.len() implies is_component(
                        #[trigger] before[k],
                    ) && !before[k].contains('/') by {
                        assert(before[k] == parts[k]);
                    }
                    let dir = rooted(absolute, unsplit(before));
                    lemma_spelled(absolute, before);
                    lemma_unsplit_end_of(before);
                    assert(path =~= dir + seq!['/'] + last);
                    let at = dir.len() as int;
                    assert(path[at] == '/');
                    assert forall|j: int| at < j < path.len() implies path[j] != '/' by {
                        assert(path[j] == last[j - at - 1]);
                        assert(last.contains(path[j]));
                    }
                    lemma_last_index_of_is(path, '/', at);
                    assert(path.subrange(0, i) =~= dir);
                    assert(dir.last() == unsplit(before).last());
                }
            }
        },
        None => {},
    }
}

/// Replacing the last segment of a path in canonical spelling by one component gives a path
/// in canonical spelling.
pub proof fn lemma_with_name_canonical(path: Seq<char>, name: Seq<char>)
    requires
        is_canonical(path),
        is_component(name),
        !name.contains('/'),
    ensures
        is_canonical(with_name(path, name)),
{
    lemma_last_index_of(path, '/');
    lemma_canonical_cut(path);
    lemma_spelled(false, Seq::empty());
    lemma_spelled(true, Seq::empty());
    assert(unsplit(Seq::<Seq<char>>::empty()) =~= Seq::<char>::empty());
    let nothing = Seq::<char>::empty();
    match last_index_of(path, '/') {
        Some(i) => {
            if i > 0 {
                let dir = path.subrange(0, i);
                lemma_joined_canonical(dir, name);
                assert(path.subrange(0, i + 1) =~= dir + seq!['/']);
                assert(joined(dir, name) =~= with_name(path, name));
            } else {
                let root = seq!['/'];
                assert(rooted(true, nothing) =~= root);
                lemma_joined_canonical(root, name);
                assert(path.subrange(0, 1) =~= root);
                assert(joined(root, name) =~= with_name(path, name));
            }
        },
        None => {
            assert(rooted(false, nothing) =~= nothing);
            lemma_joined_canonical(nothing, name);
        },
    }
}

/// A name that is one component, joined to a directory in canonical spelling, gives a path in
/// canonical spelling.
pub proof fn lemma_joined_canonical(base: Seq<char>, name: Seq<char>)
    requires
        is_canonical(base),
        is_component(name),
        !name.contains('/'),
    ensures
        is_canonical(joined(base, name)),
{
    let parts = components(split(base));
    let nothing = Seq::<char>::empty();
    let path = joined(base, name);
    lemma_components_of_path(base);
    lemma_split_one(name);
    assert(name.contains(name[0]));
    lemma_components_one(name);
    assert(split(nothing) =~= seq![nothing]);
    lemma_components_one(nothing);
    if parts.len() > 0 {
        lemma_unsplit_end_of(parts);
    } else {
        assert(unsplit(parts) =~= nothing);
    }
    if base.len() == 0 {
        assert(unsplit(seq![name]) == name);
    } else if base.last() == '/' {
        assert(parts.len() == 0);
        assert(base =~= seq!['/']);
        assert(path =~= nothing + seq!['/'] + name);
        lemma_split_joined(nothing, name);
        lemma_components_concat(seq![nothing], seq![name]);
        assert(components(split(path)) =~= seq![name]);
        assert(unsplit(seq![name]) == name);
    } else {
        assert(parts.len() > 0);
        lemma_split_joined(base, name);
        lemma_components_concat(split(base), seq![name]);
        let all = parts.push(name);
        assert(components(split(path)) =~= all);
        assert(all.drop_last() =~= parts);
        assert(unsplit(all) =~= unsplit(parts) + seq!['/'] + name);
        assert(canonical(path) =~= path);
    }
}

/// Components without `/` that are put together end with the last character of the last,
/// which is no `/`.
proof fn lemma_unsplit_end_of(segments: Seq<Seq<char>>)
    requires
        segments.len() > 0,
        forall|k: int|
            0 <= k < segments.len() ==> {
                let part = #[trigger] segments[k];
                is_component(part) && !part.contains('/')
            },
    ensures
        unsplit(segments).len() > 0,
        unsplit(segments).last() != '/',
{
    lemma_unsplit_end(segments);
}

/// The canonical spelling of `path`.
pub fn normalize(path: &str) -> (r: String)
    ensures
        r@ == canonical(path@),
        is_canonical(r@),
{
    let chars = to_chars(path);
    let ranges = segments(chars.as_slice());
    let ghost all = split(path@);
    let mut out = String::new();
    if chars.len() > 0 && chars[0] == '/' {
        out.push('/');
    }
    let ghost front = out@;
    let mut any = false;
    let mut k: usize = 0;
    proof {
        assert(all.take(0) =~= Seq::<Seq<char>>::empty());
        assert(front =~= rooted(is_absolute(path@), Seq::empty()));
        assert(out@ =~= front + unsplit(components(all.take(0))));
    }
    while k < ranges.len()
        invariant
            k <= ranges.len(),
            chars@ == path@,
            all == split(path@),
            ranges.len() == all.len(),
            forall|j: int|
                0 <= j < ranges.len() ==> (#[trigger] ranges[j]).0 <= ranges[j].1 <= chars.len()
                    && chars@.subrange(ranges[j].0 as int, ranges[j].1 as int) == all[j],
            out@ == front + unsplit(components(all.take(k as int))),
            any == (components(all.take(k as int)).len() > 0),
        decreases ranges.len() - k,
    {
        let (from, to) = ranges[k];
        let segment = slice_subrange(chars.as_slice(), from, to);
        proof {
            let next = all.take(k + 1);
            assert(next.drop_last() =~= all.take(k as int));
            assert(next.last() == all[k as int]);
        }
        if is_part(segment) {
            let ghost before = components(all.take(k as int));
            let ghost grown = before.push(segment@);
            if any {
                out.push('/');
            }
            let piece = from_chars(segment, 0, segment.len());
            assert(segment@.subrange(0, segment.len() as int) =~= segment@);
            out.append(piece.as_str());
            proof {
                assert(grown.drop_last() =~= before);
                assert(out@ =~= front + unsplit(grown));
            }
            any = true;
        }
        k += 1;
    }
    proof {
        assert(all.take(all.len() as int) =~= all);
        assert(out@ =~= canonical(path@));
        lemma_canonical_parts(path@);
    }
    out
}

/// Whether a segment is a component of a path.
fn is_part(segment: &[char]) -> (r: bool)
    ensures
        r == is_component(segment@),
{
    let n = segment.len();
    if n == 0 {
        false
    } else if n == 1 && segment[0] == '.' {
        assert(segment@ =~= seq!['.']);
        false
    } else {
        proof {
            if segment@ == seq!['.'] {
                assert(seq!['.'].len() == 1);
                assert(seq!['.'][0] == '.');
            }
        }
        true
    }
}

/// The file name of a path, however it is spelled.
pub fn file_name(path: &str) -> (r: Option<String>)
    ensures
        match r {
            Some(name) => file_name_of(path@) == Some(name@),
            None => file_name_of(path@).is_none(),
        },
{
    let spelled = normalize(path);
    match name_of(spelled.as_str()) {
        Some(name) => Some(name.to_owned()),
        None => None,
    }
}

/// The directory that holds the entry at a path, however the path is spelled.
pub fn parent(path: &str) -> (r: Option<String>)
    ensures
        match r {
            Some(dir) => parent_of(path@) == Some(dir@),
            None => parent_of(path@).is_none(),
        },
{
    let spelled = normalize(path);
    match dir_of(spelled.as_str()) {
        Some(dir) => Some(dir.to_owned()),
        None => None,
    }
}

/// Where the segments of `path` start and end.
pub fn segments(path: &[char]) -> (r: Vec<(usize, usize)>)
    ensures
        r.len() == split(path@).len(),
        forall|k: int|
            0 <= k < r.len() ==> (#[trigger] r[k]).0 <= r[k].1 <= path.len() && path@.subrange(
                r[k].0 as int,
                r[k].1 as int,
            ) == split(path@)[k],
{
    let mut r: Vec<(usize, usize)> = Vec::new();
    let mut start: usize = 0;
    let mut i: usize = 0;
    assert(path@.take(0) =~= Seq::<char>::empty());
    assert(path@.subrange(0, 0) =~= Seq::<char>::empty());
    while i < path.len()
        invariant
            start <= i <= path.len(),
            r.len() + 1 == split(path@.take(i as int)).len(),
            forall|k: int|
                0 <= k < r.len() ==> (#[trigger] r[k]).0 <= r[k].1 <= path.len() && path@.subrange(
                    r[k].0 as int,
                    r[k].1 as int,
                ) == split(path@.take(i as int))[k],
            path@.subrange(start as int, i as int) == split(path@.take(i as int)).last(),
        decreases path.len() - i,
    {
        let ghost before = split(path@.take(i as int));
        proof {
            let next = path@.take(i + 1);
            assert(next.drop_last() =~= path@.take(i as int));
            assert(next.last() == path@[i as int]);
        }
        if path[i] == '/' {
            r.push((start, i));
            start = i + 1;
            assert(path@.subrange(start as int, start as int) =~= Seq::<char>::empty());
        } else {
            assert(path@.subrange(start as int, i + 1) =~= path@.subrange(
                start as int,
                i as int,
            ).push(path@[i as int]));
        }
        i += 1;
    }
    assert(path@.take(path.len() as int) =~= path@);
    r.push((start, path.len()));
    r
}

/// `acc` with the segment `segment` respelled below it, if the segment names an entry.
fn push_respelled(acc: String, segment: &[char], dots: bool) -> (r: String)
    ensures
        r@ == if is_normal(segment@) {
            joined(acc@, respelled(segment@, dots))
        } else {
            acc@
        },
{
    if !names_entry(segment) {
        return acc;
    }
    let skip = count_leading(segment, 0, '.');
    assert(segment@.subrange(0, segment.len() as int) =~= segment@);
    let mut name = String::new();
    if dots {
        name.push('.');
    }
    let rest = from_chars(segment, skip, segment.len());
    name.append(rest.as_str());
    assert(name@ =~= respelled(segment@, dots));
    join(acc.as_str(), name.as_str())
}

/// The path below `base` that the segments of `path` lead to when each is respelled.
pub fn respell(base: &str, path: &str, dots: bool) -> (r: String)
    ensures
        r@ == below(base@, split(path@), dots),
{
    let chars = to_chars(path);
    let ranges = segments(chars.as_slice());
    let ghost all = split(path@);
    let mut acc = base.to_owned();
    let mut k: usize = 0;
    assert(all.take(0) =~= Seq::<Seq<char>>::empty());
    while k < ranges.len()
        invariant
            k <= ranges.len(),
            chars@ == path@,
            all == split(path@),
            ranges.len() == all.len(),
            forall|j: int|
                0 <= j < ranges.len() ==> (#[trigger] ranges[j]).0 <= ranges[j].1 <= chars.len()
                    && chars@.subrange(ranges[j].0 as int, ranges[j].1 as int) == all[j],
            acc@ == below(base@, all.take(k as int), dots),
        decreases ranges.len() - k,
    {
        let (from, to) = ranges[k];
        proof {
            let next = all.take(k + 1);
            assert(next.drop_last() =~= all.take(k as int));
            assert(next.last() == all[k as int]);
        }
        acc = push_respelled(acc, slice_subrange(chars.as_slice(), from, to), dots);
        k += 1;
    }
    assert(all.take(all.len() as int) =~= all);
    acc
}

/// Whether each segment of `path` that names an entry starts with a dot.
pub fn is_all_dotted(path: &str) -> (r: bool)
    ensures
        r == all_dotted(split(path@)),
{
    let chars = to_chars(path);
    let ranges = segments(chars.as_slice());
    let ghost all = split(path@);
    let mut k: usize = 0;
    while k < ranges.len()
        invariant
            k <= ranges.len(),
            chars@ == path@,
            all == split(path@),
            ranges.len() == all.len(),
            forall|j: int|
                0 <= j < ranges.len() ==> (#[trigger] ranges[j]).0 <= ranges[j].1 <= chars.len()
                    && chars@.subrange(ranges[j].0 as int, ranges[j].1 as int) == all[j],
            forall|j: int| 0 <= j < k && is_normal(#[trigger] all[j]) ==> all[j][0] == '.',
        decreases ranges.len() - k,
    {
        let (from, to) = ranges[k];
        let segment = slice_subrange(chars.as_slice(), from, to);
        if names_entry(segment) && segment[0] != '.' {
            assert(is_normal(all[k as int]) && all[k as int][0] != '.');
            return false;
        }
        k += 1;
    }
    true
}

/// What is left of `path` below `root`.
pub fn relative(path: &str, root: &str) -> (r: Option<String>)
    ensures
        match r {
            Some(rest) => relative_to(path@, root@) == Some(rest@),
            None => relative_to(path@, root@).is_none(),
        },
{
    let p = to_chars(path);
    let r = to_chars(root);
    if same_chars(p.as_slice(), r.as_slice()) {
        return Some(String::new());
    }
    let bare = r.len() == 0 || r[r.len() - 1] == '/';
    let ghost stem = if bare {
        root@
    } else {
        root@ + seq!['/']
    };
    if bare {
        if r.len() <= p.len() && matches_at(p.as_slice(), r.as_slice(), 0) {
            assert(stem.is_prefix_of(path@));
            Some(from_chars(p.as_slice(), r.len(), p.len()))
        } else {
            assert(!stem.is_prefix_of(path@));
            None
        }
    } else {
        if r.len() < p.len() && matches_at(p.as_slice(), r.as_slice(), 0) && p[r.len()] == '/' {
            assert(stem =~= path@.subrange(0, stem.len() as int));
            Some(from_chars(p.as_slice(), r.len() + 1, p.len()))
        } else {
            proof {
                if stem.is_prefix_of(path@) {
                    assert(stem == path@.subrange(0, stem.len() as int));
                    assert(path@.subrange(0, root@.len() as int) =~= stem.subrange(
                        0,
                        root@.len() as int,
                    ));
                    assert(stem.subrange(0, root@.len() as int) =~= root@);
                    assert(stem[root@.len() as int] == '/');
                }
            }
            None
        }
    }
}

} // verus!
