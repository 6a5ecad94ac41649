//! File names of messages: an identifier, and the flags behind a marker.
//!
//! A name is the identifier alone, or the identifier, the separator, `2,` and
//! the letters of the flags. The separator belongs to the mailbox; it is `:`
//! unless the mailbox says otherwise.

use crate::flag::{Flag, flags_of, FlagSet, is_code, lemma_letters};
use crate::text::{lemma_rfind, lemma_rfind_is, occurs_at, rfind, rfind_chars, to_chars};
use vstd::prelude::*;
use vstd::slice::slice_subrange;
use vstd::string::{StringExecFns, StrSliceExecFns};

verus! {

/// What stands between the identifier and the letters: the separator and `2,`.
pub open spec fn marker(sep: Seq<char>) -> Seq<char> {
    sep + seq!['2', ',']
}

/// The file name of the message `id` with the flags `flags`.
pub open spec fn encoded(id: Seq<char>, flags: FlagSet, sep: Seq<char>) -> Seq<char> {
    id + marker(sep) + flags.letters()
}

/// The identifier in a file name: what stands before the last marker, or the whole name where
/// it holds no marker.
pub open spec fn decoded_id(name: Seq<char>, sep: Seq<char>) -> Seq<char> {
    match rfind(name, marker(sep)) {
        Some(i) => name.subrange(0, i),
        None => name,
    }
}

/// What stands behind the last marker of a file name; nothing where it holds no marker.
pub open spec fn decoded_letters(name: Seq<char>, sep: Seq<char>) -> Seq<char> {
    match rfind(name, marker(sep)) {
        Some(i) => name.subrange(i + marker(sep).len(), name.len() as int),
        None => Seq::empty(),
    }
}

/// The flags in a file name: those whose letters stand behind the last marker.
pub open spec fn decoded_flags(name: Seq<char>, sep: Seq<char>) -> Set<Flag> {
    flags_of(decoded_letters(name, sep))
}

/// The marker of the separator `sep`.
pub fn marker_of(sep: &str) -> (m: Vec<char>)
    ensures
        m@ == marker(sep@),
{
    let mut m = to_chars(sep);
    m.push('2');
    m.push(',');
    assert(m@ =~= marker(sep@));
    m
}

/// The file name of the message `id` with the flags `flags`: the identifier, the separator,
/// `2,` and the letters of the flags in the order of the alphabet.
pub fn encode(id: &str, flags: &FlagSet, sep: &str) -> (name: String)
    ensures
        name@ == encoded(id@, *flags, sep@),
{
    let mut name = id.to_owned();
    name.append(sep);
    name.push('2');
    name.push(',');
    let letters = flags.to_letters();
    name.append(letters.as_str());
    assert(name@ =~= encoded(id@, *flags, sep@));
    name
}

/// The identifier and the flags in a file name. The name is cut at the last marker; letters
/// behind it that stand for no flag are passed over.
pub fn decode<'a>(name: &'a str, sep: &str) -> (r: (&'a str, FlagSet))
    ensures
        r.0@ == decoded_id(name@, sep@),
        r.1@ == decoded_flags(name@, sep@),
{
    let chars = to_chars(name);
    let m = marker_of(sep);
    match rfind_chars(chars.as_slice(), m.as_slice()) {
        Some(i) => {
            let letters = slice_subrange(chars.as_slice(), i + m.len(), chars.len());
            (name.substring_char(0, i), FlagSet::from_letters(letters))
        },
        None => {
            let flags = FlagSet::new();
            assert(flags@ =~= flags_of(Seq::<char>::empty()));
            (name, flags)
        },
    }
}

/// The identifier in a file name.
pub fn decode_id<'a>(name: &'a str, sep: &str) -> (id: &'a str)
    ensures
        id@ == decoded_id(name@, sep@),
{
    decode(name, sep).0
}

/// The flags in a file name.
pub fn decode_flags(name: &str, sep: &str) -> (flags: FlagSet)
    ensures
        flags@ == decoded_flags(name@, sep@),
{
    decode(name, sep).1
}

/// In an encoded name the marker that `encode` wrote is the last one.
pub proof fn lemma_encoded_marker(id: Seq<char>, flags: FlagSet, sep: Seq<char>)
    ensures
        rfind(encoded(id, flags, sep), marker(sep)) == Some(id.len() as int),
{
    let name = encoded(id, flags, sep);
    let m = marker(sep);
    let at = id.len() as int;
    lemma_letters(flags);
    assert(name.subrange(at, at + m.len()) =~= m);
    assert forall|j: int| at < j implies !occurs_at(name, m, j) by {
        if occurs_at(name, m, j) {
            // The `2` of an occurrence at `j` would stand where the name holds `,` or a letter.
            let k = j + sep.len();
            assert(name.subrange(j, j + m.len())[sep.len() as int] == name[k]);
            assert(m[sep.len() as int] == '2');
            if k == at + sep.len() + 1 {
                assert(name[k] == ',');
            } else {
                let l = k - (at + m.len());
                assert(name[k] == flags.letters()[l]);
                assert(is_code(flags.letters()[l]));
            }
        }
    }
    lemma_rfind_is(name, m, at);
}

/// Decoding an encoded name gives back the identifier and the flags, whatever the identifier
/// and the separator are.
pub proof fn lemma_round_trip(id: Seq<char>, flags: FlagSet, sep: Seq<char>)
    ensures
        decoded_id(encoded(id, flags, sep), sep) == id,
        decoded_letters(encoded(id, flags, sep), sep) == flags.letters(),
        decoded_flags(encoded(id, flags, sep), sep) == flags@,
{
    let name = encoded(id, flags, sep);
    lemma_encoded_marker(id, flags, sep);
    lemma_letters(flags);
    assert(name.subrange(0, id.len() as int) =~= id);
    let behind = (id.len() + marker(sep).len()) as int;
    assert(name.subrange(behind, name.len() as int) =~= flags.letters());
}

/// A name without a comma holds no marker, so it decodes to itself and to no flag.
pub proof fn lemma_name_without_comma(name: Seq<char>, sep: Seq<char>)
    requires
        !name.contains(','),
    ensures
        decoded_id(name, sep) == name,
        decoded_flags(name, sep) == Set::<Flag>::empty(),
{
    let m = marker(sep);
    assert forall|i: int| !occurs_at(name, m, i) by {
        if occurs_at(name, m, i) {
            let k = i + sep.len() + 1;
            assert(name.subrange(i, i + m.len())[sep.len() as int + 1] == name[k]);
            assert(m[sep.len() as int + 1] == ',');
            assert(name.contains(','));
        }
    }
    lemma_plain_name(name, sep);
}

/// A name that holds no marker decodes to itself and to no flag.
pub proof fn lemma_plain_name(name: Seq<char>, sep: Seq<char>)
    requires
        forall|i: int| !occurs_at(name, marker(sep), i),
    ensures
        decoded_id(name, sep) == name,
        decoded_flags(name, sep) == Set::<Flag>::empty(),
{
    lemma_rfind(name, marker(sep));
    assert(flags_of(Seq::<char>::empty()) =~= Set::<Flag>::empty());
}

} // verus!
