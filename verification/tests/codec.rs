use maildirs::name::{decode, decode_flags, decode_id, encode, marker_of};
use maildirs::{Error, Flag, FlagSet};

const ALL: [Flag; 6] =
    [Flag::Passed, Flag::Replied, Flag::Seen, Flag::Trashed, Flag::Draft, Flag::Flagged];

fn subset(bits: u32) -> Vec<Flag> {
    ALL.iter().enumerate().filter(|(i, _)| bits & (1 << i) != 0).map(|(_, f)| *f).collect()
}

#[test]
fn each_flag_has_its_letter() {
    let letters = ['P', 'R', 'S', 'T', 'D', 'F'];
    for (flag, letter) in ALL.iter().zip(letters) {
        assert_eq!(flag.to_code(), letter);
        assert_eq!(flag.as_ref(), letter.to_string());
        assert_eq!(Flag::from_code(letter), Some(*flag));
        assert_eq!(Flag::try_from(letter), Ok(*flag));
    }
}

#[test]
fn other_letters_stand_for_no_flag() {
    for c in ['p', 'X', '2', ',', ':', 'Z', ' '] {
        assert_eq!(Flag::from_code(c), None);
        assert_eq!(Flag::try_from(c), Err(Error::InvalidFlagError(c)));
    }
}

#[test]
fn encode_sorts_the_letters() {
    let flags = FlagSet::from_flags(&[Flag::Seen, Flag::Passed]);
    assert_eq!(encode("1.#0M2P3", &flags, ":"), "1.#0M2P3:2,PS");
    let all = FlagSet::from_flags(&ALL);
    assert_eq!(encode("id", &all, ":"), "id:2,DFPRST");
    assert_eq!(encode("id", &FlagSet::new(), ":"), "id:2,");
}

#[test]
fn order_and_repetition_of_flags_leave_no_trace() {
    let a = FlagSet::from_flags(&[Flag::Trashed, Flag::Draft, Flag::Trashed, Flag::Seen]);
    let b = FlagSet::from_flags(&[Flag::Seen, Flag::Trashed, Flag::Draft]);
    assert_eq!(a, b);
    assert_eq!(encode("x", &a, ";"), "x;2,DST");
    assert_eq!(encode("x", &b, ";"), "x;2,DST");
    assert_eq!(a.to_vec(), vec![Flag::Draft, Flag::Seen, Flag::Trashed]);
    assert_eq!(a.to_letters(), "DST");
}

#[test]
fn decode_gives_back_what_encode_was_given() {
    let ids = ["1700000000.#1aM5P7V8I9.host", "", "a:b", "with:2,S inside", "é/ü"];
    for sep in [":", ";", "", "::"] {
        for id in ids {
            for bits in 0..64 {
                let flags = FlagSet::from_flags(&subset(bits));
                let name = encode(id, &flags, sep);
                assert_eq!(decode(&name, sep), (id, flags));
            }
        }
    }
}

#[test]
fn decode_cuts_at_the_last_marker() {
    let (id, flags) = decode("a:2,S:2,TD", ":");
    assert_eq!(id, "a:2,S");
    assert_eq!(flags, FlagSet::from_flags(&[Flag::Draft, Flag::Trashed]));
    assert_eq!(decode_id("a:2,S:2,TD", ":"), "a:2,S");
    assert_eq!(decode_flags("a:2,S:2,TD", ":"), flags);
}

#[test]
fn name_without_marker_is_all_identifier() {
    assert_eq!(decode("plain", ":"), ("plain", FlagSet::new()));
    assert_eq!(decode("a:1,S", ":"), ("a:1,S", FlagSet::new()));
    assert_eq!(decode("a;2,S", ":"), ("a;2,S", FlagSet::new()));
    assert_eq!(decode("", ":"), ("", FlagSet::new()));
    assert_eq!(decode(":2", ":"), (":2", FlagSet::new()));
}

#[test]
fn letters_of_no_flag_are_passed_over() {
    let (id, flags) = decode("msg:2,SxyzP2,S", ":");
    assert_eq!(id, "msg");
    assert_eq!(flags, FlagSet::from_flags(&[Flag::Passed, Flag::Seen]));
    assert_eq!(decode("msg:2,", ":"), ("msg", FlagSet::new()));
    assert_eq!(decode(":2,F", ":"), ("", FlagSet::from_flags(&[Flag::Flagged])));
}

#[test]
fn marker_is_the_separator_and_two_comma() {
    assert_eq!(marker_of(":"), vec![':', '2', ',']);
    assert_eq!(marker_of(""), vec!['2', ',']);
}

#[test]
fn flag_sets_behave_as_sets() {
    let mut set = FlagSet::new();
    assert!(set.is_empty());
    assert!(set.insert(Flag::Seen));
    assert!(!set.insert(Flag::Seen));
    assert!(set.contains(Flag::Seen));
    assert!(!set.contains(Flag::Draft));
    assert!(!set.is_empty());
    assert!(set.insert_all(&[Flag::Seen, Flag::Draft]));
    assert!(!set.insert_all(&[Flag::Seen, Flag::Draft]));
    assert!(!set.insert_all(&[]));
    assert_eq!(set, FlagSet::from_flags(&[Flag::Draft, Flag::Seen]));
    assert!(!set.remove_all(&[Flag::Passed]));
    assert!(set.remove_all(&[Flag::Passed, Flag::Draft]));
    assert!(set.remove(Flag::Seen));
    assert!(!set.remove(Flag::Seen));
    assert!(set.is_empty());
    assert_eq!(
        FlagSet::from_letters(&['T', 'q', 'T', 'R']),
        FlagSet::from_flags(&[Flag::Replied, Flag::Trashed])
    );
}
