//! Message flags and sets of them.

use crate::error::{Error, ErrorView};
use vstd::prelude::*;

verus! {

/// A flag that a message can carry in its file name.
#[derive(Clone, Copy, Debug, PartialEq, Eq, Hash, Structural)]
pub enum Flag {
    Passed,
    Replied,
    Seen,
    Trashed,
    Draft,
    Flagged,
}

impl Flag {
    /// The letter that stands for the flag in a file name.
    pub open spec fn code(self) -> char {
        match self {
            Flag::Passed => 'P',
            Flag::Replied => 'R',
            Flag::Seen => 'S',
            Flag::Trashed => 'T',
            Flag::Draft => 'D',
            Flag::Flagged => 'F',
        }
    }

    /// The flag's letter.
    pub fn to_code(self) -> (c: char)
        ensures
            c == self.code(),
    {
        match self {
            Flag::Passed => 'P',
            Flag::Replied => 'R',
            Flag::Seen => 'S',
            Flag::Trashed => 'T',
            Flag::Draft => 'D',
            Flag::Flagged => 'F',
        }
    }

    /// The flag that a letter stands for, if it stands for one.
    pub fn from_code(c: char) -> (r: Option<Flag>)
        ensures
            match r {
                Some(f) => f.code() == c,
                None => forall|f: Flag| f.code() != c,
            },
    {
        match c {
            'P' => Some(Flag::Passed),
            'R' => Some(Flag::Replied),
            'S' => Some(Flag::Seen),
            'T' => Some(Flag::Trashed),
            'D' => Some(Flag::Draft),
            'F' => Some(Flag::Flagged),
            _ => None,
        }
    }

    /// The flag that a letter stands for. Fails where it stands for none.
    pub fn try_from(c: char) -> (r: Result<Flag, Error>)
        ensures
            match r {
                Ok(f) => f.code() == c,
                Err(e) => !is_code(c) && e@ == ErrorView::InvalidFlagError(c),
            },
    {
        match Flag::from_code(c) {
            Some(f) => Ok(f),
            None => {
                proof {
                    if is_code(c) {
                        assert(Flag::Passed.code() != c);
                        assert(Flag::Replied.code() != c);
                        assert(Flag::Seen.code() != c);
                        assert(Flag::Trashed.code() != c);
                        assert(Flag::Draft.code() != c);
                        assert(Flag::Flagged.code() != c);
                    }
                }
                Err(Error::InvalidFlagError(c))
            },
        }
    }

    /// The flag's letter as a string of one character.
    pub fn as_ref(&self) -> (s: &'static str)
        ensures
            s@ == seq![self.code()],
    {
        proof {
            reveal_strlit("P");
            reveal_strlit("R");
            reveal_strlit("S");
            reveal_strlit("T");
            reveal_strlit("D");
            reveal_strlit("F");
        }
        let s = match self {
            Flag::Passed => "P",
            Flag::Replied => "R",
            Flag::Seen => "S",
            Flag::Trashed => "T",
            Flag::Draft => "D",
            Flag::Flagged => "F",
        };
        assert(s@ =~= seq![self.code()]);
        s
    }
}

/// Two flags with the same letter are the same flag.
pub proof fn lemma_code_injective(a: Flag, b: Flag)
    requires
        a.code() == b.code(),
    ensures
        a == b,
{
}

/// A set of flags.
#[derive(Clone, Copy, Debug, PartialEq, Eq, Hash, Structural)]
pub struct FlagSet {
    pub passed: bool,
    pub replied: bool,
    pub seen: bool,
    pub trashed: bool,
    pub draft: bool,
    pub flagged: bool,
}

impl View for FlagSet {
    type V = Set<Flag>;

    open spec fn view(&self) -> Set<Flag> {
        Set::new(|f: Flag| self.holds(f))
    }
}

/// The flags whose letters occur in `letters`.
pub open spec fn flags_of(letters: Seq<char>) -> Set<Flag> {
    Set::new(|f: Flag| letters.contains(f.code()))
}

/// Whether `c` is the letter of a flag.
pub open spec fn is_code(c: char) -> bool {
    c == 'P' || c == 'R' || c == 'S' || c == 'T' || c == 'D' || c == 'F'
}

/// `s` with `c` at its end if `present`, else `s`.
pub open spec fn push_if(s: Seq<char>, present: bool, c: char) -> Seq<char> {
    if present {
        s.push(c)
    } else {
        s
    }
}

/// Whether every character stands before the next one in the order of characters.
pub open spec fn strictly_sorted(s: Seq<char>) -> bool {
    forall|i: int, j: int| 0 <= i < j < s.len() ==> (s[i] as int) < (s[j] as int)
}

impl FlagSet {
    /// Whether the set holds `f`.
    pub open spec fn holds(self, f: Flag) -> bool {
        match f {
            Flag::Passed => self.passed,
            Flag::Replied => self.replied,
            Flag::Seen => self.seen,
            Flag::Trashed => self.trashed,
            Flag::Draft => self.draft,
            Flag::Flagged => self.flagged,
        }
    }

    /// The value that holds exactly the flags of `s`.
    pub open spec fn from_set(s: Set<Flag>) -> FlagSet {
        FlagSet {
            passed: s.contains(Flag::Passed),
            replied: s.contains(Flag::Replied),
            seen: s.contains(Flag::Seen),
            trashed: s.contains(Flag::Trashed),
            draft: s.contains(Flag::Draft),
            flagged: s.contains(Flag::Flagged),
        }
    }

    /// The letters of the set's flags, each once, in the order of the alphabet.
    pub open spec fn letters(self) -> Seq<char> {
        let s = push_if(Seq::empty(), self.draft, 'D');
        let s = push_if(s, self.flagged, 'F');
        let s = push_if(s, self.passed, 'P');
        let s = push_if(s, self.replied, 'R');
        let s = push_if(s, self.seen, 'S');
        push_if(s, self.trashed, 'T')
    }

    /// The empty set.
    pub fn new() -> (r: FlagSet)
        ensures
            r@ == Set::<Flag>::empty(),
            r.letters() == Seq::<char>::empty(),
    {
        let r = FlagSet {
            passed: false,
            replied: false,
            seen: false,
            trashed: false,
            draft: false,
            flagged: false,
        };
        assert(r@ =~= Set::<Flag>::empty());
        r
    }

    /// Whether the set holds `f`.
    pub fn contains(&self, f: Flag) -> (r: bool)
        ensures
            r == self@.contains(f),
    {
        match f {
            Flag::Passed => self.passed,
            Flag::Replied => self.replied,
            Flag::Seen => self.seen,
            Flag::Trashed => self.trashed,
            Flag::Draft => self.draft,
            Flag::Flagged => self.flagged,
        }
    }

    /// Whether the set holds no flag.
    pub fn is_empty(&self) -> (r: bool)
        ensures
            r == (self@ == Set::<Flag>::empty()),
    {
        let r = !(self.passed || self.replied || self.seen || self.trashed || self.draft
            || self.flagged);
        proof {
            if r {
                assert(self@ =~= Set::<Flag>::empty());
            } else {
                assert(self@.contains(Flag::Passed) || self@.contains(Flag::Replied)
                    || self@.contains(Flag::Seen) || self@.contains(Flag::Trashed)
                    || self@.contains(Flag::Draft) || self@.contains(Flag::Flagged));
            }
        }
        r
    }

    /// Puts `f` into the set. Returns whether the set did not hold it before.
    pub fn insert(&mut self, f: Flag) -> (fresh: bool)
        ensures
            final(self)@ == old(self)@.insert(f),
            fresh == !old(self)@.contains(f),
    {
        let fresh = !self.contains(f);
        match f {
            Flag::Passed => {
                self.passed = true;
            },
            Flag::Replied => {
                self.replied = true;
            },
            Flag::Seen => {
                self.seen = true;
            },
            Flag::Trashed => {
                self.trashed = true;
            },
            Flag::Draft => {
                self.draft = true;
            },
            Flag::Flagged => {
                self.flagged = true;
            },
        }
        assert(self@ =~= old(self)@.insert(f));
        fresh
    }

    /// Takes `f` out of the set. Returns whether the set held it before.
    pub fn remove(&mut self, f: Flag) -> (present: bool)
        ensures
            final(self)@ == old(self)@.remove(f),
            present == old(self)@.contains(f),
    {
        let present = self.contains(f);
        match f {
            Flag::Passed => {
                self.passed = false;
            },
            Flag::Replied => {
                self.replied = false;
            },
            Flag::Seen => {
                self.seen = false;
            },
            Flag::Trashed => {
                self.trashed = false;
            },
            Flag::Draft => {
                self.draft = false;
            },
            Flag::Flagged => {
                self.flagged = false;
            },
        }
        assert(self@ =~= old(self)@.remove(f));
        present
    }

    /// Puts every flag of `flags` into the set. Returns whether the set has changed.
    pub fn insert_all(&mut self, flags: &[Flag]) -> (changed: bool)
        ensures
            final(self)@ == old(self)@.union(flags@.to_set()),
            changed == (final(self)@ != old(self)@),
    {
        let mut changed = false;
        let mut i: usize = 0;
        while i < flags.len()
            invariant
                i <= flags.len(),
                self@ == old(self)@.union(flags@.take(i as int).to_set()),
                changed == (self@ != old(self)@),
            decreases flags.len() - i,
        {
            let ghost before = self@;
            let fresh = self.insert(flags[i]);
            proof {
                let f = flags@[i as int];
                assert(flags@.take(i + 1) =~= flags@.take(i as int).push(f));
                lemma_to_set_push(flags@.take(i as int), f);
                assert(self@ =~= old(self)@.union(flags@.take(i + 1).to_set()));
                if fresh {
                    assert(self@.contains(f) && !old(self)@.contains(f));
                } else {
                    assert(self@ =~= before);
                }
            }
            changed = changed || fresh;
            i += 1;
        }
        assert(flags@.take(flags.len() as int) =~= flags@);
        changed
    }

    /// Takes every flag of `flags` out of the set. Returns whether the set has changed.
    pub fn remove_all(&mut self, flags: &[Flag]) -> (changed: bool)
        ensures
            final(self)@ == old(self)@.difference(flags@.to_set()),
            changed == (final(self)@ != old(self)@),
    {
        let mut changed = false;
        let mut i: usize = 0;
        while i < flags.len()
            invariant
                i <= flags.len(),
                self@ == old(self)@.difference(flags@.take(i as int).to_set()),
                changed == (self@ != old(self)@),
            decreases flags.len() - i,
        {
            let ghost before = self@;
            let present = self.remove(flags[i]);
            proof {
                let f = flags@[i as int];
                assert(flags@.take(i + 1) =~= flags@.take(i as int).push(f));
                lemma_to_set_push(flags@.take(i as int), f);
                assert(self@ =~= old(self)@.difference(flags@.take(i + 1).to_set()));
                if present {
                    assert(!self@.contains(f) && old(self)@.contains(f));
                } else {
                    assert(self@ =~= before);
                }
            }
            changed = changed || present;
            i += 1;
        }
        assert(flags@.take(flags.len() as int) =~= flags@);
        changed
    }

    /// The set of the given flags.
    pub fn from_flags(flags: &[Flag]) -> (r: FlagSet)
        ensures
            r@ == flags@.to_set(),
    {
        let mut r = FlagSet::new();
        r.insert_all(flags);
        assert(r@ =~= flags@.to_set());
        r
    }

    /// The set of the flags whose letters occur in `letters`. Other characters are passed over.
    pub fn from_letters(letters: &[char]) -> (r: FlagSet)
        ensures
            r@ == flags_of(letters@),
    {
        let mut r = FlagSet::new();
        let mut i: usize = 0;
        while i < letters.len()
            invariant
                i <= letters.len(),
                r@ == flags_of(letters@.take(i as int)),
            decreases letters.len() - i,
        {
            let ghost before = r@;
            let c = letters[i];
            proof {
                assert(letters@.take(i + 1) =~= letters@.take(i as int).push(c));
                assert forall|f: Flag|
                    letters@.take(i + 1).contains(f.code()) <==> (letters@.take(
                        i as int,
                    ).contains(f.code()) || f.code() == c) by {
                    lemma_push_contains(letters@.take(i as int), c, f.code());
                }
            }
            match Flag::from_code(c) {
                Some(f) => {
                    r.insert(f);
                    assert(r@ =~= flags_of(letters@.take(i + 1)));
                },
                None => {
                    assert(r@ =~= flags_of(letters@.take(i + 1)));
                },
            }
            i += 1;
        }
        assert(letters@.take(letters.len() as int) =~= letters@);
        r
    }

    /// The set's flags, each once, in the order of their letters.
    pub fn to_vec(&self) -> (v: Vec<Flag>)
        ensures
            v@.map_values(|f: Flag| f.code()) == self.letters(),
    {
        let mut v: Vec<Flag> = Vec::new();
        let ghost code = |f: Flag| f.code();
        assert(v@.map_values(code) =~= Seq::<char>::empty());
        if self.draft {
            proof { lemma_map_push(v@, Flag::Draft); }
            v.push(Flag::Draft);
        }
        if self.flagged {
            proof { lemma_map_push(v@, Flag::Flagged); }
            v.push(Flag::Flagged);
        }
        if self.passed {
            proof { lemma_map_push(v@, Flag::Passed); }
            v.push(Flag::Passed);
        }
        if self.replied {
            proof { lemma_map_push(v@, Flag::Replied); }
            v.push(Flag::Replied);
        }
        if self.seen {
            proof { lemma_map_push(v@, Flag::Seen); }
            v.push(Flag::Seen);
        }
        if self.trashed {
            proof { lemma_map_push(v@, Flag::Trashed); }
            v.push(Flag::Trashed);
        }
        v
    }

    /// The letters of the set's flags, each once, in the order of the alphabet.
    pub fn to_letters(&self) -> (s: String)
        ensures
            s@ == self.letters(),
    {
        let mut s = String::new();
        if self.draft {
            s.push('D');
        }
        if self.flagged {
            s.push('F');
        }
        if self.passed {
            s.push('P');
        }
        if self.replied {
            s.push('R');
        }
        if self.seen {
            s.push('S');
        }
        if self.trashed {
            s.push('T');
        }
        s
    }
}

/// The set of `s.push(x)` is the set of `s` with `x`.
pub proof fn lemma_to_set_push<A>(s: Seq<A>, x: A)
    ensures
        s.push(x).to_set() == s.to_set().insert(x),
{
    assert forall|y: A| s.push(x).to_set().contains(y) <==> s.to_set().insert(x).contains(y) by {
        if s.push(x).contains(y) {
            let i = choose|i: int| 0 <= i < s.push(x).len() && s.push(x)[i] == y;
            if i < s.len() {
                assert(s[i] == y);
            }
        }
        if s.contains(y) {
            let i = choose|i: int| 0 <= i < s.len() && s[i] == y;
            assert(s.push(x)[i] == y);
        }
        if y == x {
            assert(s.push(x)[s.len() as int] == x);
        }
    }
    assert(s.push(x).to_set() =~= s.to_set().insert(x));
}

/// `s.push(c)` holds what `s` holds, and `c`.
pub proof fn lemma_push_contains(s: Seq<char>, c: char, x: char)
    ensures
        s.push(c).contains(x) <==> (s.contains(x) || x == c),
{
    if s.push(c).contains(x) {
        let i = choose|i: int| 0 <= i < s.push(c).len() && s.push(c)[i] == x;
        if i < s.len() {
            assert(s[i] == x);
        }
    }
    if s.contains(x) {
        let i = choose|i: int| 0 <= i < s.len() && s[i] == x;
        assert(s.push(c)[i] == x);
    }
    if x == c {
        assert(s.push(c)[s.len() as int] == x);
    }
}

/// The letters of `v.push(f)` are the letters of `v` and then the letter of `f`.
proof fn lemma_map_push(v: Seq<Flag>, f: Flag)
    ensures
        v.push(f).map_values(|f: Flag| f.code()) == v.map_values(|f: Flag| f.code()).push(
            f.code(),
        ),
{
    assert(v.push(f).map_values(|f: Flag| f.code()) =~= v.map_values(|f: Flag| f.code()).push(
        f.code(),
    ));
}

/// One step of the proof of `lemma_letters`: what `push_if` keeps of the three facts.
proof fn lemma_push_if(s: Seq<char>, present: bool, c: char, bound: char)
    requires
        strictly_sorted(s),
        forall|i: int| 0 <= i < s.len() ==> (s[i] as int) < (c as int),
        (c as int) < (bound as int),
    ensures
        strictly_sorted(push_if(s, present, c)),
        forall|i: int|
            0 <= i < push_if(s, present, c).len() ==> (#[trigger] push_if(s, present, c)[i] as int)
                < (bound as int),
        forall|x: char| #[trigger]
            push_if(s, present, c).contains(x) <==> (s.contains(x) || (present && x == c)),
{
    assert forall|x: char| #[trigger]
        push_if(s, present, c).contains(x) <==> (s.contains(x) || (present && x == c)) by {
        lemma_push_contains(s, c, x);
    }
}

/// The letters of a set are in strict order, each is the letter of a flag, and the flags whose
/// letters occur among them are the flags of the set.
pub proof fn lemma_letters(flags: FlagSet)
    ensures
        strictly_sorted(flags.letters()),
        flags_of(flags.letters()) == flags@,
        forall|i: int| 0 <= i < flags.letters().len() ==> is_code(#[trigger] flags.letters()[i]),
{
    let s0 = Seq::<char>::empty();
    let s1 = push_if(s0, flags.draft, 'D');
    let s2 = push_if(s1, flags.flagged, 'F');
    let s3 = push_if(s2, flags.passed, 'P');
    let s4 = push_if(s3, flags.replied, 'R');
    let s5 = push_if(s4, flags.seen, 'S');
    let s6 = push_if(s5, flags.trashed, 'T');
    lemma_push_if(s0, flags.draft, 'D', 'F');
    lemma_push_if(s1, flags.flagged, 'F', 'P');
    lemma_push_if(s2, flags.passed, 'P', 'R');
    lemma_push_if(s3, flags.replied, 'R', 'S');
    lemma_push_if(s4, flags.seen, 'S', 'T');
    lemma_push_if(s5, flags.trashed, 'T', 'U');
    assert(s6 == flags.letters());
    assert forall|f: Flag| flags@.contains(f) <==> s6.contains(f.code()) by {
        assert(!s0.contains(f.code()));
    }
    assert(flags_of(s6) =~= flags@);
    assert forall|i: int| 0 <= i < s6.len() implies is_code(#[trigger] s6[i]) by {
        let x = s6[i];
        assert(s6.contains(x));
        assert(!s0.contains(x));
    }
}

/// No letter of a set is a `/`, a comma, a dot or a digit.
pub proof fn lemma_digitless(flags: FlagSet)
    ensures
        forall|i: int|
            0 <= i < flags.letters().len() ==> {
                let c = #[trigger] flags.letters()[i];
                c != '/' && c != ',' && c != '.' && c != '2'
            },
{
    lemma_letters(flags);
}

/// `from_set` holds exactly the flags that it was given, and gives a value back from its view.
pub proof fn lemma_from_set(s: Set<Flag>, a: FlagSet)
    ensures
        FlagSet::from_set(s)@ == s,
        FlagSet::from_set(a@) == a,
{
    assert forall|f: Flag| FlagSet::from_set(s)@.contains(f) == s.contains(f) by {
        assert(FlagSet::from_set(s)@.contains(f) == FlagSet::from_set(s).holds(f));
    }
    assert(FlagSet::from_set(s)@ =~= s);
    assert(a@.contains(Flag::Passed) == a.holds(Flag::Passed));
    assert(a@.contains(Flag::Replied) == a.holds(Flag::Replied));
    assert(a@.contains(Flag::Seen) == a.holds(Flag::Seen));
    assert(a@.contains(Flag::Trashed) == a.holds(Flag::Trashed));
    assert(a@.contains(Flag::Draft) == a.holds(Flag::Draft));
    assert(a@.contains(Flag::Flagged) == a.holds(Flag::Flagged));
}

/// Two sets of the same flags are the same value, so the order in which flags were put in
/// leaves no trace in the letters.
pub proof fn lemma_canonical(a: FlagSet, b: FlagSet)
    requires
        a@ == b@,
    ensures
        a == b,
        a.letters() == b.letters(),
{
    assert(a.passed == b.passed) by {
        assert(a@.contains(Flag::Passed) == a.holds(Flag::Passed));
        assert(b@.contains(Flag::Passed) == b.holds(Flag::Passed));
    }
    assert(a.replied == b.replied) by {
        assert(a@.contains(Flag::Replied) == a.holds(Flag::Replied));
        assert(b@.contains(Flag::Replied) == b.holds(Flag::Replied));
    }
    assert(a.seen == b.seen) by {
        assert(a@.contains(Flag::Seen) == a.holds(Flag::Seen));
        assert(b@.contains(Flag::Seen) == b.holds(Flag::Seen));
    }
    assert(a.trashed == b.trashed) by {
        assert(a@.contains(Flag::Trashed) == a.holds(Flag::Trashed));
        assert(b@.contains(Flag::Trashed) == b.holds(Flag::Trashed));
    }
    assert(a.draft == b.draft) by {
        assert(a@.contains(Flag::Draft) == a.holds(Flag::Draft));
        assert(b@.contains(Flag::Draft) == b.holds(Flag::Draft));
    }
    assert(a.flagged == b.flagged) by {
        assert(a@.contains(Flag::Flagged) == a.holds(Flag::Flagged));
        assert(b@.contains(Flag::Flagged) == b.holds(Flag::Flagged));
    }
}

} // verus!
