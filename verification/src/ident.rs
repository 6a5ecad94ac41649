//! Identifiers of messages.
//!
//! An identifier under which a message is written into `tmp` is made of the
//! time, a counter that goes up with every identifier, and the number of the
//! process: `<seconds>.#<counter in hex>M<nanoseconds>P<process>`. The
//! identifier under which it is delivered adds the device and the inode of the
//! written file and the name of the host: `<temporary>V<device>I<inode>.<host>`.

use crate::error::{Error, ErrorView};
use vstd::prelude::*;
use vstd::string::StringExecFns;

verus! {

/// The character for a digit below sixteen.
pub open spec fn digit_char(d: int) -> char {
    if d == 0 {
        '0'
    } else if d == 1 {
        '1'
    } else if d == 2 {
        '2'
    } else if d == 3 {
        '3'
    } else if d == 4 {
        '4'
    } else if d == 5 {
        '5'
    } else if d == 6 {
        '6'
    } else if d == 7 {
        '7'
    } else if d == 8 {
        '8'
    } else if d == 9 {
        '9'
    } else if d == 10 {
        'a'
    } else if d == 11 {
        'b'
    } else if d == 12 {
        'c'
    } else if d == 13 {
        'd'
    } else if d == 14 {
        'e'
    } else {
        'f'
    }
}

/// The digits of `n` to the base `base`, the most significant first, without leading zeros.
pub open spec fn digits(n: nat, base: nat) -> Seq<char>
    recommends
        2 <= base <= 16,
    decreases n,
{
    if base < 2 || n < base {
        seq![digit_char(n as int)]
    } else {
        proof {
            lemma_quotient_smaller(n, base);
        }
        digits(n / base, base).push(digit_char((n % base) as int))
    }
}

/// Dividing by two or more makes a number that is at least as great as the divisor smaller.
pub proof fn lemma_quotient_smaller(n: nat, base: nat)
    by (nonlinear_arith)
    requires
        2 <= base <= n,
    ensures
        n / base < n,
        n % base < base,
{
}

/// `n` in decimal.
pub open spec fn decimal(n: nat) -> Seq<char> {
    digits(n, 10)
}

/// `n` in hexadecimal, with small letters.
pub open spec fn hex(n: nat) -> Seq<char> {
    digits(n, 16)
}

/// The end of an identifier for `tmp`: the nanoseconds, `P` and the process.
pub open spec fn tmp_id_end(nanos: nat, pid: nat) -> Seq<char> {
    decimal(nanos) + seq!['P'] + decimal(pid)
}

/// The middle and end of an identifier for `tmp`: the counter, `M` and the end.
pub open spec fn tmp_id_tail(nanos: nat, counter: nat, pid: nat) -> Seq<char> {
    hex(counter) + seq!['M'] + tmp_id_end(nanos, pid)
}

/// The identifier under which a message is written into `tmp`: the seconds, `.`, `#`, the
/// counter in hexadecimal, `M`, the nanoseconds, `P` and the process.
pub open spec fn tmp_id(secs: nat, nanos: nat, counter: nat, pid: nat) -> Seq<char> {
    decimal(secs) + seq!['.'] + (seq!['#'] + tmp_id_tail(nanos, counter, pid))
}

/// The identifier under which a message is delivered.
pub open spec fn full_id(tmp: Seq<char>, dev: nat, ino: nat, host: Seq<char>) -> Seq<char> {
    tmp + seq!['V'] + decimal(dev) + seq!['I'] + decimal(ino) + seq!['.'] + host
}

/// The counter after `steps` identifiers, starting from `start`. It starts again at zero after
/// the greatest `usize`.
pub open spec fn counter_after(start: usize, steps: nat) -> nat {
    ((start + steps) % (usize::MAX + 1)) as nat
}

/// The counter after one more identifier.
pub open spec fn next_counter(counter: nat) -> nat {
    if counter == usize::MAX {
        0
    } else {
        counter + 1
    }
}

/// The character for the digit `d`.
fn digit(d: u64) -> (c: char)
    requires
        d < 16,
    ensures
        c == digit_char(d as int),
{
    match d {
        0 => '0',
        1 => '1',
        2 => '2',
        3 => '3',
        4 => '4',
        5 => '5',
        6 => '6',
        7 => '7',
        8 => '8',
        9 => '9',
        10 => 'a',
        11 => 'b',
        12 => 'c',
        13 => 'd',
        14 => 'e',
        _ => 'f',
    }
}

/// Appends the digits of `n` to the base `base` to `out`.
pub fn push_digits(out: &mut String, n: u64, base: u64)
    requires
        2 <= base <= 16,
    ensures
        final(out)@ == old(out)@ + digits(n as nat, base as nat),
    decreases n,
{
    if n < base {
        out.push(digit(n));
        assert(out@ =~= old(out)@ + digits(n as nat, base as nat));
    } else {
        proof {
            lemma_quotient_smaller(n as nat, base as nat);
        }
        push_digits(out, n / base, base);
        out.push(digit(n % base));
        assert(out@ =~= old(out)@ + digits(n as nat, base as nat));
    }
}

/// A reading of the clock: the time since the epoch.
#[derive(Clone, Copy, Debug, PartialEq, Eq, Structural)]
pub struct Timestamp {
    /// The whole seconds.
    pub secs: u64,
    /// The nanoseconds of the second that has begun.
    pub nanos: u32,
}

/// Where identifiers come from: the number of the process, the counter, and the name of the
/// host as it was when the generator was made.
#[derive(Debug, PartialEq, Eq)]
pub struct IdGenerator {
    pid: u32,
    counter: usize,
    host: Result<String, String>,
}

/// What a generator is. Where the host's name is not text, `host` is the error of what could
/// be read of it.
pub struct IdGeneratorView {
    pub pid: nat,
    pub counter: nat,
    pub host: Result<Seq<char>, Seq<char>>,
}

impl View for IdGenerator {
    type V = IdGeneratorView;

    closed spec fn view(&self) -> IdGeneratorView {
        IdGeneratorView {
            pid: self.pid as nat,
            counter: self.counter as nat,
            host: match self.host {
                Ok(name) => Ok(name@),
                Err(raw) => Err(raw@),
            },
        }
    }
}

/// `gethostname::gethostname`, then `OsString::into_string`: the name of the host, or, where
/// that name is not text, what can be read of it. The name depends on the machine, so nothing
/// is claimed of it. The outside function gives up where the system refuses to tell the name.
#[verifier::external_body]
fn host_name() -> (r: Result<String, String>) {
    gethostname::gethostname().into_string().map_err(|raw| raw.to_string_lossy().into_owned())
}

impl IdGeneratorView {
    /// The generator after one more identifier.
    pub open spec fn advanced(self) -> IdGeneratorView {
        IdGeneratorView { counter: next_counter(self.counter), ..self }
    }

    /// The next identifier for `tmp`, made at the time `now`.
    pub open spec fn tmp_id(self, now: Timestamp) -> Seq<char> {
        tmp_id(now.secs as nat, now.nanos as nat, self.counter, self.pid)
    }

    /// The next identifier for a delivered message, made at the time `now` for a file with the
    /// device number `dev` and the inode `ino`; none where the host's name is not text.
    pub open spec fn id(self, now: Timestamp, dev: u64, ino: u64) -> Option<Seq<char>> {
        match self.host {
            Ok(host) => Some(full_id(self.tmp_id(now), dev as nat, ino as nat, host)),
            Err(_) => None,
        }
    }
}

impl IdGenerator {
    /// A generator for the process `pid` on this host, with the counter at zero. The host's
    /// name is asked for once, here.
    pub fn new(pid: u32) -> (r: IdGenerator)
        ensures
            r@.pid == pid,
            r@.counter == 0,
    {
        IdGenerator::with_host(pid, 0, host_name())
    }

    /// A generator for the process `pid` with the counter at `counter`, on the host `host`:
    /// its name, or, where the name is not text, what could be read of it.
    pub fn with_host(pid: u32, counter: usize, host: Result<String, String>) -> (r: IdGenerator)
        ensures
            r@ == (IdGeneratorView {
                pid: pid as nat,
                counter: counter as nat,
                host: match host {
                    Ok(name) => Ok(name@),
                    Err(raw) => Err(raw@),
                },
            }),
    {
        IdGenerator { pid, counter, host }
    }

    /// An identifier for a file in `tmp`, made at the time `now`. The counter goes up by one,
    /// and starts again at zero after the greatest `usize`.
    pub fn generate_tmp_id(&mut self, now: Timestamp) -> (id: String)
        ensures
            id@ == old(self)@.tmp_id(now),
            final(self)@ == old(self)@.advanced(),
    {
        let counter = self.counter;
        self.counter = if counter == usize::MAX {
            0
        } else {
            counter + 1
        };
        let mut id = String::new();
        push_digits(&mut id, now.secs, 10);
        id.push('.');
        id.push('#');
        push_digits(&mut id, counter as u64, 16);
        id.push('M');
        push_digits(&mut id, now.nanos as u64, 10);
        id.push('P');
        push_digits(&mut id, self.pid as u64, 10);
        assert(id@ =~= tmp_id(now.secs as nat, now.nanos as nat, counter as nat, self.pid as nat));
        id
    }

    /// An identifier for a delivered message whose file has the device number `dev` and the
    /// inode `ino`: a fresh identifier as `generate_tmp_id` makes it, `V`, the device, `I`, the
    /// inode, `.` and the name of the host. Fails, and leaves the counter as it is, where the
    /// host's name is not text.
    pub fn generate_id(&mut self, now: Timestamp, dev: u64, ino: u64) -> (r: Result<String, Error>)
        ensures
            match r {
                Ok(id) => old(self)@.id(now, dev, ino) == Some(id@) && final(self)@ == old(
                    self,
                )@.advanced(),
                Err(e) => (old(self)@.host matches Err(raw) && e@ == ErrorView::Utf8Error(raw))
                    && final(self)@ == old(self)@,
            },
    {
        if let Err(raw) = &self.host {
            return Err(Error::Utf8Error(raw.clone()));
        }
        let mut id = self.generate_tmp_id(now);
        let ghost tmp = id@;
        id.push('V');
        push_digits(&mut id, dev, 10);
        id.push('I');
        push_digits(&mut id, ino, 10);
        id.push('.');
        match &self.host {
            Ok(host) => {
                id.append(host.as_str());
                assert(id@ =~= full_id(tmp, dev as nat, ino as nat, host@));
            },
            Err(_) => {},
        }
        Ok(id)
    }
}

/// Whether `c` is a digit of a number written to a base up to sixteen.
pub open spec fn is_digit(c: char) -> bool {
    exists|d: int| 0 <= d < 16 && c == #[trigger] digit_char(d)
}

/// Whether `c` can stand in an identifier for `tmp`: a digit or one of `.`, `#`, `M`, `P`.
pub open spec fn is_id_char(c: char) -> bool {
    is_digit(c) || c == '.' || c == '#' || c == 'M' || c == 'P'
}

/// The digits of a number are digits, and there is at least one; a number that is not below
/// the base has at least two.
pub proof fn lemma_digits(n: nat, base: nat)
    requires
        2 <= base <= 16,
    ensures
        digits(n, base).len() >= 1,
        n >= base ==> digits(n, base).len() >= 2,
        forall|i: int| 0 <= i < digits(n, base).len() ==> is_digit(#[trigger] digits(n, base)[i]),
    decreases n,
{
    if n < base {
        assert(digits(n, base)[0] == digit_char(n as int));
    } else {
        lemma_quotient_smaller(n, base);
        lemma_digits(n / base, base);
        let d = (n % base) as int;
        assert(digits(n, base).last() == digit_char(d));
        assert forall|i: int| 0 <= i < digits(n, base).len() implies is_digit(
            #[trigger] digits(n, base)[i],
        ) by {
            if i < digits(n / base, base).len() {
                assert(digits(n, base)[i] == digits(n / base, base)[i]);
            }
        }
    }
}

/// Two numbers with the same digits are the same number.
pub proof fn lemma_digits_injective(a: nat, b: nat, base: nat)
    requires
        2 <= base <= 16,
        digits(a, base) == digits(b, base),
    ensures
        a == b,
    decreases a,
{
    lemma_digits(a, base);
    lemma_digits(b, base);
    if a < base {
        assert(digits(a, base)[0] == digit_char(a as int));
        assert(digits(b, base)[0] == digit_char(b as int));
    } else {
        lemma_quotient_smaller(a, base);
        lemma_quotient_smaller(b, base);
        let x = digits(a / base, base);
        let y = digits(b / base, base);
        assert(x =~= digits(a, base).drop_last());
        assert(y =~= digits(b, base).drop_last());
        assert(digits(a, base).last() == digit_char((a % base) as int));
        assert(digits(b, base).last() == digit_char((b % base) as int));
        lemma_digits_injective(a / base, b / base, base);
        assert(a == b) by (nonlinear_arith)
            requires
                a / base == b / base,
                a % base == b % base,
                base >= 2,
        {
            assert(a == base * (a / base) + a % base);
            assert(b == base * (b / base) + b % base);
        }
    }
}

/// A text is cut in one way only at the first place of a character: where two texts are
/// equal, and each is a part without `x`, then `x`, then a rest, the parts are equal and the
/// rests are.
pub proof fn lemma_cut(a1: Seq<char>, r1: Seq<char>, a2: Seq<char>, r2: Seq<char>, x: char)
    requires
        !a1.contains(x),
        !a2.contains(x),
        a1 + seq![x] + r1 == a2 + seq![x] + r2,
    ensures
        a1 == a2,
        r1 == r2,
{
    let s1 = a1 + seq![x] + r1;
    let s2 = a2 + seq![x] + r2;
    assert(s1[a1.len() as int] == x);
    assert(s2[a2.len() as int] == x);
    if a1.len() < a2.len() {
        assert(s2[a1.len() as int] == a2[a1.len() as int]);
        assert(a2.contains(x));
    }
    if a2.len() < a1.len() {
        assert(s1[a2.len() as int] == a1[a2.len() as int]);
        assert(a1.contains(x));
    }
    assert(a1 =~= s1.subrange(0, a1.len() as int));
    assert(a2 =~= s2.subrange(0, a2.len() as int));
    assert(r1 =~= s1.subrange(a1.len() as int + 1, s1.len() as int));
    assert(r2 =~= s2.subrange(a2.len() as int + 1, s2.len() as int));
}

/// The digits of a number hold none of the letters that stand between the parts of an
/// identifier.
pub proof fn lemma_digits_hold_no_mark(n: nat, base: nat, x: char)
    requires
        2 <= base <= 16,
        !is_digit(x),
    ensures
        !digits(n, base).contains(x),
{
    lemma_digits(n, base);
}

/// Two identifiers for `tmp` are equal only where the time, the counter and the process are.
pub proof fn lemma_tmp_id_injective(
    secs1: nat,
    nanos1: nat,
    counter1: nat,
    pid1: nat,
    secs2: nat,
    nanos2: nat,
    counter2: nat,
    pid2: nat,
)
    requires
        tmp_id(secs1, nanos1, counter1, pid1) == tmp_id(secs2, nanos2, counter2, pid2),
    ensures
        secs1 == secs2,
        nanos1 == nanos2,
        counter1 == counter2,
        pid1 == pid2,
{
    let u1 = tmp_id_tail(nanos1, counter1, pid1);
    let u2 = tmp_id_tail(nanos2, counter2, pid2);
    let v1 = seq!['#'] + u1;
    let v2 = seq!['#'] + u2;
    lemma_digit_is_no_mark_all();
    assert(decimal(secs1) == decimal(secs2) && v1 == v2) by {
        lemma_digits_hold_no_mark(secs1, 10, '.');
        lemma_digits_hold_no_mark(secs2, 10, '.');
        lemma_cut(decimal(secs1), v1, decimal(secs2), v2, '.');
    }
    lemma_digits_injective(secs1, secs2, 10);
    assert(u1 == u2) by {
        assert(u1 =~= v1.subrange(1, v1.len() as int));
        assert(u2 =~= v2.subrange(1, v2.len() as int));
    }
    lemma_tmp_id_tail_injective(nanos1, counter1, pid1, nanos2, counter2, pid2);
}

/// Two identifiers for `tmp` have the same tail only where the nanoseconds, the counter and
/// the process are the same.
proof fn lemma_tmp_id_tail_injective(
    nanos1: nat,
    counter1: nat,
    pid1: nat,
    nanos2: nat,
    counter2: nat,
    pid2: nat,
)
    requires
        tmp_id_tail(nanos1, counter1, pid1) == tmp_id_tail(nanos2, counter2, pid2),
    ensures
        nanos1 == nanos2,
        counter1 == counter2,
        pid1 == pid2,
{
    let t1 = tmp_id_end(nanos1, pid1);
    let t2 = tmp_id_end(nanos2, pid2);
    lemma_digit_is_no_mark_all();
    assert(hex(counter1) == hex(counter2) && t1 == t2) by {
        lemma_digits_hold_no_mark(counter1, 16, 'M');
        lemma_digits_hold_no_mark(counter2, 16, 'M');
        lemma_cut(hex(counter1), t1, hex(counter2), t2, 'M');
    }
    lemma_digits_injective(counter1, counter2, 16);
    assert(decimal(nanos1) == decimal(nanos2) && decimal(pid1) == decimal(pid2)) by {
        lemma_digits_hold_no_mark(nanos1, 10, 'P');
        lemma_digits_hold_no_mark(nanos2, 10, 'P');
        lemma_cut(decimal(nanos1), decimal(pid1), decimal(nanos2), decimal(pid2), 'P');
    }
    lemma_digits_injective(nanos1, nanos2, 10);
    lemma_digits_injective(pid1, pid2, 10);
}

/// None of the letters that stand between the parts of an identifier, of a path or of a file
/// name is a digit.
pub proof fn lemma_digit_is_no_mark_all()
    ensures
        !is_digit('.'),
        !is_digit('#'),
        !is_digit('M'),
        !is_digit('P'),
        !is_digit('V'),
        !is_digit('I'),
        !is_digit('/'),
        !is_digit(':'),
        !is_digit(';'),
        !is_digit(','),
{
}

/// An identifier for `tmp` holds digits and the four marks `.`, `#`, `M` and `P` only: no `/`,
/// and neither `:` nor `;`.
pub proof fn lemma_tmp_id_chars(secs: nat, nanos: nat, counter: nat, pid: nat)
    ensures
        forall|i: int|
            0 <= i < tmp_id(secs, nanos, counter, pid).len() ==> is_id_char(
                #[trigger] tmp_id(secs, nanos, counter, pid)[i],
            ),
        !tmp_id(secs, nanos, counter, pid).contains('/'),
        !tmp_id(secs, nanos, counter, pid).contains(':'),
        !tmp_id(secs, nanos, counter, pid).contains(';'),
        !tmp_id(secs, nanos, counter, pid).contains('V'),
{
    let id = tmp_id(secs, nanos, counter, pid);
    lemma_digits(secs, 10);
    lemma_digits(counter, 16);
    lemma_digits(nanos, 10);
    lemma_digits(pid, 10);
    let end = tmp_id_end(nanos, pid);
    let tail = tmp_id_tail(nanos, counter, pid);
    assert forall|i: int| 0 <= i < end.len() implies is_id_char(#[trigger] end[i]) by {
        let n = decimal(nanos).len() as int;
        if i < n {
            assert(end[i] == decimal(nanos)[i]);
        } else if i > n {
            assert(end[i] == decimal(pid)[i - n - 1]);
        }
    }
    assert forall|i: int| 0 <= i < tail.len() implies is_id_char(#[trigger] tail[i]) by {
        let n = hex(counter).len() as int;
        if i < n {
            assert(tail[i] == hex(counter)[i]);
        } else if i > n {
            assert(tail[i] == end[i - n - 1]);
        }
    }
    assert forall|i: int| 0 <= i < id.len() implies is_id_char(#[trigger] id[i]) by {
        let n = decimal(secs).len() as int;
        if i < n {
            assert(id[i] == decimal(secs)[i]);
        } else if i > n + 1 {
            assert(id[i] == tail[i - n - 2]);
        }
    }
    lemma_digit_is_no_mark_all();
}

/// Two identifiers for delivered messages that start with different identifiers for `tmp` are
/// different.
pub proof fn lemma_full_id_injective(
    secs1: nat,
    nanos1: nat,
    counter1: nat,
    pid1: nat,
    dev1: nat,
    ino1: nat,
    host1: Seq<char>,
    secs2: nat,
    nanos2: nat,
    counter2: nat,
    pid2: nat,
    dev2: nat,
    ino2: nat,
    host2: Seq<char>,
)
    requires
        full_id(tmp_id(secs1, nanos1, counter1, pid1), dev1, ino1, host1) == full_id(
            tmp_id(secs2, nanos2, counter2, pid2),
            dev2,
            ino2,
            host2,
        ),
    ensures
        secs1 == secs2,
        nanos1 == nanos2,
        counter1 == counter2,
        pid1 == pid2,
{
    let t1 = tmp_id(secs1, nanos1, counter1, pid1);
    let t2 = tmp_id(secs2, nanos2, counter2, pid2);
    let r1 = decimal(dev1) + seq!['I'] + decimal(ino1) + seq!['.'] + host1;
    let r2 = decimal(dev2) + seq!['I'] + decimal(ino2) + seq!['.'] + host2;
    assert(full_id(t1, dev1, ino1, host1) =~= t1 + seq!['V'] + r1);
    assert(full_id(t2, dev2, ino2, host2) =~= t2 + seq!['V'] + r2);
    lemma_tmp_id_chars(secs1, nanos1, counter1, pid1);
    lemma_tmp_id_chars(secs2, nanos2, counter2, pid2);
    lemma_cut(t1, r1, t2, r2, 'V');
    lemma_tmp_id_injective(secs1, nanos1, counter1, pid1, secs2, nanos2, counter2, pid2);
}

/// An identifier for a delivered message holds a comma or a `/` only where the host's name
/// holds one.
pub proof fn lemma_full_id_chars(
    secs: nat,
    nanos: nat,
    counter: nat,
    pid: nat,
    dev: nat,
    ino: nat,
    host: Seq<char>,
    x: char,
)
    requires
        x == ',' || x == '/',
        !host.contains(x),
    ensures
        !full_id(tmp_id(secs, nanos, counter, pid), dev, ino, host).contains(x),
{
    let tmp = tmp_id(secs, nanos, counter, pid);
    let id = full_id(tmp, dev, ino, host);
    lemma_tmp_id_chars(secs, nanos, counter, pid);
    lemma_digits(dev, 10);
    lemma_digits(ino, 10);
    lemma_digit_is_no_mark_all();
    let a = tmp.len() as int;
    let b = a + 1 + decimal(dev).len();
    let c = b + 1 + decimal(ino).len();
    if id.contains(x) {
        let i = choose|i: int| 0 <= i < id.len() && id[i] == x;
        if i < a {
            assert(id[i] == tmp[i]);
            assert(is_id_char(tmp[i]));
        } else if i < a + 1 {
        } else if i < b {
            assert(id[i] == decimal(dev)[i - a - 1]);
        } else if i < b + 1 {
        } else if i < c {
            assert(id[i] == decimal(ino)[i - b - 1]);
        } else if i < c + 1 {
        } else {
            assert(id[i] == host[i - c - 1]);
            assert(host.contains(x));
        }
    }
}

/// The counter differs between two of a generator's identifiers unless as many identifiers lie
/// between them as there are values of `usize`.
pub proof fn lemma_counters_differ(start: usize, i: nat, j: nat)
    requires
        i < j,
        j - i <= usize::MAX,
    ensures
        counter_after(start, i) != counter_after(start, j),
{
    let m = (usize::MAX + 1) as int;
    let a = start + i;
    let b = start + j;
    if a % m == b % m {
        vstd::arithmetic::div_mod::lemma_fundamental_div_mod(a, m);
        vstd::arithmetic::div_mod::lemma_fundamental_div_mod(b, m);
        let d = b / m - a / m;
        assert(b - a == m * d) by (nonlinear_arith)
            requires
                a == m * (a / m) + a % m,
                b == m * (b / m) + b % m,
                a % m == b % m,
                d == b / m - a / m,
        {
        }
        assert(false) by (nonlinear_arith)
            requires
                b - a == m * d,
                0 < b - a < m,
        {
            if d <= 0 {
                assert(m * d <= 0);
            } else {
                assert(m * d >= m);
            }
        }
    }
}

/// Counting `steps` identifiers from `start` is taking the next counter `steps` times.
pub proof fn lemma_counter_after(start: usize, steps: nat)
    ensures
        counter_after(start, 0) == start,
        counter_after(start, steps + 1) == next_counter(counter_after(start, steps)),
        counter_after(start, steps) <= usize::MAX,
{
    let m = (usize::MAX + 1) as int;
    let a = start + steps;
    let x = a % m;
    vstd::arithmetic::div_mod::lemma_small_mod(start as nat, m as nat);
    vstd::arithmetic::div_mod::lemma_small_mod(1, m as nat);
    vstd::arithmetic::div_mod::lemma_add_mod_noop(a, 1, m);
    vstd::arithmetic::div_mod::lemma_mod_bound(a, m);
    if x + 1 < m {
        vstd::arithmetic::div_mod::lemma_small_mod((x + 1) as nat, m as nat);
    } else {
        vstd::arithmetic::div_mod::lemma_mod_self_0(m);
    }
}

/// The identifiers that one generator makes are all different: the one made after `i` others
/// and the one made after `j` others differ, at whatever times they are made, unless as many
/// identifiers lie between them as there are values of `usize`.
pub proof fn lemma_ids_unique(
    start: usize,
    pid: nat,
    i: nat,
    secs_i: nat,
    nanos_i: nat,
    j: nat,
    secs_j: nat,
    nanos_j: nat,
)
    requires
        i < j,
        j - i <= usize::MAX,
    ensures
        tmp_id(secs_i, nanos_i, counter_after(start, i), pid) != tmp_id(
            secs_j,
            nanos_j,
            counter_after(start, j),
            pid,
        ),
{
    lemma_counters_differ(start, i, j);
    if tmp_id(secs_i, nanos_i, counter_after(start, i), pid) == tmp_id(
        secs_j,
        nanos_j,
        counter_after(start, j),
        pid,
    ) {
        lemma_tmp_id_injective(
            secs_i,
            nanos_i,
            counter_after(start, i),
            pid,
            secs_j,
            nanos_j,
            counter_after(start, j),
            pid,
        );
    }
}

/// Two processes never make the same identifier, whatever their clocks and counters say.
pub proof fn lemma_ids_differ_between_processes(
    secs1: nat,
    nanos1: nat,
    counter1: nat,
    pid1: nat,
    secs2: nat,
    nanos2: nat,
    counter2: nat,
    pid2: nat,
)
    requires
        pid1 != pid2,
    ensures
        tmp_id(secs1, nanos1, counter1, pid1) != tmp_id(secs2, nanos2, counter2, pid2),
{
    if tmp_id(secs1, nanos1, counter1, pid1) == tmp_id(secs2, nanos2, counter2, pid2) {
        lemma_tmp_id_injective(secs1, nanos1, counter1, pid1, secs2, nanos2, counter2, pid2);
    }
}

} // verus!
