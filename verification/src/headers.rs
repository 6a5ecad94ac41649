//! The header block of a message: everything up to and including the first
//! blank line.

use vstd::prelude::*;

verus! {

/// The byte that ends a line.
pub const LF: u8 = 10;

/// The byte that may stand before the end of a line.
pub const CR: u8 = 13;

/// Whether a line starts at position `p` of `bytes`: at the start, or behind the end of a line.
pub open spec fn line_starts_at(bytes: Seq<u8>, p: int) -> bool {
    0 <= p < bytes.len() && (p == 0 || bytes[p - 1] == LF)
}

/// The length of the blank line that starts at position `p`: 1 for a line feed alone, 2 for a
/// carriage return and a line feed, 0 where the line at `p` is not blank.
pub open spec fn blank_line_at(bytes: Seq<u8>, p: int) -> int {
    if !line_starts_at(bytes, p) {
        0
    } else if bytes[p] == LF {
        1
    } else if bytes[p] == CR && p + 1 < bytes.len() && bytes[p + 1] == LF {
        2
    } else {
        0
    }
}

/// Where the first blank line at or behind position `p` ends, or the length of `bytes` where
/// no blank line follows.
pub open spec fn headers_end_from(bytes: Seq<u8>, p: int) -> int
    decreases bytes.len() - p,
{
    if p < 0 || p >= bytes.len() {
        bytes.len() as int
    } else if blank_line_at(bytes, p) > 0 {
        p + blank_line_at(bytes, p)
    } else {
        headers_end_from(bytes, p + 1)
    }
}

/// The header block of a message: its bytes up to and including the first blank line, or all
/// of them where it has no blank line.
pub open spec fn headers_of(bytes: Seq<u8>) -> Seq<u8> {
    bytes.take(headers_end_from(bytes, 0))
}

/// The header block ends behind the first blank line: no blank line starts before the one
/// that it ends with, and where it ends with none, the message holds none.
pub proof fn lemma_headers_end(bytes: Seq<u8>, p: int)
    requires
        0 <= p <= bytes.len(),
    ensures
        p <= headers_end_from(bytes, p) <= bytes.len(),
        (exists|q: int| p <= q < bytes.len() && blank_line_at(bytes, q) > 0) ==> (exists|q: int|
            p <= q < bytes.len() && blank_line_at(bytes, q) > 0 && headers_end_from(bytes, p) == q
                + blank_line_at(bytes, q) && forall|r: int|
                p <= r < q ==> blank_line_at(bytes, r) == 0),
        (forall|q: int| p <= q < bytes.len() ==> blank_line_at(bytes, q) == 0)
            ==> headers_end_from(bytes, p) == bytes.len(),
    decreases bytes.len() - p,
{
    if p < bytes.len() {
        if blank_line_at(bytes, p) > 0 {
            assert(blank_line_at(bytes, p) > 0 && headers_end_from(bytes, p) == p + blank_line_at(
                bytes,
                p,
            ));
        } else {
            lemma_headers_end(bytes, p + 1);
            if exists|q: int| p <= q < bytes.len() && blank_line_at(bytes, q) > 0 {
                let q0 = choose|q: int| p <= q < bytes.len() && blank_line_at(bytes, q) > 0;
                assert(p + 1 <= q0);
                let q = choose|q: int|
                    p + 1 <= q < bytes.len() && blank_line_at(bytes, q) > 0 && headers_end_from(
                        bytes,
                        p + 1,
                    ) == q + blank_line_at(bytes, q) && forall|r: int|
                        p + 1 <= r < q ==> blank_line_at(bytes, r) == 0;
                assert(forall|r: int| p <= r < q ==> blank_line_at(bytes, r) == 0);
            }
        }
    }
}

/// The header block of a message.
pub fn header_block(contents: &[u8]) -> (headers: Vec<u8>)
    ensures
        headers@ == headers_of(contents@),
{
    let mut headers: Vec<u8> = Vec::new();
    let mut i: usize = 0;
    assert(contents@.take(0) =~= Seq::<u8>::empty());
    while i < contents.len()
        invariant
            i <= contents.len(),
            headers@ == contents@.take(i as int),
            headers_end_from(contents@, 0) == headers_end_from(contents@, i as int),
        decreases contents.len() - i,
    {
        let starts = i == 0 || contents[i - 1] == LF;
        let byte = contents[i];
        if starts && byte == LF {
            headers.push(byte);
            assert(headers@ =~= contents@.take(i + 1));
            return headers;
        }
        if starts && byte == CR && i + 1 < contents.len() && contents[i + 1] == LF {
            headers.push(byte);
            headers.push(contents[i + 1]);
            assert(headers@ =~= contents@.take(i + 2));
            return headers;
        }
        headers.push(byte);
        assert(headers@ =~= contents@.take(i + 1));
        i += 1;
    }
    assert(contents@.take(contents.len() as int) =~= contents@);
    headers
}

/// The header block of a message that is read line by line.
#[derive(Debug, PartialEq, Eq)]
pub struct HeaderReader {
    headers: Vec<u8>,
    done: bool,
}

/// What a reader is: what it has gathered, and whether it wants no more.
pub struct HeaderReaderView {
    pub headers: Seq<u8>,
    pub done: bool,
}

impl View for HeaderReader {
    type V = HeaderReaderView;

    closed spec fn view(&self) -> HeaderReaderView {
        HeaderReaderView { headers: self.headers@, done: self.done }
    }
}

/// Whether a line as it was read ends the header block: it is empty, because the message has
/// ended, or it is blank.
pub open spec fn ends_headers(line: Seq<u8>) -> bool {
    line.len() == 0 || line == seq![LF] || line == seq![CR, LF]
}

/// The length of the first line of `bytes`: up to and including the first line feed, or all
/// of `bytes` where they hold none.
pub open spec fn first_line_len(bytes: Seq<u8>) -> int
    decreases bytes.len(),
{
    if bytes.len() == 0 {
        0
    } else if bytes[0] == LF {
        1
    } else {
        1 + first_line_len(bytes.drop_first())
    }
}

impl HeaderReaderView {
    /// A reader that has read nothing.
    pub open spec fn fresh() -> HeaderReaderView {
        HeaderReaderView { headers: Seq::empty(), done: false }
    }

    /// The reader after it was given `line`.
    pub open spec fn after(self, line: Seq<u8>) -> HeaderReaderView {
        if self.done {
            self
        } else {
            HeaderReaderView { headers: self.headers + line, done: ends_headers(line) }
        }
    }

    /// The reader after it was given the lines of `bytes` one by one, and then, if it still
    /// wanted more, the empty line that says that the message has ended.
    pub open spec fn after_all(self, bytes: Seq<u8>) -> HeaderReaderView
        decreases bytes.len(),
    {
        let n = first_line_len(bytes);
        if self.done {
            self
        } else if bytes.len() == 0 || n <= 0 || n > bytes.len() {
            self.after(Seq::empty())
        } else {
            self.after(bytes.take(n)).after_all(bytes.skip(n))
        }
    }
}

/// The first line of a message that is not empty is not empty, holds no line feed but at its
/// end, and ends with a line feed unless the message holds none.
pub proof fn lemma_first_line(bytes: Seq<u8>)
    requires
        bytes.len() > 0,
    ensures
        1 <= first_line_len(bytes) <= bytes.len(),
        forall|j: int| 0 <= j < first_line_len(bytes) - 1 ==> bytes[j] != LF,
        bytes[first_line_len(bytes) - 1] == LF || first_line_len(bytes) == bytes.len(),
    decreases bytes.len(),
{
    if bytes[0] != LF {
        let rest = bytes.drop_first();
        if rest.len() > 0 {
            lemma_first_line(rest);
            assert forall|j: int| 0 <= j < first_line_len(bytes) - 1 implies bytes[j] != LF by {
                if j > 0 {
                    assert(bytes[j] == rest[j - 1]);
                }
            }
            assert(bytes[first_line_len(bytes) - 1] == rest[first_line_len(rest) - 1]);
        }
    }
}

/// Behind the start of a line, the header block ends where it ends in the rest of the message.
proof fn lemma_headers_end_shift(bytes: Seq<u8>, p: int, q: int)
    requires
        0 <= p <= q <= bytes.len(),
        p == 0 || p == bytes.len() || bytes[p - 1] == LF,
    ensures
        headers_end_from(bytes, q) == p + headers_end_from(bytes.skip(p), q - p),
    decreases bytes.len() - q,
{
    let rest = bytes.skip(p);
    if q < bytes.len() {
        assert(rest[q - p] == bytes[q]);
        if q > p {
            assert(rest[q - p - 1] == bytes[q - 1]);
        }
        if q + 1 < bytes.len() {
            assert(rest[q - p + 1] == bytes[q + 1]);
        }
        assert(blank_line_at(bytes, q) == blank_line_at(rest, q - p));
        if blank_line_at(bytes, q) == 0 {
            lemma_headers_end_shift(bytes, p, q + 1);
        }
    }
}

/// No blank line starts within a line that is not blank.
proof fn lemma_headers_end_skips_line(bytes: Seq<u8>, q: int)
    requires
        bytes.len() > 0,
        !ends_headers(bytes.take(first_line_len(bytes))),
        0 <= q <= first_line_len(bytes),
    ensures
        headers_end_from(bytes, q) == headers_end_from(bytes, first_line_len(bytes)),
    decreases first_line_len(bytes) - q,
{
    let n = first_line_len(bytes);
    lemma_first_line(bytes);
    if q < n {
        let line = bytes.take(n);
        if q == 0 {
            if bytes[0] == LF {
                assert(line =~= seq![LF]);
            }
            if bytes[0] == CR && 1 < bytes.len() && bytes[1] == LF {
                assert(n == 2) by {
                    if n > 2 {
                        assert(bytes[1] != LF);
                    }
                }
                assert(line =~= seq![CR, LF]);
            }
        }
        assert(blank_line_at(bytes, q) == 0);
        lemma_headers_end_skips_line(bytes, q + 1);
    }
}

/// Reading line by line gathers the header block: a reader that is given the lines of a
/// message one by one, until it wants no more or the message has ended, has gathered what
/// `headers_of` says, after whatever it had gathered before.
pub proof fn lemma_read_by_lines(reader: HeaderReaderView, bytes: Seq<u8>)
    requires
        !reader.done,
    ensures
        reader.after_all(bytes) == (HeaderReaderView {
            headers: reader.headers + headers_of(bytes),
            done: true,
        }),
    decreases bytes.len(),
{
    let n = first_line_len(bytes);
    if bytes.len() == 0 {
        assert(headers_of(bytes) =~= Seq::<u8>::empty());
        assert(reader.headers + Seq::<u8>::empty() =~= reader.headers);
    } else {
        lemma_first_line(bytes);
        let line = bytes.take(n);
        let rest = bytes.skip(n);
        if ends_headers(line) {
            assert(line.len() == n);
            if line == seq![LF] {
                assert(seq![LF].len() == 1 && seq![LF][0] == LF);
                assert(line[0] == bytes[0]);
            } else {
                assert(seq![CR, LF].len() == 2 && seq![CR, LF][0] == CR && seq![CR, LF][1] == LF);
                assert(line[0] == bytes[0] && line[1] == bytes[1]);
            }
            assert(blank_line_at(bytes, 0) == n);
            assert(reader.after(line).after_all(rest) == reader.after(line));
        } else {
            lemma_headers_end_skips_line(bytes, 0);
            lemma_headers_end_shift(bytes, n, n);
            let next = reader.after(line);
            lemma_read_by_lines(next, rest);
            lemma_headers_end(rest, 0);
            let end = headers_end_from(rest, 0);
            assert(headers_of(bytes) =~= line + rest.take(end));
            assert(next.headers + headers_of(rest) =~= reader.headers + headers_of(bytes));
        }
    }
}

impl HeaderReader {
    /// A reader that has read nothing.
    pub fn new() -> (r: HeaderReader)
        ensures
            r@ == HeaderReaderView::fresh(),
    {
        HeaderReader { headers: Vec::new(), done: false }
    }

    /// Whether the reader wants no more lines.
    pub fn is_done(&self) -> (r: bool)
        ensures
            r == self@.done,
    {
        self.done
    }

    /// Takes the next line of the message: its bytes up to and including the next line feed,
    /// or up to its end; no bytes where the message has ended. Returns whether the reader
    /// wants another line. A reader that wants no more takes no more.
    pub fn feed(&mut self, line: &[u8]) -> (more: bool)
        ensures
            final(self)@ == old(self)@.after(line@),
            more == !final(self)@.done,
    {
        if self.done {
            return false;
        }
        let n = line.len();
        let blank = n == 0 || (n == 1 && line[0] == LF) || (n == 2 && line[0] == CR && line[1]
            == LF);
        proof {
            if n == 1 && line[0] == LF {
                assert(line@ =~= seq![LF]);
            }
            if n == 2 && line[0] == CR && line[1] == LF {
                assert(line@ =~= seq![CR, LF]);
            }
            if line@ == seq![LF] {
                assert(seq![LF].len() == 1 && seq![LF][0] == LF);
            }
            if line@ == seq![CR, LF] {
                assert(seq![CR, LF].len() == 2 && seq![CR, LF][0] == CR && seq![CR, LF][1] == LF);
            }
        }
        let mut i: usize = 0;
        while i < n
            invariant
                i <= n,
                n == line.len(),
                self.headers@ == old(self).headers@ + line@.take(i as int),
                self.done == old(self).done,
            decreases n - i,
        {
            self.headers.push(line[i]);
            i += 1;
            assert(line@.take(i as int) =~= line@.take(i - 1).push(line@[i - 1]));
            assert(self.headers@ =~= old(self).headers@ + line@.take(i as int));
        }
        assert(line@.take(n as int) =~= line@);
        self.done = blank;
        !blank
    }

    /// What the reader has gathered.
    pub fn into_headers(self) -> (headers: Vec<u8>)
        ensures
            headers@ == self@.headers,
    {
        self.headers
    }
}

} // verus!
