//! Where the lines of a text begin.
//!
//! A line terminator is `\n`, `\r\n` (one terminator) or a `\r` that no `\n`
//! follows. The first line starts at offset 0 and every terminator starts a
//! new line right behind it, so a text has one line more than it has
//! terminators.

use crate::encoding::{lemma_boundary_around_ascii, lemma_boundary_in_part};
use crate::error::EditError;
use vstd::prelude::*;
use vstd::utf8::*;

verus! {

/// The line feed byte, `\n`.
pub const LF: u8 = 0x0A;

/// The carriage return byte, `\r`.
pub const CR: u8 = 0x0D;

/// True when `bytes` is one line terminator: `\n`, `\r` or `\r\n`.
pub open spec fn is_terminator(bytes: Seq<u8>) -> bool {
    bytes == seq![LF] || bytes == seq![CR] || bytes == seq![CR, LF]
}

/// True when a line terminator ends just before offset `p` of `bytes`: the
/// byte before `p` is a `\n`, or it is a `\r` and the byte at `p` is no `\n`.
pub open spec fn terminator_ends_at(bytes: Seq<u8>, p: int) -> bool {
    &&& 0 < p <= bytes.len()
    &&& (bytes[p - 1] == LF || (bytes[p - 1] == CR && !(p < bytes.len() && bytes[p] == LF)))
}

/// The line starts of `bytes` that are at most `n`, in increasing order:
/// offset 0 and every offset up to `n` at which a terminator ends.
pub open spec fn line_starts_upto(bytes: Seq<u8>, n: int) -> Seq<int>
    decreases n,
{
    if n <= 0 {
        seq![0int]
    } else if terminator_ends_at(bytes, n) {
        line_starts_upto(bytes, n - 1).push(n)
    } else {
        line_starts_upto(bytes, n - 1)
    }
}

/// The offsets at which the lines of `bytes` start, in increasing order.
pub open spec fn line_starts(bytes: Seq<u8>) -> Seq<int> {
    line_starts_upto(bytes, bytes.len() as int)
}

/// The number of line terminators in `bytes`, read from the front: `\r\n`
/// counts once, and so does a `\n` or a `\r` on its own.
pub open spec fn terminator_count(bytes: Seq<u8>) -> nat
    decreases bytes.len(),
{
    if bytes.len() == 0 {
        0
    } else if bytes[0] == CR && bytes.len() >= 2 && bytes[1] == LF {
        1 + terminator_count(bytes.skip(2))
    } else if bytes[0] == CR || bytes[0] == LF {
        1 + terminator_count(bytes.skip(1))
    } else {
        terminator_count(bytes.skip(1))
    }
}

/// The byte range `(start, end)` of line `line_no`: from its start to the
/// start of the next line, or to the end of the text for the last line. The
/// range includes the line's terminator.
pub open spec fn line_span(bytes: Seq<u8>, line_no: int) -> (int, int) {
    let starts = line_starts(bytes);
    (
        starts[line_no],
        if line_no + 1 < starts.len() {
            starts[line_no + 1]
        } else {
            bytes.len() as int
        },
    )
}

/// `line` without a trailing `\n`, and then without a trailing `\r`.
pub open spec fn without_terminator(line: Seq<u8>) -> Seq<u8> {
    let cut = if line.len() > 0 && line.last() == LF {
        line.drop_last()
    } else {
        line
    };
    if cut.len() > 0 && cut.last() == CR {
        cut.drop_last()
    } else {
        cut
    }
}

/// The text of line `line_no`: the bytes of its span without the terminator.
pub open spec fn line_text(bytes: Seq<u8>, line_no: int) -> Seq<u8> {
    let (start, end) = line_span(bytes, line_no);
    without_terminator(bytes.subrange(start, end))
}

/// The shape of the line starts up to `n`: they begin with 0, increase
/// strictly, stay within `0..=n`, and hold exactly 0 and the offsets up to
/// `n` at which a terminator ends.
pub proof fn lemma_line_starts_upto(bytes: Seq<u8>, n: int)
    requires
        0 <= n <= bytes.len(),
    ensures
        line_starts_upto(bytes, n).len() >= 1,
        line_starts_upto(bytes, n)[0] == 0,
        forall|i: int|
            0 <= i < line_starts_upto(bytes, n).len() ==> 0 <= #[trigger] line_starts_upto(
                bytes,
                n,
            )[i] <= n,
        forall|i: int, j: int|
            0 <= i < j < line_starts_upto(bytes, n).len() ==> #[trigger] line_starts_upto(
                bytes,
                n,
            )[i] < #[trigger] line_starts_upto(bytes, n)[j],
        forall|p: int|
            #[trigger] line_starts_upto(bytes, n).contains(p) <==> (p == 0 || (p <= n
                && terminator_ends_at(bytes, p))),
    decreases n,
{
    let cur = line_starts_upto(bytes, n);
    if n == 0 {
        assert forall|p: int| #[trigger] cur.contains(p) <==> (p == 0 || (p <= n
            && terminator_ends_at(bytes, p))) by {
            if p == 0 {
                assert(cur[0] == p);
            }
        }
    } else {
        lemma_line_starts_upto(bytes, n - 1);
        let prev = line_starts_upto(bytes, n - 1);
        if terminator_ends_at(bytes, n) {
            assert forall|p: int| #[trigger] cur.contains(p) <==> (p == 0 || (p <= n
                && terminator_ends_at(bytes, p))) by {
                if p == n {
                    assert(cur[prev.len() as int] == p);
                } else if prev.contains(p) {
                    let i = choose|i: int| 0 <= i < prev.len() && prev[i] == p;
                    assert(cur[i] == p);
                }
            }
        }
    }
}

/// The line starts of a text begin with 0, increase strictly, stay within
/// the text, and are exactly 0 and the offsets at which a terminator ends.
pub proof fn lemma_line_starts(bytes: Seq<u8>)
    ensures
        line_starts(bytes).len() >= 1,
        line_starts(bytes)[0] == 0,
        forall|i: int|
            0 <= i < line_starts(bytes).len() ==> 0 <= #[trigger] line_starts(bytes)[i]
                <= bytes.len(),
        forall|i: int, j: int|
            0 <= i < j < line_starts(bytes).len() ==> #[trigger] line_starts(bytes)[i]
                < #[trigger] line_starts(bytes)[j],
        forall|p: int|
            #[trigger] line_starts(bytes).contains(p) <==> (p == 0 || terminator_ends_at(
                bytes,
                p,
            )),
{
    lemma_line_starts_upto(bytes, bytes.len() as int);
}

/// The lines counted from offset `k` on: the text has as many line starts
/// beyond `k` as the rest of the text from `k` has terminators.
proof fn lemma_terminators_from(bytes: Seq<u8>, k: int)
    requires
        0 <= k <= bytes.len(),
    ensures
        line_starts(bytes).len() == line_starts_upto(bytes, k).len() + terminator_count(
            bytes.skip(k),
        ),
    decreases bytes.len() - k,
{
    let rest = bytes.skip(k);
    if k < bytes.len() {
        if bytes[k] == CR && k + 1 < bytes.len() && bytes[k + 1] == LF {
            assert(rest.skip(2) =~= bytes.skip(k + 2));
            assert(line_starts_upto(bytes, k + 1) == line_starts_upto(bytes, k));
            lemma_terminators_from(bytes, k + 2);
        } else {
            assert(rest.skip(1) =~= bytes.skip(k + 1));
            lemma_terminators_from(bytes, k + 1);
        }
    }
}

/// A text has one line more than it has line terminators.
pub proof fn lemma_line_count_is_terminators_plus_one(bytes: Seq<u8>)
    ensures
        line_starts(bytes).len() == 1 + terminator_count(bytes),
{
    lemma_terminators_from(bytes, 0);
    assert(bytes.skip(0) =~= bytes);
}

/// Every line start of valid UTF-8 text is a character boundary, and so is
/// the end of every line's span.
pub proof fn lemma_line_span_on_boundaries(bytes: Seq<u8>, line_no: int)
    requires
        valid_utf8(bytes),
        0 <= line_no < line_starts(bytes).len(),
    ensures
        0 <= line_span(bytes, line_no).0 <= line_span(bytes, line_no).1 <= bytes.len(),
        is_char_boundary(bytes, line_span(bytes, line_no).0),
        is_char_boundary(bytes, line_span(bytes, line_no).1),
{
    lemma_line_starts(bytes);
    let starts = line_starts(bytes);
    let (start, end) = line_span(bytes, line_no);
    assert(starts.contains(starts[line_no]));
    if start > 0 {
        lemma_boundary_around_ascii(bytes, start - 1);
    }
    if line_no + 1 < starts.len() {
        assert(starts.contains(starts[line_no + 1]));
        lemma_boundary_around_ascii(bytes, end - 1);
    } else {
        is_char_boundary_start_end_of_seq(bytes);
    }
}

/// No terminator ends strictly inside the span of a line.
proof fn lemma_no_terminator_inside(bytes: Seq<u8>, line_no: int, p: int)
    requires
        0 <= line_no < line_starts(bytes).len(),
        line_span(bytes, line_no).0 < p,
        p < line_span(bytes, line_no).1 || (p == line_span(bytes, line_no).1 && line_no + 1
            == line_starts(bytes).len()),
    ensures
        !terminator_ends_at(bytes, p),
{
    lemma_line_starts(bytes);
    let starts = line_starts(bytes);
    if terminator_ends_at(bytes, p) {
        assert(starts.contains(p));
    }
}

/// Each line is one logical line: its span is its text followed by its
/// terminator, the text holds neither `\n` nor `\r`, and only the last line
/// has no terminator.
pub proof fn lemma_line_is_text_and_terminator(bytes: Seq<u8>, line_no: int)
    requires
        0 <= line_no < line_starts(bytes).len(),
    ensures
        ({
            let (start, end) = line_span(bytes, line_no);
            let span = bytes.subrange(start, end);
            let text = line_text(bytes, line_no);
            let rest = span.subrange(text.len() as int, span.len() as int);
            &&& 0 <= start <= end <= bytes.len()
            &&& text.len() <= span.len()
            &&& text == span.subrange(0, text.len() as int)
            &&& forall|i: int| 0 <= i < text.len() ==> text[i] != LF && text[i] != CR
            &&& if line_no + 1 < line_starts(bytes).len() {
                is_terminator(rest)
            } else {
                rest.len() == 0
            }
        }),
{
    lemma_line_starts(bytes);
    let starts = line_starts(bytes);
    let (start, end) = line_span(bytes, line_no);
    let span = bytes.subrange(start, end);
    let text = line_text(bytes, line_no);
    let rest = span.subrange(text.len() as int, span.len() as int);
    let last_line = line_no + 1 == starts.len();
    if !last_line {
        assert(starts.contains(starts[line_no + 1]));
    } else if start < end {
        lemma_no_terminator_inside(bytes, line_no, end);
    }
    if start < end - 1 {
        lemma_no_terminator_inside(bytes, line_no, end - 1);
    }
    assert forall|i: int| 0 <= i < text.len() implies text[i] != LF && text[i] != CR by {
        let q = start + i;
        lemma_no_terminator_inside(bytes, line_no, q + 1);
        if bytes[q] == CR && q + 2 <= end {
            if q + 2 < end || last_line {
                lemma_no_terminator_inside(bytes, line_no, q + 2);
            }
        }
    }
    if !last_line {
        if rest.len() == 1 {
            assert(rest =~= seq![rest[0]]);
        } else {
            assert(rest =~= seq![CR, LF]);
        }
    }
}

/// The index of a text's lines: the offset at which each line starts, and
/// the length of the text, which ends the last line.
pub struct LineIndex {
    starts: Vec<usize>,
    text_len: usize,
}

impl View for LineIndex {
    type V = Seq<int>;

    /// The recorded line starts, in order.
    closed spec fn view(&self) -> Seq<int> {
        self.starts@.map_values(|s: usize| s as int)
    }
}

impl LineIndex {
    /// The length of the text that the index was built for.
    pub closed spec fn text_len(&self) -> int {
        self.text_len as int
    }

    /// True when this is the index of `bytes`.
    pub open spec fn indexes(&self, bytes: Seq<u8>) -> bool {
        &&& self@ == line_starts(bytes)
        &&& self.text_len() == bytes.len()
    }

    /// The byte range that the index gives to line `line_no`.
    pub open spec fn span(&self, line_no: int) -> (int, int) {
        (
            self@[line_no],
            if line_no + 1 < self@.len() {
                self@[line_no + 1]
            } else {
                self.text_len()
            },
        )
    }

    /// The index of the empty text: one line, which starts at 0.
    pub fn new() -> (index: Self)
        ensures
            index.indexes(Seq::<u8>::empty()),
            index@ == seq![0int],
    {
        let mut starts: Vec<usize> = Vec::new();
        starts.push(0);
        let index = LineIndex { starts, text_len: 0 };
        index
    }

    /// Scans `content` once and records where its lines start. What the
    /// index held before is dropped.
    pub fn rebuild(&mut self, content: &str)
        ensures
            final(self).indexes(encode_utf8(content@)),
    {
        let bytes = content.as_bytes();
        let n: usize = bytes.len();
        self.text_len = n;
        self.starts.clear();
        self.starts.push(0);
        let mut i: usize = 0;
        while i < n
            invariant
                i <= n,
                n == bytes@.len(),
                self.text_len == n,
                self@ == line_starts_upto(bytes@, i as int),
            decreases n - i,
        {
            let b: u8 = bytes[i];
            let ghost before = self@;
            if b == LF || (b == CR && !(i + 1 < n && bytes[i + 1] == LF)) {
                self.starts.push(i + 1);
            }
            i += 1;
        }
    }

    /// The number of lines.
    pub fn line_count(&self) -> (count: usize)
        ensures
            count == self@.len(),
    {
        self.starts.len()
    }

    /// The byte range of line `line_no`, terminator included, or
    /// `OutOfRange` when the text has no such line.
    pub fn line_span(&self, line_no: usize) -> (r: Result<(usize, usize), EditError>)
        ensures
            match r {
                Ok((start, end)) => line_no < self@.len() && (start as int, end as int)
                    == self.span(line_no as int),
                Err(e) => line_no >= self@.len() && e == EditError::OutOfRange,
            },
    {
        let count = self.starts.len();
        if line_no >= count {
            return Err(EditError::OutOfRange);
        }
        let start = self.starts[line_no];
        let end = if line_no + 1 < count {
            self.starts[line_no + 1]
        } else {
            self.text_len
        };
        Ok((start, end))
    }

    /// The text of line `line_no` of `content`, without its terminator, or
    /// `OutOfRange` when the text has no such line.
    pub fn line_text<'a>(&self, content: &'a str, line_no: usize) -> (r: Result<
        &'a str,
        EditError,
    >)
        requires
            self.indexes(encode_utf8(content@)),
        ensures
            match r {
                Ok(text) => line_no < self@.len() && encode_utf8(text@) == line_text(
                    encode_utf8(content@),
                    line_no as int,
                ),
                Err(e) => line_no >= self@.len() && e == EditError::OutOfRange,
            },
    {
        let (start, end) = match self.line_span(line_no) {
            Ok(span) => span,
            Err(e) => {
                return Err(e);
            },
        };
        let ghost bytes = encode_utf8(content@);
        proof {
            encode_utf8_valid_utf8(content@);
            lemma_line_span_on_boundaries(bytes, line_no as int);
            lemma_boundary_in_part(bytes, 0, end as int, start as int);
            assert(bytes.subrange(0, end as int).subrange(start as int, end as int)
                =~= bytes.subrange(start as int, end as int));
        }
        let (head, _) = content.split_at(end);
        let (_, line) = head.split_at(start);
        Ok(trim_terminator(line))
    }
}

/// `line` without a trailing `\n`, and then without a trailing `\r`.
pub fn trim_terminator(line: &str) -> (text: &str)
    ensures
        encode_utf8(text@) == without_terminator(encode_utf8(line@)),
{
    let cut = trim_last(line, LF);
    trim_last(cut, CR)
}

/// `line` without its last byte if that byte is `last`, which must be ASCII.
fn trim_last(line: &str, last: u8) -> (text: &str)
    requires
        last < 0x80,
    ensures
        encode_utf8(text@) == (if encode_utf8(line@).len() > 0 && encode_utf8(line@).last()
            == last {
            encode_utf8(line@).drop_last()
        } else {
            encode_utf8(line@)
        }),
{
    let bytes = line.as_bytes();
    let n: usize = bytes.len();
    if n > 0 && bytes[n - 1] == last {
        proof {
            encode_utf8_valid_utf8(line@);
            lemma_boundary_around_ascii(bytes@, n - 1);
        }
        line.split_at(n - 1).0
    } else {
        line
    }
}

} // verus!
