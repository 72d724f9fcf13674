//! Byte-level cursor over a manifest and the character classes it scans by.
use vstd::prelude::*;
use crate::error::Error;

verus! {

/// ASCII whitespace as `u8::is_ascii_whitespace` defines it:
/// space, tab, line feed, form feed and carriage return.
pub open spec fn is_ws(b: u8) -> bool {
    b == 0x20u8 || b == 0x09u8 || b == 0x0au8 || b == 0x0cu8 || b == 0x0du8
}

/// ASCII letters, as `u8::is_ascii_alphabetic` defines them.
pub open spec fn is_alpha(b: u8) -> bool {
    (0x41u8 <= b && b <= 0x5au8) || (0x61u8 <= b && b <= 0x7au8)
}

/// The byte classes that the scanner consumes runs of.
#[derive(Clone, Copy, Debug, PartialEq, Eq)]
pub enum BytePred {
    /// Any ASCII whitespace.
    Whitespace,
    /// ASCII whitespace other than a line feed.
    InlineWhitespace,
    /// ASCII letters.
    Alphabetic,
    /// Every byte but the given one.
    Not(u8),
    /// A bare list word: neither whitespace nor a closing parenthesis.
    ListWord,
}

impl BytePred {
    pub open spec fn holds(self, b: u8) -> bool {
        match self {
            BytePred::Whitespace => is_ws(b),
            BytePred::InlineWhitespace => is_ws(b) && b != 0x0au8,
            BytePred::Alphabetic => is_alpha(b),
            BytePred::Not(c) => b != c,
            BytePred::ListWord => !is_ws(b) && b != 0x29u8,
        }
    }

    /// Whether `b` belongs to this class.
    pub fn test(&self, b: u8) -> (r: bool)
        ensures
            r == self.holds(b),
    {
        let ws = b == 0x20u8 || b == 0x09u8 || b == 0x0au8 || b == 0x0cu8 || b == 0x0du8;
        match self {
            BytePred::Whitespace => ws,
            BytePred::InlineWhitespace => ws && b != 0x0au8,
            BytePred::Alphabetic => (0x41u8 <= b && b <= 0x5au8) || (0x61u8 <= b && b <= 0x7au8),
            BytePred::Not(c) => b != *c,
            BytePred::ListWord => !ws && b != 0x29u8,
        }
    }
}

/// The end of the run of `p`-bytes that starts at `i`: the first index at or
/// after `i` whose byte is not in `p`, or the length of `s`.
pub open spec fn span(s: Seq<u8>, i: int, p: BytePred) -> int
    decreases s.len() - i,
{
    if i < 0 || i >= s.len() || !p.holds(s[i]) {
        i
    } else {
        span(s, i + 1, p)
    }
}

/// `span` ends a maximal run of `p`-bytes.
pub proof fn lemma_span(s: Seq<u8>, i: int, p: BytePred)
    requires
        0 <= i <= s.len(),
    ensures
        i <= span(s, i, p) <= s.len(),
        forall|j: int| i <= j < span(s, i, p) ==> p.holds(#[trigger] s[j]),
        span(s, i, p) < s.len() ==> !p.holds(s[span(s, i, p)]),
        i < s.len() && p.holds(s[i]) ==> span(s, i, p) > i,
    decreases s.len() - i,
{
    if i < s.len() && p.holds(s[i]) {
        lemma_span(s, i + 1, p);
    }
}

/// A cursor over the bytes of a manifest.
pub struct Reader<'a> {
    inner: &'a [u8],
    pos: usize,
}

impl<'a> Reader<'a> {
    /// The whole input.
    pub closed spec fn input(&self) -> Seq<u8> {
        self.inner@
    }

    /// The index of the next byte to read.
    pub closed spec fn position(&self) -> int {
        self.pos as int
    }

    pub open spec fn wf(&self) -> bool {
        0 <= self.position() <= self.input().len() <= usize::MAX
    }

    /// A cursor at the start of `inner`.
    pub fn new(inner: &'a [u8]) -> (r: Self)
        ensures
            r.wf(),
            r.input() == inner@,
            r.position() == 0,
    {
        let _n = inner.len();
        Reader { inner, pos: 0 }
    }

    /// The next byte, consumed; `None` at the end of the input.
    pub fn read_byte(&mut self) -> (r: Option<u8>)
        requires
            old(self).wf(),
        ensures
            final(self).wf(),
            final(self).input() == old(self).input(),
            old(self).position() < old(self).input().len() ==> r == Some(old(self).input()[old(self).position()])
                && final(self).position() == old(self).position() + 1,
            old(self).position() >= old(self).input().len() ==> r is None
                && final(self).position() == old(self).position(),
    {
        if self.pos < self.inner.len() {
            let b = self.inner[self.pos];
            self.pos = self.pos + 1;
            Some(b)
        } else {
            None
        }
    }

    /// The next byte, left in place; `None` at the end of the input.
    pub fn peek_byte(&self) -> (r: Option<u8>)
        requires
            self.wf(),
        ensures
            self.position() < self.input().len() ==> r == Some(self.input()[self.position()]),
            self.position() >= self.input().len() ==> r is None,
    {
        if self.pos < self.inner.len() {
            Some(self.inner[self.pos])
        } else {
            None
        }
    }

    /// Consumes the run of `pred`-bytes at the cursor and appends it to `buf`.
    pub fn read_while(&mut self, buf: &mut Vec<u8>, pred: BytePred)
        requires
            old(self).wf(),
        ensures
            final(self).wf(),
            final(self).input() == old(self).input(),
            final(self).position() == span(old(self).input(), old(self).position(), pred),
            final(buf)@ == old(buf)@ + old(self).input().subrange(
                old(self).position(),
                final(self).position(),
            ),
    {
        let ghost s = self.inner@;
        let ghost start = self.pos as int;
        proof { lemma_span(s, start, pred); }
        while self.pos < self.inner.len() && pred.test(self.inner[self.pos])
            invariant
                self.wf(),
                self.inner@ == s,
                0 <= start <= self.pos,
                span(s, self.pos as int, pred) == span(s, start, pred),
                buf@ == old(buf)@ + s.subrange(start, self.pos as int),
            decreases self.inner@.len() - self.pos,
        {
            buf.push(self.inner[self.pos]);
            self.pos = self.pos + 1;
            assert(s.subrange(start, self.pos as int) =~= s.subrange(start, self.pos - 1)
                + seq![s[self.pos - 1]]);
        }
    }

    /// Consumes the run of `pred`-bytes at the cursor.
    pub fn skip_while(&mut self, pred: BytePred)
        requires
            old(self).wf(),
        ensures
            final(self).wf(),
            final(self).input() == old(self).input(),
            final(self).position() == span(old(self).input(), old(self).position(), pred),
    {
        let ghost s = self.inner@;
        let ghost start = self.pos as int;
        while self.pos < self.inner.len() && pred.test(self.inner[self.pos])
            invariant
                self.wf(),
                self.inner@ == s,
                span(s, self.pos as int, pred) == span(s, start, pred),
            decreases self.inner@.len() - self.pos,
        {
            self.pos = self.pos + 1;
        }
    }
    /// Consumes the next byte and checks that it is `expected`.
    pub fn expect_byte(&mut self, expected: u8) -> (r: Result<(), Error>)
        requires
            old(self).wf(),
        ensures
            final(self).wf(),
            final(self).input() == old(self).input(),
            old(self).position() >= old(self).input().len() ==> r == Err::<(), Error>(Error::UnexpectedEof)
                && final(self).position() == old(self).position(),
            old(self).position() < old(self).input().len() ==> final(self).position() == old(self).position() + 1
                && (old(self).input()[old(self).position()] == expected ==> r is Ok)
                && (old(self).input()[old(self).position()] != expected ==> r == Err::<(), Error>(
                    Error::UnexpectedByte(old(self).input()[old(self).position()]),
                )),
    {
        match self.read_byte() {
            None => Err(Error::UnexpectedEof),
            Some(actual) => if actual != expected {
                Err(Error::UnexpectedByte(actual))
            } else {
                Ok(())
            },
        }
    }
}

} // verus!
