//! Fixed-capacity lines of printable ASCII text.
//!
//! A [`Line`] acts like a small, fixed-size vector of ASCII characters with a
//! fill counter and a source tag. Lines only ever contain printable,
//! non-control ASCII bytes.

use crate::rotate::rot_right;
use crate::LineError;
use crate::Source;
use vstd::prelude::*;
use vstd::string::StringSliceAdditionalSpecFns;

verus! {

/// A byte is acceptable in a line iff it is ASCII and not an ASCII control
/// character: exactly the printable range `0x20 ..= 0x7e`.
pub open spec fn is_acceptable(c: u8) -> bool {
    0x20 <= c < 0x7f
}

/// Whether a byte may be stored in a line: ASCII and not a control character.
pub fn acceptable_ascii(c: u8) -> (r: bool)
    ensures
        r == is_acceptable(c),
{
    0x20 <= c && c < 0x7f
}

/// `Ok` iff the byte may be stored in a line, `Err(InvalidChar)` otherwise.
pub fn ascii_good(c: u8) -> (r: Result<(), LineError>)
    ensures
        r is Ok <==> is_acceptable(c),
        !is_acceptable(c) ==> r == Result::<(), LineError>::Err(LineError::InvalidChar),
{
    if acceptable_ascii(c) {
        Ok(())
    } else {
        Err(LineError::InvalidChar)
    }
}

/// Relies on `core::str::from_utf8`: a byte slice that is entirely ASCII
/// (every byte below `0x80`) is valid UTF-8 and decodes to the string whose
/// characters are exactly those bytes' code points. A decoding failure is
/// treated defensively as empty output; under this precondition it cannot
/// happen.
#[verifier::external_body]
fn ascii_bytes_to_string(bytes: &[u8]) -> (r: String)
    requires
        forall|i: int| 0 <= i < bytes@.len() ==> #[trigger] bytes@[i] < 0x80,
    ensures
        r@ == bytes@.map_values(|b: u8| b as char),
{
    match core::str::from_utf8(bytes) {
        Ok(s) => s.to_owned(),
        Err(_) => String::new(),
    }
}

/// What a [`Line`] holds: the bytes in use and the source tag.
pub struct LineContent {
    pub text: Seq<u8>,
    pub status: Source,
}

/// A single line with fixed capacity for `C` characters.
///
/// `C` must be at most 254 so that the fill counter fits in a `u8`.
#[derive(Debug)]
pub struct Line<const C: usize> {
    fill: u8,
    buf: Vec<u8>,
    status: Source,
}

impl<const C: usize> View for Line<C> {
    type V = LineContent;

    closed spec fn view(&self) -> LineContent {
        LineContent { text: self.buf@.subrange(0, self.fill as int), status: self.status }
    }
}

impl<const C: usize> Line<C> {
    /// The line invariant: the capacity fits the 8-bit fill counter, the
    /// backing storage has exactly `C` slots, the fill counter never exceeds
    /// the capacity, and every byte in use is printable, non-control ASCII.
    pub closed spec fn wf(&self) -> bool {
        &&& C <= 254
        &&& self.buf@.len() == C
        &&& self.fill as int <= C
        &&& forall|i: int| 0 <= i < self.fill ==> is_acceptable(#[trigger] self.buf@[i])
    }

    /// What the invariant guarantees about the visible content.
    pub proof fn lemma_wf(&self)
        requires
            self.wf(),
        ensures
            C <= 254,
            self@.text.len() <= C,
            forall|i: int| 0 <= i < self@.text.len() ==> is_acceptable(#[trigger] self@.text[i]),
    {
    }

    /// Create a new empty line.
    pub fn new() -> (r: Self)
        requires
            C <= 254,
        ensures
            r.wf(),
            r@.text == Seq::<u8>::empty(),
            r@.status == Source::Local,
    {
        let mut buf: Vec<u8> = Vec::new();
        let mut i: usize = 0;
        while i < C
            invariant
                i <= C,
                buf@.len() == i,
            decreases C - i,
        {
            buf.push(0u8);
            i = i + 1;
        }
        let r = Line { fill: 0u8, buf, status: Source::Local };
        proof {
            assert(r@.text =~= Seq::<u8>::empty());
        }
        r
    }

    /// The source of the current line, either local or remote.
    pub fn status(&self) -> (r: Source)
        ensures
            r == self@.status,
    {
        self.status
    }

    /// Set the source tag; the text is untouched.
    pub(crate) fn set_status(&mut self, source: Source)
        requires
            old(self).wf(),
        ensures
            final(self).wf(),
            final(self)@.status == source,
            final(self)@.text == old(self)@.text,
    {
        self.status = source;
    }

    /// Reset the line to empty with the default (local) tag. The storage is
    /// not zeroed: bytes beyond the fill counter are never exposed.
    pub fn clear(&mut self)
        requires
            old(self).wf(),
        ensures
            final(self).wf(),
            final(self)@.text == Seq::<u8>::empty(),
            final(self)@.status == Source::Local,
    {
        self.fill = 0;
        self.status = Source::Local;
        proof {
            assert(self@.text =~= Seq::<u8>::empty());
        }
    }

    /// The number of bytes currently in use.
    pub fn len(&self) -> (r: usize)
        requires
            self.wf(),
        ensures
            r == self@.text.len(),
    {
        self.fill as usize
    }

    /// Is the line empty?
    pub fn is_empty(&self) -> (r: bool)
        requires
            self.wf(),
        ensures
            r == (self@.text.len() == 0),
    {
        self.fill == 0
    }

    /// Is the line full?
    pub fn is_full(&self) -> (r: bool)
        requires
            self.wf(),
        ensures
            r == (self@.text.len() == C),
    {
        self.len() >= C
    }

    /// Remove the last byte, if any; an empty line is left as it is.
    pub fn pop(&mut self)
        requires
            old(self).wf(),
        ensures
            final(self).wf(),
            final(self)@.status == old(self)@.status,
            old(self)@.text.len() > 0 ==> final(self)@.text == old(self)@.text.drop_last(),
            old(self)@.text.len() == 0 ==> final(self)@.text == old(self)@.text,
    {
        if self.fill != 0 {
            self.fill = self.fill - 1;
            proof {
                assert(self@.text =~= old(self)@.text.drop_last());
            }
        }
    }

    /// The capacity as an 8-bit count.
    pub fn cap_u8() -> (r: u8)
        requires
            C <= 254,
        ensures
            r as int == C,
    {
        C as u8
    }

    /// `Ok` iff the line still has room for at least one more byte.
    pub fn not_full(&self) -> (r: Result<(), LineError>)
        requires
            self.wf(),
        ensures
            r is Ok <==> self@.text.len() < C,
            self@.text.len() == C ==> r == Result::<(), LineError>::Err(LineError::Full),
    {
        if self.is_full() {
            Err(LineError::Full)
        } else {
            Ok(())
        }
    }

    /// Append one byte at the end of the line.
    ///
    /// Fails with `Full` if the line is full, then with `InvalidChar` if the
    /// byte is not printable, non-control ASCII; a failed call leaves the
    /// line unchanged.
    pub fn push(&mut self, ins: u8) -> (r: Result<(), LineError>)
        requires
            old(self).wf(),
        ensures
            final(self).wf(),
            final(self)@.status == old(self)@.status,
            ({
                let pre = old(self)@.text;
                let post = final(self)@.text;
                if pre.len() == C {
                    r == Result::<(), LineError>::Err(LineError::Full) && post == pre
                } else if !is_acceptable(ins) {
                    r == Result::<(), LineError>::Err(LineError::InvalidChar) && post == pre
                } else {
                    r is Ok && post == pre.push(ins)
                }
            }),
    {
        if let Err(e) = self.not_full() {
            return Err(e);
        }
        if let Err(e) = ascii_good(ins) {
            return Err(e);
        }
        let len = self.len();
        self.buf.set(len, ins);
        self.fill = self.fill + 1;
        proof {
            assert(self@.text =~= old(self)@.text.push(ins));
        }
        Ok(())
    }

    /// Overwrite the byte at `pos`, or append when `pos` is exactly the
    /// current fill (the only way `overwrite` grows the line).
    ///
    /// Fails with `Full` if `pos` lies beyond the current fill or beyond the
    /// capacity, then with `InvalidChar` for an unacceptable byte; a failed
    /// call leaves the line unchanged.
    pub fn overwrite(&mut self, pos: usize, ovrw: u8) -> (r: Result<(), LineError>)
        requires
            old(self).wf(),
        ensures
            final(self).wf(),
            final(self)@.status == old(self)@.status,
            ({
                let pre = old(self)@.text;
                let post = final(self)@.text;
                if pos > pre.len() || pos >= C {
                    r == Result::<(), LineError>::Err(LineError::Full) && post == pre
                } else if !is_acceptable(ovrw) {
                    r == Result::<(), LineError>::Err(LineError::InvalidChar) && post == pre
                } else if pos < pre.len() {
                    r is Ok && post == pre.update(pos as int, ovrw)
                } else {
                    r is Ok && post == pre.push(ovrw)
                }
            }),
    {
        if pos > self.len() || pos >= C {
            return Err(LineError::Full);
        }
        if let Err(e) = ascii_good(ovrw) {
            return Err(e);
        }
        let grows: bool = pos == self.len();
        self.buf.set(pos, ovrw);
        if grows {
            self.fill = self.fill + 1;
            proof {
                assert(self@.text =~= old(self)@.text.push(ovrw));
            }
        } else {
            proof {
                assert(self@.text =~= old(self)@.text.update(pos as int, ovrw));
            }
        }
        Ok(())
    }

    /// Obtain the current text as a `String`; it is always valid UTF-8
    /// because only ASCII is ever accepted.
    pub fn as_str(&self) -> (r: String)
        requires
            self.wf(),
        ensures
            r@ == self@.text.map_values(|b: u8| b as char),
    {
        let sub: &[u8] = vstd::slice::slice_subrange(self.buf.as_slice(), 0, self.fill as usize);
        ascii_bytes_to_string(sub)
    }

    /// Append a whole string slice, atomically: the call first checks that
    /// the batch fits and that every byte is acceptable, and writes nothing
    /// otherwise.
    ///
    /// Fails with `Full` if the batch does not fit in the remaining
    /// capacity, then with `InvalidChar` if any byte is not printable,
    /// non-control ASCII; a failed call leaves the line completely
    /// unchanged.
    pub fn extend(&mut self, s: &str) -> (r: Result<(), LineError>)
        requires
            old(self).wf(),
        ensures
            final(self).wf(),
            final(self)@.status == old(self)@.status,
            ({
                let pre = old(self)@.text;
                let post = final(self)@.text;
                let bytes = s.spec_bytes();
                if pre.len() + bytes.len() > C {
                    r == Result::<(), LineError>::Err(LineError::Full) && post == pre
                } else if exists|i: int|
                    0 <= i < bytes.len() && !is_acceptable(#[trigger] bytes[i]) {
                    r == Result::<(), LineError>::Err(LineError::InvalidChar) && post == pre
                } else {
                    r is Ok && post == pre + bytes
                }
            }),
    {
        let len = self.len();
        let bytes: &[u8] = s.as_bytes();
        let n = bytes.len();
        if n > C - len {
            return Err(LineError::Full);
        }
        let mut i: usize = 0;
        while i < n
            invariant
                i <= n,
                old(self).wf(),
                self.fill == old(self).fill,
                self.status == old(self).status,
                self.buf@ == old(self).buf@,
                len == old(self).fill as int,
                len + n <= C,
                n == s.spec_bytes().len(),
                bytes@ == s.spec_bytes(),
                forall|k: int| 0 <= k < i ==> is_acceptable(#[trigger] bytes@[k]),
            decreases n - i,
        {
            if !acceptable_ascii(bytes[i]) {
                return Err(LineError::InvalidChar);
            }
            i = i + 1;
        }
        let mut k: usize = 0;
        while k < n
            invariant
                k <= n,
                old(self).wf(),
                self.fill == old(self).fill,
                self.status == old(self).status,
                len == old(self).fill as int,
                len + n <= C,
                self.buf@.len() == C,
                n == s.spec_bytes().len(),
                bytes@ == s.spec_bytes(),
                forall|j: int| 0 <= j < n ==> is_acceptable(#[trigger] bytes@[j]),
                forall|j: int| 0 <= j < len ==> self.buf@[j] == old(self).buf@[j],
                forall|j: int| 0 <= j < k ==> self.buf@[len + j] == bytes@[j],
            decreases n - k,
        {
            self.buf.set(len + k, bytes[k]);
            k = k + 1;
        }
        self.fill = self.fill + (n as u8);
        proof {
            assert forall|j: int| 0 <= j < self.fill implies is_acceptable(
                #[trigger] self.buf@[j],
            ) by {
                if j < len {
                    assert(self.buf@[j] == old(self).buf@[j]);
                } else {
                    assert(self.buf@[j] == s.spec_bytes()[j - len]);
                }
            }
            assert(self@.text =~= old(self)@.text + s.spec_bytes());
        }
        Ok(())
    }

    /// Insert one byte at `pos`, shifting `text[pos..]` up by one.
    ///
    /// Fails with `Full` if the line is full or `pos` lies beyond the
    /// capacity, with `InvalidChar` for an unacceptable byte, and with
    /// `WriteGap` if `pos` lies beyond the current fill (no gap-leaving
    /// writes); a failed call leaves the line unchanged.
    pub fn insert(&mut self, pos: usize, ins: u8) -> (r: Result<(), LineError>)
        requires
            old(self).wf(),
        ensures
            final(self).wf(),
            final(self)@.status == old(self)@.status,
            ({
                let pre = old(self)@.text;
                let post = final(self)@.text;
                if pre.len() == C {
                    r == Result::<(), LineError>::Err(LineError::Full) && post == pre
                } else if pos >= C {
                    r == Result::<(), LineError>::Err(LineError::Full) && post == pre
                } else if !is_acceptable(ins) {
                    r == Result::<(), LineError>::Err(LineError::InvalidChar) && post == pre
                } else if pos > pre.len() {
                    r == Result::<(), LineError>::Err(LineError::WriteGap) && post == pre
                } else {
                    r is Ok && post == pre.insert(pos as int, ins)
                }
            }),
    {
        if let Err(e) = self.not_full() {
            return Err(e);
        }
        if pos >= C {
            return Err(LineError::Full);
        }
        if !acceptable_ascii(ins) {
            return Err(LineError::InvalidChar);
        }
        let len = self.len();
        if pos > len {
            return Err(LineError::WriteGap);
        }
        self.buf.set(len, ins);
        rot_right(&mut self.buf, pos, len + 1);
        self.fill = self.fill + 1;
        proof {
            assert(self@.text =~= old(self)@.text.insert(pos as int, ins));
        }
        Ok(())
    }
}

/// Append one byte to the line in slot `w`, leaving every other slot
/// untouched; the result is that of [`Line::push`] on that line.
pub(crate) fn push_at<const C: usize>(lines: &mut Vec<Line<C>>, w: usize, c: u8) -> (r: Result<
    (),
    LineError,
>)
    requires
        w < old(lines)@.len(),
        old(lines)@[w as int].wf(),
    ensures
        final(lines)@.len() == old(lines)@.len(),
        forall|j: int|
            0 <= j < final(lines)@.len() && j != w ==> final(lines)@[j] == old(lines)@[j],
        final(lines)@[w as int].wf(),
        final(lines)@[w as int]@.status == old(lines)@[w as int]@.status,
        ({
            let pre = old(lines)@[w as int]@.text;
            let post = final(lines)@[w as int]@.text;
            if pre.len() == C {
                r == Result::<(), LineError>::Err(LineError::Full) && post == pre
            } else if !is_acceptable(c) {
                r == Result::<(), LineError>::Err(LineError::InvalidChar) && post == pre
            } else {
                r is Ok && post == pre.push(c)
            }
        }),
{
    let mut line = lines.remove(w);
    let r = line.push(c);
    lines.insert(w, line);
    proof {
        assert(lines@ =~= old(lines)@.update(w as int, lines@[w as int]));
    }
    r
}

/// Remove the last byte of the line in slot `w` (a no-op when it is empty),
/// leaving every other slot untouched.
pub(crate) fn pop_at<const C: usize>(lines: &mut Vec<Line<C>>, w: usize)
    requires
        w < old(lines)@.len(),
        old(lines)@[w as int].wf(),
    ensures
        final(lines)@.len() == old(lines)@.len(),
        forall|j: int|
            0 <= j < final(lines)@.len() && j != w ==> final(lines)@[j] == old(lines)@[j],
        final(lines)@[w as int].wf(),
        final(lines)@[w as int]@.status == old(lines)@[w as int]@.status,
        ({
            let pre = old(lines)@[w as int]@.text;
            let post = final(lines)@[w as int]@.text;
            if pre.len() > 0 {
                post == pre.drop_last()
            } else {
                post == pre
            }
        }),
{
    let mut line = lines.remove(w);
    line.pop();
    lines.insert(w, line);
    proof {
        assert(lines@ =~= old(lines)@.update(w as int, lines@[w as int]));
    }
}

/// Reset the line in slot `w` to empty and tag it with `source`, leaving
/// every other slot untouched.
pub(crate) fn clear_at<const C: usize>(lines: &mut Vec<Line<C>>, w: usize, source: Source)
    requires
        w < old(lines)@.len(),
        old(lines)@[w as int].wf(),
    ensures
        final(lines)@.len() == old(lines)@.len(),
        forall|j: int|
            0 <= j < final(lines)@.len() && j != w ==> final(lines)@[j] == old(lines)@[j],
        final(lines)@[w as int].wf(),
        final(lines)@[w as int]@.text == Seq::<u8>::empty(),
        final(lines)@[w as int]@.status == source,
{
    let mut line = lines.remove(w);
    line.clear();
    line.set_status(source);
    lines.insert(w, line);
    proof {
        assert(lines@ =~= old(lines)@.update(w as int, lines@[w as int]));
    }
}

} // verus!
