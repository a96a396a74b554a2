//! The text deserializer's cursor: two-byte `^` tags, runs of bytes
//! up to the next tag, and the `~` escape scheme.
use crate::value::Error;
use vstd::prelude::*;

verus! {

/// What one escape byte after `~` unescapes to, if anything.
pub open spec fn unescape_byte(v: u8) -> Option<u8> {
    if (0x40 <= v <= 0x5D) || (0x5F <= v <= 0x60) {
        Some((v - 64) as u8)
    } else if v == 0x7A {
        Some(0x1Eu8)
    } else if v == 0x7B {
        Some(0x7Fu8)
    } else if v == 0x7C {
        Some(0x7Eu8)
    } else if v == 0x7D {
        Some(0x5Eu8)
    } else {
        None
    }
}

/// The unescaped bytes from position `i` up to the next `^`, and the
/// caret's position — or `None` when the input ends first or an
/// escape is invalid.
pub open spec fn unesc_scan(s: Seq<u8>, i: int) -> Option<(Seq<u8>, int)>
    decreases s.len() - i,
{
    if i < 0 || i >= s.len() {
        None
    } else if s[i] == 94 {
        Some((Seq::<u8>::empty(), i))
    } else if s[i] == 126 {
        if i + 1 >= s.len() {
            None
        } else {
            match unescape_byte(s[i + 1]) {
                None => None,
                Some(rep) => match unesc_scan(s, i + 2) {
                    None => None,
                    Some(p) => Some((seq![rep] + p.0, p.1)),
                },
            }
        }
    } else {
        match unesc_scan(s, i + 1) {
            None => None,
            Some(p) => Some((seq![s[i]] + p.0, p.1)),
        }
    }
}

/// Whether the scan from `i` dies on a bad or truncated escape
/// (rather than by running out of input before a `^`).
pub open spec fn unesc_fails_escape(s: Seq<u8>, i: int) -> bool
    decreases s.len() - i,
{
    if i < 0 || i >= s.len() {
        false
    } else if s[i] == 94 {
        false
    } else if s[i] == 126 {
        i + 1 >= s.len() || unescape_byte(s[i + 1]) is None || (unescape_byte(s[i + 1]) is Some
            && unesc_fails_escape(s, i + 2))
    } else {
        unesc_fails_escape(s, i + 1)
    }
}

pub struct StrReader<'s> {
    pub buffer: &'s [u8],
    pub index: usize,
}

impl<'s> StrReader<'s> {
    /// A cursor at the start of the buffer.
    pub fn new(buffer: &'s [u8]) -> (r: Self)
        ensures
            r.buffer@ == buffer@,
            r.index == 0,
    {
        Self { buffer, index: 0 }
    }

    /// The next byte, advancing past it, or `None` at the end.
    pub fn next(&mut self) -> (r: Option<u8>)
        ensures
            final(self).buffer@ == old(self).buffer@,
            final(self).index >= old(self).index,
            old(self).index <= old(self).buffer@.len() ==> final(self).index <= old(
                self,
            ).buffer@.len(),
            old(self).index < old(self).buffer@.len() ==> r == Some(
                old(self).buffer@[old(self).index as int],
            ) && final(self).index == old(self).index + 1,
            old(self).index >= old(self).buffer@.len() ==> r is None && *final(self) == *old(self),
    {
        if self.index < self.buffer.len() {
            let c = self.buffer[self.index];
            self.index += 1;
            Some(c)
        } else {
            None
        }
    }

    /// The next byte without advancing, or `None` at the end.
    pub fn peek(&self) -> (r: Option<u8>)
        ensures
            self.index < self.buffer@.len() ==> r == Some(self.buffer@[self.index as int]),
            self.index >= self.buffer@.len() ==> r is None,
    {
        if self.index < self.buffer.len() {
            Some(self.buffer[self.index])
        } else {
            None
        }
    }

    /// Advances past one byte unconditionally.
    pub fn discard(&mut self)
        requires
            old(self).index < usize::MAX,
        ensures
            final(self).buffer@ == old(self).buffer@,
            final(self).index == old(self).index + 1,
    {
        self.index += 1;
    }

    /// The cursor's position.
    pub fn position(&self) -> (r: usize)
        ensures
            r == self.index,
    {
        self.index
    }

    /// Reads a two-byte tag: a `^` and the byte after it, which must
    /// not start a multibyte character. Returns the second byte.
    pub fn read_identifier(&mut self) -> (r: Result<u8, Error>)
        ensures
            final(self).buffer@ == old(self).buffer@,
            final(self).index >= old(self).index,
            old(self).index <= old(self).buffer@.len() ==> final(self).index <= old(
                self,
            ).buffer@.len(),
            old(self).index + 1 >= old(self).buffer@.len() ==> r == Err::<u8, Error>(
                Error::UnexpectedEOF,
            ) && *final(self) == *old(self),
            old(self).index + 1 < old(self).buffer@.len() ==> if old(self).buffer@[old(
                self,
            ).index as int] == 94 && old(self).buffer@[old(self).index + 1] <= 0x79 {
                r == Ok::<u8, Error>(old(self).buffer@[old(self).index + 1]) && final(self).index
                    == old(self).index + 2
            } else {
                r == Err::<u8, Error>(Error::InvalidTag) && *final(self) == *old(self)
            },
    {
        if self.index < self.buffer.len() && self.buffer.len() - self.index > 1 {
            let first = self.buffer[self.index];
            let second = self.buffer[self.index + 1];
            if first == 94 && second <= 0x79 {
                self.index += 2;
                Ok(second)
            } else {
                Err(Error::InvalidTag)
            }
        } else {
            Err(Error::UnexpectedEOF)
        }
    }

    /// Reads a two-byte tag without advancing.
    pub fn peek_identifier(&self) -> (r: Result<u8, Error>)
        ensures
            self.index + 1 >= self.buffer@.len() ==> r == Err::<u8, Error>(Error::UnexpectedEOF),
            self.index + 1 < self.buffer@.len() ==> if self.buffer@[self.index as int] == 94
                && self.buffer@[self.index + 1] <= 0x79 {
                r == Ok::<u8, Error>(self.buffer@[self.index + 1])
            } else {
                r == Err::<u8, Error>(Error::InvalidTag)
            },
    {
        if self.index < self.buffer.len() && self.buffer.len() - self.index > 1 {
            let first = self.buffer[self.index];
            let second = self.buffer[self.index + 1];
            if first == 94 && second <= 0x79 {
                Ok(second)
            } else {
                Err(Error::InvalidTag)
            }
        } else {
            Err(Error::UnexpectedEOF)
        }
    }

    /// The bytes up to (not including) the next `^`; the cursor stops
    /// on the `^`. Running out of input instead is an error.
    pub fn read_until_next(&mut self) -> (r: Result<Vec<u8>, Error>)
        requires
            old(self).index <= old(self).buffer@.len(),
        ensures
            final(self).buffer@ == old(self).buffer@,
            final(self).index >= old(self).index,
            final(self).index <= final(self).buffer@.len(),
            r matches Ok(out) ==> old(self).index <= final(self).index
                && final(self).index < final(self).buffer@.len()
                && final(self).buffer@[final(self).index as int] == 94
                && out@ == old(self).buffer@.subrange(old(self).index as int, final(self).index as int)
                && (forall|j: int|
                old(self).index <= j < final(self).index ==> old(self).buffer@[j] != 94),
            r is Err ==> r == Err::<Vec<u8>, Error>(Error::UnexpectedEOF) && (forall|m: int|
                old(self).index <= m < old(self).buffer@.len() ==> old(self).buffer@[m] != 94),
    {
        let start = self.index;
        let mut out: Vec<u8> = Vec::new();
        loop
            invariant
                self.buffer@ == old(self).buffer@,
                start == old(self).index,
                start <= self.index <= self.buffer@.len(),
                out@ == self.buffer@.subrange(start as int, self.index as int),
                forall|j: int| start <= j < self.index ==> self.buffer@[j] != 94,
            decreases self.buffer@.len() - self.index,
        {
            if self.index >= self.buffer.len() {
                return Err(Error::UnexpectedEOF);
            }
            let c = self.buffer[self.index];
            if c == 94 {
                return Ok(out);
            }
            out.push(c);
            self.index += 1;
            proof {
                assert(out@ =~= self.buffer@.subrange(start as int, self.index as int));
            }
        }
    }

    /// The unescaped bytes up to the next `^`: a `~` and its follower
    /// become one byte; a follower outside the escape set is an
    /// error. The cursor stops on the `^`.
    pub fn parse_str(&mut self) -> (r: Result<Vec<u8>, Error>)
        requires
            old(self).index <= old(self).buffer@.len(),
        ensures
            final(self).buffer@ == old(self).buffer@,
            final(self).index >= old(self).index,
            final(self).index <= final(self).buffer@.len(),
            r is Ok ==> final(self).index < final(self).buffer@.len()
                && final(self).buffer@[final(self).index as int] == 94,
            r matches Ok(out) ==> unesc_scan(old(self).buffer@, old(self).index as int) == Some(
                (out@, final(self).index as int),
            ),
            r is Err <==> unesc_scan(old(self).buffer@, old(self).index as int) is None,
            r == Err::<Vec<u8>, Error>(Error::InvalidEscape) <==> unesc_scan(
                old(self).buffer@,
                old(self).index as int,
            ) is None && unesc_fails_escape(old(self).buffer@, old(self).index as int),
            r is Err ==> r == Err::<Vec<u8>, Error>(Error::UnexpectedEOF) || r == Err::<
                Vec<u8>,
                Error,
            >(Error::InvalidEscape),
    {
        let ghost start = old(self).index as int;
        let ghost b = old(self).buffer@;
        let mut out: Vec<u8> = Vec::new();
        loop
            invariant
                self.buffer@ == b,
                b == old(self).buffer@,
                start == old(self).index as int,
                old(self).index <= self.index <= self.buffer@.len(),
                unesc_scan(b, start) is Some <==> unesc_scan(b, self.index as int) is Some,
                unesc_fails_escape(b, start) == unesc_fails_escape(b, self.index as int),
                unesc_scan(b, self.index as int) matches Some(p) ==> unesc_scan(b, start) == Some(
                    (out@ + p.0, p.1),
                ),
            decreases self.buffer@.len() - self.index,
        {
            if self.index >= self.buffer.len() {
                return Err(Error::UnexpectedEOF);
            }
            let ghost i = self.index as int;
            let c = self.buffer[self.index];
            if c == 94 {
                proof {
                    assert(unesc_scan(b, i) == Some((Seq::<u8>::empty(), i)));
                    assert(out@ + Seq::<u8>::empty() =~= out@);
                }
                return Ok(out);
            }
            if c == 126 {
                // An escape: translate the byte after the `~`.
                self.index += 1;
                if self.index >= self.buffer.len() {
                    proof {
                        assert(unesc_scan(b, i) is None);
                    }
                    return Err(Error::InvalidEscape);
                }
                let v = self.buffer[self.index];
                let replacement: u8 = if (0x40 <= v && v <= 0x5D) || (0x5F <= v && v <= 0x60) {
                    v - 64
                } else if v == 0x7A {
                    0x1E
                } else if v == 0x7B {
                    0x7F
                } else if v == 0x7C {
                    0x7E
                } else if v == 0x7D {
                    0x5E
                } else {
                    proof {
                        assert(unescape_byte(b[i + 1]) is None);
                        assert(unesc_scan(b, i) is None);
                    }
                    return Err(Error::InvalidEscape);
                };
                self.index += 1;
                let ghost before = out@;
                out.push(replacement);
                proof {
                    assert(unescape_byte(b[i + 1]) == Some(replacement));
                    if unesc_scan(b, i + 2) is Some {
                        let q = unesc_scan(b, i + 2)->0;
                        assert(unesc_scan(b, i) == Some((seq![replacement] + q.0, q.1)));
                        assert(before + (seq![replacement] + q.0) =~= out@ + q.0);
                    }
                }
            } else {
                let ghost before = out@;
                out.push(c);
                self.index += 1;
                proof {
                    if unesc_scan(b, i + 1) is Some {
                        let q = unesc_scan(b, i + 1)->0;
                        assert(unesc_scan(b, i) == Some((seq![c] + q.0, q.1)));
                        assert(before + (seq![c] + q.0) =~= out@ + q.0);
                    }
                }
            }
        }
    }
}

} // verus!
