//! A growable read buffer over a byte stream, with a cursor that reads byte by byte and
//! a start mark that `consume` moves forward.

use vstd::prelude::*;

use crate::error::{ErrorKind, IoErrorKind};
use crate::reader::{ByteReader, limited};

verus! {

/// The amount by which the buffer grows when it is full.
pub const BUFFER_SIZE: usize = 8192;

/// Scans `u` for the end of a line: the first `\n`, or the first `\r\n`. A `\r` that
/// is not followed by `\n` belongs to the line. Returns the length of the line within
/// `u` (without its ending) and the number of bytes read, or `None` if `u` ends first.
pub open spec fn line_scan(u: Seq<u8>) -> Option<(int, int)>
    decreases u.len(),
{
    if u.len() == 0 {
        None
    } else if u[0] == 10u8 {
        Some((0, 1))
    } else if u[0] == 13u8 && u.len() < 2 {
        None
    } else if u[0] == 13u8 && u[1] == 10u8 {
        Some((0, 2))
    } else {
        match line_scan(u.skip(1)) {
            Some((l, c)) => Some((l + 1, c + 1)),
            None => None,
        }
    }
}

/// What one call of `next` on `before`, leaving `after` and returning `r`, does to the
/// stream: it hands out the first unread byte and drops it from the unread bytes, or it
/// fails at the end of the stream, or when the buffer cannot grow any more.
pub open spec fn next_step(before: BufReader, after: BufReader, r: Result<u8, ErrorKind>) -> bool {
    match r {
        Ok(b) => before.unread().len() > 0 && b == before.unread()[0]
            && after.unread() == before.unread().drop_first()
            && after.pending() == before.pending().push(b),
        Err(e) => (e == ErrorKind::Io(IoErrorKind::UnexpectedEof) && before.unread().len() == 0)
            || (e == ErrorKind::Io(IoErrorKind::Other) && before.pending().len() + BUFFER_SIZE > usize::MAX),
    }
}

/// A read buffer over `inner`. The bytes between `start` and `pos` have been read but
/// not consumed; `capacity` bounds how many bytes the buffer holds before it grows.
pub struct BufReader {
    inner: ByteReader,
    buff: Vec<u8>,
    cap: usize,
    start: usize,
    pos: usize,
}

impl BufReader {
    /// The marks lie within the buffer, which lies within its capacity.
    pub closed spec fn wf(self) -> bool {
        self.start <= self.pos <= self.buff@.len() <= self.cap
    }

    /// The bytes read but not consumed.
    pub closed spec fn pending(self) -> Seq<u8> {
        self.buff@.subrange(self.start as int, self.pos as int)
    }

    /// The bytes not yet read: those left in the buffer, then those of the stream.
    pub closed spec fn unread(self) -> Seq<u8> {
        self.buff@.subrange(self.pos as int, self.buff@.len() as int) + self.inner@
    }

    /// The buffer's contents.
    pub closed spec fn buffer(self) -> Seq<u8> {
        self.buff@
    }

    /// The bytes of the stream that the buffer has not fetched.
    pub closed spec fn source(self) -> Seq<u8> {
        self.inner@
    }

    pub closed spec fn spec_capacity(self) -> usize {
        self.cap
    }

    pub closed spec fn spec_start(self) -> usize {
        self.start
    }

    pub closed spec fn spec_pos(self) -> usize {
        self.pos
    }

    /// The marks and the buffer determine what is read and what is not: the pending
    /// bytes lie between the start mark and the read position, and the unread bytes are
    /// the rest of the buffer followed by the bytes not yet fetched.
    pub proof fn lemma_marks(self)
        requires
            self.wf(),
        ensures
            self.pending() == self.buffer().subrange(self.spec_start() as int, self.spec_pos() as int),
            self.unread() == self.buffer().subrange(self.spec_pos() as int, self.buffer().len() as int) + self.source(),
    {
    }

    /// An empty buffer over `reader`.
    pub fn new(reader: ByteReader) -> (r: BufReader)
        ensures
            r.wf(),
            r.unread() == reader@,
            r.pending() == Seq::<u8>::empty(),
            r.buffer() == Seq::<u8>::empty(),
            r.source() == reader@,
            r.spec_capacity() == 0,
            r.spec_start() == 0,
            r.spec_pos() == 0,
    {
        let r = BufReader { inner: reader, buff: Vec::new(), cap: 0, start: 0, pos: 0 };
        assert(r.unread() =~= reader@);
        assert(r.pending() =~= Seq::<u8>::empty());
        r
    }

    /// A buffer in the given state: `buff` holds the fetched bytes, of which those
    /// before `start` are consumed and those before `pos` are read.
    pub fn from_parts(reader: ByteReader, buff: Vec<u8>, capacity: usize, start: usize, pos: usize) -> (r: BufReader)
        requires
            start <= pos <= buff@.len() <= capacity,
        ensures
            r.wf(),
            r.unread() == buff@.subrange(pos as int, buff@.len() as int) + reader@,
            r.pending() == buff@.subrange(start as int, pos as int),
            r.buffer() == buff@,
            r.source() == reader@,
            r.spec_capacity() == capacity,
            r.spec_start() == start,
            r.spec_pos() == pos,
    {
        BufReader { inner: reader, buff, cap: capacity, start, pos }
    }

    /// The capacity of the buffer.
    pub fn capacity(&self) -> (r: usize)
        ensures
            r == self.spec_capacity(),
    {
        self.cap
    }

    /// The start mark.
    pub fn start(&self) -> (r: usize)
        ensures
            r == self.spec_start(),
    {
        self.start
    }

    /// The read position.
    pub fn pos(&self) -> (r: usize)
        ensures
            r == self.spec_pos(),
    {
        self.pos
    }

    /// The contents of the buffer.
    pub fn buff(&self) -> (r: &Vec<u8>)
        ensures
            r@ == self.buffer(),
    {
        &self.buff
    }

    /// Moves the unconsumed bytes to the front of the buffer, grows the buffer by
    /// `BUFFER_SIZE` if it is full, and fetches from the stream as many bytes as fit.
    fn fill(&mut self) -> (r: Result<(), ErrorKind>)
        requires
            old(self).wf(),
            old(self).pos == old(self).buff@.len(),
        ensures
            final(self).wf(),
            ({
                let kept = old(self).buff@.subrange(old(self).start as int, old(self).buff@.len() as int);
                let p = old(self).pos - old(self).start;
                let cap = if p >= old(self).cap { p + BUFFER_SIZE } else { old(self).cap as int };
                let got = limited(old(self).inner@, cap - p);
                match r {
                    Ok(()) => got.len() > 0 && final(self).cap == cap && final(self).start == 0
                        && final(self).pos == p && final(self).buff@ == kept + got
                        && final(self).inner@ == old(self).inner@.skip(got.len() as int),
                    Err(e) => (e == ErrorKind::Io(IoErrorKind::UnexpectedEof) && old(self).inner@.len() == 0)
                        || (e == ErrorKind::Io(IoErrorKind::Other) && cap > usize::MAX),
                }
            }),
            final(self).pending() == old(self).pending(),
            final(self).unread() == old(self).unread(),
            final(self).start == 0 || final(self).start == old(self).start,
    {
        let ghost old_pending = self.pending();
        let ghost old_unread = self.unread();
        if self.start > 0 {
            let ghost b0 = self.buff@;
            let tail = self.buff.split_off(self.start);
            self.buff = tail;
            self.pos = self.pos - self.start;
            self.start = 0;
            assert(self.buff@ =~= b0.subrange(old(self).start as int, b0.len() as int));
        }
        proof {
            assert(self.pending() =~= old_pending);
            assert(self.unread() =~= old_unread);
        }
        if self.pos >= self.cap {
            match self.pos.checked_add(BUFFER_SIZE) {
                Some(c) => {
                    self.cap = c;
                },
                None => {
                    return Err(ErrorKind::Io(IoErrorKind::Other));
                },
            }
        }
        let room = self.cap - self.pos;
        let n = self.inner.read_up_to(room, &mut self.buff);
        if n == 0 {
            proof {
                assert(self.unread() =~= old_unread);
            }
            return Err(ErrorKind::Io(IoErrorKind::UnexpectedEof));
        }
        proof {
            assert(self.pending() =~= old_pending);
            assert(self.unread() =~= old_unread);
        }
        Ok(())
    }

    /// The next byte of the stream. Errors with `UnexpectedEof` at its end; the buffer
    /// is refilled, and grown when full, as needed.
    pub fn next(&mut self) -> (r: Result<u8, ErrorKind>)
        requires
            old(self).wf(),
        ensures
            final(self).wf(),
            next_step(*old(self), *final(self), r),
            old(self).spec_pos() == old(self).buffer().len() && r is Ok ==> ({
                let p = old(self).pending().len();
                let cap = if p >= old(self).spec_capacity() { p + BUFFER_SIZE } else { old(self).spec_capacity() as int };
                let got = limited(old(self).source(), cap - p);
                &&& final(self).spec_capacity() == cap
                &&& final(self).spec_start() == 0
                &&& final(self).spec_pos() == p + 1
                &&& final(self).buffer() == old(self).pending() + got
                &&& final(self).source() == old(self).source().skip(got.len() as int)
            }),
            final(self).spec_start() == 0 || final(self).spec_start() == old(self).spec_start(),
            old(self).spec_pos() < old(self).buffer().len() ==> r is Ok && final(self).buffer() == old(self).buffer()
                && final(self).spec_capacity() == old(self).spec_capacity()
                && final(self).spec_start() == old(self).spec_start()
                && final(self).spec_pos() == old(self).spec_pos() + 1
                && final(self).source() == old(self).source(),
    {
        if self.pos >= self.buff.len() {
            let ghost u0 = self.unread();
            self.fill()?;
        }
        let ghost p0 = self.pending();
        let ghost u0 = self.unread();
        let b = self.buff[self.pos];
        self.pos = self.pos + 1;
        proof {
            assert(u0[0] == b);
            assert(self.pending() =~= p0.push(b));
            assert(self.unread() =~= u0.drop_first());
        }
        Ok(b)
    }

    /// Marks every byte read so far as consumed.
    pub fn consume(&mut self)
        requires
            old(self).wf(),
        ensures
            final(self).wf(),
            final(self).pending() == Seq::<u8>::empty(),
            final(self).unread() == old(self).unread(),
            final(self).spec_start() == old(self).spec_pos(),
            final(self).spec_pos() == old(self).spec_pos(),
            final(self).buffer() == old(self).buffer(),
            final(self).spec_capacity() == old(self).spec_capacity(),
            final(self).source() == old(self).source(),
    {
        self.start = self.pos;
        assert(self.pending() =~= Seq::<u8>::empty());
    }
    /// Moves the read position back by one byte, so that the last byte read is read
    /// again.
    fn step_back(&mut self)
        requires
            old(self).wf(),
            old(self).pending().len() > 0,
        ensures
            final(self).wf(),
            final(self).pending() == old(self).pending().drop_last(),
            final(self).unread() == seq![old(self).pending().last()] + old(self).unread(),
            final(self).spec_start() == old(self).spec_start(),
    {
        self.pos = self.pos - 1;
        proof {
            assert(self.pending() =~= old(self).pending().drop_last());
            assert(self.unread() =~= seq![old(self).pending().last()] + old(self).unread());
        }
    }

    /// Reads a line ending with `\n` or `\r\n` and returns the bytes between the start
    /// mark and the line ending; the line ending is read but not returned, and nothing is
    /// consumed. A `\r` not followed by `\n` stays in the line. Errors with
    /// `UnexpectedEof` if the stream ends first.
    #[verifier::rlimit(40)]
    pub fn read_line(&mut self) -> (r: Result<&[u8], ErrorKind>)
        requires
            old(self).wf(),
        ensures
            final(self).wf(),
            r is Ok ==> line_scan(old(self).unread()) is Some,
            r matches Ok(line) ==> ({
                let (l, c) = line_scan(old(self).unread())->0;
                &&& line@ == old(self).pending() + old(self).unread().take(l)
                &&& final(self).unread() == old(self).unread().skip(c)
                &&& final(self).pending() == old(self).pending() + old(self).unread().take(c)
            }),
            r matches Err(e) ==> (e == ErrorKind::Io(IoErrorKind::Other)
                    && old(self).pending().len() + old(self).unread().len() + BUFFER_SIZE > usize::MAX)
                || (e == ErrorKind::Io(IoErrorKind::UnexpectedEof) && line_scan(old(self).unread()) is None),
            final(self).spec_pos() - final(self).spec_start() == final(self).pending().len(),
            old(self).spec_start() == 0 ==> final(self).spec_start() == 0,
    {
        let ghost u0 = self.unread();
        let ghost p0 = self.pending();
        let ghost mut i: int = 0;
        assert(u0.skip(0) =~= u0);
        assert(p0 + u0.take(0) =~= p0);
        loop
            invariant
                self.wf(),
                u0 == old(self).unread(),
                p0 == old(self).pending(),
                0 <= i <= u0.len(),
                self.unread() == u0.skip(i),
                self.pending() == p0 + u0.take(i),
                old(self).spec_start() == 0 ==> self.spec_start() == 0,
                line_scan(u0) == (match line_scan(u0.skip(i)) {
                    Some((l, c)) => Some((l + i, c + i)),
                    None => None,
                }),
            decreases u0.len() - i,
        {
            let ghost s = u0.skip(i);
            let b = match self.next() {
                Ok(b) => b,
                Err(e) => {
                    proof {
                        if e == ErrorKind::Io(IoErrorKind::UnexpectedEof) {
                            assert(s.len() == 0);
                            assert(line_scan(s) is None);
                            assert(line_scan(u0) is None);
                        }
                    }
                    return Err(e);
                },
            };
            proof {
                assert(s[0] == b);
                assert(s.drop_first() =~= u0.skip(i + 1));
                assert(p0 + u0.take(i) + seq![b] =~= p0 + u0.take(i + 1));
                i = i + 1;
            }
            if b == 10u8 {
                assert(self.pending().len() == p0.len() + i);
                let line = &self.buff[self.start..self.pos - 1];
                proof {
                    assert(line@ =~= self.pending().drop_last());
                    assert(line@ =~= p0 + u0.take(i - 1));
                }
                return Ok(line);
            }
            if b == 13u8 {
                let ghost s1 = u0.skip(i);
                let ghost pend1 = self.pending();
                let c = match self.next() {
                    Ok(c) => c,
                    Err(e) => {
                        proof {
                            if e == ErrorKind::Io(IoErrorKind::UnexpectedEof) {
                                assert(s1.len() == 0);
                                assert(s.len() == 1);
                            }
                        }
                        return Err(e);
                    },
                };
                if c == 10u8 {
                    proof {
                        assert(s1[0] == c);
                        assert(s1.drop_first() =~= u0.skip(i + 1));
                        assert(p0 + u0.take(i) + seq![c] =~= p0 + u0.take(i + 1));
                        i = i + 1;
                    }
                    assert(self.pending().len() == p0.len() + i);
                    let line = &self.buff[self.start..self.pos - 2];
                    proof {
                        assert(line@ =~= p0 + u0.take(i - 2));
                    }
                    return Ok(line);
                }
                // the byte after a lone `\r` is scanned again
                proof {
                    assert(s1[0] == c);
                    assert(pend1.push(c).drop_last() =~= pend1);
                }
                self.step_back();
                proof {
                    assert(seq![c] + s1.drop_first() =~= s1);
                    assert(s.skip(1) =~= u0.skip(i));
                }
            } else {
                assert(s.skip(1) =~= u0.skip(i));
            }
        }
    }
}

} // verus!
