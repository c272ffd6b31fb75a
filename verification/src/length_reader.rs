//! A reader that yields at most a given number of bytes of a stream.

use vstd::prelude::*;

use crate::reader::{ByteReader, limited};

verus! {

/// Reads at most `length` bytes from the stream it holds.
pub struct LengthReader {
    inner: ByteReader,
    read: u64,
    length: u64,
}

impl LengthReader {
    /// Fewer bytes were read than the length allows.
    pub closed spec fn wf(self) -> bool {
        self.read <= self.length
    }

    /// The bytes that the reader will still yield.
    pub closed spec fn rest(self) -> Seq<u8> {
        limited(self.inner@, self.length - self.read)
    }

    /// A reader of the first `length` bytes of `inner`.
    pub fn new(inner: ByteReader, length: u64) -> (r: LengthReader)
        ensures
            r.wf(),
            r.rest() == limited(inner@, length as int),
    {
        LengthReader { inner, length, read: 0 }
    }

    /// Moves up to `buf.len()` of the remaining bytes into the front of `buf`; returns how
    /// many. Zero means the length is reached or the stream has ended.
    pub fn read(&mut self, buf: &mut [u8]) -> (n: usize)
        requires
            old(self).wf(),
        ensures
            final(self).wf(),
            n == limited(old(self).rest(), old(buf)@.len() as int).len(),
            final(buf)@.len() == old(buf)@.len(),
            final(buf)@.take(n as int) == old(self).rest().take(n as int),
            final(buf)@.skip(n as int) == old(buf)@.skip(n as int),
            final(self).rest() == old(self).rest().skip(n as int),
    {
        let remaining = self.length - self.read;
        if remaining == 0 {
            proof {
                assert(old(self).rest() =~= Seq::<u8>::empty());
                assert(old(buf)@.skip(0) =~= old(buf)@);
            }
            return 0;
        }
        let count: usize = if (buf.len() as u64) < remaining { buf.len() } else { remaining as usize };
        let mut got: Vec<u8> = Vec::new();
        let ghost s0 = self.inner@;
        let n = self.inner.read_up_to(count, &mut got);
        let mut i: usize = 0;
        while i < n
            invariant
                n == got@.len(),
                n <= buf@.len(),
                i <= n,
                buf@.len() == old(buf)@.len(),
                forall|j: int| 0 <= j < i ==> buf@[j] == got@[j],
                forall|j: int| i <= j < buf@.len() ==> buf@[j] == old(buf)@[j],
            decreases n - i,
        {
            buf[i] = got[i];
            i = i + 1;
        }
        self.read = self.read + n as u64;
        proof {
            assert(got@ =~= limited(s0, count as int));
            assert(buf@.take(n as int) =~= got@);
            assert(buf@.skip(n as int) =~= old(buf)@.skip(n as int));
            assert(limited(old(self).rest(), old(buf)@.len() as int) =~= limited(s0, count as int));
            assert(self.rest() =~= old(self).rest().skip(n as int));
        }
        n
    }

    /// Moves every remaining byte to the end of `out`; returns how many.
    pub fn read_to_end(&mut self, out: &mut Vec<u8>) -> (n: usize)
        requires
            old(self).wf(),
        ensures
            final(self).wf(),
            final(out)@ == old(out)@ + old(self).rest(),
            n == old(self).rest().len(),
            final(self).rest() == Seq::<u8>::empty(),
    {
        let remaining = self.length - self.read;
        let avail = self.inner.remaining();
        let count: usize = if (avail as u64) < remaining { avail } else { remaining as usize };
        let ghost s0 = self.inner@;
        let n = self.inner.read_up_to(count, out);
        self.read = self.read + n as u64;
        proof {
            assert(limited(s0, count as int) =~= old(self).rest());
            assert(self.rest() =~= Seq::<u8>::empty());
        }
        n
    }
}

} // verus!
