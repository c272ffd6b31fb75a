//! An in-memory byte stream, the source that the response readers of this crate consume.

use vstd::prelude::*;

verus! {

/// `s` cut to at most `limit` bytes.
pub open spec fn limited(s: Seq<u8>, limit: int) -> Seq<u8> {
    if limit < s.len() {
        s.take(limit)
    } else {
        s
    }
}

/// Index of the first occurrence of `b` in `s`, or `s.len()` if `b` does not occur.
pub open spec fn find_byte(s: Seq<u8>, b: u8) -> int
    decreases s.len(),
{
    if s.len() == 0 {
        0
    } else if s[0] == b {
        0
    } else {
        1 + find_byte(s.drop_first(), b)
    }
}

/// Number of bytes that `read_until(delim)` takes from `s`: up to and including the
/// first `delim`, or all of `s`.
pub open spec fn until_len(s: Seq<u8>, delim: u8) -> int {
    if find_byte(s, delim) < s.len() {
        find_byte(s, delim) + 1
    } else {
        s.len() as int
    }
}

pub proof fn lemma_find_byte_bounds(s: Seq<u8>, b: u8)
    ensures
        0 <= find_byte(s, b) <= s.len(),
        find_byte(s, b) < s.len() ==> s[find_byte(s, b)] == b,
        forall|j: int| 0 <= j < find_byte(s, b) ==> s[j] != b,
    decreases s.len(),
{
    if s.len() > 0 && s[0] != b {
        lemma_find_byte_bounds(s.drop_first(), b);
        assert forall|j: int| 0 <= j < find_byte(s, b) implies s[j] != b by {
            if j > 0 {
                assert(s[j] == s.drop_first()[j - 1]);
            }
        }
    }
}

/// The first index whose byte is `b`, characterised without recursion.
pub proof fn lemma_find_byte_is(s: Seq<u8>, b: u8, i: int)
    requires
        0 <= i <= s.len(),
        i < s.len() ==> s[i] == b,
        forall|j: int| 0 <= j < i ==> s[j] != b,
    ensures
        find_byte(s, b) == i,
    decreases s.len(),
{
    if s.len() > 0 && i > 0 {
        assert forall|j: int| 0 <= j < i - 1 implies s.drop_first()[j] != b by {
            assert(s.drop_first()[j] == s[j + 1]);
        }
        lemma_find_byte_is(s.drop_first(), b, i - 1);
    }
}

/// A vector holding the bytes of `s`.
pub fn slice_to_vec(s: &[u8]) -> (v: Vec<u8>)
    ensures
        v@ == s@,
{
    let mut v: Vec<u8> = Vec::new();
    let mut i: usize = 0;
    while i < s.len()
        invariant
            i <= s@.len(),
            v@ == s@.take(i as int),
        decreases s@.len() - i,
    {
        v.push(s[i]);
        i = i + 1;
        assert(v@ =~= s@.take(i as int));
    }
    assert(s@.take(i as int) =~= s@);
    v
}

/// A stream of bytes held in memory, read from the front.
pub struct ByteReader {
    data: Vec<u8>,
    pos: usize,
}

impl View for ByteReader {
    type V = Seq<u8>;

    /// The bytes not yet read.
    closed spec fn view(&self) -> Seq<u8> {
        self.data@.subrange(self.pos as int, self.data@.len() as int)
    }
}

impl ByteReader {
    #[verifier::type_invariant]
    spec fn inv(self) -> bool {
        self.pos <= self.data@.len()
    }

    /// A stream that yields `data`.
    pub fn new(data: Vec<u8>) -> (r: ByteReader)
        ensures
            r@ == data@,
    {
        let r = ByteReader { data, pos: 0 };
        assert(r@ =~= r.data@);
        r
    }

    /// Number of bytes left in the stream.
    pub fn remaining(&self) -> (n: usize)
        ensures
            n == self@.len(),
    {
        proof {
            use_type_invariant(self);
        }
        self.data.len() - self.pos
    }

    /// The next byte, or `None` at the end of the stream.
    pub fn read_byte(&mut self) -> (r: Option<u8>)
        ensures
            old(self)@.len() == 0 ==> r is None && final(self)@ == old(self)@,
            old(self)@.len() > 0 ==> r == Some(old(self)@[0]) && final(self)@ == old(self)@.drop_first(),
    {
        proof {
            use_type_invariant(&*self);
        }
        if self.pos < self.data.len() {
            let b = self.data[self.pos];
            self.pos = self.pos + 1;
            assert(self@ =~= old(self)@.drop_first());
            Some(b)
        } else {
            None
        }
    }

    /// Moves up to `n` bytes from the front of the stream to the end of `out`,
    /// as many as the stream holds; returns how many.
    pub fn read_up_to(&mut self, n: usize, out: &mut Vec<u8>) -> (k: usize)
        ensures
            k as int == limited(old(self)@, n as int).len(),
            final(out)@ == old(out)@ + limited(old(self)@, n as int),
            final(self)@ == old(self)@.skip(k as int),
    {
        proof {
            use_type_invariant(&*self);
        }
        let avail = self.data.len() - self.pos;
        let k = if n < avail { n } else { avail };
        let ghost s0 = self@;
        let ghost o0 = out@;
        let mut i: usize = 0;
        while i < k
            invariant
                self.pos + (k - i) <= self.data@.len(),
                self.data@.len() <= usize::MAX,
                s0 == old(self)@,
                o0 == old(out)@,
                i <= k,
                k <= s0.len(),
                self.data@ == old(self).data@,
                self.pos == old(self).pos + i,
                old(self).pos + s0.len() == self.data@.len(),
                out@ == o0 + s0.take(i as int),
            decreases k - i,
        {
            assert(self.pos < self.data@.len());
            out.push(self.data[self.pos]);
            self.pos = self.pos + 1;
            i = i + 1;
            assert(out@ =~= o0 + s0.take(i as int));
        }
        assert(limited(s0, n as int) =~= s0.take(k as int));
        assert(self@ =~= s0.skip(k as int));
        k
    }

    /// Moves bytes to the end of `buf` up to and including the first `delim`, reading no
    /// more than `limit` bytes; returns how many bytes were moved. This is what a
    /// `read_until` on a reader limited to `limit` bytes does.
    pub fn read_until(&mut self, delim: u8, limit: u64, buf: &mut Vec<u8>) -> (n: usize)
        ensures
            n == until_len(limited(old(self)@, limit as int), delim),
            final(buf)@ == old(buf)@ + old(self)@.take(n as int),
            final(self)@ == old(self)@.skip(n as int),
    {
        proof {
            use_type_invariant(&*self);
        }
        let ghost s0 = self@;
        let ghost b0 = buf@;
        let ghost lim = limited(s0, limit as int);
        let mut n: usize = 0;
        loop
            invariant_except_break
                forall|j: int| 0 <= j < n ==> lim[j] != delim,
            invariant
                s0 == old(self)@,
                b0 == old(buf)@,
                lim == limited(s0, limit as int),
                n <= lim.len(),
                self.data@ == old(self).data@,
                self.pos == old(self).pos + n,
                old(self).pos + s0.len() == self.data@.len(),
                buf@ == b0 + s0.take(n as int),
            ensures
                n == until_len(lim, delim),
                self.data@ == old(self).data@,
                self.pos == old(self).pos + n,
                buf@ == b0 + s0.take(n as int),
            decreases lim.len() - n,
        {
            proof {
                use_type_invariant(&*self);
            }
            if (n as u64) >= limit || self.pos >= self.data.len() {
                proof {
                    assert(n == lim.len());
                    lemma_find_byte_is(lim, delim, n as int);
                }
                break;
            }
            let b = self.data[self.pos];
            buf.push(b);
            self.pos = self.pos + 1;
            n = n + 1;
            assert(s0[n - 1] == b);
            assert(buf@ =~= b0 + s0.take(n as int));
            if b == delim {
                proof {
                    assert(lim[n - 1] == delim);
                    lemma_find_byte_is(lim, delim, n - 1);
                }
                break;
            }
        }
        assert(self@ =~= s0.skip(n as int));
        n
    }
}

/// Whether every byte of the stream has been read.
pub fn cursor_at_end(r: &ByteReader) -> (b: bool)
    ensures
        b == (r@.len() == 0),
{
    r.remaining() == 0
}

} // verus!
