//! Line reading and byte trimming over byte streams.

use vstd::prelude::*;

use crate::error::{ErrorKind, IoErrorKind};
use crate::reader::{ByteReader, find_byte, lemma_find_byte_bounds, limited, until_len};

verus! {

/// `s` ends with a line feed.
pub open spec fn ends_with_lf(s: Seq<u8>) -> bool {
    s.len() > 0 && s.last() == 10u8
}

/// `s` without its final `\r\n` or `\n`, if it has one.
pub open spec fn strip_eol(s: Seq<u8>) -> Seq<u8> {
    if s.len() >= 2 && s[s.len() - 2] == 13u8 && s[s.len() - 1] == 10u8 {
        s.take(s.len() - 2)
    } else if ends_with_lf(s) {
        s.take(s.len() - 1)
    } else {
        s
    }
}

/// Number of bytes `read_line` takes from a stream whose unread bytes are `s`.
pub open spec fn line_len(s: Seq<u8>, max: int) -> int {
    until_len(limited(s, max), 10u8)
}

/// Index of the first `\r\n` in `s`, or `s.len()` if there is none.
pub open spec fn find_crlf(s: Seq<u8>) -> int
    decreases s.len(),
{
    if s.len() < 2 {
        s.len() as int
    } else if s[0] == 13u8 && s[1] == 10u8 {
        0
    } else {
        1 + find_crlf(s.drop_first())
    }
}

/// `s` holds `\r\n` at index `j`.
pub open spec fn crlf_at(s: Seq<u8>, j: int) -> bool {
    s[j] == 13u8 && s[j + 1] == 10u8
}

/// `i` is the index of the first `\r\n` in `s`.
pub open spec fn is_first_crlf(s: Seq<u8>, i: int) -> bool {
    &&& 0 <= i
    &&& i + 1 < s.len()
    &&& s[i] == 13u8
    &&& s[i + 1] == 10u8
    &&& forall|j: int| 0 <= j < i ==> !#[trigger] crlf_at(s, j)
}

/// `s` holds no `\r\n`.
pub open spec fn no_crlf(s: Seq<u8>) -> bool {
    forall|j: int| 0 <= j && j + 1 < s.len() ==> !#[trigger] crlf_at(s, j)
}

pub proof fn lemma_find_crlf_found(s: Seq<u8>, i: int)
    requires
        is_first_crlf(s, i),
    ensures
        find_crlf(s) == i,
    decreases s.len(),
{
    if i > 0 {
        let t = s.drop_first();
        assert(!crlf_at(s, 0));
        assert forall|j: int| 0 <= j < i - 1 implies !crlf_at(t, j) by {
            assert(t[j] == s[j + 1] && t[j + 1] == s[j + 2]);
            assert(!crlf_at(s, j + 1));
        }
        lemma_find_crlf_found(t, i - 1);
    }
}

pub proof fn lemma_find_crlf_none(s: Seq<u8>)
    requires
        no_crlf(s),
    ensures
        find_crlf(s) == s.len(),
    decreases s.len(),
{
    if s.len() >= 2 {
        let t = s.drop_first();
        assert(!crlf_at(s, 0));
        assert forall|j: int| 0 <= j && j + 1 < t.len() implies !crlf_at(t, j) by {
            assert(t[j] == s[j + 1] && t[j + 1] == s[j + 2]);
            assert(!crlf_at(s, j + 1));
        }
        lemma_find_crlf_none(t);
    }
}

pub proof fn lemma_find_crlf_bound(s: Seq<u8>)
    ensures
        0 <= find_crlf(s) <= s.len(),
        find_crlf(s) < s.len() ==> find_crlf(s) + 2 <= s.len(),
    decreases s.len(),
{
    if s.len() >= 2 && !(s[0] == 13u8 && s[1] == 10u8) {
        lemma_find_crlf_bound(s.drop_first());
    }
}

/// Reads a line ending with `\n` or `\r\n` from `reader` into `buf`, reading at most
/// `max_buf_len` bytes. On success `buf` holds the line without its ending and the
/// number of bytes read is returned; if no line feed comes within the limit, the error is
/// `UnexpectedEof` and `buf` holds every byte read.
pub fn read_line(reader: &mut ByteReader, buf: &mut Vec<u8>, max_buf_len: u64) -> (r: Result<usize, ErrorKind>)
    ensures
        ({
            let n = line_len(old(reader)@, max_buf_len as int);
            let got = old(reader)@.take(n);
            &&& final(reader)@ == old(reader)@.skip(n)
            &&& match r {
                Ok(k) => k == n && ends_with_lf(got) && final(buf)@ == strip_eol(got),
                Err(e) => e == ErrorKind::Io(IoErrorKind::UnexpectedEof) && !ends_with_lf(got)
                    && final(buf)@ == got,
            }
        }),
{
    buf.clear();
    let n = reader.read_until(10u8, max_buf_len, buf);
    let len = buf.len();
    if len >= 2 && buf[len - 2] == 13u8 && buf[len - 1] == 10u8 {
        buf.truncate(len - 2);
        assert(buf@ =~= strip_eol(old(reader)@.take(n as int)));
        Ok(n)
    } else if len >= 1 && buf[len - 1] == 10u8 {
        buf.truncate(len - 1);
        assert(buf@ =~= strip_eol(old(reader)@.take(n as int)));
        Ok(n)
    } else {
        assert(buf@ =~= old(reader)@.take(n as int));
        Err(ErrorKind::Io(IoErrorKind::UnexpectedEof))
    }
}

/// Reads a line that ends with `\r\n` from `reader` into `buf`, reading at most
/// `max_buf_len` bytes; a lone `\n` does not end the line. On success `buf` holds the
/// line without its `\r\n` and the number of bytes read is returned; if no `\r\n` comes
/// within the limit, every byte within the limit is read into `buf` and the error is
/// `UnexpectedEof`.
pub fn read_line_strict(reader: &mut ByteReader, buf: &mut Vec<u8>, max_buf_len: u64) -> (r: Result<usize, ErrorKind>)
    ensures
        ({
            let avail = limited(old(reader)@, max_buf_len as int);
            let i = find_crlf(avail);
            match r {
                Ok(k) => i < avail.len() && k == i + 2 && final(buf)@ == avail.take(i)
                    && final(reader)@ == old(reader)@.skip(i + 2),
                Err(e) => e == ErrorKind::Io(IoErrorKind::UnexpectedEof) && i == avail.len()
                    && final(buf)@ == avail && final(reader)@ == old(reader)@.skip(avail.len() as int),
            }
        }),
{
    buf.clear();
    let ghost s0 = reader@;
    let ghost avail = limited(s0, max_buf_len as int);
    let mut n: usize = 0;
    loop
        invariant
            s0 == old(reader)@,
            avail == limited(s0, max_buf_len as int),
            n <= avail.len(),
            n <= max_buf_len,
            reader@ == s0.skip(n as int),
            buf@ == avail.take(n as int),
            n > 0 ==> avail[n - 1] == 10u8,
            no_crlf(avail.take(n as int)),
        decreases avail.len() - n,
    {
        let ghost r0 = reader@;
        let k = reader.read_until(10u8, max_buf_len - (n as u64), buf);
        let ghost t = avail.skip(n as int);
        proof {
            assert(limited(r0, max_buf_len - n) =~= t);
            assert(r0.take(k as int) =~= avail.subrange(n as int, n + k));
            assert(reader@ =~= s0.skip(n + k));
            assert(buf@ =~= avail.take(n + k));
            lemma_find_byte_bounds(t, 10u8);
        }
        let ghost nk = n + k;
        let len = buf.len();
        if k == 0 || buf[len - 1] != 10u8 {
            proof {
                if find_byte(t, 10u8) < t.len() {
                    assert(buf@[len - 1] == t[find_byte(t, 10u8)]);
                }
                assert(nk == avail.len());
                assert forall|j: int| 0 <= j && j + 1 < avail.len() implies !crlf_at(avail, j) by {
                    if j + 1 < n {
                        assert(!crlf_at(avail.take(n as int), j));
                        assert(avail.take(n as int)[j] == avail[j]);
                        assert(avail.take(n as int)[j + 1] == avail[j + 1]);
                    } else {
                        assert(t[j + 1 - n] == avail[j + 1]);
                    }
                }
                lemma_find_crlf_none(avail);
                assert(buf@ =~= avail);
            }
            return Err(ErrorKind::Io(IoErrorKind::UnexpectedEof));
        }
        proof {
            if find_byte(t, 10u8) == t.len() {
                assert(buf@[len - 1] == t[k - 1]);
            }
            assert(find_byte(t, 10u8) == k - 1);
        }
        if k >= 2 && buf[len - 2] == 13u8 {
            proof {
                assert(avail[nk - 2] == 13u8 && avail[nk - 1] == 10u8);
                assert forall|j: int| 0 <= j < nk - 2 implies !crlf_at(avail, j) by {
                    if j + 1 < n {
                        assert(!crlf_at(avail.take(n as int), j));
                        assert(avail.take(n as int)[j] == avail[j]);
                        assert(avail.take(n as int)[j + 1] == avail[j + 1]);
                    } else if j + 1 > n {
                        assert(t[j + 1 - n] == avail[j + 1]);
                    }
                }
                lemma_find_crlf_found(avail, nk - 2);
            }
            buf.truncate(len - 2);
            assert(buf@ =~= avail.take(nk - 2));
            return Ok(n + k);
        }
        proof {
            assert forall|j: int| 0 <= j && j + 1 < nk implies !crlf_at(avail.take(nk), j) by {
                assert(avail.take(nk)[j] == avail[j]);
                assert(avail.take(nk)[j + 1] == avail[j + 1]);
                if j + 1 < n {
                    assert(!crlf_at(avail.take(n as int), j));
                    assert(avail.take(n as int)[j] == avail[j]);
                    assert(avail.take(n as int)[j + 1] == avail[j + 1]);
                } else if j + 1 > n && j + 1 < nk - 1 {
                    assert(t[j + 1 - n] == avail[j + 1]);
                } else if j + 1 == nk - 1 && k >= 2 {
                    assert(buf@[len - 2] == avail[j]);
                }
            }
        }
        n = n + k;
    }
}

/// Reads a line ending, `\n` or `\r\n`, from `reader`. Returns whether the bytes read are
/// a line ending: a first byte other than `\r` is read alone, a `\r` is read with the
/// byte after it. The error is `UnexpectedEof` if the stream ends first.
pub fn read_line_ending(reader: &mut ByteReader) -> (r: Result<bool, ErrorKind>)
    ensures
        ({
            let s = old(reader)@;
            if s.len() == 0 {
                r == Err::<bool, ErrorKind>(ErrorKind::Io(IoErrorKind::UnexpectedEof))
                    && final(reader)@ == s
            } else if s[0] != 13u8 {
                r == Ok::<bool, ErrorKind>(s[0] == 10u8) && final(reader)@ == s.skip(1)
            } else if s.len() == 1 {
                r == Err::<bool, ErrorKind>(ErrorKind::Io(IoErrorKind::UnexpectedEof))
                    && final(reader)@ == s.skip(1)
            } else {
                r == Ok::<bool, ErrorKind>(s[1] == 10u8) && final(reader)@ == s.skip(2)
            }
        }),
{
    let ghost s = reader@;
    match reader.read_byte() {
        None => Err(ErrorKind::Io(IoErrorKind::UnexpectedEof)),
        Some(b) => {
            assert(s.drop_first() =~= s.skip(1));
            if b == 13u8 {
                match reader.read_byte() {
                    None => Err(ErrorKind::Io(IoErrorKind::UnexpectedEof)),
                    Some(c) => {
                        assert(s.skip(1).drop_first() =~= s.skip(2));
                        Ok(c == 10u8)
                    },
                }
            } else {
                Ok(b == 10u8)
            }
        },
    }
}

/// `s` without the bytes equal to `b` at its start.
pub open spec fn trim_left_spec(s: Seq<u8>, b: u8) -> Seq<u8>
    decreases s.len(),
{
    if s.len() > 0 && s[0] == b {
        trim_left_spec(s.drop_first(), b)
    } else {
        s
    }
}

/// `s` without the bytes equal to `b` at its end.
pub open spec fn trim_right_spec(s: Seq<u8>, b: u8) -> Seq<u8>
    decreases s.len(),
{
    if s.len() > 0 && s.last() == b {
        trim_right_spec(s.drop_last(), b)
    } else {
        s
    }
}

/// `s` without the bytes equal to `b` at both ends.
pub open spec fn trim_spec(s: Seq<u8>, b: u8) -> Seq<u8> {
    trim_left_spec(trim_right_spec(s, b), b)
}

pub proof fn lemma_trim_left_is(s: Seq<u8>, b: u8, i: int)
    requires
        0 <= i <= s.len(),
        forall|j: int| 0 <= j < i ==> s[j] == b,
        i < s.len() ==> s[i] != b,
    ensures
        trim_left_spec(s, b) == s.skip(i),
    decreases s.len(),
{
    if i == 0 {
        assert(s.skip(0) =~= s);
    } else {
        let t = s.drop_first();
        assert forall|j: int| 0 <= j < i - 1 implies t[j] == b by {
            assert(t[j] == s[j + 1]);
        }
        lemma_trim_left_is(t, b, i - 1);
        assert(t.skip(i - 1) =~= s.skip(i));
    }
}

pub proof fn lemma_trim_right_is(s: Seq<u8>, b: u8, i: int)
    requires
        0 <= i <= s.len(),
        forall|j: int| i <= j < s.len() ==> s[j] == b,
        i > 0 ==> s[i - 1] != b,
    ensures
        trim_right_spec(s, b) == s.take(i),
    decreases s.len(),
{
    if i == s.len() {
        assert(s.take(i) =~= s);
    } else {
        let t = s.drop_last();
        lemma_trim_right_is(t, b, i);
        assert(t.take(i) =~= s.take(i));
    }
}

/// `buf` without the bytes equal to `byte` at both ends.
pub fn trim_byte(byte: u8, buf: &[u8]) -> (r: &[u8])
    ensures
        r@ == trim_spec(buf@, byte),
{
    trim_byte_left(byte, trim_byte_right(byte, buf))
}

/// `buf` without the bytes equal to `byte` at its start.
pub fn trim_byte_left(byte: u8, buf: &[u8]) -> (r: &[u8])
    ensures
        r@ == trim_left_spec(buf@, byte),
{
    let mut i: usize = 0;
    while i < buf.len() && buf[i] == byte
        invariant
            i <= buf@.len(),
            forall|j: int| 0 <= j < i ==> buf@[j] == byte,
        decreases buf@.len() - i,
    {
        i = i + 1;
    }
    proof {
        lemma_trim_left_is(buf@, byte, i as int);
    }
    let r = &buf[i..buf.len()];
    assert(r@ =~= buf@.skip(i as int));
    r
}

/// `buf` without the bytes equal to `byte` at its end.
pub fn trim_byte_right(byte: u8, buf: &[u8]) -> (r: &[u8])
    ensures
        r@ == trim_right_spec(buf@, byte),
{
    let mut i: usize = buf.len();
    while i > 0 && buf[i - 1] == byte
        invariant
            i <= buf@.len(),
            forall|j: int| i <= j < buf@.len() ==> buf@[j] == byte,
        decreases i,
    {
        i = i - 1;
    }
    proof {
        lemma_trim_right_is(buf@, byte, i as int);
    }
    let r = &buf[0..i];
    assert(r@ =~= buf@.take(i as int));
    r
}

/// `buf` without its final `\r\n` or `\n`, if it has one.
pub fn trim_crlf(buf: &[u8]) -> (r: &[u8])
    ensures
        r@ == strip_eol(buf@),
{
    let len = buf.len();
    if len >= 2 && buf[len - 2] == 13u8 && buf[len - 1] == 10u8 {
        let r = &buf[0..len - 2];
        assert(r@ =~= strip_eol(buf@));
        r
    } else if len >= 1 && buf[len - 1] == 10u8 {
        let r = &buf[0..len - 1];
        assert(r@ =~= strip_eol(buf@));
        r
    } else {
        let r = &buf[0..len];
        assert(r@ =~= buf@);
        r
    }
}

/// `s` with every byte equal to `byte` replaced by `replace`.
pub open spec fn replace_spec(s: Seq<u8>, byte: u8, replace: u8) -> Seq<u8> {
    s.map_values(|v: u8| if v == byte { replace } else { v })
}

/// Replaces every byte of `buf` equal to `byte` by `replace`.
pub fn replace_byte(byte: u8, replace: u8, buf: &mut [u8])
    ensures
        final(buf)@ == replace_spec(old(buf)@, byte, replace),
{
    let n = buf.len();
    let mut i: usize = 0;
    while i < n
        invariant
            n == buf@.len(),
            n == old(buf)@.len(),
            i <= n,
            forall|j: int| 0 <= j < i ==> buf@[j] == (if old(buf)@[j] == byte { replace } else { old(buf)@[j] }),
            forall|j: int| i <= j < n ==> buf@[j] == old(buf)@[j],
        decreases n - i,
    {
        if buf[i] == byte {
            buf[i] = replace;
        }
        i = i + 1;
    }
    assert(buf@ =~= replace_spec(old(buf)@, byte, replace));
}

/// A stream that is read through a buffer and written directly: reads take the bytes
/// received, writes collect the bytes to send.
pub struct BufReaderWrite {
    inner: ByteReader,
    written: Vec<u8>,
}

impl BufReaderWrite {
    /// The bytes still to read.
    pub closed spec fn spec_unread(self) -> Seq<u8> {
        self.inner@
    }

    /// The bytes written so far.
    pub closed spec fn spec_written(self) -> Seq<u8> {
        self.written@
    }

    /// A stream over `inner`, with nothing written yet.
    pub fn new(inner: ByteReader) -> (r: BufReaderWrite)
        ensures
            r.spec_unread() == inner@,
            r.spec_written() == Seq::<u8>::empty(),
    {
        BufReaderWrite { inner, written: Vec::new() }
    }

    /// The reader inside.
    pub fn get_mut(&mut self) -> (r: &mut ByteReader)
        ensures
            r@ == old(self).spec_unread(),
            final(self).spec_unread() == final(r)@,
            final(self).spec_written() == old(self).spec_written(),
    {
        &mut self.inner
    }

    /// Moves up to `n` bytes to the end of `out`; returns how many.
    pub fn read(&mut self, n: usize, out: &mut Vec<u8>) -> (k: usize)
        ensures
            k as int == limited(old(self).spec_unread(), n as int).len(),
            final(out)@ == old(out)@ + limited(old(self).spec_unread(), n as int),
            final(self).spec_unread() == old(self).spec_unread().skip(k as int),
            final(self).spec_written() == old(self).spec_written(),
    {
        self.inner.read_up_to(n, out)
    }

    /// Writes `buf`; returns how many bytes were written, all of them.
    pub fn write(&mut self, buf: &[u8]) -> (k: usize)
        ensures
            k == buf@.len(),
            final(self).spec_written() == old(self).spec_written() + buf@,
            final(self).spec_unread() == old(self).spec_unread(),
    {
        let mut v = crate::reader::slice_to_vec(buf);
        self.written.append(&mut v);
        buf.len()
    }

    /// The bytes written so far.
    pub fn written(&self) -> (r: &[u8])
        ensures
            r@ == self.spec_written(),
    {
        self.written.as_slice()
    }
}

} // verus!
