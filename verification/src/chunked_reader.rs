//! Decoding of the chunked transfer coding of a response body.

use vstd::prelude::*;

use crate::buffers::{ends_with_lf, line_len, read_line, read_line_ending, strip_eol};
use crate::error::{ErrorKind, InvalidResponseKind, IoErrorKind};
use crate::reader::ByteReader;

verus! {

/// Length of the encoding of a white-space character at the start of `s`, or 0.
/// White space is the Unicode `White_Space` set, encoded in UTF-8.
pub open spec fn ws_prefix_len(s: Seq<u8>) -> int {
    if s.len() >= 1 && (s[0] == 32u8 || (9u8 <= s[0] && s[0] <= 13u8)) {
        1
    } else if s.len() >= 2 && s[0] == 0xC2u8 && (s[1] == 0x85u8 || s[1] == 0xA0u8) {
        2
    } else if s.len() >= 3 && ((s[0] == 0xE1u8 && s[1] == 0x9Au8 && s[2] == 0x80u8)
        || (s[0] == 0xE2u8 && s[1] == 0x80u8 && ((0x80u8 <= s[2] && s[2] <= 0x8Au8) || s[2] == 0xA8u8
            || s[2] == 0xA9u8 || s[2] == 0xAFu8))
        || (s[0] == 0xE2u8 && s[1] == 0x81u8 && s[2] == 0x9Fu8)
        || (s[0] == 0xE3u8 && s[1] == 0x80u8 && s[2] == 0x80u8)) {
        3
    } else {
        0
    }
}

/// Length of the encoding of a white-space character at the end of `s`, or 0.
pub open spec fn ws_suffix_len(s: Seq<u8>) -> int {
    let n = s.len() as int;
    if n >= 1 && ws_prefix_len(s.subrange(n - 1, n)) == 1 {
        1
    } else if n >= 2 && ws_prefix_len(s.subrange(n - 2, n)) == 2 {
        2
    } else if n >= 3 && ws_prefix_len(s.subrange(n - 3, n)) == 3 {
        3
    } else {
        0
    }
}

/// `s` without white space at its start.
pub open spec fn trim_ws_start(s: Seq<u8>) -> Seq<u8>
    decreases s.len(),
{
    if ws_prefix_len(s) > 0 {
        trim_ws_start(s.skip(ws_prefix_len(s)))
    } else {
        s
    }
}

/// `s` without white space at its end.
pub open spec fn trim_ws_end(s: Seq<u8>) -> Seq<u8>
    decreases s.len(),
{
    if ws_suffix_len(s) > 0 {
        trim_ws_end(s.take(s.len() - ws_suffix_len(s)))
    } else {
        s
    }
}

/// Value of a hexadecimal digit.
pub open spec fn hex_digit(b: u8) -> Option<int> {
    if 48u8 <= b && b <= 57u8 {
        Some(b - 48)
    } else if 97u8 <= b && b <= 102u8 {
        Some(b - 87)
    } else if 65u8 <= b && b <= 70u8 {
        Some(b - 55)
    } else {
        None
    }
}

/// Value of a string of hexadecimal digits, if every byte is one.
pub open spec fn hex_value(s: Seq<u8>) -> Option<int>
    decreases s.len(),
{
    if s.len() == 0 {
        Some(0)
    } else {
        match (hex_value(s.drop_last()), hex_digit(s.last())) {
            (Some(v), Some(d)) => Some(v * 16 + d),
            _ => None,
        }
    }
}

/// The `usize` that a base-16 number spells, with an optional leading `+`.
pub open spec fn parse_hex_usize(s: Seq<u8>) -> Option<int> {
    let digits = if s.len() > 0 && s[0] == 43u8 { s.skip(1) } else { s };
    if digits.len() > 0 && hex_value(digits) is Some && 0 <= hex_value(digits)->0 <= usize::MAX {
        hex_value(digits)
    } else {
        None
    }
}

/// The part of a chunk size line before its extensions (`;`).
pub open spec fn before_semicolon(line: Seq<u8>) -> Seq<u8> {
    line.take(crate::reader::find_byte(line, 59u8))
}

/// The size that a chunk size line gives: hexadecimal, surrounded by optional white
/// space, optionally followed by `;` and extensions.
pub open spec fn chunk_size_value(line: Seq<u8>) -> Option<int> {
    parse_hex_usize(trim_ws(before_semicolon(line)))
}

proof fn lemma_hex_value_push(s: Seq<u8>, b: u8)
    ensures
        hex_value(s.push(b)) == (match (hex_value(s), hex_digit(b)) {
            (Some(v), Some(d)) => Some(v * 16 + d),
            _ => None::<int>,
        }),
{
    assert(s.push(b).drop_last() =~= s);
}

proof fn lemma_hex_value_nonneg(s: Seq<u8>)
    ensures
        hex_value(s) matches Some(v) ==> v >= 0,
    decreases s.len(),
{
    if s.len() > 0 {
        lemma_hex_value_nonneg(s.drop_last());
    }
}

proof fn lemma_hex_value_mono(s: Seq<u8>, i: int)
    requires
        0 <= i <= s.len(),
        hex_value(s) is Some,
    ensures
        hex_value(s.take(i)) is Some,
        hex_value(s.take(i))->0 <= hex_value(s)->0,
    decreases s.len(),
{
    if i < s.len() {
        assert(s.drop_last().take(i) =~= s.take(i));
        lemma_hex_value_mono(s.drop_last(), i);
        lemma_hex_value_nonneg(s);
        lemma_hex_value_nonneg(s.drop_last());
    } else {
        assert(s.take(i) =~= s);
    }
}

fn ws_prefix(s: &[u8]) -> (n: usize)
    ensures
        n == ws_prefix_len(s@),
{
    let len = s.len();
    if len >= 1 && (s[0] == 32u8 || (9u8 <= s[0] && s[0] <= 13u8)) {
        1
    } else if len >= 2 && s[0] == 0xC2u8 && (s[1] == 0x85u8 || s[1] == 0xA0u8) {
        2
    } else if len >= 3 && ((s[0] == 0xE1u8 && s[1] == 0x9Au8 && s[2] == 0x80u8)
        || (s[0] == 0xE2u8 && s[1] == 0x80u8 && ((0x80u8 <= s[2] && s[2] <= 0x8Au8) || s[2] == 0xA8u8
            || s[2] == 0xA9u8 || s[2] == 0xAFu8))
        || (s[0] == 0xE2u8 && s[1] == 0x81u8 && s[2] == 0x9Fu8)
        || (s[0] == 0xE3u8 && s[1] == 0x80u8 && s[2] == 0x80u8)) {
        3
    } else {
        0
    }
}

fn ws_suffix(s: &[u8]) -> (n: usize)
    ensures
        n == ws_suffix_len(s@),
{
    let len = s.len();
    if len >= 1 && ws_prefix(&s[len - 1..len]) == 1 {
        1
    } else if len >= 2 && ws_prefix(&s[len - 2..len]) == 2 {
        2
    } else if len >= 3 && ws_prefix(&s[len - 3..len]) == 3 {
        3
    } else {
        0
    }
}

/// `s` without white space at either end.
pub open spec fn trim_ws(s: Seq<u8>) -> Seq<u8> {
    trim_ws_end(trim_ws_start(s))
}

/// `s` without white space (Unicode `White_Space`, in UTF-8) at either end.
pub fn trim_whitespace(s: &[u8]) -> (r: &[u8])
    ensures
        r@ == trim_ws(s@),
{
    let mut s = s;
    let ghost s0 = s@;
    loop
        invariant
            trim_ws_start(s0) == trim_ws_start(s@),
        ensures
            trim_ws_start(s0) == s@,
        decreases s@.len(),
    {
        let k = ws_prefix(s);
        if k == 0 {
            break;
        }
        let ghost prev = s@;
        s = &s[k..s.len()];
        assert(s@ =~= prev.skip(k as int));
    }
    let ghost s1 = s@;
    loop
        invariant
            trim_ws_end(s1) == trim_ws_end(s@),
        ensures
            trim_ws_end(s1) == s@,
        decreases s@.len(),
    {
        let k = ws_suffix(s);
        if k == 0 {
            break;
        }
        let ghost prev = s@;
        s = &s[0..s.len() - k];
        assert(s@ =~= prev.take(prev.len() - k));
    }
    s
}

/// Parses the size of a chunk from a chunk size line.
pub fn parse_chunk_size(line: &[u8]) -> (r: Result<usize, ErrorKind>)
    ensures
        match chunk_size_value(line@) {
            Some(v) => r == Ok::<usize, ErrorKind>(v as usize),
            None => r == Err::<usize, ErrorKind>(ErrorKind::InvalidResponse(InvalidResponseKind::ChunkSize)),
        },
{
    let mut semi: usize = 0;
    while semi < line.len() && line[semi] != 59u8
        invariant
            semi <= line@.len(),
            forall|j: int| 0 <= j < semi ==> line@[j] != 59u8,
        decreases line@.len() - semi,
    {
        semi = semi + 1;
    }
    proof {
        crate::reader::lemma_find_byte_is(line@, 59u8, semi as int);
    }
    let prefix = &line[0..semi];
    assert(prefix@ =~= before_semicolon(line@));
    let s = trim_whitespace(prefix);
    let ghost digits_all = s@;
    let mut start: usize = 0;
    if s.len() > 0 && s[0] == 43u8 {
        start = 1;
    }
    let ghost digits = s@.skip(start as int);
    proof {
        assert(s@.skip(0) =~= s@);
        assert(digits =~= (if digits_all.len() > 0 && digits_all[0] == 43u8 { digits_all.skip(1) } else { digits_all }));
        assert(chunk_size_value(line@) == parse_hex_usize(digits_all));
    }
    if start >= s.len() {
        return Err(ErrorKind::InvalidResponse(InvalidResponseKind::ChunkSize));
    }
    let mut value: usize = 0;
    let mut i: usize = start;
    while i < s.len()
        invariant
            start <= i <= s@.len(),
            digits == s@.skip(start as int),
            digits_all == s@,
            digits == (if digits_all.len() > 0 && digits_all[0] == 43u8 { digits_all.skip(1) } else { digits_all }),
            chunk_size_value(line@) == parse_hex_usize(digits_all),
            digits.len() > 0,
            hex_value(s@.subrange(start as int, i as int)) == Some(value as int),
        decreases s@.len() - i,
    {
        let b = s[i];
        let d: usize = if 48u8 <= b && b <= 57u8 {
            (b - 48u8) as usize
        } else if 97u8 <= b && b <= 102u8 {
            (b - 87u8) as usize
        } else if 65u8 <= b && b <= 70u8 {
            (b - 55u8) as usize
        } else {
            proof {
                assert(s@.subrange(start as int, i + 1) =~= s@.subrange(start as int, i as int).push(b));
                lemma_hex_value_push(s@.subrange(start as int, i as int), b);
                assert(s@.subrange(start as int, i + 1) =~= digits.take(i + 1 - start));
                if hex_value(digits) is Some {
                    lemma_hex_value_mono(digits, i + 1 - start);
                }
            }
            return Err(ErrorKind::InvalidResponse(InvalidResponseKind::ChunkSize));
        };
        proof {
            assert(s@.subrange(start as int, i + 1) =~= s@.subrange(start as int, i as int).push(b));
            lemma_hex_value_push(s@.subrange(start as int, i as int), b);
            assert(s@.subrange(start as int, i + 1) =~= digits.take(i + 1 - start));
        }
        match value.checked_mul(16) {
            Some(v16) => match v16.checked_add(d) {
                Some(v) => {
                    value = v;
                },
                None => {
                    proof {
                        if hex_value(digits) is Some {
                            lemma_hex_value_mono(digits, i + 1 - start);
                        }
                    }
                    return Err(ErrorKind::InvalidResponse(InvalidResponseKind::ChunkSize));
                },
            },
            None => {
                proof {
                    if hex_value(digits) is Some {
                        lemma_hex_value_mono(digits, i + 1 - start);
                    }
                }
                return Err(ErrorKind::InvalidResponse(InvalidResponseKind::ChunkSize));
            },
        }
        i = i + 1;
    }
    assert(s@.subrange(start as int, s@.len() as int) =~= digits);
    Ok(value)
}

/// The largest piece of a chunk that the reader holds at once.
pub const MAX_BUFFER_LEN: usize = 65536;

/// What `read_line_ending` yields on a stream whose bytes are `s`: whether the line
/// ending is valid and how many bytes it reads.
pub open spec fn line_ending(s: Seq<u8>) -> Result<(bool, int), ErrorKind> {
    if s.len() == 0 {
        Err(ErrorKind::Io(IoErrorKind::UnexpectedEof))
    } else if s[0] != 13u8 {
        Ok((s[0] == 10u8, 1))
    } else if s.len() == 1 {
        Err(ErrorKind::Io(IoErrorKind::UnexpectedEof))
    } else {
        Ok((s[1] == 10u8, 2))
    }
}

/// Decodes a chunked body from the bytes `s` that follow the response head: chunks of
/// a size line (at most 128 bytes) and that many bytes and a line ending, until a chunk
/// of size 0.
pub open spec fn decode_chunked(s: Seq<u8>) -> Result<Seq<u8>, ErrorKind>
    decreases s.len(), 1int,
{
    let n = line_len(s, 128);
    let got = s.take(n);
    if !ends_with_lf(got) || strip_eol(got).len() == 0 {
        Err(ErrorKind::Io(IoErrorKind::UnexpectedEof))
    } else {
        match chunk_size_value(strip_eol(got)) {
            None => Err(ErrorKind::InvalidResponse(InvalidResponseKind::ChunkSize)),
            Some(size) => if 0 < n <= s.len() { chunk_tail(s.skip(n), size) } else { Err(ErrorKind::Io(IoErrorKind::Other)) },
        }
    }
}

/// Decodes the rest of a chunked body from `r`, whose first `size` bytes are the data
/// of the current chunk.
pub open spec fn chunk_tail(r: Seq<u8>, size: int) -> Result<Seq<u8>, ErrorKind>
    decreases r.len(), 0int,
{
    if size < 0 || r.len() < size {
        Err(ErrorKind::Io(IoErrorKind::UnexpectedEof))
    } else {
        let after = r.skip(size);
        match line_ending(after) {
            Err(e) => Err(e),
            Ok((valid, k)) => if !valid {
                Err(ErrorKind::InvalidResponse(InvalidResponseKind::Chunk))
            } else if size == 0 {
                Ok(Seq::<u8>::empty())
            } else {
                match decode_chunked(after.skip(k)) {
                    Ok(d) => Ok(r.take(size) + d),
                    Err(e) => Err(e),
                }
            },
        }
    }
}


/// The size that the chunk size line at the front of `s` gives and the length of that
/// line, if the line is well formed.
pub open spec fn size_line(s: Seq<u8>) -> Option<(int, int)> {
    let n = line_len(s, 128);
    let got = s.take(n);
    if !ends_with_lf(got) || strip_eol(got).len() == 0 || !(0 < n <= s.len()) {
        None
    } else {
        match chunk_size_value(strip_eol(got)) {
            Some(size) => Some((size, n)),
            None => None,
        }
    }
}

/// `p` followed by the bytes of `res`, or the error of `res`.
pub open spec fn prepend(p: Seq<u8>, res: Result<Seq<u8>, ErrorKind>) -> Result<Seq<u8>, ErrorKind> {
    match res {
        Ok(d) => Ok(p + d),
        Err(e) => Err(e),
    }
}

/// Reading the first `m` bytes of a chunk's data leaves the rest of the chunk to decode.
proof fn lemma_chunk_piece(r: Seq<u8>, size: int, m: int)
    requires
        0 < m < size,
        m <= r.len(),
    ensures
        chunk_tail(r, size) == prepend(r.take(m), chunk_tail(r.skip(m), size - m)),
{
    let r2 = r.skip(m);
    if r.len() >= size {
        assert(r2.skip(size - m) =~= r.skip(size));
        match line_ending(r.skip(size)) {
            Ok((v, kk)) => {
                match decode_chunked(r.skip(size).skip(kk)) {
                    Ok(d) => {
                        assert(r.take(m) + (r2.take(size - m) + d) =~= r.take(size) + d);
                    },
                    Err(_) => {},
                }
            },
            Err(_) => {},
        }
    }
}

/// Reading the last bytes of a chunk and a valid line ending leaves the next chunks.
proof fn lemma_chunk_end(r: Seq<u8>, size: int)
    requires
        0 <= size <= r.len(),
        line_ending(r.skip(size)) matches Ok((v, _)) && v,
    ensures
        chunk_tail(r, size) == (if size == 0 {
            Ok(Seq::<u8>::empty())
        } else {
            prepend(r.take(size), decode_chunked(r.skip(size).skip((line_ending(r.skip(size))->Ok_0).1)))
        }),
{
}

proof fn lemma_prepend_empty(res: Result<Seq<u8>, ErrorKind>)
    ensures
        prepend(Seq::<u8>::empty(), res) == res,
{
    match res {
        Ok(d) => assert(Seq::<u8>::empty() + d =~= d),
        Err(_) => {},
    }
}

/// A reader of a chunked body.
pub struct ChunkedReader {
    inner: ByteReader,
    buffer: Vec<u8>,
    consumed: usize,
    remaining: usize,
    reached_eof: bool,
}

impl ChunkedReader {
    /// The marks agree with the buffer and the state.
    pub closed spec fn wf(self) -> bool {
        &&& self.consumed <= self.buffer@.len()
        &&& self.buffer@.len() <= MAX_BUFFER_LEN
        &&& self.remaining > 0 ==> !self.reached_eof
    }

    /// The body has ended: nothing more is taken from the stream.
    pub closed spec fn ended(self) -> bool {
        self.remaining == 0 && self.reached_eof
    }

    /// The bytes of the current chunk not yet taken from the stream.
    pub closed spec fn spec_remaining(self) -> usize {
        self.remaining
    }

    /// Decoded bytes held but not yet consumed.
    pub closed spec fn pending(self) -> Seq<u8> {
        self.buffer@.subrange(self.consumed as int, self.buffer@.len() as int)
    }

    /// The decoded bytes that the reader will still yield, or the error it will meet.
    pub closed spec fn future(self) -> Result<Seq<u8>, ErrorKind> {
        let rest = if self.remaining == 0 && self.reached_eof {
            Ok(Seq::<u8>::empty())
        } else if self.remaining == 0 {
            decode_chunked(self.inner@)
        } else {
            chunk_tail(self.inner@, self.remaining as int)
        };
        prepend(self.pending(), rest)
    }

    /// Bytes of the underlying stream not yet read.
    pub closed spec fn source(self) -> Seq<u8> {
        self.inner@
    }

    /// A reader of the chunked body that `reader` yields.
    pub fn new(reader: ByteReader) -> (r: ChunkedReader)
        ensures
            r.wf(),
            r.future() == decode_chunked(reader@),
            r.source() == reader@,
    {
        let r = ChunkedReader { inner: reader, buffer: Vec::new(), consumed: 0, remaining: 0, reached_eof: false };
        proof {
            assert(r.pending() =~= Seq::<u8>::empty());
            match decode_chunked(reader@) {
                Ok(d) => assert(r.pending() + d =~= d),
                Err(_) => {},
            }
        }
        r
    }

    /// Reads and parses the next chunk size line.
    fn read_chunk_size(&mut self) -> (r: Result<usize, ErrorKind>)
        ensures
            ({
                let s = old(self).inner@;
                let n = line_len(s, 128);
                let got = s.take(n);
                match r {
                    Ok(size) => ends_with_lf(got) && strip_eol(got).len() > 0
                        && chunk_size_value(strip_eol(got)) == Some(size as int)
                        && final(self).inner@ == s.skip(n),
                    Err(e) => decode_chunked(s) == Err::<Seq<u8>, ErrorKind>(e),
                }
            }),
            ({
                let got = old(self).inner@.take(line_len(old(self).inner@, 128));
                ends_with_lf(got) && strip_eol(got).len() > 0 && chunk_size_value(strip_eol(got)) is Some ==> r is Ok
            }),
            final(self).consumed == old(self).consumed,
            final(self).remaining == old(self).remaining,
            final(self).reached_eof == old(self).reached_eof,
    {
        let ghost s = self.inner@;
        match read_line(&mut self.inner, &mut self.buffer, 128) {
            Err(e) => {
                return Err(e);
            },
            Ok(_) => {},
        }
        if self.buffer.len() == 0 {
            return Err(ErrorKind::Io(IoErrorKind::UnexpectedEof));
        }
        proof {
            assert(line_len(s, 128) <= s.len()) by {
                crate::reader::lemma_find_byte_bounds(crate::reader::limited(s, 128), 10u8);
            }
        }
        let r = parse_chunk_size(self.buffer.as_slice());
        proof {
            let n = line_len(s, 128);
            assert(self.buffer@ == strip_eol(s.take(n)));
            assert(n > 0);
            if r is Err {
                assert(chunk_size_value(strip_eol(s.take(n))) is None);
                assert(decode_chunked(s) == Err::<Seq<u8>, ErrorKind>(ErrorKind::InvalidResponse(InvalidResponseKind::ChunkSize)));
            }
        }
        r
    }

    /// Puts the reader in the state where it yields nothing more.
    fn fail(&mut self)
        ensures
            final(self).wf(),
            final(self).future() == Ok::<Seq<u8>, ErrorKind>(Seq::<u8>::empty()),
            final(self).inner@ == old(self).inner@,
            final(self).ended(),
    {
        self.buffer.clear();
        self.consumed = 0;
        self.remaining = 0;
        self.reached_eof = true;
        assert(self.pending() + Seq::<u8>::empty() =~= Seq::<u8>::empty());
    }

    /// The decoded bytes held, after decoding the next piece of the body if every held
    /// byte has been consumed. An empty result means the body has ended. After an
    /// error the reader yields nothing more.
    #[verifier::rlimit(30)]
    pub fn fill_buf(&mut self) -> (r: Result<&[u8], ErrorKind>)
        requires
            old(self).wf(),
        ensures
            final(self).wf(),
            match r {
                Ok(data) => {
                    &&& data@ == final(self).pending()
                    &&& final(self).future() == old(self).future()
                    &&& data@.len() == 0 ==> old(self).future() == Ok::<Seq<u8>, ErrorKind>(Seq::<u8>::empty())
                    &&& old(self).pending().len() > 0 ==> data@ == old(self).pending()
                        && final(self).source() == old(self).source()
                    &&& old(self).pending().len() == 0 && data@.len() > 0
                        ==> final(self).source().len() < old(self).source().len()
                    &&& data@.len() <= MAX_BUFFER_LEN
                    &&& old(self).ended() ==> data@ == old(self).pending() && final(self).source() == old(self).source()
                        && final(self).ended()
                    &&& data@.len() == 0 ==> final(self).ended()
                    &&& old(self).pending().len() == 0 && !old(self).ended() ==> ({
                        let from_line = old(self).spec_remaining() == 0;
                        let size = if from_line { (size_line(old(self).source())->0).0 } else { old(self).spec_remaining() as int };
                        let r = if from_line { old(self).source().skip((size_line(old(self).source())->0).1) } else { old(self).source() };
                        let m = if size < MAX_BUFFER_LEN { size } else { MAX_BUFFER_LEN as int };
                        &&& from_line ==> size_line(old(self).source()) is Some
                        &&& data@ == r.take(m)
                        &&& final(self).spec_remaining() == size - m
                        &&& m == size ==> (line_ending(r.skip(m)) matches Ok((valid, k)) && valid
                            && final(self).source() == r.skip(m).skip(k))
                        &&& m < size ==> final(self).source() == r.skip(m)
                    })
                },
                Err(e) => old(self).future() == Err::<Seq<u8>, ErrorKind>(e)
                    && final(self).future() == Ok::<Seq<u8>, ErrorKind>(Seq::<u8>::empty())
                    && final(self).ended(),
            },
    {
        let ghost f0 = self.future();
        if self.buffer.len() == self.consumed && !(self.remaining == 0 && self.reached_eof) {
            proof {
                assert(self.pending() =~= Seq::<u8>::empty());
                lemma_prepend_empty(if self.remaining == 0 { decode_chunked(self.inner@) } else { chunk_tail(self.inner@, self.remaining as int) });
            }
            let ghost s_line = self.inner@;
            if self.remaining == 0 {
                match self.read_chunk_size() {
                    Err(e) => {
                        self.fail();
                        return Err(e);
                    },
                    Ok(size) => {
                        proof {
                            let n = line_len(s_line, 128);
                            crate::reader::lemma_find_byte_bounds(crate::reader::limited(s_line, 128), 10u8);
                            assert(0 < n <= s_line.len());
                            assert(decode_chunked(s_line) == chunk_tail(s_line.skip(n), size as int));
                        }
                        self.remaining = size;
                        if size == 0 {
                            self.reached_eof = true;
                        }
                    },
                }
            }
            // the rest of the body now decodes as `chunk_tail(r, size)`
            let ghost r = self.inner@;
            let ghost size = self.remaining as int;
            assert(f0 == chunk_tail(r, size));
            let m = if self.remaining < MAX_BUFFER_LEN { self.remaining } else { MAX_BUFFER_LEN };
            self.buffer.clear();
            let k = self.inner.read_up_to(m, &mut self.buffer);
            if k < m {
                self.fail();
                return Err(ErrorKind::Io(IoErrorKind::UnexpectedEof));
            }
            proof {
                assert(self.buffer@ =~= r.take(m as int));
            }
            self.consumed = 0;
            self.remaining = self.remaining - m;
            proof {
                assert(self.pending() =~= r.take(m as int));
            }
            if self.remaining == 0 {
                let ghost after = r.skip(size);
                match read_line_ending(&mut self.inner) {
                    Err(e) => {
                        self.fail();
                        return Err(e);
                    },
                    Ok(valid) => {
                        if !valid {
                            self.fail();
                            return Err(ErrorKind::InvalidResponse(InvalidResponseKind::Chunk));
                        }
                        proof {
                            lemma_chunk_end(r, size);
                            if size == 0 {
                                lemma_prepend_empty(Ok(Seq::<u8>::empty()));
                            }
                        }
                    },
                }
            } else {
                proof {
                    lemma_chunk_piece(r, size, m as int);
                }
            }
        }
        let data = &self.buffer[self.consumed..self.buffer.len()];
        proof {
            assert(data@ =~= self.pending());
        }
        Ok(data)
    }

    /// Marks `amt` of the held decoded bytes as consumed, at most all of them.
    pub fn consume(&mut self, amt: usize)
        requires
            old(self).wf(),
        ensures
            final(self).wf(),
            ({
                let k = if amt < old(self).pending().len() { amt as int } else { old(self).pending().len() as int };
                &&& final(self).pending() == old(self).pending().skip(k)
                &&& final(self).future() == (match old(self).future() {
                    Ok(d) => Ok(d.skip(k)),
                    Err(e) => Err(e),
                })
            }),
            final(self).source() == old(self).source(),
    {
        let len = self.buffer.len();
        let ghost k = if amt < self.pending().len() { amt as int } else { self.pending().len() as int };
        let ghost p0 = self.pending();
        if amt >= len - self.consumed {
            self.consumed = len;
        } else {
            self.consumed = self.consumed + amt;
        }
        proof {
            assert(self.pending() =~= p0.skip(k));
            let rest = if self.remaining == 0 && self.reached_eof {
                Ok(Seq::<u8>::empty())
            } else if self.remaining == 0 {
                decode_chunked(self.inner@)
            } else {
                chunk_tail(self.inner@, self.remaining as int)
            };
            match rest {
                Ok(d) => assert((p0 + d).skip(k) =~= p0.skip(k) + d),
                Err(_) => {},
            }
        }
    }

    /// Moves up to `buf.len()` decoded bytes into the front of `buf`; returns how many.
    /// Zero means the body has ended (or `buf` is empty).
    pub fn read(&mut self, buf: &mut [u8]) -> (r: Result<usize, ErrorKind>)
        requires
            old(self).wf(),
        ensures
            final(self).wf(),
            final(buf)@.len() == old(buf)@.len(),
            match r {
                Ok(n) => match old(self).future() {
                    Ok(d) => n <= d.len() && n <= old(buf)@.len()
                        && final(buf)@.take(n as int) == d.take(n as int)
                        && final(buf)@.skip(n as int) == old(buf)@.skip(n as int)
                        && final(self).future() == Ok::<Seq<u8>, ErrorKind>(d.skip(n as int))
                        && (n == 0 ==> d.len() == 0 || old(buf)@.len() == 0),
                    Err(e) => final(self).future() == Err::<Seq<u8>, ErrorKind>(e)
                        && n <= old(buf)@.len()
                        && (old(buf)@.len() > 0 ==> n > 0)
                        && (old(self).pending().len() > 0 ==> n <= old(self).pending().len()
                            && final(buf)@.take(n as int) == old(self).pending().take(n as int))
                        && final(buf)@.skip(n as int) == old(buf)@.skip(n as int)
                        && (final(self).source().len() < old(self).source().len()
                            || (final(self).source() == old(self).source()
                                && (old(buf)@.len() > 0 ==> final(self).pending().len() < old(self).pending().len()))),
                },
                Err(e) => old(self).future() == Err::<Seq<u8>, ErrorKind>(e),
            },
    {
        let ghost f0 = self.future();
        let ghost p0 = self.pending();
        let ghost src0 = self.source();
        let data = self.fill_buf()?;
        let n = if data.len() < buf.len() { data.len() } else { buf.len() };
        let mut i: usize = 0;
        while i < n
            invariant
                n <= data@.len(),
                n <= buf@.len(),
                i <= n,
                buf@.len() == old(buf)@.len(),
                forall|j: int| 0 <= j < i ==> buf@[j] == data@[j],
                forall|j: int| i <= j < buf@.len() ==> buf@[j] == old(buf)@[j],
            decreases n - i,
        {
            buf[i] = data[i];
            i = i + 1;
        }
        let ghost p = data@;
        self.consume(n);
        proof {
            assert(buf@.take(n as int) =~= p.take(n as int));
            assert(buf@.skip(n as int) =~= old(buf)@.skip(n as int));
            match f0 {
                Ok(d) => {
                    assert(p.len() <= d.len());
                    assert(d.take(n as int) =~= p.take(n as int));
                },
                Err(_) => {},
            }
        }
        Ok(n)
    }

    /// Reads the rest of the body to the end of `out`; returns how many bytes it added.
    #[verifier::rlimit(60)]
    pub fn read_to_end(&mut self, out: &mut Vec<u8>) -> (r: Result<usize, ErrorKind>)
        requires
            old(self).wf(),
        ensures
            final(self).wf(),
            match old(self).future() {
                Ok(d) => r == Ok::<usize, ErrorKind>(d.len() as usize) && final(out)@ == old(out)@ + d,
                Err(e) => r == Err::<usize, ErrorKind>(e),
            },
    {
        let ghost f0 = self.future();
        let ghost o0 = out@;
        let start = out.len();
        let mut total: usize = 0;
        loop
            invariant
                self.wf(),
                f0 == old(self).future(),
                o0 == old(out)@,
                start == o0.len(),
                out@.len() == o0.len() + total,
                match f0 {
                    Ok(d) => self.future() matches Ok(d2) && out@ == o0 + d.take(total as int)
                        && d == d.take(total as int) + d2 && total <= d.len(),
                    Err(e) => self.future() == Err::<Seq<u8>, ErrorKind>(e),
                },
            decreases self.source().len(), self.pending().len(),
        {
            let ghost src0 = self.source().len();
            let ghost pen0 = self.pending().len();
            let data = match self.fill_buf() {
                Ok(data) => data,
                Err(e) => {
                    return Err(e);
                },
            };
            let n = data.len();
            if n == 0 {
                proof {
                    match f0 {
                        Ok(d) => {
                            assert(d =~= d.take(total as int));
                        },
                        Err(e) => {},
                    }
                }
                return Ok(total);
            }
            let ghost p = data@;
            let mut i: usize = 0;
            let ghost out0 = out@;
            while i < n
                invariant
                    n == data@.len(),
                    i <= n,
                    out@ == out0 + data@.take(i as int),
                decreases n - i,
            {
                out.push(data[i]);
                i = i + 1;
                assert(out@ =~= out0 + data@.take(i as int));
            }
            assert(data@.take(n as int) =~= data@);
            self.consume(n);
            proof {
                match f0 {
                    Ok(d) => {
                        let d1 = d.skip(total as int);
                        assert(d =~= d.take(total as int) + d1);
                        assert(d1.take(n as int) =~= p);
                        assert(d.take(total as int) + p =~= d.take(total + n));
                        assert(d.take(total + n).len() == total + n);
                        assert(d.skip(total + n) =~= d1.skip(n as int));
                        assert(d =~= d.take(total + n) + d1.skip(n as int));
                    },
                    Err(_) => {},
                }
            }
            total = out.len() - start;
        }
    }
}

} // verus!
