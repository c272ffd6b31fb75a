//! A reader that turns text in a character set into a stream of UTF-8 bytes.

use vstd::prelude::*;

use crate::charset::{decoded_text, Charset};
use crate::error::{ErrorKind, IoErrorKind};
use crate::reader::{limited, slice_to_vec, ByteReader};
use vstd::string::StringExecFns;

verus! {

/// Calls `std::str::from_utf8`: the text that `b` encodes, or `None` when `b` is not
/// well-formed UTF-8.
#[verifier::external_body]
fn str_from_utf8(b: &[u8]) -> (r: Option<&str>)
    ensures
        match r {
            Some(s) => vstd::utf8::valid_utf8(b@) && s@ == vstd::utf8::decode_utf8(b@),
            None => !vstd::utf8::valid_utf8(b@),
        },
{
    std::str::from_utf8(b).ok()
}

/// Yields the UTF-8 encoding of a text decoded from its character set.
pub struct TextReader {
    utf8: ByteReader,
}

impl TextReader {
    /// The UTF-8 bytes not yet read.
    pub closed spec fn rest(self) -> Seq<u8> {
        self.utf8@
    }

    /// A reader of `bytes`, decoded from `charset`.
    pub fn new(bytes: &[u8], charset: &Charset) -> (r: TextReader)
        ensures
            r.rest() == vstd::utf8::encode_utf8(decoded_text(charset@, bytes@)),
    {
        let text = charset.decode(bytes);
        TextReader { utf8: ByteReader::new(slice_to_vec(text.as_str().as_bytes())) }
    }

    /// Moves up to `buf.len()` of the remaining bytes into the front of `buf`; returns how
    /// many. Zero means the text is read.
    pub fn read(&mut self, buf: &mut [u8]) -> (n: usize)
        ensures
            n == limited(old(self).rest(), old(buf)@.len() as int).len(),
            final(buf)@.len() == old(buf)@.len(),
            final(buf)@.take(n as int) == old(self).rest().take(n as int),
            final(buf)@.skip(n as int) == old(buf)@.skip(n as int),
            final(self).rest() == old(self).rest().skip(n as int),
    {
        let mut got: Vec<u8> = Vec::new();
        let ghost s0 = self.utf8@;
        let n = self.utf8.read_up_to(buf.len(), &mut got);
        let mut i: usize = 0;
        while i < n
            invariant
                n == got@.len(),
                n <= buf@.len(),
                i <= n,
                buf@.len() == old(buf)@.len(),
                forall|j: int| 0 <= j < i ==> buf@[j] == got@[j],
                forall|j: int| i <= j < buf@.len() ==> buf@[j] == old(buf)@[j],
            decreases n - i,
        {
            buf[i] = got[i];
            i = i + 1;
        }
        proof {
            assert(got@ =~= limited(s0, old(buf)@.len() as int));
            assert(buf@.take(n as int) =~= got@);
            assert(buf@.skip(n as int) =~= old(buf)@.skip(n as int));
        }
        n
    }

    /// Reads the rest of the text and appends it to `out`; returns the number of bytes
    /// read. The error is `Io(InvalidData)`, with `out` as it was, when the rest does not
    /// start at a character boundary (after a `read` that split a character).
    pub fn read_to_string(&mut self, out: &mut String) -> (r: Result<usize, ErrorKind>)
        ensures
            final(self).rest() == Seq::<u8>::empty(),
            if vstd::utf8::valid_utf8(old(self).rest()) {
                r == Ok::<usize, ErrorKind>(old(self).rest().len() as usize)
                    && final(out)@ == old(out)@ + vstd::utf8::decode_utf8(old(self).rest())
            } else {
                r == Err::<usize, ErrorKind>(ErrorKind::Io(IoErrorKind::InvalidData)) && final(out)@ == old(out)@
            },
    {
        let ghost s0 = self.utf8@;
        let mut bytes: Vec<u8> = Vec::new();
        let avail = self.utf8.remaining();
        let n = self.utf8.read_up_to(avail, &mut bytes);
        proof {
            assert(bytes@ =~= s0);
            assert(self.utf8@ =~= Seq::<u8>::empty());
        }
        match str_from_utf8(bytes.as_slice()) {
            Some(s) => {
                out.append(s);
                Ok(n)
            },
            None => Err(ErrorKind::Io(IoErrorKind::InvalidData)),
        }
    }
}

} // verus!
