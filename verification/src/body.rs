//! Request bodies: what a body is made of, how its size is announced, and the chunked
//! framing of bodies whose size is not known in advance.

use vstd::prelude::*;

use crate::error::ErrorKind;
use crate::reader::slice_to_vec;

verus! {

/// How the size of a request body is announced.
#[derive(Debug, Clone, Copy, PartialEq, Eq, Structural)]
pub enum BodyKind {
    /// An empty request body.
    Empty,
    /// A request body with a known length.
    KnownLength(u64),
    /// A request body of unknown length, sent with chunked transfer encoding.
    Chunked,
}

/// A rewindable request body.
pub trait Body {
    /// The bytes that `write` puts out.
    spec fn content(&self) -> Seq<u8>;

    /// How the size of the body is announced, or the error met finding out.
    spec fn spec_kind(&self) -> Result<BodyKind, ErrorKind>;

    /// The content type that the body calls for, or the error met finding out.
    spec fn spec_content_type(&self) -> Result<Option<Seq<u8>>, ErrorKind>;

    /// The body can name its content type.
    spec fn describable(&self) -> bool;

    /// Determines how the size of the body is announced.
    fn kind(&mut self) -> (r: Result<BodyKind, ErrorKind>)
        ensures
            r == old(self).spec_kind(),
            final(self).content() == old(self).content(),
            final(self).spec_kind() == old(self).spec_kind(),
            final(self).spec_content_type() == old(self).spec_content_type(),
            final(self).describable() == old(self).describable(),
    ;

    /// Writes the body out at the end of `out`; what `out` held stays in front, also on
    /// an error.
    fn write(&mut self, out: &mut Vec<u8>) -> (r: Result<(), ErrorKind>)
        ensures
            r is Ok ==> final(out)@ == old(out)@ + old(self).content(),
            final(out)@.len() >= old(out)@.len(),
            final(out)@.subrange(0, old(out)@.len() as int) == old(out)@,
    ;

    /// The value of the `Content-Type` header that the body calls for, if any.
    fn content_type(&mut self) -> (r: Result<Option<Vec<u8>>, ErrorKind>)
        requires
            old(self).describable(),
        ensures
            match r {
                Ok(Some(t)) => old(self).spec_content_type() == Ok::<Option<Seq<u8>>, ErrorKind>(Some(t@)),
                Ok(None) => old(self).spec_content_type() == Ok::<Option<Seq<u8>>, ErrorKind>(None),
                Err(e) => old(self).spec_content_type() == Err::<Option<Seq<u8>>, ErrorKind>(e),
            },
            final(self).content() == old(self).content(),
            final(self).spec_kind() == old(self).spec_kind(),
            final(self).describable() == old(self).describable(),
    ;
}

/// An empty request body.
#[derive(Debug, Clone, Copy)]
pub struct Empty;

impl Body for Empty {
    open spec fn content(&self) -> Seq<u8> {
        Seq::empty()
    }

    open spec fn spec_kind(&self) -> Result<BodyKind, ErrorKind> {
        Ok(BodyKind::Empty)
    }

    open spec fn spec_content_type(&self) -> Result<Option<Seq<u8>>, ErrorKind> {
        Ok(None)
    }

    open spec fn describable(&self) -> bool {
        true
    }

    fn kind(&mut self) -> (r: Result<BodyKind, ErrorKind>) {
        Ok(BodyKind::Empty)
    }

    fn write(&mut self, out: &mut Vec<u8>) -> (r: Result<(), ErrorKind>)
        ensures
            r is Ok,
    {
        assert(out@ =~= out@ + Seq::<u8>::empty());
        Ok(())
    }

    fn content_type(&mut self) -> (r: Result<Option<Vec<u8>>, ErrorKind>) {
        Ok(None)
    }
}

/// A request body holding UTF-8 text.
#[derive(Debug, Clone)]
pub struct Text(pub String);

impl Body for Text {
    open spec fn content(&self) -> Seq<u8> {
        vstd::utf8::encode_utf8(self.0@)
    }

    open spec fn spec_kind(&self) -> Result<BodyKind, ErrorKind> {
        Ok(BodyKind::KnownLength(self.content().len() as u64))
    }

    open spec fn spec_content_type(&self) -> Result<Option<Seq<u8>>, ErrorKind> {
        Ok(None)
    }

    open spec fn describable(&self) -> bool {
        true
    }

    fn kind(&mut self) -> (r: Result<BodyKind, ErrorKind>) {
        let b = self.0.as_str().as_bytes();
        Ok(BodyKind::KnownLength(b.len() as u64))
    }

    fn write(&mut self, out: &mut Vec<u8>) -> (r: Result<(), ErrorKind>)
        ensures
            r is Ok,
    {
        let mut bytes = slice_to_vec(self.0.as_str().as_bytes());
        out.append(&mut bytes);
        Ok(())
    }

    fn content_type(&mut self) -> (r: Result<Option<Vec<u8>>, ErrorKind>) {
        Ok(None)
    }
}

/// A request body holding binary data.
#[derive(Debug, Clone)]
pub struct Bytes(pub Vec<u8>);

impl Body for Bytes {
    open spec fn content(&self) -> Seq<u8> {
        self.0@
    }

    open spec fn spec_kind(&self) -> Result<BodyKind, ErrorKind> {
        Ok(BodyKind::KnownLength(self.content().len() as u64))
    }

    open spec fn spec_content_type(&self) -> Result<Option<Seq<u8>>, ErrorKind> {
        Ok(None)
    }

    open spec fn describable(&self) -> bool {
        true
    }

    fn kind(&mut self) -> (r: Result<BodyKind, ErrorKind>) {
        Ok(BodyKind::KnownLength(self.0.len() as u64))
    }

    fn write(&mut self, out: &mut Vec<u8>) -> (r: Result<(), ErrorKind>)
        ensures
            r is Ok,
    {
        let mut bytes = slice_to_vec(self.0.as_slice());
        out.append(&mut bytes);
        Ok(())
    }

    fn content_type(&mut self) -> (r: Result<Option<Vec<u8>>, ErrorKind>) {
        Ok(None)
    }
}

/// The upper-case hexadecimal digit of `d`, for `d < 16`.
pub open spec fn hex_char(d: nat) -> u8 {
    if d < 10 {
        (48 + d) as u8
    } else {
        (55 + d) as u8
    }
}

/// `n` in upper-case hexadecimal, without leading zeros (`0` for zero).
pub open spec fn hex_digits(n: nat) -> Seq<u8>
    decreases n,
{
    if n < 16 {
        seq![hex_char(n)]
    } else {
        hex_digits(n / 16).push(hex_char(n % 16))
    }
}

/// `content` in chunked transfer encoding: one chunk holding all of it, if it is not
/// empty, then the last chunk, of size zero.
pub open spec fn chunk_encode(content: Seq<u8>) -> Seq<u8> {
    let last = seq![48u8, 13u8, 10u8, 13u8, 10u8];
    if content.len() == 0 {
        last
    } else {
        hex_digits(content.len()) + seq![13u8, 10u8] + content + seq![13u8, 10u8] + last
    }
}

/// Appends `n` in upper-case hexadecimal to `out`.
fn write_hex(n: usize, out: &mut Vec<u8>)
    ensures
        final(out)@ == old(out)@ + hex_digits(n as nat),
{
    let mut digits: Vec<u8> = Vec::new();
    let mut m: usize = n;
    loop
        invariant_except_break
            hex_digits(n as nat) == hex_digits(m as nat) + digits@.reverse(),
        ensures
            hex_digits(n as nat) == digits@.reverse(),
        decreases m,
    {
        let d: usize = m % 16;
        let c: u8 = if d < 10 { (48 + d) as u8 } else { (55 + d) as u8 };
        let ghost prev = digits@;
        digits.push(c);
        proof {
            assert(digits@.reverse() =~= seq![c] + prev.reverse());
        }
        if m < 16 {
            proof {
                assert(hex_digits(m as nat) =~= seq![c]);
                assert(hex_digits(n as nat) =~= digits@.reverse());
            }
            break;
        }
        proof {
            assert(hex_digits(m as nat) =~= hex_digits((m / 16) as nat).push(c));
            assert(hex_digits((m / 16) as nat).push(c) + prev.reverse() =~= hex_digits((m / 16) as nat) + (seq![c] + prev.reverse()));
        }
        m = m / 16;
    }
    let ghost start = out@;
    let mut i: usize = digits.len();
    while i > 0
        invariant
            i <= digits@.len(),
            hex_digits(n as nat) == digits@.reverse(),
            out@ == start + digits@.reverse().take(digits@.len() - i),
        decreases i,
    {
        i = i - 1;
        out.push(digits[i]);
        proof {
            assert(digits@.reverse().take(digits@.len() - i) =~= digits@.reverse().take(digits@.len() - i - 1).push(digits@[i as int]));
        }
    }
    assert(digits@.reverse().take(digits@.len() as int) =~= digits@.reverse());
}

/// Appends `content` to `out` in chunked transfer encoding.
pub fn write_chunked(content: &[u8], out: &mut Vec<u8>)
    ensures
        final(out)@ == old(out)@ + chunk_encode(content@),
{
    let ghost start = out@;
    if content.len() > 0 {
        write_hex(content.len(), out);
        out.push(13u8);
        out.push(10u8);
        let mut body = slice_to_vec(content);
        out.append(&mut body);
        out.push(13u8);
        out.push(10u8);
    }
    out.push(48u8);
    out.push(13u8);
    out.push(10u8);
    out.push(13u8);
    out.push(10u8);
    proof {
        if content@.len() == 0 {
            assert(out@ =~= start + chunk_encode(content@));
        } else {
            assert(out@ =~= start + chunk_encode(content@));
        }
    }
}

} // verus!
