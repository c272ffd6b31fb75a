//! Character sets of response bodies, from the `encoding_rs` crate, and the decoding of
//! text in them.

use vstd::prelude::*;

use std::io::Read;

use encoding_rs::Encoding;
use encoding_rs_io::DecodeReaderBytesBuilder;

use crate::buffers::{trim_byte, trim_spec};
use crate::headers::{header_entries, header_get, values_of};
use crate::names;

verus! {

#[verifier::external_type_specification]
#[verifier::external_body]
pub struct ExEncoding(Encoding);

/// The canonical name of the encoding that `Encoding::for_label` finds for `label`.
pub uninterp spec fn label_encoding(label: Seq<u8>) -> Option<Seq<u8>>;

/// The text that `encoding_rs_io` decodes from `bytes` in the encoding named `charset`
/// (a byte order mark, if present, takes precedence; malformed input becomes U+FFFD).
pub uninterp spec fn decoded_text(charset: Seq<u8>, bytes: Seq<u8>) -> Seq<char>;

/// What `String::from_utf8_lossy` makes of `bytes`.
pub uninterp spec fn lossy_utf8(bytes: Seq<u8>) -> Seq<char>;

/// `UTF-8`.
pub open spec fn spec_utf_8() -> Seq<u8> {
    seq![85u8, 84u8, 70u8, 45u8, 56u8]
}

/// `windows-1252`.
pub open spec fn spec_windows_1252() -> Seq<u8> {
    seq![119u8, 105u8, 110u8, 100u8, 111u8, 119u8, 115u8, 45u8, 49u8, 50u8, 53u8, 50u8]
}

/// A character set, known by its canonical name.
#[derive(Debug, PartialEq, Eq)]
pub struct Charset {
    encoding: &'static Encoding,
    name: Vec<u8>,
}

impl View for Charset {
    type V = Seq<u8>;

    closed spec fn view(&self) -> Seq<u8> {
        self.name@
    }
}

impl Clone for Charset {
    fn clone(&self) -> (r: Self)
        ensures
            r@ == self@,
    {
        let r = Charset { encoding: self.encoding, name: self.name.clone() };
        assert(r.name@ =~= self.name@);
        r
    }
}

/// Calls `Encoding::for_label`.
#[verifier::external_body]
fn for_label_outside(label: &[u8]) -> (r: Option<Charset>)
    ensures
        match r {
            Some(c) => label_encoding(label@) == Some(c@),
            None => label_encoding(label@) is None,
        },
{
    match Encoding::for_label(label) {
        Some(encoding) => Some(Charset { encoding, name: encoding.name().as_bytes().to_vec() }),
        None => None,
    }
}

/// Takes `encoding_rs::UTF_8`, whose name is `UTF-8`.
#[verifier::external_body]
fn utf_8_outside() -> (r: Charset)
    ensures
        r@ == spec_utf_8(),
{
    Charset { encoding: encoding_rs::UTF_8, name: encoding_rs::UTF_8.name().as_bytes().to_vec() }
}

/// Takes `encoding_rs::WINDOWS_1252`, whose name is `windows-1252`.
#[verifier::external_body]
fn windows_1252_outside() -> (r: Charset)
    ensures
        r@ == spec_windows_1252(),
{
    Charset { encoding: encoding_rs::WINDOWS_1252, name: encoding_rs::WINDOWS_1252.name().as_bytes().to_vec() }
}

/// Reads `bytes` to the end through `encoding_rs_io::DecodeReaderBytes` set to the
/// encoding of `charset`. The decoder yields valid UTF-8, so reading it into a string
/// does not fail.
#[verifier::external_body]
fn decode_outside(charset: &Charset, bytes: &[u8]) -> (r: String)
    ensures
        r@ == decoded_text(charset@, bytes@),
{
    let mut text = String::new();
    let _ = DecodeReaderBytesBuilder::new().encoding(Some(charset.encoding)).build(bytes).read_to_string(&mut text);
    text
}

/// Calls `String::from_utf8_lossy`, which decodes valid UTF-8 as it is.
#[verifier::external_body]
fn utf8_lossy_outside(bytes: &[u8]) -> (r: String)
    ensures
        r@ == lossy_utf8(bytes@),
        vstd::utf8::valid_utf8(bytes@) ==> r@ == vstd::utf8::decode_utf8(bytes@),
{
    String::from_utf8_lossy(bytes).into_owned()
}

impl Charset {
    /// UTF-8.
    pub fn utf_8() -> (r: Charset)
        ensures
            r@ == spec_utf_8(),
    {
        utf_8_outside()
    }

    /// windows-1252, which is used for ISO-8859-1 as well.
    pub fn windows_1252() -> (r: Charset)
        ensures
            r@ == spec_windows_1252(),
    {
        windows_1252_outside()
    }

    /// The character set that `label` names, if any.
    pub fn for_label(label: &[u8]) -> (r: Option<Charset>)
        ensures
            match r {
                Some(c) => label_encoding(label@) == Some(c@),
                None => label_encoding(label@) is None,
            },
    {
        for_label_outside(label)
    }

    /// The canonical name of the character set.
    pub fn name(&self) -> (r: &[u8])
        ensures
            r@ == self@,
    {
        self.name.as_slice()
    }

    /// Decodes `bytes` in this character set.
    pub fn decode(&self, bytes: &[u8]) -> (r: String)
        ensures
            r@ == decoded_text(self@, bytes@),
    {
        decode_outside(self, bytes)
    }
}

/// Decodes `bytes` as UTF-8, with U+FFFD in place of malformed input.
pub fn decode_utf8_lossy(bytes: &[u8]) -> (r: String)
    ensures
        r@ == lossy_utf8(bytes@),
        vstd::utf8::valid_utf8(bytes@) ==> r@ == vstd::utf8::decode_utf8(bytes@),
{
    utf8_lossy_outside(bytes)
}

/// `charset=`.
pub open spec fn charset_prefix() -> Seq<u8> {
    seq![99u8, 104u8, 97u8, 114u8, 115u8, 101u8, 116u8, 61u8]
}

/// The label that a `Content-Type` value names after `charset=`: the value after its
/// first `;`, without surrounding spaces, if it starts with `charset=`.
pub open spec fn charset_label(value: Seq<u8>) -> Option<Seq<u8>> {
    let scol = crate::reader::find_byte(value, 59u8);
    if scol < value.len() {
        let rhs = trim_spec(value.skip(scol + 1), 32u8);
        if rhs.len() >= 8 && rhs.take(8) == charset_prefix() {
            Some(rhs.skip(8))
        } else {
            None
        }
    } else {
        None
    }
}

/// The character set of a response with headers whose `Content-Type` values are
/// `content_types`: the one its first value names, if known, else `default`, else
/// windows-1252.
pub open spec fn charset_spec(content_types: Seq<Seq<u8>>, default: Option<Seq<u8>>) -> Seq<u8> {
    let named = if content_types.len() > 0 {
        match charset_label(content_types[0]) {
            Some(label) => label_encoding(label),
            None => None,
        }
    } else {
        None
    };
    match named {
        Some(n) => n,
        None => match default {
            Some(d) => d,
            None => spec_windows_1252(),
        },
    }
}

/// The character set to decode a response body with: the one that the `Content-Type`
/// header names, else `default_charset`, else windows-1252.
pub fn get_charset(headers: &http::HeaderMap, default_charset: Option<Charset>) -> (r: Charset)
    ensures
        r@ == charset_spec(
            values_of(header_entries(*headers), names::spec_content_type()),
            match default_charset {
                Some(c) => Some(c@),
                None => None,
            },
        ),
{
    let ct = names::content_type();
    if let Some(value) = header_get(headers, ct.as_slice()) {
        let bytes = value.as_slice();
        let mut scol: usize = 0;
        while scol < bytes.len() && bytes[scol] != 59u8
            invariant
                scol <= bytes@.len(),
                forall|j: int| 0 <= j < scol ==> bytes@[j] != 59u8,
            decreases bytes@.len() - scol,
        {
            scol = scol + 1;
        }
        proof {
            crate::reader::lemma_find_byte_is(bytes@, 59u8, scol as int);
        }
        if scol < bytes.len() {
            let rest = &bytes[scol + 1..bytes.len()];
            assert(rest@ =~= bytes@.skip(scol + 1));
            let rhs = trim_byte(32u8, rest);
            if rhs.len() >= 8 && rhs[0] == 99u8 && rhs[1] == 104u8 && rhs[2] == 97u8 && rhs[3] == 114u8
                && rhs[4] == 115u8 && rhs[5] == 101u8 && rhs[6] == 116u8 && rhs[7] == 61u8 {
                let label = &rhs[8..rhs.len()];
                assert(rhs@.take(8) =~= charset_prefix());
                assert(label@ =~= rhs@.skip(8));
                if let Some(c) = Charset::for_label(label) {
                    return c;
                }
            } else {
                proof {
                    if rhs@.len() >= 8 {
                        assert(!(rhs@.take(8) =~= charset_prefix()) ==> rhs@.take(8) != charset_prefix());
                        if rhs@.take(8) == charset_prefix() {
                            assert(rhs@[0] == rhs@.take(8)[0]);
                            assert(rhs@[7] == rhs@.take(8)[7]);
                            assert(rhs@[1] == rhs@.take(8)[1]);
                            assert(rhs@[2] == rhs@.take(8)[2]);
                            assert(rhs@[3] == rhs@.take(8)[3]);
                            assert(rhs@[4] == rhs@.take(8)[4]);
                            assert(rhs@[5] == rhs@.take(8)[5]);
                            assert(rhs@[6] == rhs@.take(8)[6]);
                        }
                    }
                }
            }
        }
    }
    match default_charset {
        Some(c) => c,
        None => Charset::windows_1252(),
    }
}

} // verus!
