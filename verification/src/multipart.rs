//! Multipart forms: the fields of a form, their serialization as `multipart/form-data`
//! with a given boundary, and the reader of the serialized form.

use vstd::prelude::*;

use crate::body::{Body, BodyKind};
use crate::error::ErrorKind;
use crate::names;
use crate::reader::{cursor_at_end, limited, slice_to_vec, ByteReader};
use crate::request::append_bytes;

verus! {

/// `\r\nContent-Disposition: form-data; name="`.
pub open spec fn disposition() -> Seq<u8> {
    seq![13u8, 10u8, 67u8, 111u8, 110u8, 116u8, 101u8, 110u8, 116u8, 45u8, 68u8, 105u8, 115u8, 112u8, 111u8, 115u8,
        105u8, 116u8, 105u8, 111u8, 110u8, 58u8, 32u8, 102u8, 111u8, 114u8, 109u8, 45u8, 100u8, 97u8, 116u8, 97u8,
        59u8, 32u8, 110u8, 97u8, 109u8, 101u8, 61u8, 34u8]
}

fn disposition_bytes() -> (r: Vec<u8>)
    ensures
        r@ == disposition(),
{
    let r = vec![13u8, 10u8, 67u8, 111u8, 110u8, 116u8, 101u8, 110u8, 116u8, 45u8, 68u8, 105u8, 115u8, 112u8, 111u8,
        115u8, 105u8, 116u8, 105u8, 111u8, 110u8, 58u8, 32u8, 102u8, 111u8, 114u8, 109u8, 45u8, 100u8, 97u8, 116u8,
        97u8, 59u8, 32u8, 110u8, 97u8, 109u8, 101u8, 61u8, 34u8];
    assert(r@ =~= disposition());
    r
}

/// `; filename="`.
pub open spec fn filename_attr() -> Seq<u8> {
    seq![59u8, 32u8, 102u8, 105u8, 108u8, 101u8, 110u8, 97u8, 109u8, 101u8, 61u8, 34u8]
}

fn filename_attr_bytes() -> (r: Vec<u8>)
    ensures
        r@ == filename_attr(),
{
    let r = vec![59u8, 32u8, 102u8, 105u8, 108u8, 101u8, 110u8, 97u8, 109u8, 101u8, 61u8, 34u8];
    assert(r@ =~= filename_attr());
    r
}

/// `\r\nContent-Type: `.
pub open spec fn content_type_line() -> Seq<u8> {
    seq![13u8, 10u8, 67u8, 111u8, 110u8, 116u8, 101u8, 110u8, 116u8, 45u8, 84u8, 121u8, 112u8, 101u8, 58u8, 32u8]
}

fn content_type_line_bytes() -> (r: Vec<u8>)
    ensures
        r@ == content_type_line(),
{
    let r = vec![13u8, 10u8, 67u8, 111u8, 110u8, 116u8, 101u8, 110u8, 116u8, 45u8, 84u8, 121u8, 112u8, 101u8, 58u8, 32u8];
    assert(r@ =~= content_type_line());
    r
}

/// The bytes of a string.
pub open spec fn str_bytes(s: String) -> Seq<u8> {
    vstd::utf8::encode_utf8(s@)
}

/// The serialized text field `name` with value `text`, after `boundary`.
pub open spec fn text_part(boundary: Seq<u8>, name: Seq<u8>, text: Seq<u8>) -> Seq<u8> {
    boundary + disposition() + name + seq![34u8, 13u8, 10u8, 13u8, 10u8] + text
}

/// The header of a stream field `name` with `content_type` and `filename`, after
/// `boundary`.
pub open spec fn field_header(boundary: Seq<u8>, name: Seq<u8>, content_type: Seq<u8>, filename: Option<Seq<u8>>) -> Seq<u8> {
    boundary + disposition() + name + seq![34u8] + match filename {
        Some(f) => filename_attr() + f + seq![34u8],
        None => Seq::empty(),
    } + content_type_line() + content_type + seq![13u8, 10u8, 13u8, 10u8]
}

/// The data of a form field.
pub enum FieldData {
    /// A text value.
    Text(String),
    /// Contents whose length is known in advance, such as those of a file.
    Sized { content: Vec<u8>, content_type: Vec<u8>, filename: Option<String> },
    /// Contents read from a stream, whose length is not known in advance.
    Stream { content: Vec<u8>, content_type: Vec<u8>, filename: Option<String> },
}

/// A field of a form: its name and data.
pub struct Field {
    pub name: String,
    pub data: FieldData,
}

/// The bytes of an optional string.
pub open spec fn opt_str_bytes(s: Option<String>) -> Option<Seq<u8>> {
    match s {
        Some(s) => Some(str_bytes(s)),
        None => None,
    }
}

/// The header and contents of a non-text field, or `None` for a text field.
pub open spec fn stream_part(f: Field, boundary: Seq<u8>) -> Option<(Seq<u8>, Seq<u8>)> {
    match f.data {
        FieldData::Text(_) => None,
        FieldData::Sized { content, content_type, filename } => Some(
            (field_header(boundary, str_bytes(f.name), content_type@, opt_str_bytes(filename)), content@),
        ),
        FieldData::Stream { content, content_type, filename } => Some(
            (field_header(boundary, str_bytes(f.name), content_type@, opt_str_bytes(filename)), content@),
        ),
    }
}

/// The text fields of `fields`, serialized one after the other.
pub open spec fn text_data_of(fields: Seq<Field>, boundary: Seq<u8>) -> Seq<u8>
    decreases fields.len(),
{
    if fields.len() == 0 {
        Seq::empty()
    } else {
        text_data_of(fields.drop_last(), boundary) + match fields.last().data {
            FieldData::Text(t) => text_part(boundary, str_bytes(fields.last().name), str_bytes(t)),
            _ => Seq::empty(),
        }
    }
}

/// The headers and contents of the non-text fields of `fields`, in order.
pub open spec fn stream_parts_of(fields: Seq<Field>, boundary: Seq<u8>) -> Seq<(Seq<u8>, Seq<u8>)>
    decreases fields.len(),
{
    if fields.len() == 0 {
        Seq::empty()
    } else {
        match stream_part(fields.last(), boundary) {
            Some(p) => stream_parts_of(fields.drop_last(), boundary).push(p),
            None => stream_parts_of(fields.drop_last(), boundary),
        }
    }
}

/// The length counted for the sized fields of `fields`: header and contents.
pub open spec fn sized_len(fields: Seq<Field>, boundary: Seq<u8>) -> int
    decreases fields.len(),
{
    if fields.len() == 0 {
        0
    } else {
        sized_len(fields.drop_last(), boundary) + match fields.last().data {
            FieldData::Sized { content, content_type, filename } => field_header(
                boundary,
                str_bytes(fields.last().name),
                content_type@,
                opt_str_bytes(filename),
            ).len() + content@.len(),
            _ => 0,
        }
    }
}

/// Some field of `fields` is read from a stream.
pub open spec fn has_stream(fields: Seq<Field>) -> bool {
    exists|i: int| 0 <= i < fields.len() && #[trigger] fields[i].data is Stream
}

/// The parts read in the order in which the reader reads them: the last one first.
pub open spec fn parts_rest(parts: Seq<(Seq<u8>, Seq<u8>)>) -> Seq<u8>
    decreases parts.len(),
{
    if parts.len() == 0 {
        Seq::empty()
    } else {
        parts.last().0 + parts.last().1 + parts_rest(parts.drop_last())
    }
}

/// The end boundary of a form whose fields are `fields`: none if the form has no field,
/// else `boundary` followed by `--`.
pub open spec fn end_of(fields: Seq<Field>, boundary: Seq<u8>) -> Seq<u8> {
    if fields.len() == 0 {
        Seq::empty()
    } else {
        boundary + seq![45u8, 45u8]
    }
}

/// The serialized form: the text fields, then the other fields from the last to the
/// first, then the end boundary.
pub open spec fn form_bytes(fields: Seq<Field>, boundary: Seq<u8>) -> Seq<u8> {
    text_data_of(fields, boundary) + parts_rest(stream_parts_of(fields, boundary)) + end_of(fields, boundary)
}

/// The length that a form announces: none if a field is read from a stream, or if the
/// length does not fit in 64 bits; else the length of all its parts: the text fields,
/// the sized fields with their headers, and the end boundary.
pub open spec fn announced_len(fields: Seq<Field>, boundary: Seq<u8>) -> Option<int> {
    let total = text_data_of(fields, boundary).len() + sized_len(fields, boundary) + end_of(fields, boundary).len();
    if has_stream(fields) || total > u64::MAX {
        None
    } else {
        Some(total)
    }
}

/// An error met while preparing a form, with the name of the field that caused it, if
/// any.
#[derive(Debug)]
pub struct LazyError {
    /// The field that caused the error; `None` for an error opening or finishing the
    /// stream.
    pub field_name: Option<String>,
    /// The error.
    pub error: ErrorKind,
}

impl LazyError {
    /// An error that no field caused.
    pub fn without_field(error: ErrorKind) -> (r: LazyError)
        ensures
            r.field_name is None,
            r.error == error,
    {
        LazyError { field_name: None, error }
    }

    /// An error that the field `field_name` caused.
    pub fn with_field(field_name: String, error: ErrorKind) -> (r: LazyError)
        ensures
            r.field_name == Some(field_name),
            r.error == error,
    {
        LazyError { field_name: Some(field_name), error }
    }

    /// The same error, for a caller that reports errors of the same kind.
    pub fn transform_err(self) -> (r: LazyError)
        ensures
            r.field_name == self.field_name,
            r.error == self.error,
    {
        LazyError { field_name: self.field_name, error: self.error }
    }
}

/// A field being read: its header, then its contents.
pub struct PreparedField {
    header: ByteReader,
    stream: ByteReader,
}

/// The bytes that `fields` still yield, the last field first.
pub closed spec fn fields_rest(fields: Seq<PreparedField>) -> Seq<u8>
    decreases fields.len(),
{
    if fields.len() == 0 {
        Seq::empty()
    } else {
        fields.last().header@ + fields.last().stream@ + fields_rest(fields.drop_last())
    }
}

/// The parts that `fields` were made from.
pub closed spec fn fields_parts(fields: Seq<PreparedField>) -> Seq<(Seq<u8>, Seq<u8>)> {
    fields.map_values(|f: PreparedField| (f.header@, f.stream@))
}

proof fn lemma_fields_rest_parts(fields: Seq<PreparedField>)
    ensures
        fields_rest(fields) == parts_rest(fields_parts(fields)),
    decreases fields.len(),
{
    if fields.len() > 0 {
        assert(fields_parts(fields.drop_last()) =~= fields_parts(fields).drop_last());
        lemma_fields_rest_parts(fields.drop_last());
    }
}

impl PreparedField {
    /// The field `name` of `content` with `content_type` and `filename`, after `boundary`.
    fn from_stream(name: &String, boundary: &[u8], content_type: &[u8], filename: &Option<String>, content: &[u8]) -> (r: PreparedField)
        ensures
            r.header@ == field_header(boundary@, str_bytes(*name), content_type@, opt_str_bytes(*filename)),
            r.stream@ == content@,
    {
        let mut header: Vec<u8> = Vec::new();
        append_bytes(&mut header, boundary);
        let d = disposition_bytes();
        append_bytes(&mut header, d.as_slice());
        append_bytes(&mut header, name.as_str().as_bytes());
        header.push(34u8);
        match filename {
            Some(f) => {
                let a = filename_attr_bytes();
                append_bytes(&mut header, a.as_slice());
                append_bytes(&mut header, f.as_str().as_bytes());
                header.push(34u8);
            },
            None => {},
        }
        let c = content_type_line_bytes();
        append_bytes(&mut header, c.as_slice());
        append_bytes(&mut header, content_type);
        header.push(13u8);
        header.push(10u8);
        header.push(13u8);
        header.push(10u8);
        assert(header@ =~= field_header(boundary@, str_bytes(*name), content_type@, opt_str_bytes(*filename)));
        PreparedField { header: ByteReader::new(header), stream: ByteReader::new(slice_to_vec(content)) }
    }
}

/// A form serialized and being read: the text fields, then the other fields from the
/// last to the first, then the end boundary.
pub struct PreparedFields {
    text_data: ByteReader,
    streams: Vec<PreparedField>,
    end_boundary: ByteReader,
    end_text: Vec<u8>,
    content_len: Option<u64>,
}

impl PreparedFields {
    /// The end boundary is read last.
    pub closed spec fn wf(self) -> bool {
        self.end_boundary@.len() == 0 ==> self.text_data@.len() == 0 && fields_rest(self.streams@).len() == 0
    }

    /// The bytes that the reader still yields.
    pub closed spec fn rest(self) -> Seq<u8> {
        self.text_data@ + fields_rest(self.streams@) + self.end_boundary@
    }

    /// The end boundary of the form.
    pub closed spec fn spec_end(self) -> Seq<u8> {
        self.end_text@
    }

    /// The length that the form announces.
    pub closed spec fn spec_content_len(self) -> Option<u64> {
        self.content_len
    }

    /// Serializes `fields` with the boundary `\r\n--` followed by `token`.
    pub fn from_fields(fields: Vec<Field>, token: &[u8]) -> (r: PreparedFields)
        requires
            sized_len(fields@, seq![13u8, 10u8, 45u8, 45u8] + token@) + token@.len() + 6 <= u64::MAX,
        ensures
            r.wf(),
            r.rest() == form_bytes(fields@, seq![13u8, 10u8, 45u8, 45u8] + token@),
            r.spec_end() == end_of(fields@, seq![13u8, 10u8, 45u8, 45u8] + token@),
            match announced_len(fields@, seq![13u8, 10u8, 45u8, 45u8] + token@) {
                Some(n) => r.spec_content_len() == Some(n as u64),
                None => r.spec_content_len() is None,
            },
    {
        let ghost b = seq![13u8, 10u8, 45u8, 45u8] + token@;
        let mut boundary: Vec<u8> = vec![13u8, 10u8, 45u8, 45u8];
        append_bytes(&mut boundary, token);
        assert(boundary@ =~= b);
        let mut text_data: Vec<u8> = Vec::new();
        let mut streams: Vec<PreparedField> = Vec::new();
        let mut content_len: u64 = 0;
        let mut use_len = true;
        let mut i: usize = 0;
        proof {
            assert(fields@.take(0) =~= Seq::<Field>::empty());
        }
        while i < fields.len()
            invariant
                i <= fields@.len(),
                boundary@ == b,
                b == seq![13u8, 10u8, 45u8, 45u8] + token@,
                sized_len(fields@, b) + token@.len() + 6 <= u64::MAX,
                text_data@ == text_data_of(fields@.take(i as int), b),
                fields_parts(streams@) == stream_parts_of(fields@.take(i as int), b),
                content_len == sized_len(fields@.take(i as int), b),
                use_len == !has_stream(fields@.take(i as int)),
            decreases fields@.len() - i,
        {
            let ghost t = fields@.take(i + 1);
            proof {
                assert(t.drop_last() =~= fields@.take(i as int));
                assert(t.last() == fields@[i as int]);
                lemma_sized_len_prefix(fields@, b, i + 1);
            }
            let field = &fields[i];
            match &field.data {
                FieldData::Text(text) => {
                    append_bytes(&mut text_data, boundary.as_slice());
                    let d = disposition_bytes();
                    append_bytes(&mut text_data, d.as_slice());
                    append_bytes(&mut text_data, field.name.as_str().as_bytes());
                    text_data.push(34u8);
                    text_data.push(13u8);
                    text_data.push(10u8);
                    text_data.push(13u8);
                    text_data.push(10u8);
                    append_bytes(&mut text_data, text.as_str().as_bytes());
                    proof {
                        assert(text_data@ =~= text_data_of(t, b));
                        lemma_has_stream_push(fields@, i as int);
                    }
                },
                FieldData::Sized { content, content_type, filename } => {
                    let part = PreparedField::from_stream(&field.name, boundary.as_slice(), content_type.as_slice(), filename, content.as_slice());
                    let hl = part.header.remaining();
                    content_len = content_len + hl as u64 + content.len() as u64;
                    let ghost prev = streams@;
                    streams.push(part);
                    proof {
                        assert(fields_parts(streams@) =~= fields_parts(prev).push((part.header@, part.stream@)));
                        assert(text_data_of(t, b) =~= text_data_of(fields@.take(i as int), b));
                        lemma_has_stream_push(fields@, i as int);
                    }
                },
                FieldData::Stream { content, content_type, filename } => {
                    use_len = false;
                    let part = PreparedField::from_stream(&field.name, boundary.as_slice(), content_type.as_slice(), filename, content.as_slice());
                    let ghost prev = streams@;
                    streams.push(part);
                    proof {
                        assert(fields_parts(streams@) =~= fields_parts(prev).push((part.header@, part.stream@)));
                        assert(text_data_of(t, b) =~= text_data_of(fields@.take(i as int), b));
                        assert(t[i as int].data is Stream);
                    }
                },
            }
            i = i + 1;
        }
        proof {
            assert(fields@.take(i as int) =~= fields@);
        }
        let end_text = if fields.len() == 0 {
            Vec::new()
        } else {
            let mut e = boundary;
            e.push(45u8);
            e.push(45u8);
            e
        };
        assert(end_text@ =~= end_of(fields@, b));
        let end_len = end_text.len() as u64;
        let sized_total = content_len + end_len;
        let announced = if use_len {
            sized_total.checked_add(text_data.len() as u64)
        } else {
            None
        };
        let r = PreparedFields {
            text_data: ByteReader::new(text_data),
            streams,
            end_boundary: ByteReader::new(slice_to_vec(end_text.as_slice())),
            end_text,
            content_len: announced,
        };
        proof {
            lemma_fields_rest_parts(r.streams@);
            if fields@.len() == 0 {
                assert(text_data_of(fields@, b) =~= Seq::<u8>::empty());
                assert(stream_parts_of(fields@, b) =~= Seq::<(Seq<u8>, Seq<u8>)>::empty());
            }
        }
        r
    }

    /// A form with no field.
    fn empty() -> (r: PreparedFields)
        ensures
            r.wf(),
    {
        let r = PreparedFields {
            text_data: ByteReader::new(Vec::new()),
            streams: Vec::new(),
            end_boundary: ByteReader::new(Vec::new()),
            end_text: Vec::new(),
            content_len: None,
        };
        assert(r.text_data@ =~= Seq::<u8>::empty());
        r
    }

    /// The length of the form, if every field is sized.
    pub fn content_len(&self) -> (r: Option<u64>)
        ensures
            r == self.spec_content_len(),
    {
        self.content_len
    }

    /// The boundary of the form, without the leading line ending and dashes and the
    /// trailing dashes.
    pub fn boundary(&self) -> (r: &[u8])
        requires
            self.spec_end().len() >= 6,
        ensures
            r@ == self.spec_end().subrange(4, self.spec_end().len() - 2),
    {
        let n = self.end_text.len();
        &self.end_text[4..n - 2]
    }

    /// Moves up to `n` bytes of the form to the end of `out`; returns how many.
    pub fn take_up_to(&mut self, n: usize, out: &mut Vec<u8>) -> (k: usize)
        requires
            old(self).wf(),
        ensures
            final(self).wf(),
            k as int == limited(old(self).rest(), n as int).len(),
            final(out)@ == old(out)@ + limited(old(self).rest(), n as int),
            final(self).rest() == old(self).rest().skip(k as int),
            final(self).spec_end() == old(self).spec_end(),
            final(self).spec_content_len() == old(self).spec_content_len(),
    {
        let ghost r0 = self.rest();
        let ghost o0 = out@;
        let mut total: usize = 0;
        while total < n && !cursor_at_end(&self.end_boundary)
            invariant
                self.wf(),
                total <= n,
                r0 == old(self).rest(),
                o0 == old(out)@,
                total <= r0.len(),
                out@ == o0 + r0.take(total as int),
                self.rest() == r0.skip(total as int),
                self.end_text == old(self).end_text,
                self.content_len == old(self).content_len,
            decreases self.rest().len(), self.streams@.len(),
        {
            let ghost rest_before = self.rest();
            let k = self.step(n - total, out);
            proof {
                assert(r0.take(total + k) =~= r0.take(total as int) + rest_before.take(k as int));
                assert(self.rest() =~= r0.skip(total + k));
            }
            total = total + k;
        }
        proof {
            assert(limited(r0, n as int) =~= r0.take(total as int));
        }
        total
    }

    /// Moves up to `room` bytes from the first source that has some: the text fields, the
    /// last of the other fields (dropped when it is exhausted), or the end boundary.
    #[verifier::rlimit(50)]
    fn step(&mut self, room: usize, out: &mut Vec<u8>) -> (k: usize)
        requires
            old(self).wf(),
            room > 0,
            old(self).end_boundary@.len() > 0,
        ensures
            final(self).wf(),
            k <= room,
            k <= old(self).rest().len(),
            final(out)@ == old(out)@ + old(self).rest().take(k as int),
            final(self).rest() == old(self).rest().skip(k as int),
            k > 0 || final(self).streams@.len() < old(self).streams@.len(),
            final(self).end_text == old(self).end_text,
            final(self).content_len == old(self).content_len,
    {
        let ghost tb = self.text_data@;
        let ghost sb = self.streams@;
        let ghost eb = self.end_boundary@;
        if !cursor_at_end(&self.text_data) {
            let k = self.text_data.read_up_to(room, out);
            proof {
                assert(old(self).rest().take(k as int) =~= limited(tb, room as int));
                assert(self.rest() =~= old(self).rest().skip(k as int));
            }
            return k;
        }
        match self.streams.pop() {
            Some(mut field) => {
                let ghost hb = field.header@;
                let ghost stb = field.stream@;
                proof {
                    assert(sb.drop_last() =~= self.streams@);
                    assert(sb.last() == field);
                    assert(fields_rest(sb) == hb + stb + fields_rest(self.streams@));
                    assert(old(self).rest() =~= hb + stb + fields_rest(self.streams@) + eb);
                }
                let k1 = field.header.read_up_to(room, out);
                let k2 = field.stream.read_up_to(room - k1, out);
                let k = k1 + k2;
                proof {
                    assert(old(self).rest().take(k as int) =~= limited(hb, room as int) + limited(stb, room - k1));
                }
                if k > 0 {
                    let ghost before_push = self.streams@;
                    self.streams.push(field);
                    proof {
                        assert(self.streams@.drop_last() =~= before_push);
                        assert(fields_rest(self.streams@) == field.header@ + field.stream@ + fields_rest(before_push));
                        assert(self.rest() =~= old(self).rest().skip(k as int));
                    }
                } else {
                    proof {
                        assert(self.rest() =~= old(self).rest().skip(k as int));
                    }
                }
                k
            },
            None => {
                let k = self.end_boundary.read_up_to(room, out);
                proof {
                    assert(fields_rest(sb) =~= Seq::<u8>::empty());
                    assert(old(self).rest().take(k as int) =~= limited(eb, room as int));
                    assert(self.rest() =~= old(self).rest().skip(k as int));
                }
                k
            },
        }
    }

    /// Moves up to `buf.len()` bytes of the form into the front of `buf`; returns how many.
    pub fn read(&mut self, buf: &mut [u8]) -> (n: usize)
        requires
            old(self).wf(),
        ensures
            final(self).wf(),
            n == limited(old(self).rest(), old(buf)@.len() as int).len(),
            final(buf)@.len() == old(buf)@.len(),
            final(buf)@.take(n as int) == old(self).rest().take(n as int),
            final(buf)@.skip(n as int) == old(buf)@.skip(n as int),
            final(self).rest() == old(self).rest().skip(n as int),
            final(self).spec_end() == old(self).spec_end(),
            final(self).spec_content_len() == old(self).spec_content_len(),
    {
        let mut got: Vec<u8> = Vec::new();
        let n = self.take_up_to(buf.len(), &mut got);
        let mut i: usize = 0;
        while i < n
            invariant
                n == got@.len(),
                n <= buf@.len(),
                i <= n,
                buf@.len() == old(buf)@.len(),
                forall|j: int| 0 <= j < i ==> buf@[j] == got@[j],
                forall|j: int| i <= j < buf@.len() ==> buf@[j] == old(buf)@[j],
            decreases n - i,
        {
            buf[i] = got[i];
            i = i + 1;
        }
        proof {
            assert(buf@.take(n as int) =~= got@);
            assert(buf@.skip(n as int) =~= old(buf)@.skip(n as int));
        }
        n
    }
}

proof fn lemma_sized_len_prefix(fields: Seq<Field>, b: Seq<u8>, i: int)
    requires
        0 <= i <= fields.len(),
    ensures
        0 <= sized_len(fields.take(i), b) <= sized_len(fields, b),
    decreases fields.len(),
{
    if i < fields.len() {
        assert(fields.drop_last().take(i) =~= fields.take(i));
        lemma_sized_len_prefix(fields.drop_last(), b, i);
    } else {
        assert(fields.take(i) =~= fields);
        lemma_sized_len_nonneg(fields, b);
    }
}

proof fn lemma_sized_len_nonneg(fields: Seq<Field>, b: Seq<u8>)
    ensures
        sized_len(fields, b) >= 0,
    decreases fields.len(),
{
    if fields.len() > 0 {
        lemma_sized_len_nonneg(fields.drop_last(), b);
    }
}

proof fn lemma_has_stream_push(fields: Seq<Field>, i: int)
    requires
        0 <= i < fields.len(),
        !(fields[i].data is Stream),
    ensures
        has_stream(fields.take(i + 1)) == has_stream(fields.take(i)),
{
    let t = fields.take(i + 1);
    let s = fields.take(i);
    if has_stream(t) {
        let j = choose|j: int| 0 <= j < t.len() && #[trigger] t[j].data is Stream;
        assert(j != i);
        assert(s[j] == t[j]);
    }
    if has_stream(s) {
        let j = choose|j: int| 0 <= j < s.len() && #[trigger] s[j].data is Stream;
        assert(t[j] == s[j]);
    }
}

/// The text that `mime::Mime` parses from `s` and displays, if `s` is a valid MIME type.
pub uninterp spec fn parsed_mime(s: Seq<char>) -> Option<Seq<u8>>;

/// Parses `s` as a `mime::Mime` and displays it.
#[verifier::external_body]
fn parse_mime(s: &str) -> (r: Option<Vec<u8>>)
    ensures
        match r {
            Some(v) => parsed_mime(s@) == Some(v@),
            None => parsed_mime(s@) is None,
        },
{
    match s.parse::<mime::Mime>() {
        Ok(m) => Some(m.to_string().into_bytes()),
        Err(_) => None,
    }
}

/// A file to upload as part of a multipart form.
#[derive(Debug)]
pub struct MultipartFile {
    name: String,
    file: Vec<u8>,
    filename: Option<String>,
    mime: Option<Vec<u8>>,
}

impl MultipartFile {
    /// The name of the field.
    pub closed spec fn spec_name(self) -> Seq<char> {
        self.name@
    }

    /// The contents of the file.
    pub closed spec fn spec_file(self) -> Seq<u8> {
        self.file@
    }

    /// The file name, if set.
    pub closed spec fn spec_filename(self) -> Option<Seq<char>> {
        match self.filename {
            Some(f) => Some(f@),
            None => None,
        }
    }

    /// The MIME type, if set.
    pub closed spec fn spec_mime(self) -> Option<Seq<u8>> {
        match self.mime {
            Some(m) => Some(m@),
            None => None,
        }
    }

    /// A file field `name` holding `file`.
    pub fn new(name: &str, file: &[u8]) -> (r: MultipartFile)
        ensures
            r.spec_name() == name@,
            r.spec_file() == file@,
            r.spec_filename() is None,
            r.spec_mime() is None,
    {
        MultipartFile { name: name.to_owned(), file: slice_to_vec(file), filename: None, mime: None }
    }

    /// Sets the MIME type of the file. The error is `InvalidMimeType` with the given text
    /// if it is not a valid MIME type.
    pub fn with_type(self, mime_type: &str) -> (r: Result<MultipartFile, ErrorKind>)
        ensures
            match parsed_mime(mime_type@) {
                Some(m) => r matches Ok(f) && f.spec_mime() == Some(m) && f.spec_name() == self.spec_name()
                    && f.spec_file() == self.spec_file() && f.spec_filename() == self.spec_filename(),
                None => r matches Err(ErrorKind::InvalidMimeType(t)) && t@ == vstd::utf8::encode_utf8(mime_type@),
            },
    {
        match parse_mime(mime_type) {
            Some(m) => Ok(MultipartFile { mime: Some(m), ..self }),
            None => Err(ErrorKind::InvalidMimeType(slice_to_vec(mime_type.as_bytes()))),
        }
    }

    /// Sets the file name.
    pub fn with_filename(self, filename: &str) -> (r: MultipartFile)
        ensures
            r.spec_filename() == Some(filename@),
            r.spec_name() == self.spec_name(),
            r.spec_file() == self.spec_file(),
            r.spec_mime() == self.spec_mime(),
    {
        MultipartFile { filename: Some(filename.to_owned()), ..self }
    }
}

/// Collects the fields of a multipart form.
#[derive(Debug)]
pub struct MultipartBuilder {
    text: Vec<(String, String)>,
    files: Vec<MultipartFile>,
}

/// The fields of a form with text fields `text` and files `files`: the text fields in
/// order, then the files in order as stream fields, of type `application/octet-stream`
/// unless set.
pub open spec fn builder_fields(text: Seq<(Seq<char>, Seq<char>)>, files: Seq<MultipartFile>) -> Seq<(Seq<u8>, Option<(Seq<u8>, Seq<u8>, Option<Seq<u8>>)>, Seq<u8>)> {
    text.map_values(|t: (Seq<char>, Seq<char>)| (vstd::utf8::encode_utf8(t.0), None::<(Seq<u8>, Seq<u8>, Option<Seq<u8>>)>, vstd::utf8::encode_utf8(t.1)))
        + files.map_values(|f: MultipartFile| (
            vstd::utf8::encode_utf8(f.spec_name()),
            Some((
                f.spec_file(),
                match f.spec_mime() {
                    Some(m) => m,
                    None => names::spec_octet_stream(),
                },
                match f.spec_filename() {
                    Some(n) => Some(vstd::utf8::encode_utf8(n)),
                    None => None,
                },
            )),
            Seq::<u8>::empty(),
        ))
}

/// The form fields in the view of `builder_fields`.
pub open spec fn field_view(f: Field) -> (Seq<u8>, Option<(Seq<u8>, Seq<u8>, Option<Seq<u8>>)>, Seq<u8>) {
    match f.data {
        FieldData::Text(t) => (str_bytes(f.name), None, str_bytes(t)),
        FieldData::Stream { content, content_type, filename } => (
            str_bytes(f.name),
            Some((content@, content_type@, opt_str_bytes(filename))),
            Seq::empty(),
        ),
        FieldData::Sized { content, content_type, filename } => (
            str_bytes(f.name),
            Some((content@, content_type@, opt_str_bytes(filename))),
            seq![0u8],
        ),
    }
}

impl MultipartBuilder {
    /// The text fields.
    pub closed spec fn spec_text(self) -> Seq<(Seq<char>, Seq<char>)> {
        self.text@.map_values(|t: (String, String)| (t.0@, t.1@))
    }

    /// The files.
    pub closed spec fn spec_files(self) -> Seq<MultipartFile> {
        self.files@
    }

    /// A builder with no field.
    pub fn new() -> (r: MultipartBuilder)
        ensures
            r.spec_text() == Seq::<(Seq<char>, Seq<char>)>::empty(),
            r.spec_files() == Seq::<MultipartFile>::empty(),
    {
        let r = MultipartBuilder { text: Vec::new(), files: Vec::new() };
        assert(r.spec_text() =~= Seq::<(Seq<char>, Seq<char>)>::empty());
        r
    }

    /// Adds the text field `name` with value `text`.
    pub fn with_text(self, name: &str, text: &str) -> (r: MultipartBuilder)
        ensures
            r.spec_text() == self.spec_text().push((name@, text@)),
            r.spec_files() == self.spec_files(),
    {
        let mut s = self;
        let ghost prev = s.text@;
        s.text.push((name.to_owned(), text.to_owned()));
        assert(s.spec_text() =~= prev.map_values(|t: (String, String)| (t.0@, t.1@)).push((name@, text@)));
        s
    }

    /// Adds a file.
    pub fn with_file(self, file: MultipartFile) -> (r: MultipartBuilder)
        ensures
            r.spec_text() == self.spec_text(),
            r.spec_files() == self.spec_files().push(file),
    {
        let mut s = self;
        s.files.push(file);
        s
    }

    /// The fields of the form, in the order in which they are serialized.
    pub fn fields(self) -> (r: Vec<Field>)
        ensures
            r@.map_values(|f: Field| field_view(f)) == builder_fields(self.spec_text(), self.spec_files()),
            forall|i: int| 0 <= i < r@.len() ==> (#[trigger] r@[i]).data is Text || r@[i].data is Stream,
    {
        let mut fields: Vec<Field> = Vec::new();
        let ghost text = self.spec_text();
        let ghost files = self.spec_files();
        let ghost tmap = |t: (Seq<char>, Seq<char>)| (vstd::utf8::encode_utf8(t.0), None::<(Seq<u8>, Seq<u8>, Option<Seq<u8>>)>, vstd::utf8::encode_utf8(t.1));
        let MultipartBuilder { text: text_vec, files: files_vec } = self;
        let mut i: usize = 0;
        while i < text_vec.len()
            invariant
                i <= text_vec@.len(),
                text == text_vec@.map_values(|t: (String, String)| (t.0@, t.1@)),
                fields@.map_values(|f: Field| field_view(f)) == text.take(i as int).map_values(tmap),
                tmap == (|t: (Seq<char>, Seq<char>)| (vstd::utf8::encode_utf8(t.0), None::<(Seq<u8>, Seq<u8>, Option<Seq<u8>>)>, vstd::utf8::encode_utf8(t.1))),
                forall|j: int| 0 <= j < fields@.len() ==> (#[trigger] fields@[j]).data is Text || fields@[j].data is Stream,
            decreases text_vec@.len() - i,
        {
            let (name, value) = &text_vec[i];
            let ghost prev = fields@;
            fields.push(Field { name: name.clone(), data: FieldData::Text(value.clone()) });
            proof {
                assert(text.take(i + 1) =~= text.take(i as int).push(text[i as int]));
                assert(fields@.map_values(|f: Field| field_view(f)) =~= prev.map_values(|f: Field| field_view(f)).push(field_view(fields@[i as int])));
            }
            i = i + 1;
        }
        proof {
            assert(text.take(i as int) =~= text);
        }
        let ghost n_text = fields@.len();
        let mut j: usize = 0;
        while j < files_vec.len()
            invariant
                j <= files_vec@.len(),
                files == files_vec@,
                fields@.map_values(|f: Field| field_view(f)) == builder_fields(text, files.take(j as int)),
                forall|k: int| 0 <= k < fields@.len() ==> (#[trigger] fields@[k]).data is Text || fields@[k].data is Stream,
            decreases files_vec@.len() - j,
        {
            let f = &files_vec[j];
            let content_type = match &f.mime {
                Some(m) => m.clone(),
                None => names::octet_stream(),
            };
            let filename = match &f.filename {
                Some(n) => Some(n.clone()),
                None => None,
            };
            let ghost prev = fields@;
            fields.push(Field {
                name: f.name.clone(),
                data: FieldData::Stream { content: f.file.clone(), content_type, filename },
            });
            proof {
                assert(files.take(j + 1) =~= files.take(j as int).push(files[j as int]));
                assert(fields@.map_values(|f: Field| field_view(f)) =~= prev.map_values(|f: Field| field_view(f)).push(field_view(fields@[prev.len() as int])));
                assert(builder_fields(text, files.take(j + 1)) =~= builder_fields(text, files.take(j as int)).push(field_view(fields@[prev.len() as int])));
            }
            j = j + 1;
        }
        proof {
            assert(files.take(j as int) =~= files);
        }
        fields
    }

    /// The form, serialized with the boundary token `token`.
    pub fn build(self, token: &[u8]) -> (r: Result<Multipart, ErrorKind>)
        requires
            token@.len() + 6 <= u64::MAX,
        ensures
            r matches Ok(m) && exists|fields: Seq<Field>|
                fields.map_values(|f: Field| field_view(f)) == builder_fields(self.spec_text(), self.spec_files())
                && m.spec_data().rest() == form_bytes(fields, seq![13u8, 10u8, 45u8, 45u8] + token@)
                && m.spec_data().spec_end() == end_of(fields, seq![13u8, 10u8, 45u8, 45u8] + token@)
                && m.spec_data().spec_content_len() == (match announced_len(fields, seq![13u8, 10u8, 45u8, 45u8] + token@) {
                    Some(n) => Some(n as u64),
                    None => None,
                }),
    {
        let fields = self.fields();
        let ghost fs = fields@;
        proof {
            lemma_no_sized(fs, seq![13u8, 10u8, 45u8, 45u8] + token@);
        }
        let data = PreparedFields::from_fields(fields, token);
        Ok(Multipart { data })
    }
}

proof fn lemma_no_sized(fields: Seq<Field>, b: Seq<u8>)
    requires
        forall|i: int| 0 <= i < fields.len() ==> (#[trigger] fields[i]).data is Text || fields[i].data is Stream,
    ensures
        sized_len(fields, b) == 0,
    decreases fields.len(),
{
    if fields.len() > 0 {
        assert(fields.last() == fields[fields.len() - 1]);
        lemma_no_sized(fields.drop_last(), b);
    }
}

/// A multipart form, ready to be sent as a request body.
pub struct Multipart {
    data: PreparedFields,
}

impl Multipart {
    #[verifier::type_invariant]
    spec fn inv(self) -> bool {
        self.data.wf()
    }

    /// The serialized form.
    pub closed spec fn spec_data(self) -> PreparedFields {
        self.data
    }
}

impl Body for Multipart {
    closed spec fn content(&self) -> Seq<u8> {
        self.data.rest()
    }

    closed spec fn spec_kind(&self) -> Result<BodyKind, ErrorKind> {
        match self.data.spec_content_len() {
            Some(len) => Ok(BodyKind::KnownLength(len)),
            None => Ok(BodyKind::Chunked),
        }
    }

    closed spec fn spec_content_type(&self) -> Result<Option<Seq<u8>>, ErrorKind> {
        let e = self.data.spec_end();
        Ok(Some(names::spec_multipart_form_data() + e.subrange(4, e.len() - 2)))
    }

    closed spec fn describable(&self) -> bool {
        self.data.spec_end().len() >= 6
    }

    fn kind(&mut self) -> (r: Result<BodyKind, ErrorKind>) {
        match self.data.content_len() {
            Some(len) => Ok(BodyKind::KnownLength(len)),
            None => Ok(BodyKind::Chunked),
        }
    }

    fn write(&mut self, out: &mut Vec<u8>) -> (r: Result<(), ErrorKind>)
        ensures
            r is Ok,
    {
        proof {
            use_type_invariant(&*self);
        }
        let mut data = PreparedFields::empty();
        std::mem::swap(&mut data, &mut self.data);
        let ghost c = data.rest();
        let ghost o = out@;
        assert(c == old(self).data.rest());
        loop
            invariant
                data.wf(),
                o == old(out)@,
                out@ + data.rest() == o + c,
            ensures
                out@ == o + c,
            decreases data.rest().len(),
        {
            let ghost before = data.rest();
            let ghost out_before = out@;
            let k = data.take_up_to(8192, out);
            proof {
                assert(before =~= before.take(k as int) + before.skip(k as int));
                assert(out@ + data.rest() =~= out_before + before);
            }
            if k == 0 {
                proof {
                    assert(data.rest() =~= Seq::<u8>::empty());
                    assert(out@ =~= out@ + data.rest());
                }
                break;
            }
        }
        std::mem::swap(&mut data, &mut self.data);
        Ok(())
    }

    fn content_type(&mut self) -> (r: Result<Option<Vec<u8>>, ErrorKind>) {
        let mut v = names::multipart_form_data();
        append_bytes(&mut v, self.data.boundary());
        Ok(Some(v))
    }
}

} // verus!
