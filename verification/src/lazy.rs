//! A multipart form built field by field and serialized when it is prepared.

use vstd::prelude::*;

use crate::multipart::{
    announced_len, end_of, field_view, form_bytes, sized_len, Field, FieldData, LazyError, PreparedFields,
};
use crate::names;
use crate::reader::slice_to_vec;

verus! {

/// The fields of a form, in the order in which they were added.
pub struct Multipart {
    fields: Vec<Field>,
}

/// The boundary of a form serialized with the token `token`: `\r\n--` and the token.
pub open spec fn boundary_of(token: Seq<u8>) -> Seq<u8> {
    seq![13u8, 10u8, 45u8, 45u8] + token
}

impl Multipart {
    /// The fields added so far.
    pub closed spec fn spec_fields(self) -> Seq<Field> {
        self.fields@
    }

    /// A form with no field.
    pub fn new() -> (r: Multipart)
        ensures
            r.spec_fields() == Seq::<Field>::empty(),
    {
        Multipart { fields: Vec::new() }
    }

    /// Adds the text field `name` with value `text`.
    pub fn add_text(&mut self, name: &str, text: &str)
        ensures
            final(self).spec_fields().drop_last() == old(self).spec_fields(),
            final(self).spec_fields().len() == old(self).spec_fields().len() + 1,
            field_view(final(self).spec_fields().last()) == (
                vstd::utf8::encode_utf8(name@),
                None::<(Seq<u8>, Seq<u8>, Option<Seq<u8>>)>,
                vstd::utf8::encode_utf8(text@),
            ),
    {
        self.fields.push(Field { name: name.to_owned(), data: FieldData::Text(text.to_owned()) });
        assert(self.fields@.drop_last() =~= old(self).fields@);
    }

    /// Adds the file field `name` whose contents `contents` the caller has read, with
    /// `content_type` and `filename` as the file's name calls for. Its length counts in
    /// the length that the form announces.
    pub fn add_file(&mut self, name: &str, contents: Vec<u8>, content_type: &[u8], filename: Option<&str>)
        ensures
            final(self).spec_fields().drop_last() == old(self).spec_fields(),
            final(self).spec_fields().len() == old(self).spec_fields().len() + 1,
            field_view(final(self).spec_fields().last()) == (
                vstd::utf8::encode_utf8(name@),
                Some((contents@, content_type@, match filename {
                    Some(f) => Some(vstd::utf8::encode_utf8(f@)),
                    None => None::<Seq<u8>>,
                })),
                seq![0u8],
            ),
    {
        let filename = match filename {
            Some(f) => Some(f.to_owned()),
            None => None,
        };
        self.fields.push(Field {
            name: name.to_owned(),
            data: FieldData::Sized { content: contents, content_type: slice_to_vec(content_type), filename },
        });
        assert(self.fields@.drop_last() =~= old(self).fields@);
    }

    /// Adds the field `name` read from the stream `stream`, of type `mime`, else
    /// `application/octet-stream`. A form with such a field announces no length.
    pub fn add_stream(&mut self, name: &str, stream: Vec<u8>, filename: Option<&str>, mime: Option<&[u8]>)
        ensures
            final(self).spec_fields().drop_last() == old(self).spec_fields(),
            final(self).spec_fields().len() == old(self).spec_fields().len() + 1,
            field_view(final(self).spec_fields().last()) == (
                vstd::utf8::encode_utf8(name@),
                Some((
                    stream@,
                    match mime {
                        Some(m) => m@,
                        None => names::spec_octet_stream(),
                    },
                    match filename {
                        Some(f) => Some(vstd::utf8::encode_utf8(f@)),
                        None => None::<Seq<u8>>,
                    },
                )),
                Seq::<u8>::empty(),
            ),
    {
        let content_type = match mime {
            Some(m) => slice_to_vec(m),
            None => names::octet_stream(),
        };
        let filename = match filename {
            Some(f) => Some(f.to_owned()),
            None => None,
        };
        self.fields.push(Field { name: name.to_owned(), data: FieldData::Stream { content: stream, content_type, filename } });
        assert(self.fields@.drop_last() =~= old(self).fields@);
    }

    /// Serializes the fields with the boundary `\r\n--` followed by `token`, and leaves
    /// the form empty.
    pub fn prepare(&mut self, token: &[u8]) -> (r: Result<PreparedFields, LazyError>)
        requires
            sized_len(old(self).spec_fields(), boundary_of(token@)) + token@.len() + 6 <= u64::MAX,
        ensures
            final(self).spec_fields() == Seq::<Field>::empty(),
            r matches Ok(p) && {
                &&& p.wf()
                &&& p.rest() == form_bytes(old(self).spec_fields(), boundary_of(token@))
                &&& p.spec_end() == end_of(old(self).spec_fields(), boundary_of(token@))
                &&& match announced_len(old(self).spec_fields(), boundary_of(token@)) {
                    Some(n) => p.spec_content_len() == Some(n as u64),
                    None => p.spec_content_len() is None,
                }
            },
    {
        let mut fields: Vec<Field> = Vec::new();
        std::mem::swap(&mut fields, &mut self.fields);
        Ok(PreparedFields::from_fields(fields, token))
    }
}

} // verus!
