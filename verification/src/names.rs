//! Header names and other fixed byte strings of the protocol.

use vstd::prelude::*;

use crate::headers::{header_char, header_name_spec, is_header_name};

verus! {

/// A name made of lower-case letters and dashes is a header name in normalized form.
pub proof fn lemma_lowercase_name(b: Seq<u8>)
    requires
        1 <= b.len() <= 65535,
        forall|i: int| 0 <= i < b.len() ==> (97u8 <= #[trigger] b[i] <= 122u8 || b[i] == 45u8),
    ensures
        is_header_name(b),
{
    assert forall|i: int| 0 <= i < b.len() implies header_char(#[trigger] b[i]) != 0u8 && header_char(b[i]) == b[i] by {}
    assert(b.map_values(|c: u8| header_char(c)) =~= b);
}

/// The bytes of `transfer-encoding`.
pub open spec fn spec_transfer_encoding() -> Seq<u8> {
    seq![116u8, 114u8, 97u8, 110u8, 115u8, 102u8, 101u8, 114u8, 45u8, 101u8, 110u8, 99u8, 111u8, 100u8, 105u8, 110u8, 103u8]
}

/// The bytes of `transfer-encoding`.
pub fn transfer_encoding() -> (r: Vec<u8>)
    ensures
        r@ == spec_transfer_encoding(),
        is_header_name(r@),
{
    let r = vec![116u8, 114u8, 97u8, 110u8, 115u8, 102u8, 101u8, 114u8, 45u8, 101u8, 110u8, 99u8, 111u8, 100u8, 105u8, 110u8, 103u8];
    proof {
        assert(r@ =~= spec_transfer_encoding());
        lemma_lowercase_name(r@);
    }
    r
}

/// The bytes of `content-length`.
pub open spec fn spec_content_length() -> Seq<u8> {
    seq![99u8, 111u8, 110u8, 116u8, 101u8, 110u8, 116u8, 45u8, 108u8, 101u8, 110u8, 103u8, 116u8, 104u8]
}

/// The bytes of `content-length`.
pub fn content_length() -> (r: Vec<u8>)
    ensures
        r@ == spec_content_length(),
        is_header_name(r@),
{
    let r = vec![99u8, 111u8, 110u8, 116u8, 101u8, 110u8, 116u8, 45u8, 108u8, 101u8, 110u8, 103u8, 116u8, 104u8];
    proof {
        assert(r@ =~= spec_content_length());
        lemma_lowercase_name(r@);
    }
    r
}

/// The bytes of `content-encoding`.
pub open spec fn spec_content_encoding() -> Seq<u8> {
    seq![99u8, 111u8, 110u8, 116u8, 101u8, 110u8, 116u8, 45u8, 101u8, 110u8, 99u8, 111u8, 100u8, 105u8, 110u8, 103u8]
}

/// The bytes of `content-encoding`.
pub fn content_encoding() -> (r: Vec<u8>)
    ensures
        r@ == spec_content_encoding(),
        is_header_name(r@),
{
    let r = vec![99u8, 111u8, 110u8, 116u8, 101u8, 110u8, 116u8, 45u8, 101u8, 110u8, 99u8, 111u8, 100u8, 105u8, 110u8, 103u8];
    proof {
        assert(r@ =~= spec_content_encoding());
        lemma_lowercase_name(r@);
    }
    r
}

/// The bytes of `content-type`.
pub open spec fn spec_content_type() -> Seq<u8> {
    seq![99u8, 111u8, 110u8, 116u8, 101u8, 110u8, 116u8, 45u8, 116u8, 121u8, 112u8, 101u8]
}

/// The bytes of `content-type`.
pub fn content_type() -> (r: Vec<u8>)
    ensures
        r@ == spec_content_type(),
        is_header_name(r@),
{
    let r = vec![99u8, 111u8, 110u8, 116u8, 101u8, 110u8, 116u8, 45u8, 116u8, 121u8, 112u8, 101u8];
    proof {
        assert(r@ =~= spec_content_type());
        lemma_lowercase_name(r@);
    }
    r
}

/// The bytes of `connection`.
pub open spec fn spec_connection() -> Seq<u8> {
    seq![99u8, 111u8, 110u8, 110u8, 101u8, 99u8, 116u8, 105u8, 111u8, 110u8]
}

/// The bytes of `connection`.
pub fn connection() -> (r: Vec<u8>)
    ensures
        r@ == spec_connection(),
        is_header_name(r@),
{
    let r = vec![99u8, 111u8, 110u8, 110u8, 101u8, 99u8, 116u8, 105u8, 111u8, 110u8];
    proof {
        assert(r@ =~= spec_connection());
        lemma_lowercase_name(r@);
    }
    r
}

/// The bytes of `accept-encoding`.
pub open spec fn spec_accept_encoding() -> Seq<u8> {
    seq![97u8, 99u8, 99u8, 101u8, 112u8, 116u8, 45u8, 101u8, 110u8, 99u8, 111u8, 100u8, 105u8, 110u8, 103u8]
}

/// The bytes of `accept-encoding`.
pub fn accept_encoding() -> (r: Vec<u8>)
    ensures
        r@ == spec_accept_encoding(),
        is_header_name(r@),
{
    let r = vec![97u8, 99u8, 99u8, 101u8, 112u8, 116u8, 45u8, 101u8, 110u8, 99u8, 111u8, 100u8, 105u8, 110u8, 103u8];
    proof {
        assert(r@ =~= spec_accept_encoding());
        lemma_lowercase_name(r@);
    }
    r
}

/// The bytes of `accept`.
pub open spec fn spec_accept() -> Seq<u8> {
    seq![97u8, 99u8, 99u8, 101u8, 112u8, 116u8]
}

/// The bytes of `accept`.
pub fn accept() -> (r: Vec<u8>)
    ensures
        r@ == spec_accept(),
        is_header_name(r@),
{
    let r = vec![97u8, 99u8, 99u8, 101u8, 112u8, 116u8];
    proof {
        assert(r@ =~= spec_accept());
        lemma_lowercase_name(r@);
    }
    r
}

/// The bytes of `user-agent`.
pub open spec fn spec_user_agent() -> Seq<u8> {
    seq![117u8, 115u8, 101u8, 114u8, 45u8, 97u8, 103u8, 101u8, 110u8, 116u8]
}

/// The bytes of `user-agent`.
pub fn user_agent() -> (r: Vec<u8>)
    ensures
        r@ == spec_user_agent(),
        is_header_name(r@),
{
    let r = vec![117u8, 115u8, 101u8, 114u8, 45u8, 97u8, 103u8, 101u8, 110u8, 116u8];
    proof {
        assert(r@ =~= spec_user_agent());
        lemma_lowercase_name(r@);
    }
    r
}

/// The bytes of `host`.
pub open spec fn spec_host() -> Seq<u8> {
    seq![104u8, 111u8, 115u8, 116u8]
}

/// The bytes of `host`.
pub fn host() -> (r: Vec<u8>)
    ensures
        r@ == spec_host(),
        is_header_name(r@),
{
    let r = vec![104u8, 111u8, 115u8, 116u8];
    proof {
        assert(r@ =~= spec_host());
        lemma_lowercase_name(r@);
    }
    r
}

/// The bytes of `location`.
pub open spec fn spec_location() -> Seq<u8> {
    seq![108u8, 111u8, 99u8, 97u8, 116u8, 105u8, 111u8, 110u8]
}

/// The bytes of `location`.
pub fn location() -> (r: Vec<u8>)
    ensures
        r@ == spec_location(),
        is_header_name(r@),
{
    let r = vec![108u8, 111u8, 99u8, 97u8, 116u8, 105u8, 111u8, 110u8];
    proof {
        assert(r@ =~= spec_location());
        lemma_lowercase_name(r@);
    }
    r
}

/// The bytes of `authorization`.
pub open spec fn spec_authorization() -> Seq<u8> {
    seq![97u8, 117u8, 116u8, 104u8, 111u8, 114u8, 105u8, 122u8, 97u8, 116u8, 105u8, 111u8, 110u8]
}

/// The bytes of `authorization`.
pub fn authorization() -> (r: Vec<u8>)
    ensures
        r@ == spec_authorization(),
        is_header_name(r@),
{
    let r = vec![97u8, 117u8, 116u8, 104u8, 111u8, 114u8, 105u8, 122u8, 97u8, 116u8, 105u8, 111u8, 110u8];
    proof {
        assert(r@ =~= spec_authorization());
        lemma_lowercase_name(r@);
    }
    r
}

/// The bytes of `chunked`.
pub open spec fn spec_chunked() -> Seq<u8> {
    seq![99u8, 104u8, 117u8, 110u8, 107u8, 101u8, 100u8]
}

/// The bytes of `chunked`.
pub fn chunked() -> (r: Vec<u8>)
    ensures
        r@ == spec_chunked(),
{
    let r = vec![99u8, 104u8, 117u8, 110u8, 107u8, 101u8, 100u8];
    r
}

/// The bytes of `gzip`.
pub open spec fn spec_gzip() -> Seq<u8> {
    seq![103u8, 122u8, 105u8, 112u8]
}

/// The bytes of `gzip`.
pub fn gzip() -> (r: Vec<u8>)
    ensures
        r@ == spec_gzip(),
{
    let r = vec![103u8, 122u8, 105u8, 112u8];
    r
}

/// The bytes of `deflate`.
pub open spec fn spec_deflate() -> Seq<u8> {
    seq![100u8, 101u8, 102u8, 108u8, 97u8, 116u8, 101u8]
}

/// The bytes of `deflate`.
pub fn deflate() -> (r: Vec<u8>)
    ensures
        r@ == spec_deflate(),
{
    let r = vec![100u8, 101u8, 102u8, 108u8, 97u8, 116u8, 101u8];
    r
}

/// The bytes of `close`.
pub open spec fn spec_close() -> Seq<u8> {
    seq![99u8, 108u8, 111u8, 115u8, 101u8]
}

/// The bytes of `close`.
pub fn close() -> (r: Vec<u8>)
    ensures
        r@ == spec_close(),
{
    let r = vec![99u8, 108u8, 111u8, 115u8, 101u8];
    r
}

/// The bytes of `gzip, deflate`.
pub open spec fn spec_gzip_deflate() -> Seq<u8> {
    seq![103u8, 122u8, 105u8, 112u8, 44u8, 32u8, 100u8, 101u8, 102u8, 108u8, 97u8, 116u8, 101u8]
}

/// The bytes of `gzip, deflate`.
pub fn gzip_deflate() -> (r: Vec<u8>)
    ensures
        r@ == spec_gzip_deflate(),
{
    let r = vec![103u8, 122u8, 105u8, 112u8, 44u8, 32u8, 100u8, 101u8, 102u8, 108u8, 97u8, 116u8, 101u8];
    r
}

/// The bytes of `*/*`.
pub open spec fn spec_any_type() -> Seq<u8> {
    seq![42u8, 47u8, 42u8]
}

/// The bytes of `*/*`.
pub fn any_type() -> (r: Vec<u8>)
    ensures
        r@ == spec_any_type(),
{
    let r = vec![42u8, 47u8, 42u8];
    r
}

/// The bytes of `charset=`.
pub open spec fn spec_charset_eq() -> Seq<u8> {
    seq![99u8, 104u8, 97u8, 114u8, 115u8, 101u8, 116u8, 61u8]
}

/// The bytes of `charset=`.
pub fn charset_eq() -> (r: Vec<u8>)
    ensures
        r@ == spec_charset_eq(),
{
    let r = vec![99u8, 104u8, 97u8, 114u8, 115u8, 101u8, 116u8, 61u8];
    r
}

/// The bytes of `text/plain; charset=utf-8`.
pub open spec fn spec_text_plain_utf8() -> Seq<u8> {
    seq![116u8, 101u8, 120u8, 116u8, 47u8, 112u8, 108u8, 97u8, 105u8, 110u8, 59u8, 32u8, 99u8, 104u8, 97u8, 114u8, 115u8, 101u8, 116u8, 61u8, 117u8, 116u8, 102u8, 45u8, 56u8]
}

/// The bytes of `text/plain; charset=utf-8`.
pub fn text_plain_utf8() -> (r: Vec<u8>)
    ensures
        r@ == spec_text_plain_utf8(),
{
    let r = vec![116u8, 101u8, 120u8, 116u8, 47u8, 112u8, 108u8, 97u8, 105u8, 110u8, 59u8, 32u8, 99u8, 104u8, 97u8, 114u8, 115u8, 101u8, 116u8, 61u8, 117u8, 116u8, 102u8, 45u8, 56u8];
    r
}

/// The bytes of `application/octet-stream`.
pub open spec fn spec_octet_stream() -> Seq<u8> {
    seq![97u8, 112u8, 112u8, 108u8, 105u8, 99u8, 97u8, 116u8, 105u8, 111u8, 110u8, 47u8, 111u8, 99u8, 116u8, 101u8, 116u8, 45u8, 115u8, 116u8, 114u8, 101u8, 97u8, 109u8]
}

/// The bytes of `application/octet-stream`.
pub fn octet_stream() -> (r: Vec<u8>)
    ensures
        r@ == spec_octet_stream(),
{
    let r = vec![97u8, 112u8, 112u8, 108u8, 105u8, 99u8, 97u8, 116u8, 105u8, 111u8, 110u8, 47u8, 111u8, 99u8, 116u8, 101u8, 116u8, 45u8, 115u8, 116u8, 114u8, 101u8, 97u8, 109u8];
    r
}

/// The bytes of `application/json; charset=utf-8`.
pub open spec fn spec_json_utf8() -> Seq<u8> {
    seq![97u8, 112u8, 112u8, 108u8, 105u8, 99u8, 97u8, 116u8, 105u8, 111u8, 110u8, 47u8, 106u8, 115u8, 111u8, 110u8, 59u8, 32u8, 99u8, 104u8, 97u8, 114u8, 115u8, 101u8, 116u8, 61u8, 117u8, 116u8, 102u8, 45u8, 56u8]
}

/// The bytes of `application/json; charset=utf-8`.
pub fn json_utf8() -> (r: Vec<u8>)
    ensures
        r@ == spec_json_utf8(),
{
    let r = vec![97u8, 112u8, 112u8, 108u8, 105u8, 99u8, 97u8, 116u8, 105u8, 111u8, 110u8, 47u8, 106u8, 115u8, 111u8, 110u8, 59u8, 32u8, 99u8, 104u8, 97u8, 114u8, 115u8, 101u8, 116u8, 61u8, 117u8, 116u8, 102u8, 45u8, 56u8];
    r
}

/// The bytes of `application/x-www-form-urlencoded`.
pub open spec fn spec_form_urlencoded() -> Seq<u8> {
    seq![97u8, 112u8, 112u8, 108u8, 105u8, 99u8, 97u8, 116u8, 105u8, 111u8, 110u8, 47u8, 120u8, 45u8, 119u8, 119u8, 119u8, 45u8, 102u8, 111u8, 114u8, 109u8, 45u8, 117u8, 114u8, 108u8, 101u8, 110u8, 99u8, 111u8, 100u8, 101u8, 100u8]
}

/// The bytes of `application/x-www-form-urlencoded`.
pub fn form_urlencoded() -> (r: Vec<u8>)
    ensures
        r@ == spec_form_urlencoded(),
{
    let r = vec![97u8, 112u8, 112u8, 108u8, 105u8, 99u8, 97u8, 116u8, 105u8, 111u8, 110u8, 47u8, 120u8, 45u8, 119u8, 119u8, 119u8, 45u8, 102u8, 111u8, 114u8, 109u8, 45u8, 117u8, 114u8, 108u8, 101u8, 110u8, 99u8, 111u8, 100u8, 101u8, 100u8];
    r
}

/// The bytes of `HTTP/1.1`.
pub open spec fn spec_http_version() -> Seq<u8> {
    seq![72u8, 84u8, 84u8, 80u8, 47u8, 49u8, 46u8, 49u8]
}

/// The bytes of `HTTP/1.1`.
pub fn http_version() -> (r: Vec<u8>)
    ensures
        r@ == spec_http_version(),
{
    let r = vec![72u8, 84u8, 84u8, 80u8, 47u8, 49u8, 46u8, 49u8];
    r
}

/// The bytes of `attohttpc/0.1.0`.
pub open spec fn spec_default_user_agent() -> Seq<u8> {
    seq![97u8, 116u8, 116u8, 111u8, 104u8, 116u8, 116u8, 112u8, 99u8, 47u8, 48u8, 46u8, 49u8, 46u8, 48u8]
}

/// The bytes of `attohttpc/0.1.0`.
pub fn default_user_agent() -> (r: Vec<u8>)
    ensures
        r@ == spec_default_user_agent(),
{
    let r = vec![97u8, 116u8, 116u8, 111u8, 104u8, 116u8, 116u8, 112u8, 99u8, 47u8, 48u8, 46u8, 49u8, 46u8, 48u8];
    r
}

/// The bytes of `Bearer `.
pub open spec fn spec_bearer() -> Seq<u8> {
    seq![66u8, 101u8, 97u8, 114u8, 101u8, 114u8, 32u8]
}

/// The bytes of `Bearer `.
pub fn bearer() -> (r: Vec<u8>)
    ensures
        r@ == spec_bearer(),
{
    let r = vec![66u8, 101u8, 97u8, 114u8, 101u8, 114u8, 32u8];
    r
}

/// The bytes of `Basic `.
pub open spec fn spec_basic() -> Seq<u8> {
    seq![66u8, 97u8, 115u8, 105u8, 99u8, 32u8]
}

/// The bytes of `Basic `.
pub fn basic() -> (r: Vec<u8>)
    ensures
        r@ == spec_basic(),
{
    let r = vec![66u8, 97u8, 115u8, 105u8, 99u8, 32u8];
    r
}

/// The bytes of `multipart/form-data; boundary=`.
pub open spec fn spec_multipart_form_data() -> Seq<u8> {
    seq![109u8, 117u8, 108u8, 116u8, 105u8, 112u8, 97u8, 114u8, 116u8, 47u8, 102u8, 111u8, 114u8, 109u8, 45u8, 100u8, 97u8, 116u8, 97u8, 59u8, 32u8, 98u8, 111u8, 117u8, 110u8, 100u8, 97u8, 114u8, 121u8, 61u8]
}

/// The bytes of `multipart/form-data; boundary=`.
pub fn multipart_form_data() -> (r: Vec<u8>)
    ensures
        r@ == spec_multipart_form_data(),
{
    let r = vec![109u8, 117u8, 108u8, 116u8, 105u8, 112u8, 97u8, 114u8, 116u8, 47u8, 102u8, 111u8, 114u8, 109u8, 45u8, 100u8, 97u8, 116u8, 97u8, 59u8, 32u8, 98u8, 111u8, 117u8, 110u8, 100u8, 97u8, 114u8, 121u8, 61u8];
    r
}

/// The bytes of `CONNECT `.
pub open spec fn spec_connect_request() -> Seq<u8> {
    seq![67u8, 79u8, 78u8, 78u8, 69u8, 67u8, 84u8, 32u8]
}

/// The bytes of `CONNECT `.
pub fn connect_request() -> (r: Vec<u8>)
    ensures
        r@ == spec_connect_request(),
{
    let r = vec![67u8, 79u8, 78u8, 78u8, 69u8, 67u8, 84u8, 32u8];
    r
}

/// The bytes of `Host: `.
pub open spec fn spec_host_line() -> Seq<u8> {
    seq![72u8, 111u8, 115u8, 116u8, 58u8, 32u8]
}

/// The bytes of `Host: `.
pub fn host_line() -> (r: Vec<u8>)
    ensures
        r@ == spec_host_line(),
{
    let r = vec![72u8, 111u8, 115u8, 116u8, 58u8, 32u8];
    r
}

/// The bytes of `Connection: close\r\n`.
pub open spec fn spec_connection_close_line() -> Seq<u8> {
    seq![67u8, 111u8, 110u8, 110u8, 101u8, 99u8, 116u8, 105u8, 111u8, 110u8, 58u8, 32u8, 99u8, 108u8, 111u8, 115u8, 101u8, 13u8, 10u8]
}

/// The bytes of `Connection: close\r\n`.
pub fn connection_close_line() -> (r: Vec<u8>)
    ensures
        r@ == spec_connection_close_line(),
{
    let r = vec![67u8, 111u8, 110u8, 110u8, 101u8, 99u8, 116u8, 105u8, 111u8, 110u8, 58u8, 32u8, 99u8, 108u8, 111u8, 115u8, 101u8, 13u8, 10u8];
    r
}

} // verus!
