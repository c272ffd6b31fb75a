//! Properties that span several functions of the library: what the request writer puts
//! out, the response reader takes back; trimming, interleaving and the other helpers
//! behave as their names promise.

use vstd::prelude::*;

use crate::body::{chunk_encode, hex_char, hex_digits};
use crate::charset::{charset_label, charset_prefix, charset_spec, decoded_text, label_encoding, spec_windows_1252};
use crate::chunked::{next_step, BufReader};
use crate::body_reader::{any_value_has, eq_ignore_ascii_case, has_item, content_length_spec, content_length_value, dec_value, is_visible_ascii, parse_u64_spec};
use crate::buffers::{ends_with_lf, line_len, strip_eol, trim_left_spec, trim_right_spec, trim_spec};
use crate::method::{method_name, standard_method, Method};
use crate::request::is_redirect;
use crate::response::{status_code_spec, status_line_spec};
use crate::chunked_reader::{
    before_semicolon, chunk_size_value, chunk_tail, decode_chunked, hex_value, line_ending, parse_hex_usize, trim_ws,
    trim_ws_end, trim_ws_start, ws_prefix_len, ws_suffix_len,
};
use crate::digits::dec_digits;
use crate::error::ErrorKind;
use crate::happy::interleave;
use crate::headers::values_of;
use crate::names;
use crate::reader::{find_byte, lemma_find_byte_is, limited, until_len};
use crate::response_reader::framed_body;

verus! {

/// A byte that `hex_digits` may hold.
spec fn is_hex_char(b: u8) -> bool {
    (48u8 <= b <= 57u8) || (65u8 <= b <= 70u8)
}

proof fn lemma_hex_char(d: nat)
    requires
        d < 16,
    ensures
        is_hex_char(hex_char(d)),
        crate::chunked_reader::hex_digit(hex_char(d)) == Some(d as int),
{
}

proof fn lemma_hex_digits(n: nat)
    ensures
        hex_digits(n).len() >= 1,
        forall|i: int| 0 <= i < hex_digits(n).len() ==> is_hex_char(#[trigger] hex_digits(n)[i]),
        hex_value(hex_digits(n)) == Some(n as int),
    decreases n,
{
    if n < 16 {
        let c = hex_char(n);
        lemma_hex_char(n);
        assert(hex_digits(n) == seq![c]);
        assert(seq![c].drop_last() =~= Seq::<u8>::empty());
        assert(hex_value(Seq::<u8>::empty()) == Some(0int));
        assert(seq![c].last() == c);
        assert(hex_value(seq![c]) == Some(n as int));
    } else {
        lemma_hex_digits(n / 16);
        let d = hex_digits(n / 16);
        let c = hex_char(n % 16);
        lemma_hex_char(n % 16);
        assert(hex_digits(n) == d.push(c));
        assert(d.push(c).drop_last() =~= d);
        assert(d.push(c).last() == c);
        assert((n / 16) * 16 + n % 16 == n);
        assert(hex_value(d.push(c)) == Some(n as int));
        assert forall|i: int| 0 <= i < hex_digits(n).len() implies is_hex_char(#[trigger] hex_digits(n)[i]) by {
            if i < d.len() {
                assert(hex_digits(n)[i] == d[i]);
            }
        }
    }
}

/// `16^k`.
spec fn pow16(k: nat) -> nat
    decreases k,
{
    if k == 0 {
        1
    } else {
        16 * pow16((k - 1) as nat)
    }
}

proof fn lemma_hex_digits_len(n: nat, k: nat)
    requires
        k >= 1,
        n < pow16(k),
    ensures
        hex_digits(n).len() <= k,
    decreases n,
{
    if n >= 16 {
        if k == 1 {
            assert(pow16(1) == 16 * pow16(0));
        } else {
            let p = pow16((k - 1) as nat);
            assert(pow16(k) == 16 * p);
            assert(n / 16 < p) by (nonlinear_arith)
                requires
                    n < 16 * p,
            ;
            lemma_hex_digits_len(n / 16, (k - 1) as nat);
        }
    }
}

proof fn lemma_hex_digits_short(n: nat)
    requires
        n <= usize::MAX,
    ensures
        hex_digits(n).len() <= 16,
{
    assert(pow16(16) == 0x1_0000_0000_0000_0000) by {
        reveal_with_fuel(pow16, 17);
    }
    lemma_hex_digits_len(n, 16);
}

proof fn lemma_hex_no_ws(h: Seq<u8>)
    requires
        h.len() >= 1,
        forall|i: int| 0 <= i < h.len() ==> is_hex_char(#[trigger] h[i]),
    ensures
        trim_ws(h) == h,
        before_semicolon(h) == h,
{
    assert(is_hex_char(h[0]));
    assert(ws_prefix_len(h) == 0);
    assert(trim_ws_start(h) == h);
    let n = h.len() as int;
    assert(h.subrange(n - 1, n)[0] == h[n - 1]);
    assert(is_hex_char(h[n - 1]));
    if n >= 2 {
        assert(h.subrange(n - 2, n)[0] == h[n - 2]);
        assert(is_hex_char(h[n - 2]));
    }
    if n >= 3 {
        assert(h.subrange(n - 3, n)[0] == h[n - 3]);
        assert(is_hex_char(h[n - 3]));
    }
    assert(ws_suffix_len(h) == 0);
    assert(trim_ws_end(h) == h);
    lemma_find_byte_is(h, 59u8, n);
    assert(h.take(n) =~= h);
}

/// A size line naming `n` in hexadecimal, followed by `rest`, decodes as a chunk of
/// size `n` followed by `rest`.
proof fn lemma_size_line(n: nat, rest: Seq<u8>)
    requires
        n <= usize::MAX,
    ensures
        decode_chunked(hex_digits(n) + seq![13u8, 10u8] + rest) == chunk_tail(rest, n as int),
{
    let h = hex_digits(n);
    lemma_hex_digits(n);
    lemma_hex_digits_short(n);
    let s = h + seq![13u8, 10u8] + rest;
    let k = h.len() as int;
    let lim = limited(s, 128);
    assert forall|j: int| 0 <= j < k + 1 implies lim[j] != 10u8 by {
        if j < k {
            assert(lim[j] == h[j]);
            assert(is_hex_char(h[j]));
        } else {
            assert(lim[j] == 13u8);
        }
    }
    assert(lim[k + 1] == 10u8);
    lemma_find_byte_is(lim, 10u8, k + 1);
    assert(until_len(lim, 10u8) == k + 2);
    assert(line_len(s, 128) == k + 2);
    let got = s.take(k + 2);
    assert(got =~= h + seq![13u8, 10u8]);
    assert(ends_with_lf(got));
    assert(strip_eol(got) =~= h);
    lemma_hex_no_ws(h);
    assert(h[0] != 43u8) by {
        assert(is_hex_char(h[0]));
    }
    assert(parse_hex_usize(h) == Some(n as int));
    assert(chunk_size_value(h) == Some(n as int));
    assert(s.skip(k + 2) =~= rest);
}

proof fn lemma_last_chunk(tail: Seq<u8>)
    ensures
        decode_chunked(seq![48u8, 13u8, 10u8, 13u8, 10u8] + tail) == Ok::<Seq<u8>, ErrorKind>(Seq::empty()),
{
    let after_last = seq![13u8, 10u8] + tail;
    assert(hex_digits(0) =~= seq![48u8]);
    lemma_size_line(0, after_last);
    assert(seq![48u8, 13u8, 10u8, 13u8, 10u8] + tail =~= hex_digits(0) + seq![13u8, 10u8] + after_last);
    assert(after_last.skip(0) =~= after_last);
    assert(line_ending(after_last) == Ok::<(bool, int), ErrorKind>((true, 2)));
}

proof fn lemma_one_chunk(content: Seq<u8>, tail: Seq<u8>)
    requires
        0 < content.len() <= usize::MAX,
    ensures
        decode_chunked(chunk_encode(content) + tail) == Ok::<Seq<u8>, ErrorKind>(content),
{
    let last = seq![48u8, 13u8, 10u8, 13u8, 10u8];
    let n = content.len();
    let rest = content + seq![13u8, 10u8] + last + tail;
    lemma_size_line(n, rest);
    lemma_last_chunk(tail);
    assert(chunk_encode(content) + tail =~= hex_digits(n) + seq![13u8, 10u8] + rest);
    let after = rest.skip(n as int);
    assert(after =~= seq![13u8, 10u8] + (last + tail));
    assert(line_ending(after) == Ok::<(bool, int), ErrorKind>((true, 2)));
    assert(after.skip(2) =~= last + tail);
    assert(rest.take(n as int) =~= content);
    assert(content + Seq::<u8>::empty() =~= content);
}

/// Whatever follows it, the chunked encoding of `content` that the request writer puts
/// out decodes as `content`.
pub proof fn law_chunked_round_trip(content: Seq<u8>, tail: Seq<u8>)
    requires
        content.len() <= usize::MAX,
    ensures
        decode_chunked(chunk_encode(content) + tail) == Ok::<Seq<u8>, ErrorKind>(content),
{
    if content.len() > 0 {
        lemma_one_chunk(content, tail);
    } else {
        lemma_last_chunk(tail);
        assert(chunk_encode(content) + tail =~= seq![48u8, 13u8, 10u8, 13u8, 10u8] + tail);
        assert(content =~= Seq::<u8>::empty());
    }
}

/// A chunked body made of the non-empty chunks `chunks`, in order, then the last chunk.
pub open spec fn chunks_encode(chunks: Seq<Seq<u8>>) -> Seq<u8>
    decreases chunks.len(),
{
    if chunks.len() == 0 {
        seq![48u8, 13u8, 10u8, 13u8, 10u8]
    } else {
        hex_digits(chunks[0].len()) + seq![13u8, 10u8] + chunks[0] + seq![13u8, 10u8] + chunks_encode(chunks.drop_first())
    }
}

/// The data of `chunks`, one after the other.
pub open spec fn chunks_data(chunks: Seq<Seq<u8>>) -> Seq<u8>
    decreases chunks.len(),
{
    if chunks.len() == 0 {
        Seq::empty()
    } else {
        chunks[0] + chunks_data(chunks.drop_first())
    }
}

/// Whatever follows it, a chunked body made of any non-empty chunks decodes as the data
/// of the chunks, one after the other.
pub proof fn law_chunks_decode(chunks: Seq<Seq<u8>>, tail: Seq<u8>)
    requires
        forall|i: int| 0 <= i < chunks.len() ==> 0 < (#[trigger] chunks[i]).len() <= usize::MAX,
    ensures
        decode_chunked(chunks_encode(chunks) + tail) == Ok::<Seq<u8>, ErrorKind>(chunks_data(chunks)),
    decreases chunks.len(),
{
    if chunks.len() == 0 {
        lemma_last_chunk(tail);
    } else {
        let c = chunks[0];
        let more = chunks.drop_first();
        assert forall|i: int| 0 <= i < more.len() implies 0 < (#[trigger] more[i]).len() <= usize::MAX by {
            assert(more[i] == chunks[i + 1]);
        }
        law_chunks_decode(more, tail);
        let n = c.len();
        let later = chunks_encode(more) + tail;
        let rest = c + seq![13u8, 10u8] + later;
        lemma_size_line(n, rest);
        assert(chunks_encode(chunks) + tail =~= hex_digits(n) + seq![13u8, 10u8] + rest);
        let after = rest.skip(n as int);
        assert(after =~= seq![13u8, 10u8] + later);
        assert(line_ending(after) == Ok::<(bool, int), ErrorKind>((true, 2)));
        assert(after.skip(2) =~= later);
        assert(rest.take(n as int) =~= c);
    }
}

proof fn lemma_dec_digits(n: nat)
    ensures
        dec_digits(n).len() >= 1,
        forall|i: int| 0 <= i < dec_digits(n).len() ==> 48u8 <= #[trigger] dec_digits(n)[i] <= 57u8,
        dec_value(dec_digits(n)) == Some(n as int),
    decreases n,
{
    if n < 10 {
        let c = (48 + n) as u8;
        assert(dec_digits(n) == seq![c]);
        assert(seq![c].drop_last() =~= Seq::<u8>::empty());
        assert(seq![c].last() == c);
        assert(dec_value(Seq::<u8>::empty()) == Some(0int));
        assert(dec_value(seq![c]) == Some(n as int));
    } else {
        lemma_dec_digits(n / 10);
        let d = dec_digits(n / 10);
        let c = (48 + n % 10) as u8;
        assert(dec_digits(n) == d.push(c));
        assert(d.push(c).drop_last() =~= d);
        assert(d.push(c).last() == c);
        assert((n / 10) * 10 + n % 10 == n);
        assert(dec_value(d.push(c)) == Some(n as int));
        assert forall|i: int| 0 <= i < dec_digits(n).len() implies 48u8 <= #[trigger] dec_digits(n)[i] <= 57u8 by {
            if i < d.len() {
                assert(dec_digits(n)[i] == d[i]);
            }
        }
    }
}

/// The `Content-Length` that a prepared request announces for a body of `n` bytes is
/// read back as `n`.
pub proof fn law_content_length_round_trip(n: u64)
    ensures
        content_length_value(dec_digits(n as nat)) == Some(n as int),
        content_length_spec(seq![dec_digits(n as nat)]) == Ok::<Option<u64>, ErrorKind>(Some(n)),
{
    let d = dec_digits(n as nat);
    lemma_dec_digits(n as nat);
    assert(is_visible_ascii(d));
    assert(d[0] != 43u8);
    assert(parse_u64_spec(d) == Some(n as int));
    assert(seq![d].drop_last() =~= Seq::<Seq<u8>>::empty());
    assert(seq![d].last() == d);
    assert(content_length_spec(Seq::<Seq<u8>>::empty()) == Ok::<Option<u64>, ErrorKind>(None));
    assert(content_length_value(seq![d].last()) == Some(n as int));
}

/// A `Content-Length` header repeated `k` times with the same decimal value `n` reads as
/// `n` (and as no length when it is absent).
pub proof fn law_content_length_repeated(n: u64, k: nat)
    ensures
        content_length_spec(Seq::new(k, |i: int| dec_digits(n as nat)))
            == (if k == 0 { Ok::<Option<u64>, ErrorKind>(None) } else { Ok::<Option<u64>, ErrorKind>(Some(n)) }),
    decreases k,
{
    law_content_length_round_trip(n);
    if k > 0 {
        law_content_length_repeated(n, (k - 1) as nat);
        let vs = Seq::new(k, |i: int| dec_digits(n as nat));
        assert(vs.drop_last() =~= Seq::new((k - 1) as nat, |i: int| dec_digits(n as nat)));
        assert(vs.last() == dec_digits(n as nat));
    } else {
        assert(Seq::new(k, |i: int| dec_digits(n as nat)).len() == 0);
    }
}

/// Two `Content-Length` values that disagree make the length an error.
pub proof fn law_content_length_conflict(a: u64, b: u64)
    requires
        a != b,
    ensures
        content_length_spec(seq![dec_digits(a as nat), dec_digits(b as nat)])
            == Err::<Option<u64>, ErrorKind>(ErrorKind::InvalidResponse(crate::error::InvalidResponseKind::ContentLength)),
{
    law_content_length_round_trip(a);
    law_content_length_round_trip(b);
    let vs = seq![dec_digits(a as nat), dec_digits(b as nat)];
    assert(vs.drop_last() =~= seq![dec_digits(a as nat)]);
    assert(seq![dec_digits(a as nat)].drop_last() =~= Seq::<Seq<u8>>::empty());
}

/// A response whose only `Content-Length` is the decimal length of `content`, and which
/// does not use the chunked coding, has `content` as its body, whatever follows it.
pub proof fn law_length_framing(list: Seq<(Seq<u8>, Seq<u8>)>, content: Seq<u8>, tail: Seq<u8>)
    requires
        content.len() <= u64::MAX,
        values_of(list, names::spec_content_length()) == seq![dec_digits(content.len())],
        !any_value_has(values_of(list, names::spec_transfer_encoding()), names::spec_chunked()),
    ensures
        framed_body(list, content + tail) == Ok::<Result<Seq<u8>, ErrorKind>, ErrorKind>(Ok(content)),
{
    law_content_length_round_trip(content.len() as u64);
    assert(limited(content + tail, content.len() as int) =~= content);
}

/// A response that uses the chunked coding, whose body is `content` in the chunked
/// encoding that the request writer puts out, has `content` as its body, whatever
/// follows it.
pub proof fn law_chunked_framing(list: Seq<(Seq<u8>, Seq<u8>)>, content: Seq<u8>, tail: Seq<u8>)
    requires
        content.len() <= usize::MAX,
        any_value_has(values_of(list, names::spec_transfer_encoding()), names::spec_chunked()),
    ensures
        framed_body(list, chunk_encode(content) + tail) == Ok::<Result<Seq<u8>, ErrorKind>, ErrorKind>(Ok(content)),
{
    law_chunked_round_trip(content, tail);
}

/// The `Content-Length` that a prepared request announces for a body of known length `n`
/// is read back by a response reader as `n`.
pub proof fn law_prepared_length_read_back(old: Seq<Seq<u8>>, compress: bool, n: u64, content_type: Option<Seq<u8>>)
    ensures
        crate::request::prepared_values(names::spec_content_length(), old, compress, crate::body::BodyKind::KnownLength(n), content_type)
            == seq![dec_digits(n as nat)],
        content_length_spec(crate::request::prepared_values(names::spec_content_length(), old, compress,
            crate::body::BodyKind::KnownLength(n), content_type)) == Ok::<Option<u64>, ErrorKind>(Some(n)),
{
    law_content_length_round_trip(n);
    assert(names::spec_content_length() != names::spec_connection()) by {
        assert(names::spec_content_length().len() != names::spec_connection().len());
    }
    assert(names::spec_content_length() != names::spec_accept_encoding()) by {
        assert(names::spec_content_length().len() != names::spec_accept_encoding().len());
    }
}

/// A prepared request always announces `Connection: close`, and keeps the `Accept` and
/// `User-Agent` that the builder set.
pub proof fn law_prepared_defaults(old: Seq<Seq<u8>>, compress: bool, kind: crate::body::BodyKind, content_type: Option<Seq<u8>>)
    ensures
        crate::request::prepared_values(names::spec_connection(), old, compress, kind, content_type) == seq![names::spec_close()],
        old.len() > 0 ==> crate::request::prepared_values(names::spec_accept(), old, compress, kind, content_type) == old,
        old.len() > 0 ==> crate::request::prepared_values(names::spec_user_agent(), old, compress, kind, content_type) == old,
{
    let acc = names::spec_accept();
    let ua = names::spec_user_agent();
    assert(acc.len() == 6 && ua.len() == 10);
    assert(names::spec_connection().len() == 10 && names::spec_accept_encoding().len() == 15);
    assert(names::spec_content_length().len() == 14 && names::spec_transfer_encoding().len() == 17);
    assert(names::spec_content_type().len() == 12);
    assert(ua != names::spec_connection()) by {
        assert(ua[0] != names::spec_connection()[0]);
    }
}

/// Trimming a byte from both ends twice is trimming it once.
pub proof fn law_trim_idempotent(s: Seq<u8>, b: u8)
    ensures
        trim_spec(trim_spec(s, b), b) == trim_spec(s, b),
{
    let t = trim_spec(s, b);
    lemma_trim_right_stable(s, b);
    lemma_trim_left_keeps_end(trim_right_spec(s, b), b);
    lemma_trim_left_stable(trim_right_spec(s, b), b);
    lemma_trim_right_noop(t, b);
}

proof fn lemma_trim_right_stable(s: Seq<u8>, b: u8)
    ensures
        trim_right_spec(s, b).len() == 0 || trim_right_spec(s, b).last() != b,
    decreases s.len(),
{
    if s.len() > 0 && s.last() == b {
        lemma_trim_right_stable(s.drop_last(), b);
    }
}

proof fn lemma_trim_left_stable(s: Seq<u8>, b: u8)
    ensures
        trim_left_spec(s, b).len() == 0 || trim_left_spec(s, b)[0] != b,
        trim_left_spec(trim_left_spec(s, b), b) == trim_left_spec(s, b),
    decreases s.len(),
{
    if s.len() > 0 && s[0] == b {
        lemma_trim_left_stable(s.drop_first(), b);
    }
}

/// Trimming the start keeps the last byte of a non-empty result.
proof fn lemma_trim_left_keeps_end(s: Seq<u8>, b: u8)
    ensures
        trim_left_spec(s, b).len() > 0 ==> trim_left_spec(s, b).last() == s.last(),
        trim_left_spec(s, b).len() <= s.len(),
    decreases s.len(),
{
    if s.len() > 0 && s[0] == b {
        lemma_trim_left_keeps_end(s.drop_first(), b);
    }
}

proof fn lemma_trim_right_noop(t: Seq<u8>, b: u8)
    requires
        t.len() == 0 || t.last() != b,
    ensures
        trim_right_spec(t, b) == t,
{
}

/// Interleaving keeps every element of both sequences, and only them.
pub proof fn law_interleave_keeps_elements<T>(a: Seq<T>, b: Seq<T>)
    ensures
        interleave(a, b).len() == a.len() + b.len(),
        interleave(a, b).to_multiset() == a.to_multiset().add(b.to_multiset()),
    decreases a.len() + b.len(),
{
    broadcast use vstd::seq_lib::group_to_multiset_ensures, vstd::multiset::group_multiset_axioms;
    if a.len() == 0 {
        assert(a.to_multiset() =~= vstd::multiset::Multiset::empty());
        assert(a.to_multiset().add(b.to_multiset()) =~= b.to_multiset());
    } else if b.len() == 0 {
        assert(b.to_multiset() =~= vstd::multiset::Multiset::empty());
        assert(a.to_multiset().add(b.to_multiset()) =~= a.to_multiset());
    } else {
        law_interleave_keeps_elements(a.drop_first(), b.drop_first());
        let rest = interleave(a.drop_first(), b.drop_first());
        vstd::seq_lib::lemma_multiset_commutative(seq![a[0], b[0]], rest);
        assert(seq![a[0], b[0]] =~= seq![a[0]].push(b[0]));
        assert(a =~= seq![a[0]] + a.drop_first());
        assert(b =~= seq![b[0]] + b.drop_first());
        vstd::seq_lib::lemma_multiset_commutative(seq![a[0]], a.drop_first());
        vstd::seq_lib::lemma_multiset_commutative(seq![b[0]], b.drop_first());
        assert(seq![a[0]].to_multiset() =~= vstd::multiset::Multiset::empty().insert(a[0])) by {
            assert(seq![a[0]] =~= Seq::<T>::empty().push(a[0]));
        }
        assert(seq![b[0]].to_multiset() =~= vstd::multiset::Multiset::empty().insert(b[0])) by {
            assert(seq![b[0]] =~= Seq::<T>::empty().push(b[0]));
        }
        assert(seq![a[0], b[0]].to_multiset() =~= vstd::multiset::Multiset::empty().insert(a[0]).insert(b[0])) by {
            assert(seq![a[0], b[0]] =~= Seq::<T>::empty().push(a[0]).push(b[0]));
        }
        assert(interleave(a, b).to_multiset() =~= a.to_multiset().add(b.to_multiset()));
    }
}

/// The body of a response to a HEAD request is never decoded.
pub proof fn law_head_not_decoded(list: Seq<(Seq<u8>, Seq<u8>)>)
    ensures
        crate::response_reader::coding_of(list, crate::method::Method::Head) is None,
{
}

/// With proxies disabled, no URL goes through a proxy.
pub proof fn law_disabled_proxies(settings: crate::proxy::ProxySettings, scheme: Seq<u8>, host: Option<Seq<u8>>)
    requires
        settings.spec_disabled(),
    ensures
        settings.proxy_for(scheme, host) is None,
{
}

/// A URL whose host ends with a no-proxy pattern goes through no proxy.
pub proof fn law_no_proxy_host(settings: crate::proxy::ProxySettings, scheme: Seq<u8>, host: Seq<u8>, i: int)
    requires
        0 <= i < settings.spec_no_proxy().len(),
        crate::proxy::ends_with(host, vstd::utf8::encode_utf8(crate::proxy::lowercased(settings.spec_no_proxy()[i]))),
    ensures
        settings.proxy_for(scheme, Some(host)) is None,
{
}

/// Without a `Content-Type` header, a response body is decoded in the default character
/// set if one is given, else in windows-1252.
pub proof fn law_default_charset(default: Option<Seq<u8>>)
    ensures
        crate::charset::charset_spec(Seq::empty(), default) == (match default {
            Some(d) => d,
            None => crate::charset::spec_windows_1252(),
        }),
{
}

proof fn lemma_unstreamed_parts(fields: Seq<crate::multipart::Field>, b: Seq<u8>)
    requires
        forall|i: int| 0 <= i < fields.len() ==> !((#[trigger] fields[i]).data is Stream),
    ensures
        crate::multipart::parts_rest(crate::multipart::stream_parts_of(fields, b)).len() == crate::multipart::sized_len(fields, b),
        !crate::multipart::has_stream(fields),
    decreases fields.len(),
{
    if fields.len() > 0 {
        let init = fields.drop_last();
        assert forall|i: int| 0 <= i < init.len() implies !((#[trigger] init[i]).data is Stream) by {
            assert(init[i] == fields[i]);
        }
        lemma_unstreamed_parts(init, b);
        assert(fields.last() == fields[fields.len() - 1]);
        let ps = crate::multipart::stream_parts_of(init, b);
        match crate::multipart::stream_part(fields.last(), b) {
            Some(p) => {
                assert(crate::multipart::stream_parts_of(fields, b) == ps.push(p));
                assert(ps.push(p).drop_last() =~= ps);
            },
            None => {},
        }
    }
    if crate::multipart::has_stream(fields) {
        let j = choose|j: int| 0 <= j < fields.len() && #[trigger] fields[j].data is Stream;
        assert(!(fields[j].data is Stream));
    }
}

/// A form with no field read from a stream announces exactly the length of its
/// serialization: text fields, sized fields and end boundary, whenever that length fits
/// in 64 bits.
pub proof fn law_multipart_length(fields: Seq<crate::multipart::Field>, boundary: Seq<u8>)
    requires
        forall|i: int| 0 <= i < fields.len() ==> !((#[trigger] fields[i]).data is Stream),
        crate::multipart::form_bytes(fields, boundary).len() <= u64::MAX,
    ensures
        crate::multipart::announced_len(fields, boundary) == Some(crate::multipart::form_bytes(fields, boundary).len() as int),
{
    lemma_unstreamed_parts(fields, boundary);
}

/// The text fields of a form serialize to nothing, or to bytes that start with the
/// boundary and the disposition line.
proof fn lemma_text_data_starts(fields: Seq<crate::multipart::Field>, b: Seq<u8>)
    ensures
        ({
            let head = b + crate::multipart::disposition();
            let t = crate::multipart::text_data_of(fields, b);
            t.len() == 0 || (head.len() <= t.len() && t.take(head.len() as int) == head)
        }),
    decreases fields.len(),
{
    let head = b + crate::multipart::disposition();
    if fields.len() > 0 {
        let init = fields.drop_last();
        lemma_text_data_starts(init, b);
        let t0 = crate::multipart::text_data_of(init, b);
        let t = crate::multipart::text_data_of(fields, b);
        if t0.len() > 0 {
            assert(t.take(head.len() as int) =~= t0.take(head.len() as int));
        } else {
            match fields.last().data {
                crate::multipart::FieldData::Text(x) => {
                    assert(t.take(head.len() as int) =~= head);
                },
                _ => {
                    assert(t =~= Seq::<u8>::empty());
                },
            }
        }
    }
}

/// A form with at least one field starts with the boundary and the line
/// `\r\nContent-Disposition: form-data; name="`, and ends with the boundary followed by
/// `--`.
pub proof fn law_multipart_frame(fields: Seq<crate::multipart::Field>, boundary: Seq<u8>)
    requires
        fields.len() > 0,
    ensures
        boundary.len() <= crate::multipart::form_bytes(fields, boundary).len(),
        crate::multipart::form_bytes(fields, boundary).take(boundary.len() as int) == boundary,
        ({
            let head = boundary + crate::multipart::disposition();
            let f = crate::multipart::form_bytes(fields, boundary);
            head.len() <= f.len() && f.take(head.len() as int) == head
        }),
        ({
            let f = crate::multipart::form_bytes(fields, boundary);
            let end = boundary + seq![45u8, 45u8];
            &&& end.len() <= f.len()
            &&& f.skip(f.len() - end.len()) == end
        }),
{
    let b = boundary;
    let head = b + crate::multipart::disposition();
    let init = fields.drop_last();
    lemma_text_data_starts(fields, b);
    lemma_text_data_starts(init, b);
    let td = crate::multipart::text_data_of(fields, b);
    let pr = crate::multipart::parts_rest(crate::multipart::stream_parts_of(fields, b));
    let end = crate::multipart::end_of(fields, b);
    let f = crate::multipart::form_bytes(fields, b);
    assert(f == td + pr + end);
    if td.len() > 0 {
        assert(f.take(head.len() as int) =~= td.take(head.len() as int));
    } else {
        match crate::multipart::stream_part(fields.last(), b) {
            Some(p) => {
                let ps = crate::multipart::stream_parts_of(init, b);
                assert(crate::multipart::stream_parts_of(fields, b) == ps.push(p));
                assert(ps.push(p).last() == p);
                assert(ps.push(p).drop_last() =~= ps);
                assert(pr == p.0 + p.1 + crate::multipart::parts_rest(ps));
                assert(f.take(head.len() as int) =~= head);
            },
            None => {
                assert(td =~= crate::multipart::text_data_of(init, b) + crate::multipart::text_part(b,
                    crate::multipart::str_bytes(fields.last().name), match fields.last().data {
                        crate::multipart::FieldData::Text(t) => crate::multipart::str_bytes(t),
                        _ => Seq::empty(),
                    }));
            },
        }
    }
    assert(f.take(b.len() as int) =~= head.take(head.len() as int).take(b.len() as int));
    assert(f.skip(f.len() - end.len()) =~= end);
}

/// A form announces no length exactly when one of its fields is read from a stream,
/// for every form whose length fits in 64 bits.
pub proof fn law_multipart_length_iff_stream(fields: Seq<crate::multipart::Field>, boundary: Seq<u8>)
    requires
        crate::multipart::form_bytes(fields, boundary).len() <= u64::MAX,
    ensures
        crate::multipart::announced_len(fields, boundary) is None <==> crate::multipart::has_stream(fields),
{
    if !crate::multipart::has_stream(fields) {
        assert forall|i: int| 0 <= i < fields.len() implies !((#[trigger] fields[i]).data is Stream) by {
            if fields[i].data is Stream {
                assert(crate::multipart::has_stream(fields));
            }
        }
        law_multipart_length(fields, boundary);
    }
}

/// Interleaving takes the elements of both sequences in turns: while both last, the
/// `i`-th element of `a` comes at `2i` and that of `b` at `2i + 1`; then the rest of the
/// longer one follows in order.
pub proof fn law_interleave_in_turns<T>(a: Seq<T>, b: Seq<T>, i: int)
    requires
        0 <= i,
    ensures
        i < a.len() && i < b.len() ==> interleave(a, b)[2 * i] == a[i] && interleave(a, b)[2 * i + 1] == b[i],
        b.len() <= i < a.len() ==> interleave(a, b)[b.len() + i] == a[i],
        a.len() <= i < b.len() ==> interleave(a, b)[a.len() + i] == b[i],
    decreases a.len() + b.len(),
{
    if a.len() > 0 && b.len() > 0 && i > 0 {
        law_interleave_in_turns(a.drop_first(), b.drop_first(), i - 1);
        law_interleave_keeps_elements(a.drop_first(), b.drop_first());
        let rest = interleave(a.drop_first(), b.drop_first());
        assert(interleave(a, b) == seq![a[0], b[0]] + rest);
        if i < a.len() && i < b.len() {
            assert(rest[2 * (i - 1)] == a[i]);
            assert(rest[2 * (i - 1) + 1] == b[i]);
            assert(interleave(a, b)[2 * i] == rest[2 * i - 2]);
            assert(interleave(a, b)[2 * i + 1] == rest[2 * i - 1]);
        }
        if b.len() <= i < a.len() {
            assert(interleave(a, b)[b.len() + i] == rest[b.len() + i - 2]);
        }
        if a.len() <= i < b.len() {
            assert(interleave(a, b)[a.len() + i] == rest[a.len() + i - 2]);
        }
    } else if a.len() > 0 && b.len() > 0 {
        assert(interleave(a, b) == seq![a[0], b[0]] + interleave(a.drop_first(), b.drop_first()));
    }
}

/// Trimming leaves a piece of `s` in one run, which neither starts nor ends with the
/// trimmed byte.
pub proof fn law_trim_bounds(s: Seq<u8>, b: u8)
    ensures
        exists|i: int, j: int| 0 <= i <= j <= s.len() && #[trigger] s.subrange(i, j) == trim_spec(s, b),
        trim_spec(s, b).len() > 0 ==> trim_spec(s, b)[0] != b && trim_spec(s, b).last() != b,
{
    lemma_trim_right_piece(s, b);
    let r = trim_right_spec(s, b);
    lemma_trim_left_piece(r, b);
    let j = r.len() as int;
    let i = r.len() - trim_spec(s, b).len();
    assert(s.subrange(0, j) == r);
    assert(r.subrange(i, j) == trim_spec(s, b));
    assert(s.subrange(i, j) =~= r.subrange(i, j));
}

proof fn lemma_trim_right_piece(s: Seq<u8>, b: u8)
    ensures
        trim_right_spec(s, b).len() <= s.len(),
        s.subrange(0, trim_right_spec(s, b).len() as int) == trim_right_spec(s, b),
        trim_right_spec(s, b).len() > 0 ==> trim_right_spec(s, b).last() != b,
    decreases s.len(),
{
    if s.len() > 0 && s.last() == b {
        lemma_trim_right_piece(s.drop_last(), b);
        let r = trim_right_spec(s.drop_last(), b);
        assert(s.subrange(0, r.len() as int) =~= s.drop_last().subrange(0, r.len() as int));
    } else {
        assert(s.subrange(0, s.len() as int) =~= s);
    }
}

proof fn lemma_trim_left_piece(s: Seq<u8>, b: u8)
    ensures
        trim_left_spec(s, b).len() <= s.len(),
        s.subrange(s.len() - trim_left_spec(s, b).len(), s.len() as int) == trim_left_spec(s, b),
        trim_left_spec(s, b).len() > 0 ==> trim_left_spec(s, b)[0] != b,
        trim_left_spec(s, b).len() > 0 && s.len() > 0 ==> trim_left_spec(s, b).last() == s.last(),
    decreases s.len(),
{
    if s.len() > 0 && s[0] == b {
        lemma_trim_left_piece(s.drop_first(), b);
        let r = trim_left_spec(s.drop_first(), b);
        let d = s.drop_first();
        assert(s.subrange(s.len() - r.len(), s.len() as int) =~= d.subrange(d.len() - r.len(), d.len() as int));
    } else {
        assert(s.subrange(0, s.len() as int) =~= s);
    }
}

/// `read_line` succeeds exactly when a line feed comes within the limit: with the first
/// line feed of the stream at `k < max`, it takes `k + 1` bytes and the line is the bytes
/// before the line feed, without one `\r` just before it.
pub proof fn law_read_line_first_lf(s: Seq<u8>, max: int, k: int)
    requires
        0 <= k < s.len(),
        k < max,
        s[k] == 10u8,
        forall|j: int| 0 <= j < k ==> s[j] != 10u8,
    ensures
        line_len(s, max) == k + 1,
        ends_with_lf(s.take(k + 1)),
        strip_eol(s.take(k + 1)) == (if k > 0 && s[k - 1] == 13u8 { s.take(k - 1) } else { s.take(k) }),
{
    let lim = limited(s, max);
    assert forall|j: int| 0 <= j < k implies lim[j] != 10u8 by {
        assert(lim[j] == s[j]);
    }
    assert(lim[k] == 10u8);
    lemma_find_byte_is(lim, 10u8, k);
    let got = s.take(k + 1);
    if k > 0 {
        assert(got.take(got.len() - 2) =~= s.take(k - 1));
    }
    assert(got.take(got.len() - 1) =~= s.take(k));
}

/// Without a line feed within the first `max` bytes, `read_line` fails: what it takes
/// does not end with a line feed.
pub proof fn law_read_line_no_lf(s: Seq<u8>, max: int)
    requires
        0 <= max,
        forall|j: int| 0 <= j < s.len() && j < max ==> s[j] != 10u8,
    ensures
        !ends_with_lf(s.take(line_len(s, max))),
{
    let lim = limited(s, max);
    assert forall|j: int| 0 <= j < lim.len() implies lim[j] != 10u8 by {
        assert(lim[j] == s[j]);
    }
    lemma_find_byte_is(lim, 10u8, lim.len() as int);
    let got = s.take(line_len(s, max));
    if got.len() > 0 {
        assert(got.last() == s[got.len() - 1]);
    }
}

/// `read_line_strict` succeeds exactly when a `\r\n` lies within the limit: with the
/// first `\r\n` of the stream at `k`, `k + 2 <= max`, it finds it there; with no
/// `\r\n` within the limit it finds none.
pub proof fn law_read_line_strict_first_crlf(s: Seq<u8>, max: int, k: int)
    requires
        0 <= k,
        k + 2 <= max,
        k + 1 < s.len(),
        s[k] == 13u8 && s[k + 1] == 10u8,
        forall|j: int| 0 <= j < k ==> !#[trigger] crate::buffers::crlf_at(s, j),
    ensures
        k < limited(s, max).len(),
        crate::buffers::find_crlf(limited(s, max)) == k,
{
    let lim = limited(s, max);
    assert forall|j: int| 0 <= j < k implies !#[trigger] crate::buffers::crlf_at(lim, j) by {
        assert(lim[j] == s[j] && lim[j + 1] == s[j + 1]);
        assert(!crate::buffers::crlf_at(s, j));
    }
    assert(lim[k] == s[k] && lim[k + 1] == s[k + 1]);
    crate::buffers::lemma_find_crlf_found(lim, k);
}

/// Without a `\r\n` within the first `max` bytes, `read_line_strict` finds none and
/// fails.
pub proof fn law_read_line_strict_no_crlf(s: Seq<u8>, max: int)
    requires
        0 <= max,
        forall|j: int| 0 <= j && j + 1 < s.len() && j + 2 <= max ==> !#[trigger] crate::buffers::crlf_at(s, j),
    ensures
        crate::buffers::find_crlf(limited(s, max)) == limited(s, max).len(),
{
    let lim = limited(s, max);
    assert forall|j: int| 0 <= j && j + 1 < lim.len() implies !#[trigger] crate::buffers::crlf_at(lim, j) by {
        assert(lim[j] == s[j] && lim[j + 1] == s[j + 1]);
        assert(!crate::buffers::crlf_at(s, j));
    }
    crate::buffers::lemma_find_crlf_none(lim);
}

/// The bytes that reads asking for `sizes[0]`, `sizes[1]`, ... bytes hand out, one after
/// the other, from a reader whose remaining bytes are `s`, when each read moves
/// `limited(rest, size)` out of the front of the rest (as `PreparedFields::read`,
/// `LengthReader::read`, `TextReader::read` and `ByteReader::read_up_to` do).
pub open spec fn read_pieces(s: Seq<u8>, sizes: Seq<nat>) -> Seq<u8>
    decreases sizes.len(),
{
    if sizes.len() == 0 {
        Seq::empty()
    } else {
        let piece = limited(s, sizes[0] as int);
        piece + read_pieces(s.skip(piece.len() as int), sizes.drop_first())
    }
}

/// The total of `sizes`.
pub open spec fn total_size(sizes: Seq<nat>) -> nat
    decreases sizes.len(),
{
    if sizes.len() == 0 {
        0
    } else {
        sizes[0] + total_size(sizes.drop_first())
    }
}

/// Reads of any sizes hand out the stream in order, each byte once: the pieces, one
/// after the other, are the first `min(total, s.len())` bytes of `s`. Reading until a
/// read hands out nothing therefore yields the whole stream.
pub proof fn law_reads_in_order(s: Seq<u8>, sizes: Seq<nat>)
    ensures
        read_pieces(s, sizes) == s.take(if total_size(sizes) < s.len() { total_size(sizes) as int } else { s.len() as int }),
    decreases sizes.len(),
{
    if sizes.len() > 0 {
        let piece = limited(s, sizes[0] as int);
        let rest = s.skip(piece.len() as int);
        law_reads_in_order(rest, sizes.drop_first());
        let t = total_size(sizes.drop_first());
        let m = if total_size(sizes) < s.len() { total_size(sizes) as int } else { s.len() as int };
        let m2 = if t < rest.len() { t as int } else { rest.len() as int };
        assert(piece.len() + m2 == m);
        assert(piece + rest.take(m2) =~= s.take(m));
    } else {
        assert(s.take(0) =~= Seq::<u8>::empty());
    }
}

/// Reads of any sizes from `LengthReader::new(inner, length)` hand out, one after the
/// other, the first bytes of `inner` in order and never more than `length` of them: the
/// pieces are the first `min(total, length, inner.len())` bytes of `inner`. With a
/// length of zero every read hands out nothing.
pub proof fn law_length_reads(inner: Seq<u8>, length: u64, sizes: Seq<nat>)
    ensures
        read_pieces(limited(inner, length as int), sizes) == inner.take({
            let m = if total_size(sizes) < length { total_size(sizes) as int } else { length as int };
            if m < inner.len() { m } else { inner.len() as int }
        }),
        read_pieces(limited(inner, length as int), sizes).len() <= length,
        length == 0 ==> read_pieces(limited(inner, length as int), sizes) == Seq::<u8>::empty(),
{
    let r = limited(inner, length as int);
    law_reads_in_order(r, sizes);
    let m = if total_size(sizes) < length { total_size(sizes) as int } else { length as int };
    let m2 = if total_size(sizes) < r.len() { total_size(sizes) as int } else { r.len() as int };
    assert(m2 == (if m < inner.len() { m } else { inner.len() as int }));
    assert(r.take(m2) =~= inner.take(m2));
}

/// A text reader read to its end gives back exactly the text decoded from the
/// character set: the bytes that `TextReader::new` holds are well-formed UTF-8, so
/// `read_to_string` succeeds on them and appends `decoded_text(charset, bytes)`.
pub proof fn law_text_reader_yields_text(charset: Seq<u8>, bytes: Seq<u8>)
    ensures
        vstd::utf8::valid_utf8(vstd::utf8::encode_utf8(decoded_text(charset, bytes))),
        vstd::utf8::decode_utf8(vstd::utf8::encode_utf8(decoded_text(charset, bytes))) == decoded_text(charset, bytes),
{
    vstd::utf8::encode_utf8_valid_utf8(decoded_text(charset, bytes));
    vstd::utf8::encode_utf8_decode_utf8(decoded_text(charset, bytes));
}

/// The number of calls among `calls` that handed out a byte; a `None` stands for a call
/// of `consume`.
pub open spec fn bytes_handed_out(calls: Seq<Option<Result<u8, ErrorKind>>>) -> nat
    decreases calls.len(),
{
    if calls.len() == 0 {
        0
    } else {
        bytes_handed_out(calls.drop_last()) + if calls.last() matches Some(Ok(_)) { 1nat } else { 0nat }
    }
}

/// Whether `readers` are the states that a buffer over a stream passes through when it
/// is called as `calls` say: `Some(r)` is a call of `next` that returned `r`, `None` a
/// call of `consume`; only the last call may have failed.
pub open spec fn next_calls(readers: Seq<BufReader>, calls: Seq<Option<Result<u8, ErrorKind>>>) -> bool {
    &&& readers.len() == calls.len() + 1
    &&& forall|i: int| 0 <= i < calls.len() ==> match #[trigger] calls[i] {
        Some(r) => next_step(readers[i], readers[i + 1], r),
        None => readers[i + 1].unread() == readers[i].unread(),
    }
    &&& forall|i: int| 0 <= i < calls.len() - 1 ==> !(#[trigger] calls[i] matches Some(Err(_)))
}

proof fn lemma_next_calls_prefix(s: Seq<u8>, readers: Seq<BufReader>, calls: Seq<Option<Result<u8, ErrorKind>>>, i: int)
    requires
        next_calls(readers, calls),
        readers[0].unread() == s,
        0 <= i <= calls.len(),
        i == calls.len() ==> calls.len() == 0 || !(calls[calls.len() - 1] matches Some(Err(_))),
    ensures
        bytes_handed_out(calls.take(i)) <= s.len(),
        readers[i].unread() == s.skip(bytes_handed_out(calls.take(i)) as int),
    decreases i,
{
    if i == 0 {
        assert(calls.take(0) =~= Seq::<Option<Result<u8, ErrorKind>>>::empty());
        assert(s.skip(0) =~= s);
    } else {
        lemma_next_calls_prefix(s, readers, calls, i - 1);
        assert(calls.take(i).drop_last() =~= calls.take(i - 1));
        assert(calls.take(i).last() == calls[i - 1]);
        let k = bytes_handed_out(calls.take(i - 1));
        let c = calls[i - 1];
        assert(!(c matches Some(Err(_))));
        match c {
            Some(r) => {
                assert(next_step(readers[i - 1], readers[i], r));
                assert(s.skip(k as int).drop_first() =~= s.skip(k + 1int));
            },
            None => {},
        }
    }
}

/// Calls of `next`, with calls of `consume` between them or not, read the stream in
/// order, each byte once: before the `i`-th call the unread bytes are the stream without
/// the bytes handed out so far; a call that hands out a byte hands out the next byte of
/// the stream; a call fails with `UnexpectedEof` only once the whole stream was handed
/// out, and while bytes are left it hands one out unless the buffer cannot grow.
pub proof fn law_next_in_order(s: Seq<u8>, readers: Seq<BufReader>, calls: Seq<Option<Result<u8, ErrorKind>>>)
    requires
        next_calls(readers, calls),
        readers[0].unread() == s,
    ensures
        forall|i: int| 0 <= i < calls.len() ==> {
            let k = #[trigger] bytes_handed_out(calls.take(i));
            &&& k <= s.len()
            &&& readers[i].unread() == s.skip(k as int)
            &&& calls[i] matches Some(Ok(b)) ==> k < s.len() && b == s[k as int]
            &&& calls[i] == Some(Err::<u8, ErrorKind>(ErrorKind::Io(crate::error::IoErrorKind::UnexpectedEof))) ==> k == s.len()
            &&& (calls[i] is Some && k < s.len() && readers[i].pending().len() + crate::chunked::BUFFER_SIZE <= usize::MAX)
                ==> calls[i] matches Some(Ok(_))
        },
{
    assert forall|i: int| 0 <= i < calls.len() implies {
        let k = #[trigger] bytes_handed_out(calls.take(i));
        &&& k <= s.len()
        &&& readers[i].unread() == s.skip(k as int)
        &&& calls[i] matches Some(Ok(b)) ==> k < s.len() && b == s[k as int]
        &&& calls[i] == Some(Err::<u8, ErrorKind>(ErrorKind::Io(crate::error::IoErrorKind::UnexpectedEof))) ==> k == s.len()
        &&& (calls[i] is Some && k < s.len() && readers[i].pending().len() + crate::chunked::BUFFER_SIZE <= usize::MAX)
            ==> calls[i] matches Some(Ok(_))
    } by {
        lemma_next_calls_prefix(s, readers, calls, i);
        let k = bytes_handed_out(calls.take(i));
        match calls[i] {
            Some(r) => {
                assert(next_step(readers[i], readers[i + 1], r));
                if r is Ok {
                    assert(s.skip(k as int)[0] == s[k as int]);
                }
            },
            None => {},
        }
    }
}

/// A status code of three digits is their decimal value: `d0 d1 d2` reads as
/// `100 * d0 + 10 * d1 + d2`, for every first digit from 1 to 9; nothing but three such
/// digits reads as a status code, and a status code lies between 100 and 999.
pub proof fn law_status_code_decimal(b: Seq<u8>)
    ensures
        (b.len() == 3 && 49u8 <= b[0] <= 57u8 && 48u8 <= b[1] <= 57u8 && 48u8 <= b[2] <= 57u8) ==>
            (status_code_spec(b) matches Some(c) && c as int == 100 * (b[0] - 48) + 10 * (b[1] - 48) + (b[2] - 48)),
        status_code_spec(b) matches Some(c) ==> 100 <= c <= 999 && b.len() == 3
            && c as int == 100 * (b[0] - 48) + 10 * (b[1] - 48) + (b[2] - 48)
            && 48u8 <= b[0] <= 57u8 && 48u8 <= b[1] <= 57u8 && 48u8 <= b[2] <= 57u8,
{
}

/// The status of a status line `version code reason` is the decimal value of its three
/// digits, whatever the version word (one or more bytes without a space) and whatever
/// follows the code after a space.
pub proof fn law_status_line_code(version: Seq<u8>, code: Seq<u8>, reason: Seq<u8>)
    requires
        version.len() > 0,
        forall|i: int| 0 <= i < version.len() ==> version[i] != 32u8,
        code.len() == 3 && 49u8 <= code[0] <= 57u8 && 48u8 <= code[1] <= 57u8 && 48u8 <= code[2] <= 57u8,
        reason.len() == 0 || reason[0] == 32u8,
    ensures
        status_line_spec(version + seq![32u8] + code + reason) matches Ok(c)
            && c as int == 100 * (code[0] - 48) + 10 * (code[1] - 48) + (code[2] - 48),
{
    let line = version + seq![32u8] + code + reason;
    assert(line[0] == version[0]);
    assert(trim_left_spec(line, 32u8) == line);
    assert forall|j: int| 0 <= j < version.len() implies line[j] != 32u8 by {
        assert(line[j] == version[j]);
    }
    assert(line[version.len() as int] == 32u8);
    lemma_find_byte_is(line, 32u8, version.len() as int);
    assert(crate::response::word(line) =~= version);
    let after = line.skip(version.len() as int);
    assert(after =~= seq![32u8] + (code + reason));
    assert(after.drop_first() =~= code + reason);
    let cr = code + reason;
    assert(cr[0] == code[0]);
    assert(trim_left_spec(cr, 32u8) == cr);
    assert(trim_left_spec(after, 32u8) == cr);
    assert forall|j: int| 0 <= j < 3 implies cr[j] != 32u8 by {
        assert(cr[j] == code[j]);
    }
    if reason.len() > 0 {
        assert(cr[3] == reason[0]);
    }
    lemma_find_byte_is(cr, 32u8, 3);
    assert(crate::response::word(cr) =~= code);
    law_status_code_decimal(code);
}

/// The statuses that a request follows (when it follows redirections at all) are
/// exactly 301, 302, 303, 307 and 308: the redirections of the 3xx class but for 300,
/// 304, 305 and 306.
pub proof fn law_redirect_statuses(n: u16)
    ensures
        is_redirect(n) <==> (301 <= n <= 308 && n != 304 && n != 305 && n != 306),
        is_redirect(301) && is_redirect(302) && is_redirect(303) && is_redirect(307) && is_redirect(308),
        !is_redirect(300) && !is_redirect(304) && !is_redirect(200) && !is_redirect(404),
{
}

/// The character set that a response names wins over the default: when the first
/// `Content-Type` value names a known label, that label's encoding is chosen, whatever
/// the default. Only when it names none, or an unknown one, does the default (else
/// windows-1252) apply.
pub proof fn law_named_charset_wins(content_types: Seq<Seq<u8>>, default: Option<Seq<u8>>)
    requires
        content_types.len() > 0,
    ensures
        (charset_label(content_types[0]) matches Some(label) && label_encoding(label) is Some) ==>
            (charset_spec(content_types, default) == label_encoding(charset_label(content_types[0])->0)->0),
        (charset_label(content_types[0]) matches Some(label) && label_encoding(label) is Some) ==>
            charset_spec(content_types, default) == charset_spec(content_types, None),
        !(charset_label(content_types[0]) matches Some(label) && label_encoding(label) is Some) ==>
            charset_spec(content_types, default) == (match default {
                Some(d) => d,
                None => spec_windows_1252(),
            }),
{
}

/// A `Content-Type` value `type; charset=label` names `label`, when the type holds no
/// `;` and the label does not end with a space.
pub proof fn law_charset_label(mime: Seq<u8>, label: Seq<u8>)
    requires
        forall|i: int| 0 <= i < mime.len() ==> mime[i] != 59u8,
        label.len() > 0,
        label.last() != 32u8,
    ensures
        charset_label(mime + seq![59u8, 32u8] + charset_prefix() + label) == Some(label),
{
    let v = mime + seq![59u8, 32u8] + charset_prefix() + label;
    assert forall|j: int| 0 <= j < mime.len() implies v[j] != 59u8 by {
        assert(v[j] == mime[j]);
    }
    assert(v[mime.len() as int] == 59u8);
    lemma_find_byte_is(v, 59u8, mime.len() as int);
    let rest = v.skip(mime.len() as int + 1);
    let body = charset_prefix() + label;
    assert(rest =~= seq![32u8] + body);
    assert(rest.last() == label.last());
    assert(trim_right_spec(rest, 32u8) == rest);
    assert(rest.drop_first() =~= body);
    assert(body[0] == 99u8);
    assert(trim_left_spec(body, 32u8) == body);
    assert(trim_left_spec(rest, 32u8) == body);
    assert(trim_spec(rest, 32u8) == body);
    assert(body.take(8) =~= charset_prefix());
    assert(body.skip(8) =~= label);
}

/// A request whose body is of unknown length announces `Transfer-Encoding: chunked`,
/// which a response reader takes as the chunked coding: the body that the request
/// writer frames in chunks is announced as such.
pub proof fn law_prepared_chunked_announced(old: Seq<Seq<u8>>, compress: bool, content_type: Option<Seq<u8>>)
    ensures
        crate::request::prepared_values(names::spec_transfer_encoding(), old, compress, crate::body::BodyKind::Chunked, content_type)
            == seq![seq![99u8, 104u8, 117u8, 110u8, 107u8, 101u8, 100u8]],
        any_value_has(crate::request::prepared_values(names::spec_transfer_encoding(), old, compress,
            crate::body::BodyKind::Chunked, content_type), names::spec_chunked()),
        names::spec_transfer_encoding() == seq![116u8, 114u8, 97u8, 110u8, 115u8, 102u8, 101u8, 114u8, 45u8, 101u8,
            110u8, 99u8, 111u8, 100u8, 105u8, 110u8, 103u8],
{
    let te = names::spec_transfer_encoding();
    assert(te.len() == 17);
    assert(names::spec_connection().len() == 10 && names::spec_accept_encoding().len() == 15);
    assert(names::spec_content_length().len() == 14);
    assert(te != names::spec_connection());
    assert(te != names::spec_accept_encoding());
    assert(te != names::spec_content_length());
    let vals = crate::request::prepared_values(te, old, compress, crate::body::BodyKind::Chunked, content_type);
    assert(vals == seq![names::spec_chunked()]);
    assert(names::spec_chunked().len() == 7);
    lemma_any_value_has_single(names::spec_chunked());
}

/// The standard methods are sent under their own names, which tell them apart: each
/// name is read back as the same method, and two standard methods never share a name.
/// `GET`, `POST`, `PUT`, `DELETE`, `HEAD`, `OPTIONS`, `CONNECT`, `PATCH`, `TRACE`.
pub proof fn law_method_names(a: Method, b: Method)
    requires
        !(a is Extension),
        !(b is Extension),
    ensures
        standard_method(method_name(a)) == Some(a),
        method_name(a) == method_name(b) ==> a == b,
        method_name(Method::Get) == seq![71u8, 69u8, 84u8],
        method_name(Method::Post) == seq![80u8, 79u8, 83u8, 84u8],
        method_name(Method::Put) == seq![80u8, 85u8, 84u8],
        method_name(Method::Delete) == seq![68u8, 69u8, 76u8, 69u8, 84u8, 69u8],
        method_name(Method::Head) == seq![72u8, 69u8, 65u8, 68u8],
        method_name(Method::Options) == seq![79u8, 80u8, 84u8, 73u8, 79u8, 78u8, 83u8],
        method_name(Method::Connect) == seq![67u8, 79u8, 78u8, 78u8, 69u8, 67u8, 84u8],
        method_name(Method::Patch) == seq![80u8, 65u8, 84u8, 67u8, 72u8],
        method_name(Method::Trace) == seq![84u8, 82u8, 65u8, 67u8, 69u8],
{
    lemma_standard_name_read_back(a);
    lemma_standard_name_read_back(b);
}

proof fn lemma_standard_name_read_back(a: Method)
    requires
        !(a is Extension),
    ensures
        standard_method(method_name(a)) == Some(a),
{
    let g = method_name(Method::Get);
    let po = method_name(Method::Post);
    let pu = method_name(Method::Put);
    let d = method_name(Method::Delete);
    let h = method_name(Method::Head);
    let o = method_name(Method::Options);
    let c = method_name(Method::Connect);
    let pa = method_name(Method::Patch);
    let t = method_name(Method::Trace);
    // Names of different lengths differ; those of equal length differ in a byte.
    assert(g.len() == 3 && pu.len() == 3 && g[0] != pu[0]);
    assert(po.len() == 4 && h.len() == 4 && po[0] != h[0]);
    assert(d.len() == 6 && o.len() == 7 && c.len() == 7 && o[0] != c[0]);
    assert(pa.len() == 5 && t.len() == 5 && pa[0] != t[0]);
    assert(g != pu && po != h && o != c && pa != t);
}

/// A single value made of lower-case letters names itself as a coding, and names no
/// other coding of another length.
proof fn lemma_any_value_has_single(v: Seq<u8>)
    requires
        v.len() >= 3,
        forall|i: int| 0 <= i < v.len() ==> 97u8 <= #[trigger] v[i] <= 122u8,
    ensures
        any_value_has(seq![v], v),
        forall|w: Seq<u8>| w.len() != v.len() ==> !#[trigger] any_value_has(seq![v], w),
{
    let n = v.len() as int;
    assert(is_visible_ascii(v));
    lemma_find_byte_is(v, 44u8, n);
    assert(v.take(n) =~= v);
    assert(ws_prefix_len(v) == 0);
    assert(trim_ws_start(v) == v);
    assert(v.subrange(n - 1, n) =~= seq![v[n - 1]]);
    assert(v.subrange(n - 2, n) =~= seq![v[n - 2], v[n - 1]]);
    assert(v.subrange(n - 3, n) =~= seq![v[n - 3], v[n - 2], v[n - 1]]);
    assert(ws_suffix_len(v) == 0);
    assert(trim_ws_end(v) == v);
    assert(trim_ws(v) == v);
    assert(eq_ignore_ascii_case(v, v));
    assert(has_item(v, v));
    assert(seq![v].drop_last() =~= Seq::<Seq<u8>>::empty());
    assert(seq![v].last() == v);
    assert forall|w: Seq<u8>| w.len() != v.len() implies !#[trigger] any_value_has(seq![v], w) by {
        assert(find_byte(v, 44u8) == n);
        assert(trim_ws(v.take(n)) == v);
        assert(!eq_ignore_ascii_case(trim_ws(v.take(n)), w));
        assert(!has_item(v, w));
        assert(!any_value_has(seq![v].drop_last(), w));
    }
}

/// A response whose only `Content-Encoding` is `gzip` is decoded with gzip, one whose
/// only `Content-Encoding` is `deflate` with deflate, when it names no transfer coding
/// and answers a request other than HEAD.
pub proof fn law_content_coding(list: Seq<(Seq<u8>, Seq<u8>)>, method: Method)
    requires
        method != Method::Head,
        values_of(list, names::spec_transfer_encoding()).len() == 0,
    ensures
        values_of(list, names::spec_content_encoding()) == seq![seq![103u8, 122u8, 105u8, 112u8]]
            ==> crate::response_reader::coding_of(list, method) == Some(true),
        values_of(list, names::spec_content_encoding()) == seq![seq![100u8, 101u8, 102u8, 108u8, 97u8, 116u8, 101u8]]
            ==> crate::response_reader::coding_of(list, method) == Some(false),
{
    let g = names::spec_gzip();
    let d = names::spec_deflate();
    assert(g.len() == 4 && d.len() == 7);
    lemma_any_value_has_single(g);
    lemma_any_value_has_single(d);
    assert(!any_value_has(Seq::<Seq<u8>>::empty(), g));
    assert(!any_value_has(Seq::<Seq<u8>>::empty(), d));
    assert(!any_value_has(seq![d], g));
}

/// A header line `name: value` is read back as that name and that value, and it is the
/// line that the request writer puts out for that header: what one side writes, the
/// other reads. The name holds no colon and neither it nor the value starts or ends
/// with a space; the value holds no line feed.
pub proof fn law_header_line_round_trip(name: Seq<u8>, value: Seq<u8>)
    requires
        name.len() > 0,
        forall|i: int| 0 <= i < name.len() ==> name[i] != 58u8,
        name[0] != 32u8 && name.last() != 32u8,
        forall|i: int| 0 <= i < value.len() ==> value[i] != 10u8,
        value.len() > 0 ==> value[0] != 32u8 && value.last() != 32u8,
    ensures
        crate::response::header_line_spec(name + seq![58u8, 32u8] + value) == Some((name, value)),
        crate::request::header_lines(seq![(name, value)]) == name + seq![58u8, 32u8] + value + seq![13u8, 10u8],
{
    let line = name + seq![58u8, 32u8] + value;
    assert forall|j: int| 0 <= j < name.len() implies line[j] != 58u8 by {
        assert(line[j] == name[j]);
    }
    assert(line[name.len() as int] == 58u8);
    lemma_find_byte_is(line, 58u8, name.len() as int);
    assert(line.take(name.len() as int) =~= name);
    assert(trim_right_spec(name, 32u8) == name);
    assert(trim_left_spec(name, 32u8) == name);
    let after = line.skip(name.len() as int + 1);
    assert(after =~= seq![32u8] + value);
    assert(crate::buffers::replace_spec(after, 10u8, 32u8) =~= after) by {
        assert forall|j: int| 0 <= j < after.len() implies after[j] != 10u8 by {
            if j > 0 {
                assert(after[j] == value[j - 1]);
            }
        }
    }
    assert(after.drop_first() =~= value);
    if value.len() == 0 {
        assert(after.drop_last() =~= Seq::<u8>::empty());
        assert(trim_right_spec(after.drop_last(), 32u8) == Seq::<u8>::empty());
        assert(trim_right_spec(after, 32u8) =~= value);
    } else {
        assert(after.last() == value.last());
        assert(trim_right_spec(after, 32u8) == after);
        assert(trim_left_spec(value, 32u8) == value);
        assert(trim_left_spec(after, 32u8) == value);
    }
    assert(trim_spec(after, 32u8) == value);
    let one = seq![(name, value)];
    assert(one.drop_last() =~= Seq::<(Seq<u8>, Seq<u8>)>::empty());
    assert(crate::request::header_lines(one.drop_last()) == Seq::<u8>::empty());
    assert(crate::request::header_lines(one) =~= name + seq![58u8, 32u8] + value + seq![13u8, 10u8]);
}

/// The request line is the method's name, a space, the target, a space, `HTTP/1.1` and
/// `\r\n`; the target is the whole URL through a plain-HTTP proxy, else the path with
/// `?` and the query when there is one. Its first word is the method's name.
pub proof fn law_request_line(m: Method, url: crate::urls::UrlParts, proxied: bool)
    requires
        !(m is Extension),
    ensures
        crate::request::request_line(m, url, proxied) == method_name(m) + seq![32u8]
            + crate::request::request_target(url, proxied)
            + seq![32u8, 72u8, 84u8, 84u8, 80u8, 47u8, 49u8, 46u8, 49u8, 13u8, 10u8],
        proxied ==> crate::request::request_target(url, proxied) == url.0,
        !proxied ==> crate::request::request_target(url, proxied) == (match url.5 {
            Some(q) => url.4 + seq![63u8] + q,
            None => url.4,
        }),
        crate::response::word(crate::request::request_line(m, url, proxied)) == method_name(m),
{
    let line = crate::request::request_line(m, url, proxied);
    let name = method_name(m);
    assert(line =~= name + seq![32u8] + crate::request::request_target(url, proxied)
        + seq![32u8, 72u8, 84u8, 84u8, 80u8, 47u8, 49u8, 46u8, 49u8, 13u8, 10u8]);
    assert forall|j: int| 0 <= j < name.len() implies line[j] != 32u8 by {
        assert(line[j] == name[j]);
        assert(65u8 <= name[j] <= 90u8);
    }
    assert(line[name.len() as int] == 32u8);
    lemma_find_byte_is(line, 32u8, name.len() as int);
    assert(line.take(name.len() as int) =~= name);
}

/// What a prepared request says of its connection, codings and accepted types:
/// `Connection: close`; `Accept-Encoding: gzip, deflate` when compression is allowed,
/// else what the builder set; `Accept: */*` unless the builder set one.
pub proof fn law_prepared_header_values(old: Seq<Seq<u8>>, compress: bool, kind: crate::body::BodyKind, content_type: Option<Seq<u8>>)
    ensures
        crate::request::prepared_values(names::spec_connection(), old, compress, kind, content_type)
            == seq![seq![99u8, 108u8, 111u8, 115u8, 101u8]],
        compress ==> crate::request::prepared_values(names::spec_accept_encoding(), old, compress, kind, content_type)
            == seq![seq![103u8, 122u8, 105u8, 112u8, 44u8, 32u8, 100u8, 101u8, 102u8, 108u8, 97u8, 116u8, 101u8]],
        !compress ==> crate::request::prepared_values(names::spec_accept_encoding(), old, compress, kind, content_type) == old,
        old.len() == 0 ==> crate::request::prepared_values(names::spec_accept(), old, compress, kind, content_type)
            == seq![seq![42u8, 47u8, 42u8]],
{
    assert(names::spec_connection().len() == 10 && names::spec_accept_encoding().len() == 15);
    assert(names::spec_content_length().len() == 14 && names::spec_transfer_encoding().len() == 17);
    assert(names::spec_content_type().len() == 12 && names::spec_accept().len() == 6);
    assert(names::spec_accept_encoding() != names::spec_connection());
    assert(names::spec_accept_encoding() != names::spec_content_length());
    assert(names::spec_accept_encoding() != names::spec_transfer_encoding());
    assert(names::spec_accept_encoding() != names::spec_content_type());
    assert(names::spec_accept_encoding() != names::spec_accept());
    assert(names::spec_accept_encoding() != names::spec_user_agent()) by {
        assert(names::spec_user_agent().len() == 10);
    }
    assert(names::spec_accept() != names::spec_connection());
    assert(names::spec_accept() != names::spec_accept_encoding());
    assert(names::spec_accept() != names::spec_content_length());
    assert(names::spec_accept() != names::spec_transfer_encoding());
    assert(names::spec_accept() != names::spec_content_type());
}

} // verus!
