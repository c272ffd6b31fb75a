//! Parsing of the head of an HTTP response: the status line and the headers.

use vstd::prelude::*;

use http::HeaderMap;

use crate::buffers::{
    ends_with_lf, find_crlf, line_len, read_line, read_line_strict, replace_byte, replace_spec, strip_eol,
    trim_byte, trim_left_spec, trim_spec,
};
use crate::error::{ErrorKind, InvalidResponseKind, IoErrorKind};
use crate::headers::{
    header_entries, header_map_append, header_map_len, header_map_new, header_name_from_bytes,
    header_name_spec, holds, is_header_value, valid_header_value, values_of,
};
use crate::reader::{ByteReader, slice_to_vec, find_byte, lemma_find_byte_bounds, lemma_find_byte_is, limited};

verus! {

/// The longest line of a response head that is read.
pub const MAX_LINE_LEN: u64 = 16384;

/// The status code that `b` spells: three ASCII digits, the first not zero.
pub open spec fn status_code_spec(b: Seq<u8>) -> Option<u16> {
    if b.len() == 3 && 49u8 <= b[0] <= 57u8 && 48u8 <= b[1] <= 57u8 && 48u8 <= b[2] <= 57u8 {
        Some(((b[0] - 48) * 100 + (b[1] - 48) * 10 + (b[2] - 48)) as u16)
    } else {
        None
    }
}

/// The status code that `b` spells: three ASCII digits, the first not zero.
pub fn status_code_from_bytes(b: &[u8]) -> (r: Option<u16>)
    ensures
        r == status_code_spec(b@),
{
    if b.len() == 3 && 49u8 <= b[0] && b[0] <= 57u8 && 48u8 <= b[1] && b[1] <= 57u8 && 48u8 <= b[2] && b[2] <= 57u8 {
        Some(((b[0] - 48u8) as u16) * 100 + ((b[1] - 48u8) as u16) * 10 + ((b[2] - 48u8) as u16))
    } else {
        None
    }
}

/// `s` up to its first space.
pub open spec fn word(s: Seq<u8>) -> Seq<u8> {
    s.take(find_byte(s, 32u8))
}

/// The status code of a status line: the second of its space-separated words.
pub open spec fn status_line_spec(line: Seq<u8>) -> Result<u16, ErrorKind> {
    let r1 = trim_left_spec(line, 32u8);
    let w1 = word(r1);
    let r2 = trim_left_spec(r1.skip(w1.len() as int), 32u8);
    let w2 = word(r2);
    if w1.len() == 0 || w2.len() == 0 {
        Err(ErrorKind::InvalidResponse(InvalidResponseKind::StatusLine))
    } else {
        match status_code_spec(w2) {
            Some(c) => Ok(c),
            None => Err(ErrorKind::InvalidResponse(InvalidResponseKind::StatusCode)),
        }
    }
}

/// The raw name and the value of a header line: around its first colon, trimmed of
/// spaces, with the line feeds of a folded value turned into spaces. `None` if the line
/// has no colon.
pub open spec fn header_line_spec(line: Seq<u8>) -> Option<(Seq<u8>, Seq<u8>)> {
    let col = find_byte(line, 58u8);
    if col >= line.len() {
        None
    } else {
        Some((trim_spec(line.take(col), 32u8), trim_spec(replace_spec(line.skip(col + 1), 10u8, 32u8), 32u8)))
    }
}

/// Parses the header lines of a response head from `s`, after the headers in `list`:
/// lines end with `\r\n` and are at most `MAX_LINE_LEN` bytes, an empty line ends the
/// head, at most `max` headers are accepted, and a header whose name is invalid is
/// dropped. Yields the headers and the bytes after the head.
pub open spec fn headers_spec(s: Seq<u8>, list: Seq<(Seq<u8>, Seq<u8>)>, max: int)
    -> Result<(Seq<(Seq<u8>, Seq<u8>)>, Seq<u8>), ErrorKind>
    decreases s.len(),
{
    let avail = limited(s, MAX_LINE_LEN as int);
    let i = find_crlf(avail);
    if i < 0 || i + 2 > avail.len() || avail.len() > s.len() {
        Err(ErrorKind::Io(IoErrorKind::UnexpectedEof))
    } else {
        let line = avail.take(i);
        let rest = s.skip(i + 2);
        if line.len() == 0 {
            Ok((list, rest))
        } else if list.len() == max {
            Err(ErrorKind::InvalidResponse(InvalidResponseKind::Header))
        } else {
            match header_line_spec(line) {
                None => Err(ErrorKind::InvalidResponse(InvalidResponseKind::Header)),
                Some((raw, value)) => match header_name_spec(raw) {
                    None => headers_spec(rest, list, max),
                    Some(name) => if !is_header_value(value) {
                        Err(ErrorKind::Http)
                    } else {
                        headers_spec(rest, list.push((name, value)), max)
                    },
                },
            }
        }
    }
}

/// Parses a response head from `s`: the status line (at most `MAX_LINE_LEN` bytes,
/// ending with `\n` or `\r\n`), then the headers. Yields the status code, the headers
/// and the bytes after the head.
pub open spec fn head_spec(s: Seq<u8>, max: int) -> Result<(u16, Seq<(Seq<u8>, Seq<u8>)>, Seq<u8>), ErrorKind> {
    let n = line_len(s, MAX_LINE_LEN as int);
    let got = s.take(n);
    if !ends_with_lf(got) {
        Err(ErrorKind::Io(IoErrorKind::UnexpectedEof))
    } else {
        match status_line_spec(strip_eol(got)) {
            Err(e) => Err(e),
            Ok(c) => match headers_spec(s.skip(n), Seq::empty(), max) {
                Ok((list, rest)) => Ok((c, list, rest)),
                Err(e) => Err(e),
            },
        }
    }
}

/// The status code of a status line.
pub fn parse_status_line(line: &[u8]) -> (r: Result<u16, ErrorKind>)
    ensures
        r == status_line_spec(line@),
{
    let r1 = crate::buffers::trim_byte_left(32u8, line);
    let mut i: usize = 0;
    while i < r1.len() && r1[i] != 32u8
        invariant
            i <= r1@.len(),
            forall|j: int| 0 <= j < i ==> r1@[j] != 32u8,
        decreases r1@.len() - i,
    {
        i = i + 1;
    }
    proof {
        lemma_find_byte_is(r1@, 32u8, i as int);
    }
    let r2 = crate::buffers::trim_byte_left(32u8, &r1[i..r1.len()]);
    assert(r1@.subrange(i as int, r1@.len() as int) =~= r1@.skip(i as int));
    let mut k: usize = 0;
    while k < r2.len() && r2[k] != 32u8
        invariant
            k <= r2@.len(),
            forall|j: int| 0 <= j < k ==> r2@[j] != 32u8,
        decreases r2@.len() - k,
    {
        k = k + 1;
    }
    proof {
        lemma_find_byte_is(r2@, 32u8, k as int);
    }
    if i == 0 || k == 0 {
        return Err(ErrorKind::InvalidResponse(InvalidResponseKind::StatusLine));
    }
    let w2 = &r2[0..k];
    assert(w2@ =~= word(r2@));
    match status_code_from_bytes(w2) {
        Some(c) => Ok(c),
        None => Err(ErrorKind::InvalidResponse(InvalidResponseKind::StatusCode)),
    }
}

/// Splits a header line into its raw name and its value, or `None` if it has no colon.
pub fn split_header_line(line: &[u8]) -> (r: Option<(Vec<u8>, Vec<u8>)>)
    ensures
        match header_line_spec(line@) {
            Some((n, v)) => r matches Some(p) && p.0@ == n && p.1@ == v,
            None => r is None,
        },
{
    let mut col: usize = 0;
    while col < line.len() && line[col] != 58u8
        invariant
            col <= line@.len(),
            forall|j: int| 0 <= j < col ==> line@[j] != 58u8,
        decreases line@.len() - col,
    {
        col = col + 1;
    }
    proof {
        lemma_find_byte_is(line@, 58u8, col as int);
    }
    if col >= line.len() {
        return None;
    }
    let name = trim_byte(32u8, &line[0..col]);
    assert(line@.subrange(0, col as int) =~= line@.take(col as int));
    let mut value: Vec<u8> = Vec::new();
    let mut j: usize = col + 1;
    while j < line.len()
        invariant
            col + 1 <= j <= line@.len(),
            value@ == line@.subrange(col + 1, j as int),
        decreases line@.len() - j,
    {
        value.push(line[j]);
        j = j + 1;
        assert(value@ =~= line@.subrange(col + 1, j as int));
    }
    assert(value@ =~= line@.skip(col + 1));
    replace_byte(10u8, 32u8, value.as_mut_slice());
    let v = trim_byte(32u8, value.as_slice());
    Some((slice_to_vec(name), slice_to_vec(v)))
}

/// Parses the head of a response from `reader`: the status code and the headers, of
/// which at most `max_headers` are accepted; see `head_spec`. Besides the errors that
/// `head_spec` gives, the error is `Http` when the header map has no room, which can
/// only happen when `max_headers` is 6554 or more.
pub fn parse_response_head(reader: &mut ByteReader, max_headers: usize) -> (r: Result<(u16, HeaderMap), ErrorKind>)
    ensures
        match head_spec(old(reader)@, max_headers as int) {
            Ok((status, list, rest)) => match r {
                Ok((c, m)) => c == status && holds(m, list) && final(reader)@ == rest,
                Err(e) => e == ErrorKind::Http && max_headers >= 6554,
            },
            Err(e) => r matches Err(e2) && (e2 == e || (e2 == ErrorKind::Http && max_headers >= 6554)),
        },
{
    let ghost s = reader@;
    let mut line: Vec<u8> = Vec::new();
    read_line(reader, &mut line, MAX_LINE_LEN)?;
    let status = parse_status_line(line.as_slice())?;
    let ghost n = line_len(s, MAX_LINE_LEN as int);
    let ghost s1 = reader@;
    assert(s1 == s.skip(n));
    let mut headers = header_map_new();
    let ghost mut list: Seq<(Seq<u8>, Seq<u8>)> = Seq::empty();
    proof {
        assert forall|nm: Seq<u8>| #[trigger] values_of(header_entries(headers), nm) == values_of(list, nm) by {}
    }
    loop
        invariant
            s == old(reader)@,
            head_spec(s, max_headers as int) == (match headers_spec(s1, Seq::empty(), max_headers as int) {
                Ok((l, rest)) => Ok::<(u16, Seq<(Seq<u8>, Seq<u8>)>, Seq<u8>), ErrorKind>((status, l, rest)),
                Err(e) => Err(e),
            }),
            headers_spec(s1, Seq::empty(), max_headers as int) == headers_spec(reader@, list, max_headers as int),
            holds(headers, list),
            list.len() <= max_headers,
        decreases reader@.len(),
    {
        let ghost cur = reader@;
        match read_line_strict(reader, &mut line, MAX_LINE_LEN) {
            Ok(_) => {},
            Err(e) => {
                proof {
                    crate::buffers::lemma_find_crlf_bound(limited(cur, MAX_LINE_LEN as int));
                }
                return Err(e);
            },
        }
        proof {
            let avail = limited(cur, MAX_LINE_LEN as int);
            assert(avail.len() <= cur.len());
            crate::buffers::lemma_find_crlf_bound(avail);
        }
        if line.len() == 0 {
            proof {
                assert(line@ =~= limited(cur, MAX_LINE_LEN as int).take(0));
            }
            return Ok((status, headers));
        }
        if header_map_len(&headers) == max_headers {
            return Err(ErrorKind::InvalidResponse(InvalidResponseKind::Header));
        }
        let (raw, value) = match split_header_line(line.as_slice()) {
            Some(p) => p,
            None => {
                return Err(ErrorKind::InvalidResponse(InvalidResponseKind::Header));
            },
        };
        match header_name_from_bytes(raw.as_slice()) {
            None => {},
            Some(name) => {
                if !valid_header_value(value.as_slice()) {
                    return Err(ErrorKind::Http);
                }
                proof {
                    // a normalized name normalizes to itself
                    assert(name@.map_values(|c: u8| crate::headers::header_char(c)) =~= name@) by {
                        assert forall|i: int| 0 <= i < name@.len() implies crate::headers::header_char(#[trigger] name@[i]) == name@[i] by {
                            assert(name@[i] == crate::headers::header_char(raw@[i]));
                        }
                    }
                    assert forall|i: int| 0 <= i < name@.len() implies crate::headers::header_char(#[trigger] name@[i]) != 0u8 by {
                        assert(name@[i] == crate::headers::header_char(raw@[i]));
                    }
                }
                let ghost before = headers;
                if !header_map_append(&mut headers, name.as_slice(), value.as_slice()) {
                    return Err(ErrorKind::Http);
                }
                proof {
                    let l2 = list.push((name@, value@));
                    assert(l2.drop_last() =~= list);
                    assert forall|nm: Seq<u8>| #[trigger] values_of(header_entries(headers), nm) == values_of(l2, nm) by {
                        if nm != name@ {
                            assert(values_of(header_entries(headers), nm) == values_of(header_entries(before), nm));
                        }
                    }
                    list = l2;
                }
            },
        }
    }
}

} // verus!
