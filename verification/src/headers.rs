//! Header maps of the `http` crate, header names and values, and the helpers that set
//! headers on requests.

use vstd::prelude::*;

use http::{HeaderMap, HeaderValue};

use crate::error::ErrorKind;

verus! {

#[verifier::external_type_specification]
#[verifier::external_body]
#[verifier::reject_recursive_types(T)]
pub struct ExHeaderMap<T>(HeaderMap<T>);

#[verifier::external_type_specification]
#[verifier::external_body]
pub struct ExHeaderValue(HeaderValue);

/// The headers of a map in the order in which the map iterates over them: each
/// header once per value, as (name, value) pairs; names are in normalized form.
pub uninterp spec fn header_entries(m: HeaderMap) -> Seq<(Seq<u8>, Seq<u8>)>;

/// The values of the header named `n` among `s`, in order.
pub open spec fn values_of(s: Seq<(Seq<u8>, Seq<u8>)>, n: Seq<u8>) -> Seq<Seq<u8>>
    decreases s.len(),
{
    if s.len() == 0 {
        Seq::empty()
    } else if s.last().0 == n {
        values_of(s.drop_last(), n).push(s.last().1)
    } else {
        values_of(s.drop_last(), n)
    }
}

/// The map holds exactly the headers of `list`: the same values for every name, in the
/// same order for each name.
pub open spec fn holds(m: HeaderMap, list: Seq<(Seq<u8>, Seq<u8>)>) -> bool {
    &&& header_entries(m).len() == list.len()
    &&& forall|n: Seq<u8>| #[trigger] values_of(header_entries(m), n) == values_of(list, n)
}

/// The byte that a header name character stands for in normalized form (lower case),
/// or 0 if the byte may not appear in a header name.
pub open spec fn header_char(b: u8) -> u8 {
    if b == 33u8 || (35u8 <= b && b <= 39u8) || b == 42u8 || b == 43u8 || b == 45u8 || b == 46u8
        || (48u8 <= b && b <= 57u8) || (94u8 <= b && b <= 122u8) || b == 124u8 || b == 126u8 {
        b
    } else if 65u8 <= b && b <= 90u8 {
        (b + 32) as u8
    } else {
        0u8
    }
}

/// The header name that `b` spells, in normalized form: between 1 and 65535 bytes, each
/// a token character; upper-case letters become lower case.
pub open spec fn header_name_spec(b: Seq<u8>) -> Option<Seq<u8>> {
    if 1 <= b.len() <= 65535 && forall|i: int| 0 <= i < b.len() ==> header_char(#[trigger] b[i]) != 0u8 {
        Some(b.map_values(|c: u8| header_char(c)))
    } else {
        None
    }
}

/// `b` is a valid header name in normalized form.
pub open spec fn is_header_name(b: Seq<u8>) -> bool {
    header_name_spec(b) == Some(b)
}

/// A header name in normalized form is its own normalized form.
pub proof fn lemma_normalized_is_name(b: Seq<u8>)
    requires
        header_name_spec(b) is Some,
    ensures
        is_header_name(header_name_spec(b)->0),
{
    let v = header_name_spec(b)->0;
    assert forall|i: int| 0 <= i < v.len() implies header_char(#[trigger] v[i]) != 0u8 && header_char(v[i]) == v[i] by {
        assert(v[i] == header_char(b[i]));
    }
    assert(v.map_values(|c: u8| header_char(c)) =~= v);
}

/// A byte that a header value may hold: visible ASCII, space, tab, or above 127.
pub open spec fn header_value_byte(b: u8) -> bool {
    (b >= 32u8 && b != 127u8) || b == 9u8
}

/// `b` is a valid header value.
pub open spec fn is_header_value(b: Seq<u8>) -> bool {
    forall|i: int| 0 <= i < b.len() ==> header_value_byte(#[trigger] b[i])
}

/// The map holds fewer than 6554 values, so it has room for a header with a new name.
/// (`HeaderMap` refuses a new name only when its table would have to grow past 32768
/// slots, which needs at least 6554 names in it.)
pub open spec fn has_room(m: HeaderMap) -> bool {
    header_entries(m).len() < 6554
}

/// Calls `HeaderMap::new`: a map with no headers.
#[verifier::external_body]
pub(crate) fn header_map_new() -> (m: HeaderMap)
    ensures
        header_entries(m) == Seq::<(Seq<u8>, Seq<u8>)>::empty(),
{
    HeaderMap::new()
}

/// Calls `HeaderMap::clone`: a map with the same headers.
#[verifier::external_body]
pub(crate) fn header_map_clone(m: &HeaderMap) -> (r: HeaderMap)
    ensures
        header_entries(r) == header_entries(*m),
{
    m.clone()
}

/// Calls `HeaderMap::len`: the number of values the map holds.
#[verifier::external_body]
pub(crate) fn header_map_len(m: &HeaderMap) -> (n: usize)
    ensures
        n == header_entries(*m).len(),
{
    m.len()
}

/// Calls `HeaderMap::iter`: the headers in iteration order, as bytes.
#[verifier::external_body]
pub(crate) fn header_map_iter(m: &HeaderMap) -> (r: Vec<(Vec<u8>, Vec<u8>)>)
    ensures
        r@.len() == header_entries(*m).len(),
        forall|i: int| 0 <= i < r@.len() ==> (#[trigger] r@[i]).0@ == header_entries(*m)[i].0
            && r@[i].1@ == header_entries(*m)[i].1,
{
    m.iter().map(|(k, v)| (k.as_str().as_bytes().to_vec(), v.as_bytes().to_vec())).collect()
}

/// Calls `HeaderMap::get_all`: the values of the header named `name`, in order.
#[verifier::external_body]
pub(crate) fn header_map_get_all(m: &HeaderMap, name: &[u8]) -> (r: Vec<Vec<u8>>)
    requires
        is_header_name(name@),
    ensures
        r@.len() == values_of(header_entries(*m), name@).len(),
        forall|i: int| 0 <= i < r@.len() ==> (#[trigger] r@[i])@ == values_of(header_entries(*m), name@)[i],
{
    let key = http::HeaderName::from_bytes(name).unwrap();
    m.get_all(key).iter().map(|v| v.as_bytes().to_vec()).collect()
}

/// Calls `HeaderMap::try_append`: adds a value after the values of the header named
/// `name`. Returns false, leaving the map as it was, when the map has no room, which
/// cannot happen while it holds fewer than 6554 values.
#[verifier::external_body]
pub(crate) fn header_map_append(m: &mut HeaderMap, name: &[u8], value: &[u8]) -> (ok: bool)
    requires
        is_header_name(name@),
        is_header_value(value@),
    ensures
        ok ==> header_entries(*final(m)).len() == header_entries(*old(m)).len() + 1
            && values_of(header_entries(*final(m)), name@) == values_of(header_entries(*old(m)), name@).push(value@)
            && forall|n: Seq<u8>| n != name@ ==> #[trigger] values_of(header_entries(*final(m)), n)
                == values_of(header_entries(*old(m)), n),
        !ok ==> header_entries(*final(m)) == header_entries(*old(m)),
        has_room(*old(m)) ==> ok,
{
    let key = http::HeaderName::from_bytes(name).unwrap();
    let val = HeaderValue::from_bytes(value).unwrap();
    m.try_append(key, val).is_ok()
}

/// Calls `HeaderMap::try_insert`: makes `value` the only value of the header named
/// `name`. Returns false, leaving the map as it was, when the map has no room, which
/// cannot happen while it holds fewer than 6554 values.
#[verifier::external_body]
pub(crate) fn header_map_insert(m: &mut HeaderMap, name: &[u8], value: &[u8]) -> (ok: bool)
    requires
        is_header_name(name@),
        is_header_value(value@),
    ensures
        ok ==> header_entries(*final(m)).len() == header_entries(*old(m)).len()
                - values_of(header_entries(*old(m)), name@).len() + 1
            && values_of(header_entries(*final(m)), name@) == seq![value@]
            && forall|n: Seq<u8>| n != name@ ==> #[trigger] values_of(header_entries(*final(m)), n)
                == values_of(header_entries(*old(m)), n),
        !ok ==> header_entries(*final(m)) == header_entries(*old(m)),
        has_room(*old(m)) ==> ok,
{
    let key = http::HeaderName::from_bytes(name).unwrap();
    let val = HeaderValue::from_bytes(value).unwrap();
    m.try_insert(key, val).is_ok()
}

/// Calls `HeaderMap::remove`: removes every value of the header named `name`.
#[verifier::external_body]
pub(crate) fn header_map_remove(m: &mut HeaderMap, name: &[u8])
    requires
        is_header_name(name@),
    ensures
        header_entries(*final(m)).len() == header_entries(*old(m)).len()
            - values_of(header_entries(*old(m)), name@).len(),
        values_of(header_entries(*final(m)), name@) == Seq::<Seq<u8>>::empty(),
        forall|n: Seq<u8>| n != name@ ==> #[trigger] values_of(header_entries(*final(m)), n)
            == values_of(header_entries(*old(m)), n),
{
    let key = http::HeaderName::from_bytes(name).unwrap();
    m.remove(key);
}

/// Calls `HeaderName::from_bytes`: the header name that `b` spells, in normalized form.
#[verifier::external_body]
pub(crate) fn header_name_from_bytes(b: &[u8]) -> (r: Option<Vec<u8>>)
    ensures
        match r {
            Some(v) => header_name_spec(b@) == Some(v@),
            None => header_name_spec(b@) is None,
        },
{
    http::HeaderName::from_bytes(b).ok().map(|n| n.as_str().as_bytes().to_vec())
}

/// Whether `b` is a valid header value.
pub fn valid_header_value(b: &[u8]) -> (r: bool)
    ensures
        r == is_header_value(b@),
{
    let mut i: usize = 0;
    while i < b.len()
        invariant
            i <= b@.len(),
            forall|j: int| 0 <= j < i ==> header_value_byte(#[trigger] b@[j]),
        decreases b@.len() - i,
    {
        let c = b[i];
        if !((c >= 32u8 && c != 127u8) || c == 9u8) {
            return false;
        }
        i = i + 1;
    }
    true
}

/// The first value of the header named `name`.
pub fn header_get(m: &HeaderMap, name: &[u8]) -> (r: Option<Vec<u8>>)
    requires
        is_header_name(name@),
    ensures
        match r {
            Some(v) => values_of(header_entries(*m), name@).len() > 0 && v@ == values_of(header_entries(*m), name@)[0],
            None => values_of(header_entries(*m), name@).len() == 0,
        },
{
    let mut all = header_map_get_all(m, name);
    if all.len() == 0 {
        None
    } else {
        Some(all.remove(0))
    }
}

/// Sets `value` as the only value of the header named `header`. The error is `Http` if
/// the value is invalid or the map has no room.
pub fn header_insert(headers: &mut HeaderMap, header: &[u8], value: &[u8]) -> (r: Result<(), ErrorKind>)
    requires
        is_header_name(header@),
    ensures
        is_header_value(value@) && r is Ok ==> values_of(header_entries(*final(headers)), header@) == seq![value@]
            && forall|n: Seq<u8>| n != header@ ==> #[trigger] values_of(header_entries(*final(headers)), n)
                == values_of(header_entries(*old(headers)), n),
        r is Err ==> r == Err::<(), ErrorKind>(ErrorKind::Http) && header_entries(*final(headers)) == header_entries(*old(headers)),
        !is_header_value(value@) ==> r is Err,
        is_header_value(value@) && has_room(*old(headers)) ==> r is Ok,
        header_entries(*final(headers)).len() <= header_entries(*old(headers)).len() + 1,
{
    if !valid_header_value(value) {
        return Err(ErrorKind::Http);
    }
    if header_map_insert(headers, header, value) {
        Ok(())
    } else {
        Err(ErrorKind::Http)
    }
}

/// Sets `value` as the only value of the header named `header` if the header has no
/// value yet. The error is `Http` if the value is invalid or the map has no room.
pub fn header_insert_if_missing(headers: &mut HeaderMap, header: &[u8], value: &[u8]) -> (r: Result<(), ErrorKind>)
    requires
        is_header_name(header@),
    ensures
        is_header_value(value@) && r is Ok ==> values_of(header_entries(*final(headers)), header@) == (
            if values_of(header_entries(*old(headers)), header@).len() == 0 {
                seq![value@]
            } else {
                values_of(header_entries(*old(headers)), header@)
            })
            && forall|n: Seq<u8>| n != header@ ==> #[trigger] values_of(header_entries(*final(headers)), n)
                == values_of(header_entries(*old(headers)), n),
        r is Err ==> r == Err::<(), ErrorKind>(ErrorKind::Http) && header_entries(*final(headers)) == header_entries(*old(headers)),
        !is_header_value(value@) ==> r is Err,
        is_header_value(value@) && has_room(*old(headers)) ==> r is Ok,
        header_entries(*final(headers)).len() <= header_entries(*old(headers)).len() + 1,
{
    if !valid_header_value(value) {
        return Err(ErrorKind::Http);
    }
    let existing = header_map_get_all(headers, header);
    if existing.len() > 0 {
        return Ok(());
    }
    if header_map_insert(headers, header, value) {
        Ok(())
    } else {
        Err(ErrorKind::Http)
    }
}

/// Adds `value` after the values of the header named `header`. The error is `Http` if
/// the value is invalid or the map has no room.
pub fn header_append(headers: &mut HeaderMap, header: &[u8], value: &[u8]) -> (r: Result<(), ErrorKind>)
    requires
        is_header_name(header@),
    ensures
        is_header_value(value@) && r is Ok ==> values_of(header_entries(*final(headers)), header@)
            == values_of(header_entries(*old(headers)), header@).push(value@)
            && forall|n: Seq<u8>| n != header@ ==> #[trigger] values_of(header_entries(*final(headers)), n)
                == values_of(header_entries(*old(headers)), n),
        r is Err ==> r == Err::<(), ErrorKind>(ErrorKind::Http) && header_entries(*final(headers)) == header_entries(*old(headers)),
        !is_header_value(value@) ==> r is Err,
        is_header_value(value@) && has_room(*old(headers)) ==> r is Ok,
{
    if !valid_header_value(value) {
        return Err(ErrorKind::Http);
    }
    if header_map_append(headers, header, value) {
        Ok(())
    } else {
        Err(ErrorKind::Http)
    }
}

} // verus!
