//! The order in which connection attempts race when a host name resolves to several
//! addresses ("happy eyeballs"): IPv6 and IPv4 addresses take turns.

use vstd::prelude::*;

use crate::error::IoErrorKind;

verus! {

/// The elements of `a` and `b` taken in turns, starting with `a`; when one runs out,
/// the rest of the other follows.
pub open spec fn interleave<T>(a: Seq<T>, b: Seq<T>) -> Seq<T>
    decreases a.len() + b.len(),
{
    if a.len() == 0 {
        b
    } else if b.len() == 0 {
        a
    } else {
        seq![a[0], b[0]] + interleave(a.drop_first(), b.drop_first())
    }
}

/// The elements of `a` and `b` taken in turns, starting with `a`; when one runs out, the
/// rest of the other follows.
pub fn intertwine<T: Copy>(a: Vec<T>, b: Vec<T>) -> (r: Vec<T>)
    ensures
        r@ == interleave(a@, b@),
{
    let mut r: Vec<T> = Vec::new();
    let mut i: usize = 0;
    assert(a@.skip(0) =~= a@ && b@.skip(0) =~= b@);
    while i < a.len() && i < b.len()
        invariant
            i <= a@.len(),
            i <= b@.len(),
            r@ + interleave(a@.skip(i as int), b@.skip(i as int)) == interleave(a@, b@),
        decreases a@.len() - i,
    {
        proof {
            let sa = a@.skip(i as int);
            let sb = b@.skip(i as int);
            assert(sa.drop_first() =~= a@.skip(i + 1));
            assert(sb.drop_first() =~= b@.skip(i + 1));
            assert(r@.push(a@[i as int]).push(b@[i as int]) + interleave(a@.skip(i + 1), b@.skip(i + 1))
                =~= r@ + interleave(sa, sb));
        }
        r.push(a[i]);
        r.push(b[i]);
        i = i + 1;
    }
    let ghost mid = r@;
    let ghost rest = if i >= a.len() { b@.skip(i as int) } else { a@.skip(i as int) };
    assert(interleave(a@.skip(i as int), b@.skip(i as int)) == rest);
    let mut j: usize = i;
    while j < a.len()
        invariant
            i <= j <= a@.len(),
            i < a@.len() ==> r@ == mid + a@.subrange(i as int, j as int),
            i >= a@.len() ==> r@ == mid,
        decreases a@.len() - j,
    {
        r.push(a[j]);
        j = j + 1;
        assert(r@ =~= mid + a@.subrange(i as int, j as int));
    }
    let ghost mid2 = r@;
    let mut j: usize = i;
    while j < b.len()
        invariant
            i <= j <= b@.len(),
            i < b@.len() ==> r@ == mid2 + b@.subrange(i as int, j as int),
            i >= b@.len() ==> r@ == mid2,
        decreases b@.len() - j,
    {
        r.push(b[j]);
        j = j + 1;
        assert(r@ =~= mid2 + b@.subrange(i as int, j as int));
    }
    proof {
        if i < a@.len() {
            assert(a@.subrange(i as int, a@.len() as int) =~= a@.skip(i as int));
        }
        if i < b@.len() {
            assert(b@.subrange(i as int, b@.len() as int) =~= b@.skip(i as int));
        }
        assert(r@ =~= mid + rest);
    }
    r
}

/// The positions of the addresses in the order in which connections to them are tried:
/// the IPv6 addresses and the IPv4 addresses in turns, IPv6 first, each family in its
/// order of the input. `is_ipv6[i]` tells the family of address `i`.
pub fn attempt_order(is_ipv6: &Vec<bool>) -> (r: Vec<usize>)
    ensures
        r@ == interleave(
            Seq::new(is_ipv6@.len(), |i: int| i as usize).filter(|i: usize| is_ipv6@[i as int]),
            Seq::new(is_ipv6@.len(), |i: int| i as usize).filter(|i: usize| !is_ipv6@[i as int]),
        ),
{
    let ghost idx = Seq::new(is_ipv6@.len(), |i: int| i as usize);
    let ghost p6 = |i: usize| is_ipv6@[i as int];
    let ghost p4 = |i: usize| !is_ipv6@[i as int];
    let mut v6: Vec<usize> = Vec::new();
    let mut v4: Vec<usize> = Vec::new();
    let mut i: usize = 0;
    while i < is_ipv6.len()
        invariant
            i <= is_ipv6@.len(),
            idx == Seq::new(is_ipv6@.len(), |i: int| i as usize),
            p6 == (|i: usize| is_ipv6@[i as int]),
            p4 == (|i: usize| !is_ipv6@[i as int]),
            v6@ == idx.take(i as int).filter(p6),
            v4@ == idx.take(i as int).filter(p4),
        decreases is_ipv6@.len() - i,
    {
        proof {
            assert(idx.take(i + 1) =~= idx.take(i as int).push(i));
            idx.take(i as int).lemma_filter_push(i, p6);
            idx.take(i as int).lemma_filter_push(i, p4);
        }
        if is_ipv6[i] {
            v6.push(i);
        } else {
            v4.push(i);
        }
        i = i + 1;
    }
    assert(idx.take(i as int) =~= idx);
    intertwine(v6, v4)
}

/// The failures met while racing connection attempts: the first one is what the race
/// reports when no attempt connects.
pub struct RaceErrors {
    first: Option<IoErrorKind>,
}

impl RaceErrors {
    /// The first failure recorded.
    pub closed spec fn spec_first(self) -> Option<IoErrorKind> {
        self.first
    }

    /// No failure yet.
    pub fn new() -> (r: RaceErrors)
        ensures
            r.spec_first() is None,
    {
        RaceErrors { first: None }
    }

    /// Records the failure of an attempt.
    pub fn record(&mut self, e: IoErrorKind)
        ensures
            final(self).spec_first() == (match old(self).spec_first() {
                Some(f) => Some(f),
                None => Some(e),
            }),
    {
        if self.first.is_none() {
            self.first = Some(e);
        }
    }

    /// The error of a race that no attempt won: the first failure, or `Other` when
    /// there was no address to try.
    pub fn outcome(&self) -> (r: IoErrorKind)
        ensures
            r == (match self.spec_first() {
                Some(f) => f,
                None => IoErrorKind::Other,
            }),
    {
        match self.first {
            Some(f) => f,
            None => IoErrorKind::Other,
        }
    }
}

} // verus!
