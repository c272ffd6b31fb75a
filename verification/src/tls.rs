//! Certificates that a request trusts besides those of the system.

use vstd::prelude::*;

verus! {

/// A certificate to trust as a root, in DER form.
#[derive(Debug)]
pub struct Certificate {
    der: Vec<u8>,
}

impl Clone for Certificate {
    fn clone(&self) -> (r: Self)
        ensures
            r.spec_der() == self.spec_der(),
    {
        let r = Certificate { der: self.der.clone() };
        assert(r.der@ =~= self.der@);
        r
    }
}

impl Certificate {
    /// The DER bytes of the certificate.
    pub closed spec fn spec_der(self) -> Seq<u8> {
        self.der@
    }

    /// The certificate whose DER encoding is `der`.
    pub fn from_der(der: Vec<u8>) -> (r: Certificate)
        ensures
            r.spec_der() == der@,
    {
        Certificate { der }
    }

    /// The DER encoding of the certificate.
    pub fn der(&self) -> (r: &[u8])
        ensures
            r@ == self.spec_der(),
    {
        self.der.as_slice()
    }
}

} // verus!
