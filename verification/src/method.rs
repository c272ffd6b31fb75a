//! Request methods.

use vstd::prelude::*;

use crate::headers::header_char;
use crate::reader::slice_to_vec;

verus! {

/// `b` is a method token: one or more token characters.
pub open spec fn is_token(b: Seq<u8>) -> bool {
    b.len() > 0 && forall|i: int| 0 <= i < b.len() ==> header_char(#[trigger] b[i]) != 0u8
}

/// A method other than the standard ones, known by its token.
#[derive(Debug, PartialEq, Eq)]
pub struct ExtensionMethod {
    name: Vec<u8>,
}

impl Clone for ExtensionMethod {
    fn clone(&self) -> (r: Self)
        ensures
            r.spec_name() == self.spec_name(),
    {
        proof {
            use_type_invariant(self);
        }
        let r = ExtensionMethod { name: self.name.clone() };
        assert(r.name@ =~= self.name@);
        r
    }
}

impl ExtensionMethod {
    /// The name is a token and none of the standard methods' names.
    #[verifier::type_invariant]
    spec fn inv(self) -> bool {
        is_token(self.name@) && standard_method(self.name@) is None
    }

    /// The name of the method.
    pub closed spec fn spec_name(self) -> Seq<u8> {
        self.name@
    }

    /// The name of the method.
    pub fn name(&self) -> (r: &[u8])
        ensures
            r@ == self.spec_name(),
            is_token(r@),
            standard_method(r@) is None,
    {
        proof {
            use_type_invariant(self);
        }
        self.name.as_slice()
    }
}

/// The method of a request.
#[derive(Debug, Clone, PartialEq, Eq)]
pub enum Method {
    Get,
    Post,
    Put,
    Delete,
    Head,
    Options,
    Connect,
    Patch,
    Trace,
    /// Another method, known by its token.
    Extension(ExtensionMethod),
}

/// The name of a method as it appears in a request line.
pub open spec fn method_name(m: Method) -> Seq<u8> {
    match m {
        Method::Get => seq![71u8, 69u8, 84u8],
        Method::Post => seq![80u8, 79u8, 83u8, 84u8],
        Method::Put => seq![80u8, 85u8, 84u8],
        Method::Delete => seq![68u8, 69u8, 76u8, 69u8, 84u8, 69u8],
        Method::Head => seq![72u8, 69u8, 65u8, 68u8],
        Method::Options => seq![79u8, 80u8, 84u8, 73u8, 79u8, 78u8, 83u8],
        Method::Connect => seq![67u8, 79u8, 78u8, 78u8, 69u8, 67u8, 84u8],
        Method::Patch => seq![80u8, 65u8, 84u8, 67u8, 72u8],
        Method::Trace => seq![84u8, 82u8, 65u8, 67u8, 69u8],
        Method::Extension(e) => e.spec_name(),
    }
}

/// The standard method named `b`, if any.
pub open spec fn standard_method(b: Seq<u8>) -> Option<Method> {
    if b == method_name(Method::Get) {
        Some(Method::Get)
    } else if b == method_name(Method::Post) {
        Some(Method::Post)
    } else if b == method_name(Method::Put) {
        Some(Method::Put)
    } else if b == method_name(Method::Delete) {
        Some(Method::Delete)
    } else if b == method_name(Method::Head) {
        Some(Method::Head)
    } else if b == method_name(Method::Options) {
        Some(Method::Options)
    } else if b == method_name(Method::Connect) {
        Some(Method::Connect)
    } else if b == method_name(Method::Patch) {
        Some(Method::Patch)
    } else if b == method_name(Method::Trace) {
        Some(Method::Trace)
    } else {
        None
    }
}

/// Whether `a` and `b` hold the same bytes.
fn same_bytes(a: &[u8], b: &[u8]) -> (r: bool)
    ensures
        r == (a@ == b@),
{
    if a.len() != b.len() {
        return false;
    }
    let mut i: usize = 0;
    while i < a.len()
        invariant
            i <= a@.len(),
            a@.len() == b@.len(),
            forall|j: int| 0 <= j < i ==> a@[j] == b@[j],
        decreases a@.len() - i,
    {
        if a[i] != b[i] {
            return false;
        }
        i = i + 1;
    }
    assert(a@ =~= b@);
    true
}

impl Method {
    /// The name of the method as it appears in a request line.
    pub fn as_bytes(&self) -> (r: Vec<u8>)
        ensures
            r@ == method_name(*self),
    {
        match self {
            Method::Get => vec![71u8, 69u8, 84u8],
            Method::Post => vec![80u8, 79u8, 83u8, 84u8],
            Method::Put => vec![80u8, 85u8, 84u8],
            Method::Delete => vec![68u8, 69u8, 76u8, 69u8, 84u8, 69u8],
            Method::Head => vec![72u8, 69u8, 65u8, 68u8],
            Method::Options => vec![79u8, 80u8, 84u8, 73u8, 79u8, 78u8, 83u8],
            Method::Connect => vec![67u8, 79u8, 78u8, 78u8, 69u8, 67u8, 84u8],
            Method::Patch => vec![80u8, 65u8, 84u8, 67u8, 72u8],
            Method::Trace => vec![84u8, 82u8, 65u8, 67u8, 69u8],
            Method::Extension(e) => slice_to_vec(e.name()),
        }
    }

    /// The method named `b`: a standard one, or an extension method if `b` is another
    /// token; `None` if `b` is not a token.
    pub fn from_bytes(b: &[u8]) -> (r: Option<Method>)
        ensures
            match r {
                Some(m) => is_token(b@) && method_name(m) == b@ && (standard_method(b@) matches Some(s) ==> m == s)
                    && (standard_method(b@) is None ==> m is Extension),
                None => !is_token(b@),
            },
    {
        if b.len() == 0 {
            return None;
        }
        let mut i: usize = 0;
        while i < b.len()
            invariant
                i <= b@.len(),
                forall|j: int| 0 <= j < i ==> header_char(#[trigger] b@[j]) != 0u8,
            decreases b@.len() - i,
        {
            let c = b[i];
            if !(c == 33u8 || (35u8 <= c && c <= 39u8) || c == 42u8 || c == 43u8 || c == 45u8 || c == 46u8
                || (48u8 <= c && c <= 57u8) || (65u8 <= c && c <= 90u8) || (94u8 <= c && c <= 122u8) || c == 124u8
                || c == 126u8) {
                return None;
            }
            i = i + 1;
        }
        if same_bytes(Method::Get.as_bytes().as_slice(), b) {
            return Some(Method::Get);
        }
        if same_bytes(Method::Post.as_bytes().as_slice(), b) {
            return Some(Method::Post);
        }
        if same_bytes(Method::Put.as_bytes().as_slice(), b) {
            return Some(Method::Put);
        }
        if same_bytes(Method::Delete.as_bytes().as_slice(), b) {
            return Some(Method::Delete);
        }
        if same_bytes(Method::Head.as_bytes().as_slice(), b) {
            return Some(Method::Head);
        }
        if same_bytes(Method::Options.as_bytes().as_slice(), b) {
            return Some(Method::Options);
        }
        if same_bytes(Method::Connect.as_bytes().as_slice(), b) {
            return Some(Method::Connect);
        }
        if same_bytes(Method::Patch.as_bytes().as_slice(), b) {
            return Some(Method::Patch);
        }
        if same_bytes(Method::Trace.as_bytes().as_slice(), b) {
            return Some(Method::Trace);
        }
        Some(Method::Extension(ExtensionMethod { name: slice_to_vec(b) }))
    }
}

} // verus!
