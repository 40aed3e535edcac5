//! Destination resolution: the `x-transitive-dest` header takes precedence;
//! otherwise the query string is consulted; otherwise resolution fails.

use vstd::prelude::*;
use crate::message::{bytes_eq, copy_bytes, dest_key, dest_key_bytes, lower, lower_bytes, Header};
use crate::query::{query_destination, spec_query_destination};

verus! {

/// The value of the first header whose name lower-cases to `name`, if any.
pub open spec fn header_lookup(hs: Seq<(Seq<u8>, Seq<u8>)>, name: Seq<u8>) -> Option<Seq<u8>>
    decreases hs.len(),
{
    if hs.len() == 0 {
        None
    } else if lower(hs[0].0) == name {
        Some(hs[0].1)
    } else {
        header_lookup(hs.skip(1), name)
    }
}

/// The resolved destination of a request with headers `hs` and raw query
/// string `q`: the destination header's value when it is present and valid
/// UTF-8, else whatever the query string yields.
pub open spec fn spec_resolve(hs: Seq<(Seq<u8>, Seq<u8>)>, q: Seq<u8>) -> Option<Seq<u8>> {
    match header_lookup(hs, dest_key()) {
        Some(v) => if vstd::utf8::valid_utf8(v) {
            Some(v)
        } else {
            spec_query_destination(q)
        },
        None => spec_query_destination(q),
    }
}

/// Relies on `core::str::from_utf8`: it returns `Ok` exactly when the bytes
/// are a well-formed UTF-8 encoding, which is what `vstd::utf8::valid_utf8`
/// states.
#[verifier::external_body]
fn utf8_ok(b: &Vec<u8>) -> (r: bool)
    ensures
        r == vstd::utf8::valid_utf8(b@),
{
    core::str::from_utf8(b.as_slice()).is_ok()
}

/// The value of the first header named `name` (case-insensitively), copied
/// out, if any. `name` is expected in lower case.
pub fn header_get(headers: &Vec<Header>, name: &Vec<u8>) -> (r: Option<Vec<u8>>)
    ensures
        r.deep_view() == header_lookup(headers.deep_view(), name@),
{
    let ghost dv = headers.deep_view();
    let mut i: usize = 0;
    proof {
        assert(dv.skip(0) =~= dv);
    }
    while i < headers.len()
        invariant
            i <= headers.len(),
            dv == headers.deep_view(),
            header_lookup(dv, name@) == header_lookup(dv.skip(i as int), name@),
        decreases headers.len() - i,
    {
        let low = lower_bytes(&headers[i].name);
        proof {
            assert(dv.skip(i as int)[0] == dv[i as int]);
            assert(dv[i as int] == headers[i as int].deep_view());
            assert(dv.skip(i as int).skip(1) =~= dv.skip(i + 1));
        }
        if bytes_eq(&low, name) {
            let value = copy_bytes(&headers[i].value);
            proof {
                assert(Some(value).deep_view() =~= Some(value@));
            }
            return Some(value);
        }
        i = i + 1;
    }
    proof {
        assert(dv.skip(headers.len() as int) =~= Seq::<(Seq<u8>, Seq<u8>)>::empty());
    }
    None
}

/// Resolve the forwarding destination of a request, per the priority order:
/// destination header first (when its value is valid UTF-8), query parameter
/// second, failure otherwise.
pub fn resolve_destination(headers: &Vec<Header>, query: &Vec<u8>) -> (r: Option<Vec<u8>>)
    ensures
        r.deep_view() == spec_resolve(headers.deep_view(), query@),
{
    let dk = dest_key_bytes();
    match header_get(headers, &dk) {
        Some(v) => {
            proof {
                assert(v.deep_view() =~= v@);
            }
            if utf8_ok(&v) {
                Some(v)
            } else {
                query_destination(query)
            }
        },
        None => query_destination(query),
    }
}

/// Header precedence: a request that carries the destination header (with a
/// valid UTF-8 value) resolves to that value, whatever its query string says
/// — in particular when the query string carries a different value.
pub proof fn lemma_header_precedence(hs: Seq<(Seq<u8>, Seq<u8>)>, q: Seq<u8>, v: Seq<u8>)
    requires
        header_lookup(hs, dest_key()) == Some(v),
        vstd::utf8::valid_utf8(v),
    ensures
        spec_resolve(hs, q) == Some(v),
{
}

/// A request that carries neither source resolves to nothing; the proxy then
/// answers it with the fixed client error.
pub proof fn lemma_no_source_no_destination(hs: Seq<(Seq<u8>, Seq<u8>)>, q: Seq<u8>)
    requires
        header_lookup(hs, dest_key()) is None,
        spec_query_destination(q) is None,
    ensures
        spec_resolve(hs, q) is None,
{
}

} // verus!
