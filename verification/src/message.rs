//! Wire-level data model: requests, responses, headers, and the byte
//! constants the proxy's rules are stated over.
//!
//! Header names, header values, query strings, bodies and destinations are
//! all modelled as byte sequences; header names compare case-insensitively
//! through [`lower`].

use vstd::prelude::*;
use crate::method::Method;

verus! {

/// Lower-case a single ASCII byte; bytes outside `A..=Z` are unchanged.
pub open spec fn lower_byte(b: u8) -> u8 {
    if 65 <= b && b <= 90 {
        (b + 32) as u8
    } else {
        b
    }
}

/// Lower-case a byte sequence, byte by byte.
pub open spec fn lower(s: Seq<u8>) -> Seq<u8> {
    s.map_values(|b: u8| lower_byte(b))
}

/// The destination-signaling name, `x-transitive-dest`, as bytes.
pub open spec fn dest_key() -> Seq<u8> {
    seq![120u8, 45, 116, 114, 97, 110, 115, 105, 116, 105, 118, 101, 45, 100, 101, 115, 116]
}

/// The `host` header name, as bytes.
pub open spec fn host_name() -> Seq<u8> {
    seq![104u8, 111, 115, 116]
}

/// The `connection` header name, as bytes.
pub open spec fn connection_name() -> Seq<u8> {
    seq![99u8, 111, 110, 110, 101, 99, 116, 105, 111, 110]
}

/// The `user-agent` header name, as bytes.
pub open spec fn user_agent_name() -> Seq<u8> {
    seq![117u8, 115, 101, 114, 45, 97, 103, 101, 110, 116]
}

/// The proxy's own client identifier, `transitive-rs`.
pub open spec fn user_agent_value() -> Seq<u8> {
    seq![116u8, 114, 97, 110, 115, 105, 116, 105, 118, 101, 45, 114, 115]
}

/// The literal body `Missing x-transitive-dest header or query parameter`.
pub open spec fn missing_dest_message() -> Seq<u8> {
    seq![77u8, 105, 115, 115, 105, 110, 103, 32, 120, 45, 116, 114, 97, 110, 115, 105, 116,
        105, 118, 101, 45, 100, 101, 115, 116, 32, 104, 101, 97, 100, 101, 114, 32, 111, 114,
        32, 113, 117, 101, 114, 121, 32, 112, 97, 114, 97, 109, 101, 116, 101, 114]
}

/// One HTTP header: a name (compared case-insensitively) and a value.
pub struct Header {
    pub name: Vec<u8>,
    pub value: Vec<u8>,
}

impl View for Header {
    type V = (Seq<u8>, Seq<u8>);

    open spec fn view(&self) -> (Seq<u8>, Seq<u8>) {
        (self.name@, self.value@)
    }
}

impl DeepView for Header {
    type V = (Seq<u8>, Seq<u8>);

    open spec fn deep_view(&self) -> (Seq<u8>, Seq<u8>) {
        self@
    }
}

/// The request as delivered by the HTTP runtime: method, headers, the raw
/// (still encoded) query string, and the body.
pub struct InboundRequest {
    pub method: Method,
    pub headers: Vec<Header>,
    pub query: Vec<u8>,
    pub body: Vec<u8>,
}

/// The request the proxy sends on: same method and body as the inbound
/// request, aimed at the resolved destination, with headers selectively
/// propagated.
pub struct OutboundRequest {
    pub method: Method,
    pub destination: Vec<u8>,
    pub headers: Vec<Header>,
    pub body: Vec<u8>,
}

/// What the upstream answered: status, headers, body.
pub struct UpstreamResponse {
    pub status: u16,
    pub headers: Vec<Header>,
    pub body: Vec<u8>,
}

/// The response handed back to the original caller.
pub struct ProxyResponse {
    pub status: u16,
    pub headers: Vec<Header>,
    pub body: Vec<u8>,
}

/// Why a forward failed after a destination was resolved.
pub enum ForwardError {
    /// The destination is not a well-formed absolute URI.
    DestinationInvalid,
    /// TCP/TLS connection to the destination failed.
    UpstreamConnect,
    /// The upstream connection succeeded but its response could not be read.
    UpstreamResponse,
}

/// Copy a byte vector element by element.
pub fn copy_bytes(v: &Vec<u8>) -> (r: Vec<u8>)
    ensures
        r@ == v@,
{
    let mut r: Vec<u8> = Vec::new();
    let mut i: usize = 0;
    while i < v.len()
        invariant
            i <= v.len(),
            r@ == v@.take(i as int),
        decreases v.len() - i,
    {
        r.push(v[i]);
        proof {
            assert(r@ =~= v@.take(i + 1));
        }
        i = i + 1;
    }
    proof {
        assert(r@ =~= v@);
    }
    r
}

/// Byte-for-byte equality of two byte vectors.
pub fn bytes_eq(a: &Vec<u8>, b: &Vec<u8>) -> (r: bool)
    ensures
        r == (a@ == b@),
{
    if a.len() != b.len() {
        return false;
    }
    let mut i: usize = 0;
    while i < a.len()
        invariant
            a.len() == b.len(),
            i <= a.len(),
            forall|j: int| 0 <= j < i ==> a@[j] == b@[j],
        decreases a.len() - i,
    {
        if a[i] != b[i] {
            return false;
        }
        i = i + 1;
    }
    proof {
        assert(a@ =~= b@);
    }
    true
}

/// Lower-case a byte vector, byte by byte.
pub fn lower_bytes(v: &Vec<u8>) -> (r: Vec<u8>)
    ensures
        r@ == lower(v@),
{
    let mut r: Vec<u8> = Vec::new();
    let mut i: usize = 0;
    while i < v.len()
        invariant
            i <= v.len(),
            r@.len() == i,
            forall|j: int| 0 <= j < i ==> r@[j] == lower_byte(v@[j]),
        decreases v.len() - i,
    {
        let b = v[i];
        if 65 <= b && b <= 90 {
            r.push(b + 32);
        } else {
            r.push(b);
        }
        i = i + 1;
    }
    proof {
        assert(r@ =~= lower(v@));
    }
    r
}

/// The destination-signaling header and query-parameter name, as bytes.
pub fn dest_key_bytes() -> (r: Vec<u8>)
    ensures
        r@ == dest_key(),
{
    let mut r: Vec<u8> = Vec::new();
    r.push(120);
    r.push(45);
    r.push(116);
    r.push(114);
    r.push(97);
    r.push(110);
    r.push(115);
    r.push(105);
    r.push(116);
    r.push(105);
    r.push(118);
    r.push(101);
    r.push(45);
    r.push(100);
    r.push(101);
    r.push(115);
    r.push(116);
    proof {
        assert(r@ =~= dest_key());
    }
    r
}

/// The `user-agent` header name, as bytes.
pub fn user_agent_name_bytes() -> (r: Vec<u8>)
    ensures
        r@ == user_agent_name(),
{
    let mut r: Vec<u8> = Vec::new();
    r.push(117);
    r.push(115);
    r.push(101);
    r.push(114);
    r.push(45);
    r.push(97);
    r.push(103);
    r.push(101);
    r.push(110);
    r.push(116);
    proof {
        assert(r@ =~= user_agent_name());
    }
    r
}

/// The proxy's own client identifier, sent as the default user agent.
pub fn user_agent_value_bytes() -> (r: Vec<u8>)
    ensures
        r@ == user_agent_value(),
{
    let mut r: Vec<u8> = Vec::new();
    r.push(116);
    r.push(114);
    r.push(97);
    r.push(110);
    r.push(115);
    r.push(105);
    r.push(116);
    r.push(105);
    r.push(118);
    r.push(101);
    r.push(45);
    r.push(114);
    r.push(115);
    proof {
        assert(r@ =~= user_agent_value());
    }
    r
}

/// The literal body returned when no destination is carried by the request.
pub fn missing_dest_bytes() -> (r: Vec<u8>)
    ensures
        r@ == missing_dest_message(),
{
    let mut r: Vec<u8> = Vec::new();
    r.push(77);
    r.push(105);
    r.push(115);
    r.push(115);
    r.push(105);
    r.push(110);
    r.push(103);
    r.push(32);
    r.push(120);
    r.push(45);
    r.push(116);
    r.push(114);
    r.push(97);
    r.push(110);
    r.push(115);
    r.push(105);
    r.push(116);
    r.push(105);
    r.push(118);
    r.push(101);
    r.push(45);
    r.push(100);
    r.push(101);
    r.push(115);
    r.push(116);
    r.push(32);
    r.push(104);
    r.push(101);
    r.push(97);
    r.push(100);
    r.push(101);
    r.push(114);
    r.push(32);
    r.push(111);
    r.push(114);
    r.push(32);
    r.push(113);
    r.push(117);
    r.push(101);
    r.push(114);
    r.push(121);
    r.push(32);
    r.push(112);
    r.push(97);
    r.push(114);
    r.push(97);
    r.push(109);
    r.push(101);
    r.push(116);
    r.push(101);
    r.push(114);
    proof {
        assert(r@ =~= missing_dest_message());
    }
    r
}

/// The `host` header name, as bytes.
pub fn host_name_bytes() -> (r: Vec<u8>)
    ensures
        r@ == host_name(),
{
    let mut r: Vec<u8> = Vec::new();
    r.push(104);
    r.push(111);
    r.push(115);
    r.push(116);
    proof {
        assert(r@ =~= host_name());
    }
    r
}

/// The `connection` header name, as bytes.
pub fn connection_name_bytes() -> (r: Vec<u8>)
    ensures
        r@ == connection_name(),
{
    let mut r: Vec<u8> = Vec::new();
    r.push(99);
    r.push(111);
    r.push(110);
    r.push(110);
    r.push(101);
    r.push(99);
    r.push(116);
    r.push(105);
    r.push(111);
    r.push(110);
    proof {
        assert(r@ =~= connection_name());
    }
    r
}


} // verus!
