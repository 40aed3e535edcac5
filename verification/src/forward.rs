//! Outbound request construction and response relay: method and body pass
//! through unchanged, hop-by-hop headers are stripped, the proxy's client
//! identifier is set, and upstream failures map to error responses instead of
//! faults.

use vstd::prelude::*;
use crate::message::{
    connection_name, connection_name_bytes, copy_bytes, dest_key, dest_key_bytes, host_name,
    host_name_bytes, lower, lower_bytes, missing_dest_bytes, missing_dest_message,
    user_agent_name, user_agent_name_bytes, user_agent_value, user_agent_value_bytes, bytes_eq,
    ForwardError, Header, InboundRequest, OutboundRequest, ProxyResponse, UpstreamResponse,
};
use crate::resolve::{resolve_destination, spec_resolve};

verus! {

/// Whether a header of this name is hop-by-hop for this proxy: `host`,
/// `connection`, and the destination-signaling header itself. Such headers
/// are never copied across the proxy boundary.
pub open spec fn is_hop_by_hop(name: Seq<u8>) -> bool {
    lower(name) == host_name() || lower(name) == connection_name() || lower(name) == dest_key()
}

/// The headers that survive the proxy boundary: all but the hop-by-hop ones,
/// in their original order.
pub open spec fn propagated(hs: Seq<(Seq<u8>, Seq<u8>)>) -> Seq<(Seq<u8>, Seq<u8>)> {
    hs.filter(|h: (Seq<u8>, Seq<u8>)| !is_hop_by_hop(h.0))
}

/// Whether some header in `hs` has (lower-cased) name `name`.
pub open spec fn has_name(hs: Seq<(Seq<u8>, Seq<u8>)>, name: Seq<u8>) -> bool {
    exists|i: int| 0 <= i < hs.len() && lower(#[trigger] hs[i].0) == name
}

/// The outbound header list: the propagated inbound headers, with the proxy's
/// own client identifier appended when the caller supplied none.
pub open spec fn outbound_headers(hs: Seq<(Seq<u8>, Seq<u8>)>) -> Seq<(Seq<u8>, Seq<u8>)> {
    let p = propagated(hs);
    if has_name(p, user_agent_name()) {
        p
    } else {
        p.push((user_agent_name(), user_agent_value()))
    }
}

/// Propagation looks at one header at a time: a pushed header survives
/// exactly when it is not hop-by-hop.
pub proof fn lemma_propagated_push(s: Seq<(Seq<u8>, Seq<u8>)>, h: (Seq<u8>, Seq<u8>))
    ensures
        propagated(s.push(h)) == (if !is_hop_by_hop(h.0) {
            propagated(s).push(h)
        } else {
            propagated(s)
        }),
{
    reveal(Seq::filter);
    assert(s.push(h).drop_last() =~= s);
    assert(s.push(h).last() == h);
}

/// Whether this header name is hop-by-hop, executably.
pub fn is_hop_name(name: &Vec<u8>) -> (r: bool)
    ensures
        r == is_hop_by_hop(name@),
{
    let low = lower_bytes(name);
    let host = host_name_bytes();
    let conn = connection_name_bytes();
    let dk = dest_key_bytes();
    bytes_eq(&low, &host) || bytes_eq(&low, &conn) || bytes_eq(&low, &dk)
}

/// Copy the headers that are not hop-by-hop, preserving order.
pub fn filter_headers(hs: &Vec<Header>) -> (r: Vec<Header>)
    ensures
        r.deep_view() == propagated(hs.deep_view()),
{
    broadcast use vstd::seq_lib::group_filter_ensures;
    broadcast use vstd::seq::Seq::lemma_filter_push;

    let ghost dv = hs.deep_view();
    let mut out: Vec<Header> = Vec::new();
    let mut i: usize = 0;
    proof {
        assert(dv.take(0) =~= Seq::<(Seq<u8>, Seq<u8>)>::empty());
        assert(out.deep_view() =~= propagated(dv.take(0)));
    }
    while i < hs.len()
        invariant
            i <= hs.len(),
            dv == hs.deep_view(),
            out.deep_view() == propagated(dv.take(i as int)),
        decreases hs.len() - i,
    {
        proof {
            assert(dv[i as int] == hs[i as int].deep_view());
            dv.lemma_take_succ_push(i as int);
            lemma_propagated_push(dv.take(i as int), dv[i as int]);
            assert(propagated(dv.take(i + 1)) == propagated(dv.take(i as int).push(dv[i as int])));
        }
        if !is_hop_name(&hs[i].name) {
            let kept = Header { name: copy_bytes(&hs[i].name), value: copy_bytes(&hs[i].value) };
            proof {
                assert(kept.deep_view() == dv[i as int]);
            }
            let ghost old_out = out.deep_view();
            out.push(kept);
            proof {
                assert(out.deep_view() =~= old_out.push(dv[i as int]));
            }
        }
        i = i + 1;
    }
    proof {
        assert(dv.take(hs.len() as int) =~= dv);
    }
    out
}

/// Whether some header in `hs` is named `name` (case-insensitively); `name`
/// is expected in lower case.
pub fn contains_name(hs: &Vec<Header>, name: &Vec<u8>) -> (r: bool)
    ensures
        r == has_name(hs.deep_view(), name@),
{
    let ghost dv = hs.deep_view();
    let mut i: usize = 0;
    while i < hs.len()
        invariant
            i <= hs.len(),
            dv == hs.deep_view(),
            forall|j: int| 0 <= j < i ==> lower(#[trigger] dv[j].0) != name@,
        decreases hs.len() - i,
    {
        let low = lower_bytes(&hs[i].name);
        proof {
            assert(dv[i as int] == hs[i as int].deep_view());
        }
        if bytes_eq(&low, name) {
            proof {
                assert(lower(dv[i as int].0) == name@);
            }
            return true;
        }
        i = i + 1;
    }
    false
}

/// Build the outbound request: same method, same body, aimed at the resolved
/// destination, headers propagated minus hop-by-hop ones, the proxy's client
/// identifier set.
pub fn build_outbound(req: InboundRequest, destination: Vec<u8>) -> (r: OutboundRequest)
    ensures
        r.method == req.method,
        r.destination@ == destination@,
        r.body@ == req.body@,
        r.headers.deep_view() == outbound_headers(req.headers.deep_view()),
{
    let mut headers = filter_headers(&req.headers);
    let ua = user_agent_name_bytes();
    if !contains_name(&headers, &ua) {
        let ident = Header { name: ua, value: user_agent_value_bytes() };
        let ghost old_headers = headers.deep_view();
        headers.push(ident);
        proof {
            assert(headers.deep_view() =~= old_headers.push(
                (user_agent_name(), user_agent_value()),
            ));
        }
    }
    OutboundRequest { method: req.method, destination, headers, body: req.body }
}

/// Relay an upstream response to the original caller: status and body are
/// copied verbatim, hop-by-hop headers are stripped.
pub fn relay_response(up: UpstreamResponse) -> (r: ProxyResponse)
    ensures
        r.status == up.status,
        r.body@ == up.body@,
        r.headers.deep_view() == propagated(up.headers.deep_view()),
{
    let headers = filter_headers(&up.headers);
    ProxyResponse { status: up.status, headers, body: up.body }
}

/// The fixed client error sent when a request carries no destination.
pub fn missing_destination_response() -> (r: ProxyResponse)
    ensures
        r.status == 400,
        r.body@ == missing_dest_message(),
        r.headers@.len() == 0,
{
    ProxyResponse { status: 400, headers: Vec::new(), body: missing_dest_bytes() }
}

/// The error response for a failed forward: a client error when the resolved
/// destination is not a well-formed absolute URI, a bad-gateway error for
/// either upstream failure. No failure escapes as a fault.
pub fn error_response(e: &ForwardError) -> (r: ProxyResponse)
    ensures
        r.headers@.len() == 0,
        r.body@.len() == 0,
        r.status == (match *e {
            ForwardError::DestinationInvalid => 400u16,
            ForwardError::UpstreamConnect => 502u16,
            ForwardError::UpstreamResponse => 502u16,
        }),
{
    let status: u16 = match e {
        ForwardError::DestinationInvalid => 400,
        ForwardError::UpstreamConnect => 502,
        ForwardError::UpstreamResponse => 502,
    };
    let body: Vec<u8> = Vec::new();
    ProxyResponse { status, headers: Vec::new(), body }
}

/// Map the outcome of the outbound exchange into the caller's response:
/// an upstream response is relayed, a failure becomes its error response.
pub fn relay_outcome(outcome: Result<UpstreamResponse, ForwardError>) -> (r: ProxyResponse)
    ensures
        (outcome matches Ok(up) ==> r.status == up.status && r.body@ == up.body@
            && r.headers.deep_view() == propagated(up.headers.deep_view())),
        (outcome matches Err(e) ==> r.headers@.len() == 0 && r.body@.len() == 0 && r.status
            == (match e {
            ForwardError::DestinationInvalid => 400u16,
            ForwardError::UpstreamConnect => 502u16,
            ForwardError::UpstreamResponse => 502u16,
        })),
{
    match outcome {
        Ok(up) => relay_response(up),
        Err(e) => error_response(&e),
    }
}

/// What the proxy decides for one inbound request: answer it directly, or
/// forward it to the resolved destination.
pub enum Plan {
    /// Answer the caller without any outbound call.
    Reject(ProxyResponse),
    /// Send this outbound request and relay its outcome.
    Forward(OutboundRequest),
}

/// Decide one inbound request: with no resolvable destination, the fixed
/// client error; otherwise the outbound request to send.
pub fn handle_request(req: InboundRequest) -> (r: Plan)
    ensures
        (spec_resolve(req.headers.deep_view(), req.query@) is None ==> (r matches Plan::Reject(
            resp,
        ) && resp.status == 400 && resp.body@ == missing_dest_message() && resp.headers@.len()
            == 0)),
        (spec_resolve(req.headers.deep_view(), req.query@) matches Some(d) ==> (r matches
            Plan::Forward(o) && o.method == req.method && o.destination@ == d && o.body@
            == req.body@ && o.headers.deep_view() == outbound_headers(req.headers.deep_view()))),
{
    match resolve_destination(&req.headers, &req.query) {
        Some(dest) => {
            proof {
                assert(dest.deep_view() =~= dest@);
            }
            Plan::Forward(build_outbound(req, dest))
        },
        None => Plan::Reject(missing_destination_response()),
    }
}

/// Hop-by-hop headers (`host`, `connection`, and the destination-signaling
/// header) never appear among the outbound headers, nor among the headers of
/// a relayed response.
pub proof fn lemma_no_hop_by_hop(hs: Seq<(Seq<u8>, Seq<u8>)>)
    ensures
        forall|i: int|
            0 <= i < propagated(hs).len() ==> !is_hop_by_hop(#[trigger] propagated(hs)[i].0),
        forall|i: int|
            0 <= i < outbound_headers(hs).len() ==> !is_hop_by_hop(
                #[trigger] outbound_headers(hs)[i].0,
            ),
{
    broadcast use vstd::seq_lib::group_filter_ensures;

    let p = propagated(hs);
    assert forall|i: int| 0 <= i < p.len() implies !is_hop_by_hop(#[trigger] p[i].0) by {
        assert(p[i] == hs.filter(|h: (Seq<u8>, Seq<u8>)| !is_hop_by_hop(h.0))[i]);
    }
    assert(lower(user_agent_name()) =~= user_agent_name());
    assert(lower(user_agent_name())[0] == 117);
    assert(host_name().len() == 4);
    assert(connection_name()[0] == 99);
    assert(dest_key().len() == 17);
    assert(!is_hop_by_hop(user_agent_name()));
    let q = outbound_headers(hs);
    assert forall|i: int| 0 <= i < q.len() implies !is_hop_by_hop(#[trigger] q[i].0) by {
        if has_name(p, user_agent_name()) {
        } else {
            if i < p.len() {
                assert(q[i] == p[i]);
            } else {
                assert(q[i] == (user_agent_name(), user_agent_value()));
            }
        }
    }
}

/// Every inbound header that is not hop-by-hop is forwarded: it appears among
/// the propagated headers, and so among the outbound ones.
pub proof fn lemma_others_are_forwarded(hs: Seq<(Seq<u8>, Seq<u8>)>, i: int)
    requires
        0 <= i < hs.len(),
        !is_hop_by_hop(hs[i].0),
    ensures
        propagated(hs).contains(hs[i]),
        outbound_headers(hs).contains(hs[i]),
{
    broadcast use vstd::seq_lib::group_filter_ensures;

    let p = propagated(hs);
    assert(p.contains(hs[i]));
    if !has_name(p, user_agent_name()) {
        let j = choose|j: int| 0 <= j < p.len() && p[j] == hs[i];
        assert(p.push((user_agent_name(), user_agent_value()))[j] == hs[i]);
    }
}

} // verus!
