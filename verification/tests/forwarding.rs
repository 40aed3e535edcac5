use transitive_proxy::forward::{
    build_outbound, error_response, handle_request, missing_destination_response, relay_outcome,
    relay_response, Plan,
};
use transitive_proxy::message::{
    ForwardError, Header, InboundRequest, UpstreamResponse,
};
use transitive_proxy::method::Method;

fn header(name: &str, value: &[u8]) -> Header {
    Header { name: name.as_bytes().to_vec(), value: value.to_vec() }
}

fn request(method: Method, headers: Vec<Header>, query: &[u8], body: &[u8]) -> InboundRequest {
    InboundRequest { method, headers, query: query.to_vec(), body: body.to_vec() }
}

const MISSING: &[u8] = b"Missing x-transitive-dest header or query parameter";

#[test]
fn forwarded_request_preserves_method_and_body() {
    let methods = [
        Method::Get,
        Method::Post,
        Method::Put,
        Method::Delete,
        Method::Head,
        Method::Connect,
        Method::Options,
        Method::Trace,
        Method::Patch,
    ];
    for m in methods {
        let req = request(m, vec![header("x-transitive-dest", b"https://example.test/")],
            b"", b"payload bytes \x00\x01");
        match handle_request(req) {
            Plan::Forward(o) => {
                assert_eq!(o.method, m);
                assert_eq!(o.body, b"payload bytes \x00\x01".to_vec());
                assert_eq!(o.destination, b"https://example.test/".to_vec());
            }
            Plan::Reject(_) => panic!("destination was present"),
        }
    }
}

#[test]
fn header_precedence_decides_the_forwarded_destination() {
    let req = request(
        Method::Get,
        vec![header("x-transitive-dest", b"https://from-header.test/")],
        b"x-transitive-dest=https%3A%2F%2Ffrom-query.test%2F",
        b"",
    );
    match handle_request(req) {
        Plan::Forward(o) => assert_eq!(o.destination, b"https://from-header.test/".to_vec()),
        Plan::Reject(_) => panic!("destination was present"),
    }
}

#[test]
fn hop_by_hop_headers_never_leave_the_proxy() {
    let req = request(
        Method::Get,
        vec![
            header("Host", b"proxy.test"),
            header("Connection", b"keep-alive"),
            header("X-Transitive-Dest", b"https://example.test/"),
            header("content-type", b"text/plain"),
            header("authorization", b"Bearer token"),
        ],
        b"",
        b"",
    );
    let plan = handle_request(req);
    let outbound = match plan {
        Plan::Forward(o) => o,
        Plan::Reject(_) => panic!("destination was present"),
    };
    for h in &outbound.headers {
        let low: Vec<u8> = h.name.iter().map(|b| b.to_ascii_lowercase()).collect();
        assert_ne!(low, b"host".to_vec());
        assert_ne!(low, b"connection".to_vec());
        assert_ne!(low, b"x-transitive-dest".to_vec());
    }
    let names: Vec<Vec<u8>> = outbound.headers.iter().map(|h| h.name.clone()).collect();
    assert!(names.contains(&b"content-type".to_vec()));
    assert!(names.contains(&b"authorization".to_vec()));
    assert!(names.contains(&b"user-agent".to_vec()));
}

#[test]
fn default_user_agent_is_set() {
    let req = request(Method::Get, vec![header("x-transitive-dest", b"https://e.test/")],
        b"", b"");
    let outbound = match handle_request(req) {
        Plan::Forward(o) => o,
        Plan::Reject(_) => panic!("destination was present"),
    };
    let ua = outbound
        .headers
        .iter()
        .find(|h| h.name == b"user-agent".to_vec())
        .expect("client identifier is always set");
    assert_eq!(ua.value, b"transitive-rs".to_vec());
}

#[test]
fn caller_user_agent_is_kept() {
    let req = request(
        Method::Get,
        vec![
            header("x-transitive-dest", b"https://e.test/"),
            header("User-Agent", b"caller-agent"),
        ],
        b"",
        b"",
    );
    let outbound = match handle_request(req) {
        Plan::Forward(o) => o,
        Plan::Reject(_) => panic!("destination was present"),
    };
    let uas: Vec<&Header> = outbound
        .headers
        .iter()
        .filter(|h| h.name.to_ascii_lowercase() == b"user-agent".to_vec())
        .collect();
    assert_eq!(uas.len(), 1);
    assert_eq!(uas[0].value, b"caller-agent".to_vec());
}

#[test]
fn missing_destination_yields_exact_client_error() {
    let req = request(Method::Get, vec![header("accept", b"*/*")], b"a=1&b=2", b"");
    match handle_request(req) {
        Plan::Reject(resp) => {
            assert_eq!(resp.status, 400);
            assert_eq!(resp.body, MISSING.to_vec());
            assert!(resp.headers.is_empty());
        }
        Plan::Forward(_) => panic!("no destination was carried"),
    }
    let direct = missing_destination_response();
    assert_eq!(direct.status, 400);
    assert_eq!(direct.body, MISSING.to_vec());
}

#[test]
fn successful_upstream_response_is_relayed() {
    let upstream = UpstreamResponse {
        status: 200,
        headers: vec![header("content-type", b"application/json")],
        body: b"{\"ok\":true}".to_vec(),
    };
    let resp = relay_outcome(Ok(upstream));
    assert_eq!(resp.status, 200);
    assert_eq!(resp.body, b"{\"ok\":true}".to_vec());
    assert_eq!(resp.headers.len(), 1);
    assert_eq!(resp.headers[0].name, b"content-type".to_vec());
}

#[test]
fn relayed_response_drops_hop_by_hop_headers() {
    let upstream = UpstreamResponse {
        status: 204,
        headers: vec![
            header("Connection", b"close"),
            header("Host", b"upstream.test"),
            header("etag", b"\"abc\""),
        ],
        body: Vec::new(),
    };
    let resp = relay_response(upstream);
    assert_eq!(resp.status, 204);
    assert_eq!(resp.headers.len(), 1);
    assert_eq!(resp.headers[0].name, b"etag".to_vec());
}

#[test]
fn unreachable_upstream_maps_to_bad_gateway() {
    let resp = relay_outcome(Err(ForwardError::UpstreamConnect));
    assert_eq!(resp.status, 502);
    let resp = relay_outcome(Err(ForwardError::UpstreamResponse));
    assert_eq!(resp.status, 502);
}

#[test]
fn invalid_destination_maps_to_client_error() {
    let resp = error_response(&ForwardError::DestinationInvalid);
    assert_eq!(resp.status, 400);
    assert!(resp.body.is_empty());
}

#[test]
fn distinct_destinations_do_not_interfere() {
    // Each in-flight exchange is a value of its own: the plan built for one
    // request and the relay of its own upstream outcome never read another's.
    let destinations: Vec<Vec<u8>> = (0..8)
        .map(|i| format!("https://upstream-{i}.test/").into_bytes())
        .collect();
    let mut exchanges = Vec::new();
    for d in &destinations {
        let req = request(
            Method::Get,
            vec![Header { name: b"x-transitive-dest".to_vec(), value: d.clone() }],
            b"",
            b"",
        );
        match handle_request(req) {
            Plan::Forward(o) => exchanges.push(o),
            Plan::Reject(_) => panic!("destination was present"),
        }
    }
    for (i, o) in exchanges.iter().enumerate() {
        assert_eq!(o.destination, destinations[i]);
        let upstream = UpstreamResponse {
            status: 200,
            headers: Vec::new(),
            body: o.destination.clone(),
        };
        let resp = relay_outcome(Ok(upstream));
        assert_eq!(resp.body, destinations[i]);
    }
}

#[test]
fn scenario_encoded_query_round_trip() {
    let req = request(
        Method::Get,
        Vec::new(),
        b"x-transitive-dest=https%3A%2F%2Fexample.test%2Fok",
        b"",
    );
    let outbound = match handle_request(req) {
        Plan::Forward(o) => o,
        Plan::Reject(_) => panic!("destination was present"),
    };
    assert_eq!(outbound.destination, b"https://example.test/ok".to_vec());
    let upstream = UpstreamResponse {
        status: 200,
        headers: Vec::new(),
        body: b"{\"ok\":true}".to_vec(),
    };
    let resp = relay_outcome(Ok(upstream));
    assert_eq!(resp.status, 200);
    assert_eq!(resp.body, b"{\"ok\":true}".to_vec());
}

#[test]
fn build_outbound_body_is_byte_identical() {
    let body: Vec<u8> = (0..=255u16).map(|b| b as u8).collect();
    let req = request(Method::Post, Vec::new(), b"", &body);
    let outbound = build_outbound(req, b"https://example.test/".to_vec());
    assert_eq!(outbound.body, body);
    assert_eq!(outbound.method, Method::Post);
}
