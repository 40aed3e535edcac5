use transitive_proxy::message::Header;
use transitive_proxy::query::{percent_decode, query_destination};
use transitive_proxy::resolve::resolve_destination;

fn header(name: &str, value: &[u8]) -> Header {
    Header { name: name.as_bytes().to_vec(), value: value.to_vec() }
}

#[test]
fn percent_decode_plain_bytes() {
    let r = percent_decode(&b"abc".to_vec());
    assert_eq!(r, Some(b"abc".to_vec()));
}

#[test]
fn percent_decode_escape_and_plus() {
    let r = percent_decode(&b"a%41+b%2Fc".to_vec());
    assert_eq!(r, Some(b"aA b/c".to_vec()));
}

#[test]
fn percent_decode_mixed_case_hex() {
    let r = percent_decode(&b"%3a%3A".to_vec());
    assert_eq!(r, Some(b"::".to_vec()));
}

#[test]
fn percent_decode_malformed_escape() {
    assert_eq!(percent_decode(&b"a%G1b".to_vec()), None);
}

#[test]
fn percent_decode_truncated_escape() {
    assert_eq!(percent_decode(&b"abc%4".to_vec()), None);
}

#[test]
fn query_yields_encoded_destination() {
    let q = b"x-transitive-dest=https%3A%2F%2Fexample.test%2Fok".to_vec();
    assert_eq!(query_destination(&q), Some(b"https://example.test/ok".to_vec()));
}

#[test]
fn query_key_absent() {
    assert_eq!(query_destination(&b"a=1&b=2".to_vec()), None);
}

#[test]
fn query_empty() {
    assert_eq!(query_destination(&b"".to_vec()), None);
}

#[test]
fn query_last_occurrence_wins() {
    let q = b"x-transitive-dest=first&x-transitive-dest=second".to_vec();
    assert_eq!(query_destination(&q), Some(b"second".to_vec()));
}

#[test]
fn query_key_itself_percent_encoded() {
    let q = b"x%2Dtransitive-dest=v".to_vec();
    assert_eq!(query_destination(&q), Some(b"v".to_vec()));
}

#[test]
fn query_decode_failure_means_absent() {
    // A malformed escape in an unrelated segment poisons the whole parse.
    let q = b"bad=%ZZ&x-transitive-dest=v".to_vec();
    assert_eq!(query_destination(&q), None);
}

#[test]
fn query_value_empty_without_equals() {
    let q = b"x-transitive-dest".to_vec();
    assert_eq!(query_destination(&q), Some(b"".to_vec()));
}

#[test]
fn resolve_prefers_header_over_query() {
    let headers = vec![header("x-transitive-dest", b"https://from-header.test/")];
    let query = b"x-transitive-dest=https%3A%2F%2Ffrom-query.test%2F".to_vec();
    let r = resolve_destination(&headers, &query);
    assert_eq!(r, Some(b"https://from-header.test/".to_vec()));
}

#[test]
fn resolve_header_name_is_case_insensitive() {
    let headers = vec![header("X-Transitive-Dest", b"https://example.test/")];
    let r = resolve_destination(&headers, &b"".to_vec());
    assert_eq!(r, Some(b"https://example.test/".to_vec()));
}

#[test]
fn resolve_falls_back_to_query() {
    let headers = vec![header("content-type", b"text/plain")];
    let query = b"x-transitive-dest=https%3A%2F%2Fexample.test%2F".to_vec();
    let r = resolve_destination(&headers, &query);
    assert_eq!(r, Some(b"https://example.test/".to_vec()));
}

#[test]
fn resolve_invalid_utf8_header_falls_back_to_query() {
    // 0xff can begin no UTF-8 encoding, so the header value is unusable.
    let headers = vec![header("x-transitive-dest", &[0xff, 0x30])];
    let query = b"x-transitive-dest=from-query".to_vec();
    let r = resolve_destination(&headers, &query);
    assert_eq!(r, Some(b"from-query".to_vec()));
}

#[test]
fn resolve_valid_utf8_header_is_used() {
    // A multi-byte, well-formed value passes the UTF-8 gate.
    let value = "https://example.test/\u{00e9}".as_bytes();
    let headers = vec![header("x-transitive-dest", value)];
    let r = resolve_destination(&headers, &b"".to_vec());
    assert_eq!(r, Some(value.to_vec()));
}

#[test]
fn resolve_nothing_found() {
    let headers = vec![header("accept", b"*/*")];
    assert_eq!(resolve_destination(&headers, &b"a=1".to_vec()), None);
}

#[test]
fn resolve_first_header_occurrence_is_taken() {
    let headers = vec![
        header("x-transitive-dest", b"first"),
        header("x-transitive-dest", b"second"),
    ];
    let r = resolve_destination(&headers, &b"".to_vec());
    assert_eq!(r, Some(b"first".to_vec()));
}
