use dirty_debug::resolve;
use dirty_debug::Destination;
use dirty_debug::ResolveError;

fn expect_tcp(uri: &str) -> (String, u16) {
    match resolve(uri) {
        Ok(Destination::Tcp { host, port }) => (host, port),
        other => panic!("expected a tcp destination for {uri}, got {other:?}"),
    }
}

fn expect_file(uri: &str) -> String {
    match resolve(uri) {
        Ok(Destination::File { path }) => path,
        other => panic!("expected a file destination for {uri}, got {other:?}"),
    }
}

#[test]
fn resolves_tcp_hostname() {
    let (host, port) = expect_tcp("tcp://localhost:9999");
    assert_eq!(host, "localhost");
    assert_eq!(port, 9999);
}

#[test]
fn resolves_tcp_ipv4() {
    let (host, port) = expect_tcp("tcp://127.0.0.1:12345");
    assert_eq!(host, "127.0.0.1");
    assert_eq!(port, 12345);
}

#[test]
fn resolves_tcp_ipv6_bracketed() {
    let (host, port) = expect_tcp("tcp://[::1]:9999");
    assert_eq!(host, "::1");
    assert_eq!(port, 9999);
}

#[test]
fn resolves_tcp_empty_brackets() {
    let (host, port) = expect_tcp("tcp://[]:80");
    assert_eq!(host, "");
    assert_eq!(port, 80);
}

#[test]
fn strips_file_scheme_to_same_key() {
    let with_scheme = expect_file("file:///tmp/x");
    let bare = expect_file("/tmp/x");
    assert_eq!(with_scheme, "/tmp/x");
    assert_eq!(with_scheme, bare);
}

#[test]
fn bare_path_is_file_key() {
    assert_eq!(expect_file("some/relative/path.log"), "some/relative/path.log");
}

#[test]
fn scheme_is_case_sensitive() {
    assert_eq!(expect_file("TCP://host:99"), "TCP://host:99");
}

#[test]
fn rejects_tcp_without_colon() {
    assert_eq!(resolve("tcp://localhost"), Err(ResolveError::MissingPortSeparator));
}

#[test]
fn rejects_empty_port() {
    assert_eq!(resolve("tcp://localhost:"), Err(ResolveError::InvalidPort));
}

#[test]
fn rejects_non_numeric_port() {
    assert_eq!(resolve("tcp://localhost:12ab"), Err(ResolveError::InvalidPort));
}

#[test]
fn rejects_port_above_u16() {
    assert_eq!(resolve("tcp://localhost:65536"), Err(ResolveError::InvalidPort));
    let (_, port) = expect_tcp("tcp://localhost:65535");
    assert_eq!(port, 65535);
}

#[test]
fn rejects_signed_port() {
    assert_eq!(resolve("tcp://localhost:+99"), Err(ResolveError::InvalidPort));
}

#[test]
fn accepts_port_with_leading_zeros() {
    let (_, port) = expect_tcp("tcp://localhost:0009999");
    assert_eq!(port, 9999);
}

#[test]
fn rejects_unbracketed_ipv6() {
    assert_eq!(resolve("tcp://::1:9999"), Err(ResolveError::InvalidHost));
}

#[test]
fn rejects_half_bracketed_host() {
    assert_eq!(resolve("tcp://[::1:9999"), Err(ResolveError::InvalidHost));
}

#[test]
fn port_split_happens_at_last_colon() {
    // The port part is everything after the last colon, even when the
    // host itself holds colons that brackets explain.
    let (host, port) = expect_tcp("tcp://[fe80::1]:8080");
    assert_eq!(host, "fe80::1");
    assert_eq!(port, 8080);
}
