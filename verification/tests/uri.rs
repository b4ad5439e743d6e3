use mc_crawler::uri::{fragment_mc_url, is_peer_uri, node_reference, parse_peer_uri, peer_uri, port_text};

#[test]
fn bad_url_to_ip_port() {
    let url = "foo:443";
    let expected = (String::from("0.0.0.0"), 0);
    let actual = fragment_mc_url(url);
    assert_eq!(expected, actual);
}

#[test]
fn invalid_peer_address_to_cons_peer() {
    let peer = "localhost:443";
    assert!(parse_peer_uri(peer).is_none());
    assert!(!is_peer_uri(peer));
}

#[test]
fn correct_peer_address_to_cons_peer() {
    let peer = "mc://localhost:443";
    assert!(parse_peer_uri(peer).is_some());
    assert!(is_peer_uri(peer));
}

#[test]
fn well_formed_address_gives_host_and_port() {
    assert_eq!(
        parse_peer_uri("mc://peer1.prod.mobilecoinww.com:443"),
        Some((String::from("peer1.prod.mobilecoinww.com"), 443))
    );
    assert_eq!(
        fragment_mc_url("mc://test.foo.com:443"),
        (String::from("test.foo.com"), 443)
    );
}

#[test]
fn address_without_port_is_rejected() {
    assert_eq!(parse_peer_uri("mc://test.foo.com"), None);
    assert_eq!(fragment_mc_url("mc://test.foo.com"), (String::from("0.0.0.0"), 0));
}

#[test]
fn address_with_port_zero_is_rejected() {
    assert_eq!(parse_peer_uri("mc://test.foo.com:0"), None);
}

#[test]
fn address_with_other_scheme_is_rejected() {
    assert_eq!(parse_peer_uri("mcp://test.foo.com:443"), None);
    assert_eq!(parse_peer_uri("https://test.foo.com:443"), None);
    assert_eq!(fragment_mc_url("https://test.foo.com:8443"), (String::from("0.0.0.0"), 0));
}

#[test]
fn address_without_host_is_rejected() {
    assert_eq!(parse_peer_uri("mc://:443"), None);
    assert_eq!(parse_peer_uri("mc:443"), None);
}

#[test]
fn text_that_is_no_url_is_rejected() {
    assert_eq!(parse_peer_uri("foo"), None);
    assert_eq!(parse_peer_uri(""), None);
    assert_eq!(fragment_mc_url("foo"), (String::from("0.0.0.0"), 0));
}

#[test]
fn peer_uri_puts_the_scheme_in_front() {
    assert_eq!(peer_uri("node1.test.com:8443"), "mc://node1.test.com:8443");
    assert_eq!(peer_uri(""), "mc://");
}

#[test]
fn port_text_is_decimal() {
    assert_eq!(port_text(0), "0");
    assert_eq!(port_text(7), "7");
    assert_eq!(port_text(10), "10");
    assert_eq!(port_text(443), "443");
    assert_eq!(port_text(8443), "8443");
    assert_eq!(port_text(65535), "65535");
    assert_eq!(port_text(12345), 12345u16.to_string());
}

#[test]
fn node_reference_is_scheme_host_and_port() {
    assert_eq!(node_reference("test.foo.com", 443), "mc://test.foo.com:443");
    assert_eq!(node_reference("a", 1), peer_uri("a:1"));
}
