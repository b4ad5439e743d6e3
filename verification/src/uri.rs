//! Peer addresses: which texts name a peer, and the host and port they name.

use vstd::prelude::*;
use vstd::string::*;

verus! {

/// What the `url` crate makes of a text: `None` where it rejects the text,
/// else the scheme, the domain if the host is a domain name, and the port if
/// the text gives one.
pub uninterp spec fn url_parts(input: Seq<char>) -> Option<(Seq<char>, Option<Seq<char>>, Option<u16>)>;

/// The parts of a URL that the address rules read.
pub struct UrlParts {
    pub scheme: String,
    pub domain: Option<String>,
    pub port: Option<u16>,
}

impl View for UrlParts {
    type V = (Seq<char>, Option<Seq<char>>, Option<u16>);

    open spec fn view(&self) -> Self::V {
        (
            self.scheme@,
            match self.domain {
                Some(domain) => Some(domain@),
                None => None,
            },
            self.port,
        )
    }
}

/// Calls `url::Url::parse`, and on success `Url::scheme`, `Url::domain` and
/// `Url::port` of what it returns. The contract only names the outcome: the
/// same text always splits the same way.
#[verifier::external_body]
fn split_url(input: &str) -> (parts: Option<UrlParts>)
    ensures
        match parts {
            Some(p) => url_parts(input@) == Some(p@),
            None => url_parts(input@) is None,
        },
{
    match url::Url::parse(input) {
        Ok(url) => Some(
            UrlParts {
                scheme: url.scheme().to_owned(),
                domain: url.domain().map(str::to_owned),
                port: url.port(),
            },
        ),
        Err(_) => None,
    }
}

/// The scheme of a peer address.
pub open spec fn peer_scheme() -> Seq<char> {
    "mc"@
}

/// What every rejected address falls back to: the host `0.0.0.0`.
pub open spec fn fallback_host() -> Seq<char> {
    "0.0.0.0"@
}

/// The host and port that a text names as a peer: present exactly when the
/// text is a URL with the peer scheme, a non-empty domain and an explicit
/// port that is not zero.
pub open spec fn peer_address(uri: Seq<char>) -> Option<(Seq<char>, u16)> {
    match url_parts(uri) {
        Some((scheme, Some(domain), Some(port))) => if scheme == peer_scheme() && domain.len() > 0
            && port >= 1 {
            Some((domain, port))
        } else {
            None
        },
        _ => None,
    }
}

/// Host and port of a text, the fallback `0.0.0.0` and `0` where it names no
/// peer.
pub open spec fn address_or_fallback(uri: Seq<char>) -> (Seq<char>, u16) {
    match peer_address(uri) {
        Some(address) => address,
        None => (fallback_host(), 0u16),
    }
}

/// The address under which a validator with this responder identifier is
/// crawled.
pub open spec fn peer_uri_of(responder_id: Seq<char>) -> Seq<char> {
    "mc://"@ + responder_id
}

/// The character of a decimal digit.
pub open spec fn digit_char(digit: nat) -> char {
    if digit == 0 {
        '0'
    } else if digit == 1 {
        '1'
    } else if digit == 2 {
        '2'
    } else if digit == 3 {
        '3'
    } else if digit == 4 {
        '4'
    } else if digit == 5 {
        '5'
    } else if digit == 6 {
        '6'
    } else if digit == 7 {
        '7'
    } else if digit == 8 {
        '8'
    } else {
        '9'
    }
}

/// A number in decimal, without leading zeros.
pub open spec fn decimal(n: nat) -> Seq<char>
    decreases n,
{
    if n < 10 {
        seq![digit_char(n)]
    } else {
        decimal(n / 10).push(digit_char(n % 10))
    }
}

/// The address by which other validators refer to the one at this host and
/// port.
pub open spec fn node_reference_of(domain: Seq<char>, port: u16) -> Seq<char> {
    "mc://"@ + domain + ":"@ + decimal(port as nat)
}

/// Parses a candidate peer address into host and port. A text that is no URL,
/// has another scheme, no domain, an empty one, no port or port zero is
/// rejected.
pub fn parse_peer_uri(uri: &str) -> (address: Option<(String, u16)>)
    ensures
        match address {
            Some((host, port)) => peer_address(uri@) == Some((host@, port)),
            None => peer_address(uri@) is None,
        },
{
    match split_url(uri) {
        Some(parts) => {
            let UrlParts { scheme, domain, port } = parts;
            match (domain, port) {
                (Some(host), Some(port)) => {
                    let wanted = String::from_str("mc");
                    if scheme == wanted && !host.as_str().is_empty() && port >= 1 {
                        Some((host, port))
                    } else {
                        None
                    }
                },
                _ => None,
            }
        },
        None => None,
    }
}

/// Whether a text names a peer.
pub fn is_peer_uri(uri: &str) -> (accepted: bool)
    ensures
        accepted == peer_address(uri@).is_some(),
{
    parse_peer_uri(uri).is_some()
}

/// Host and port of an address; `0.0.0.0` and `0` if it names no peer, so
/// that a lookup by that address finds nothing.
pub fn fragment_mc_url(url: &str) -> (address: (String, u16))
    ensures
        (address.0@, address.1) == address_or_fallback(url@),
{
    match parse_peer_uri(url) {
        Some(address) => address,
        None => (String::from_str("0.0.0.0"), 0),
    }
}

/// The address under which the validator with this responder identifier is
/// crawled.
pub fn peer_uri(responder_id: &str) -> (uri: String)
    ensures
        uri@ == peer_uri_of(responder_id@),
{
    String::from_str("mc://").concat(responder_id)
}

/// The text of one decimal digit.
fn digit_text(digit: u16) -> (text: &'static str)
    requires
        digit < 10,
    ensures
        text@ == seq![digit_char(digit as nat)],
{
    proof {
        reveal_strlit("0");
        reveal_strlit("1");
        reveal_strlit("2");
        reveal_strlit("3");
        reveal_strlit("4");
        reveal_strlit("5");
        reveal_strlit("6");
        reveal_strlit("7");
        reveal_strlit("8");
        reveal_strlit("9");
    }
    let text = if digit == 0 {
        "0"
    } else if digit == 1 {
        "1"
    } else if digit == 2 {
        "2"
    } else if digit == 3 {
        "3"
    } else if digit == 4 {
        "4"
    } else if digit == 5 {
        "5"
    } else if digit == 6 {
        "6"
    } else if digit == 7 {
        "7"
    } else if digit == 8 {
        "8"
    } else {
        "9"
    };
    assert(text@ =~= seq![digit_char(digit as nat)]);
    text
}

/// A port number in decimal.
pub fn port_text(port: u16) -> (text: String)
    ensures
        text@ == decimal(port as nat),
    decreases port,
{
    if port < 10 {
        String::from_str(digit_text(port))
    } else {
        let text = port_text(port / 10).concat(digit_text(port % 10));
        assert(text@ =~= decimal(port as nat));
        text
    }
}

/// The address by which other validators refer to the one at this host and
/// port.
pub fn node_reference(domain: &str, port: u16) -> (reference: String)
    ensures
        reference@ == node_reference_of(domain@, port),
{
    let port = port_text(port);
    String::from_str("mc://").concat(domain).concat(":").concat(port.as_str())
}

} // verus!
