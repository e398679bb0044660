//! The address of the backend, out of the URL of an image. Reading the URL is `hyper`'s.
use vstd::prelude::*;
use crate::text;

verus! {

/// The parts of a URI that a connection needs.
#[derive(Debug)]
pub struct UriParts {
    pub host: Option<String>,
    pub port: Option<u16>,
    pub authority: Option<String>,
}

/// The parts of a URI, as text.
pub struct UriPartsView {
    pub host: Option<Seq<char>>,
    pub port: Option<u16>,
    pub authority: Option<Seq<char>>,
}

/// The view of a text that may be missing.
pub open spec fn optional_text(s: Option<String>) -> Option<Seq<char>> {
    match s {
        Some(s) => Some(s@),
        None => None,
    }
}

impl View for UriParts {
    type V = UriPartsView;

    open spec fn view(&self) -> UriPartsView {
        UriPartsView {
            host: optional_text(self.host),
            port: self.port,
            authority: optional_text(self.authority),
        }
    }
}

/// The parts of the URI that `s` is, if it is one.
pub uninterp spec fn uri_parts(s: Seq<char>) -> Option<UriPartsView>;

/// `hyper::Uri` read from a text with `str::parse`, and its host, port and authority. It has a
/// host where it has an authority, and only there.
#[verifier::external_body]
pub(crate) fn parse_uri(s: &str) -> (r: Option<UriParts>)
    ensures
        match r {
            Some(parts) => uri_parts(s@) == Some(parts@),
            None => uri_parts(s@) is None,
        },
        r matches Some(parts) ==> (parts.host is Some <==> parts.authority is Some),
{
    let uri = s.parse::<hyper::Uri>().ok()?;
    Some(UriParts {
        host: uri.host().map(|h| h.to_string()),
        port: uri.port_u16(),
        authority: uri.authority().map(|a| a.as_str().to_string()),
    })
}

/// What a request to the backend needs: the address to connect to, and the value of the `Host`
/// header.
#[derive(Debug)]
pub struct FetchTarget {
    pub addr: String,
    pub host: String,
}

impl View for FetchTarget {
    type V = (Seq<char>, Seq<char>);

    open spec fn view(&self) -> (Seq<char>, Seq<char>) {
        (self.addr@, self.host@)
    }
}

/// The view of a target that may be missing.
pub open spec fn optional_target(t: Option<FetchTarget>) -> Option<(Seq<char>, Seq<char>)> {
    match t {
        Some(t) => Some(t@),
        None => None,
    }
}

/// The address to connect to: port 80 where the URI names none.
pub open spec fn fetch_addr(host: Seq<char>, port: Option<u16>) -> Seq<char> {
    let port = match port {
        Some(p) => p,
        None => 80u16,
    };
    host + ":"@ + text::decimal(port as nat)
}

/// Where a request for a URI of these parts goes: the address to connect to, and the value of the
/// `Host` header. There is nowhere to go where the URI has no host.
pub open spec fn target_of(parts: UriPartsView) -> Option<(Seq<char>, Seq<char>)> {
    match (parts.host, parts.authority) {
        (Some(host), Some(authority)) => Some((fetch_addr(host, parts.port), authority)),
        _ => None,
    }
}

/// Where a request for the URI that has these parts goes, as [`target_of`] says.
pub fn fetch_target(parts: &UriParts) -> (r: Option<FetchTarget>)
    ensures
        optional_target(r) == target_of(parts@),
{
    match (&parts.host, &parts.authority) {
        (Some(host), Some(authority)) => {
            let port: u16 = match parts.port {
                Some(p) => p,
                None => 80,
            };
            let mut addr = host.clone();
            addr.append(":");
            addr.append(text::decimal_text(port as usize).as_str());
            Some(FetchTarget { addr, host: authority.clone() })
        },
        _ => None,
    }
}

/// Where a request for `url` goes. `None` where `url` is no URI, or one without a host, and only
/// there.
pub fn fetch_url(url: &str) -> (r: Option<FetchTarget>)
    ensures
        optional_target(r) == match uri_parts(url@) {
            Some(parts) => target_of(parts),
            None => None,
        },
        uri_parts(url@) matches Some(parts) && parts.host is Some ==> r is Some,
{
    match parse_uri(url) {
        Some(parts) => fetch_target(&parts),
        None => None,
    }
}

/// A connection goes to the whole host, at the port of the URI or else at 80, and asks for the
/// whole authority. Without a host, or an authority, there is nowhere to go.
pub proof fn law_target_is_host_and_port(parts: UriPartsView)
    ensures
        parts.host is None || parts.authority is None <==> target_of(parts) is None,
        target_of(parts) matches Some(t) ==> {
            let host = parts.host->0;
            &&& t.1 == parts.authority->0
            &&& t.0.len() > host.len()
            &&& t.0.take(host.len() as int) == host
            &&& t.0[host.len() as int] == ':'
            &&& text::number(t.0.skip(host.len() as int + 1)) == Ok::<nat, text::NumberError>(
                match parts.port {
                    Some(p) => p as nat,
                    None => 80nat,
                },
            )
            &&& t.0[host.len() as int + 1] != '+'
        },
{
    reveal_strlit(":");
    if let Some(t) = target_of(parts) {
        let host = parts.host->0;
        let port = match parts.port {
            Some(p) => p,
            None => 80u16,
        };
        let digits = text::decimal(port as nat);
        assert(t.0 =~= host.push(':') + digits);
        assert(t.0.take(host.len() as int) =~= host);
        assert(t.0.skip(host.len() as int + 1) =~= digits);
        text::lemma_decimal_digits(port as nat);
        assert(text::is_digit(digits[0]));
        text::law_number_reads_decimal(port as u32);
    }
}

} // verus!
