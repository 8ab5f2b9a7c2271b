//! Which classifier endpoints the router may contact: plain HTTP on the loopback interface,
//! without credentials or a fragment.

use vstd::prelude::*;

use crate::text::{chars_eq, chars_of, option_string_view};

verus! {

/// The host of a parsed URL, as the `url` crate reports it.
#[derive(Clone, Debug, PartialEq, Eq)]
pub enum EndpointHost {
    /// A domain name.
    Domain(String),
    /// An IPv4 address, as its four octets.
    Ipv4([u8; 4]),
    /// An IPv6 address, as its eight 16-bit segments.
    Ipv6([u16; 8]),
}

/// The parts of a parsed URL that decide whether it is a local endpoint.
#[derive(Clone, Debug, PartialEq, Eq)]
pub struct EndpointUrl {
    pub scheme: String,
    pub username: String,
    pub password: Option<String>,
    pub fragment: Option<String>,
    pub host: Option<EndpointHost>,
}

/// The mathematical value of an [`EndpointHost`].
pub enum HostView {
    Domain(Seq<char>),
    Ipv4(Seq<u8>),
    Ipv6(Seq<u16>),
}

/// The mathematical value of an [`EndpointUrl`].
pub struct UrlView {
    pub scheme: Seq<char>,
    pub username: Seq<char>,
    pub password: Option<Seq<char>>,
    pub fragment: Option<Seq<char>>,
    pub host: Option<HostView>,
}

impl View for EndpointHost {
    type V = HostView;

    open spec fn view(&self) -> HostView {
        match self {
            EndpointHost::Domain(d) => HostView::Domain(d@),
            EndpointHost::Ipv4(o) => HostView::Ipv4(o@),
            EndpointHost::Ipv6(s) => HostView::Ipv6(s@),
        }
    }
}

impl View for EndpointUrl {
    type V = UrlView;

    open spec fn view(&self) -> UrlView {
        UrlView {
            scheme: self.scheme@,
            username: self.username@,
            password: option_string_view(self.password),
            fragment: option_string_view(self.fragment),
            host: match self.host {
                Some(h) => Some(h@),
                None => None,
            },
        }
    }
}

pub open spec fn url_view(url: Option<EndpointUrl>) -> Option<UrlView> {
    match url {
        Some(u) => Some(u@),
        None => None,
    }
}

/// What `url::Url::parse` makes of `endpoint`: `None` when it is not a URL.
pub uninterp spec fn parsed_url(endpoint: Seq<char>) -> Option<UrlView>;

/// Calls `url::Url::parse` and reads the scheme, user name, password, fragment and host of the
/// result. Claimed: the result is `parsed_url` of the text, a function of the text alone.
#[verifier::external_body]
fn parse_url(endpoint: &str) -> (r: Option<EndpointUrl>)
    ensures
        url_view(r) == parsed_url(endpoint@),
{
    let url = url::Url::parse(endpoint).ok()?;
    Some(EndpointUrl {
        scheme: url.scheme().to_string(),
        username: url.username().to_string(),
        password: url.password().map(String::from),
        fragment: url.fragment().map(String::from),
        host: match url.host() {
            Some(url::Host::Domain(d)) => Some(EndpointHost::Domain(d.to_string())),
            Some(url::Host::Ipv4(ip)) => Some(EndpointHost::Ipv4(ip.octets())),
            Some(url::Host::Ipv6(ip)) => Some(EndpointHost::Ipv6(ip.segments())),
            None => None,
        },
    })
}

/// The code of `c` after `char::to_ascii_lowercase`.
pub open spec fn ascii_lower_code(c: char) -> u32 {
    if 'A' <= c && c <= 'Z' {
        (c as u32 + 32) as u32
    } else {
        c as u32
    }
}

/// `str::eq_ignore_ascii_case`.
pub open spec fn eq_ignore_ascii_case(a: Seq<char>, b: Seq<char>) -> bool {
    a.len() == b.len() && forall|i: int|
        0 <= i < a.len() ==> ascii_lower_code(#[trigger] a[i]) == ascii_lower_code(b[i])
}

/// `Ipv4Addr::is_loopback`: the address lies in `127.0.0.0/8`.
pub open spec fn ipv4_is_loopback(octets: Seq<u8>) -> bool {
    octets[0] == 127
}

/// `Ipv6Addr::is_loopback`: the address is `::1`.
pub open spec fn ipv6_is_loopback(segments: Seq<u16>) -> bool {
    segments == seq![0u16, 0u16, 0u16, 0u16, 0u16, 0u16, 0u16, 1u16]
}

/// A parsed URL names a local endpoint: scheme `http`, no user name, password or fragment, and a
/// loopback host (`localhost` in any ASCII case, `127.0.0.0/8` or `::1`).
pub open spec fn url_is_local(url: Option<UrlView>) -> bool {
    match url {
        None => false,
        Some(u) => {
            &&& u.scheme == "http"@
            &&& u.username.len() == 0
            &&& u.password is None
            &&& u.fragment is None
            &&& match u.host {
                Some(HostView::Domain(h)) => eq_ignore_ascii_case(h, "localhost"@),
                Some(HostView::Ipv4(o)) => ipv4_is_loopback(o),
                Some(HostView::Ipv6(s)) => ipv6_is_loopback(s),
                None => false,
            }
        },
    }
}

fn ascii_lower_code_exec(c: char) -> (r: u32)
    ensures
        r == ascii_lower_code(c),
{
    if 'A' <= c && c <= 'Z' {
        (c as u32) + 32
    } else {
        c as u32
    }
}

/// `str::eq_ignore_ascii_case` over character vectors.
fn chars_eq_ignore_ascii_case(a: &Vec<char>, b: &Vec<char>) -> (r: bool)
    ensures
        r == eq_ignore_ascii_case(a@, b@),
{
    if a.len() != b.len() {
        return false;
    }
    let mut i: usize = 0;
    while i < a.len()
        invariant
            i <= a@.len() == b@.len(),
            forall|j: int| 0 <= j < i ==> ascii_lower_code(#[trigger] a@[j]) == ascii_lower_code(b@[j]),
        decreases a@.len() - i,
    {
        if ascii_lower_code_exec(a[i]) != ascii_lower_code_exec(b[i]) {
            return false;
        }
        i = i + 1;
    }
    true
}

/// Whether a parsed URL names a local endpoint.
pub fn parsed_url_is_local(url: &Option<EndpointUrl>) -> (r: bool)
    ensures
        r == url_is_local(url_view(*url)),
{
    match url {
        None => false,
        Some(u) => {
            let http = chars_of("http");
            let scheme = chars_of(u.scheme.as_str());
            if !chars_eq(&scheme, &http) {
                return false;
            }
            if !u.username.as_str().is_empty() || u.password.is_some() || u.fragment.is_some() {
                return false;
            }
            match &u.host {
                Some(EndpointHost::Domain(h)) => {
                    let host = chars_of(h.as_str());
                    let localhost = chars_of("localhost");
                    chars_eq_ignore_ascii_case(&host, &localhost)
                },
                Some(EndpointHost::Ipv4(o)) => o[0] == 127,
                Some(EndpointHost::Ipv6(seg)) => {
                    let r = seg[0] == 0 && seg[1] == 0 && seg[2] == 0 && seg[3] == 0 && seg[4] == 0
                        && seg[5] == 0 && seg[6] == 0 && seg[7] == 1;
                    assert(r ==> seg@ =~= seq![0u16, 0u16, 0u16, 0u16, 0u16, 0u16, 0u16, 1u16]);
                    r
                },
                None => false,
            }
        },
    }
}

/// Whether `endpoint` is a loopback HTTP URL without credentials or a fragment, the only kind
/// of classifier endpoint that routing and warmup contact.
pub fn is_local_endpoint(endpoint: &str) -> (r: bool)
    ensures
        r == url_is_local(parsed_url(endpoint@)),
{
    let url = parse_url(endpoint);
    parsed_url_is_local(&url)
}

} // verus!
