//! Validation of endpoint URLs.
//!
//! An endpoint URL is accepted when it parses both as an HTTP request URI and
//! as a WHATWG URL, carries no query component and uses the `http` or `https`
//! scheme. The two parsers are outside this crate; everything decided on
//! their results is verified here.

use vstd::prelude::*;
use vstd::string::*;

use crate::text::SLASH;

verus! {

/// The kind of host that a parsed URL names.
#[derive(Clone, Copy, Debug, PartialEq, Eq, Structural)]
pub enum HostKind {
    /// The URL has no host.
    Missing,
    /// A registered name.
    Domain,
    /// An IPv4 address.
    Ipv4,
    /// An IPv6 address.
    Ipv6,
}

/// What this crate reads from a parsed HTTP request URI.
#[derive(Debug)]
pub struct UriParts {
    pub path: String,
    pub query: Option<String>,
    pub authority: Option<String>,
}

/// Mathematical model of [`UriParts`].
pub ghost struct UriPartsView {
    pub path: Seq<char>,
    pub query: Option<Seq<char>>,
    pub authority: Option<Seq<char>>,
}

impl View for UriParts {
    type V = UriPartsView;

    open spec fn view(&self) -> UriPartsView {
        UriPartsView {
            path: self.path@,
            query: match self.query {
                Some(q) => Some(q@),
                None => None,
            },
            authority: match self.authority {
                Some(a) => Some(a@),
                None => None,
            },
        }
    }
}

/// What this crate reads from a parsed WHATWG URL.
#[derive(Debug)]
pub struct UrlParts {
    pub scheme: String,
    pub host: HostKind,
}

/// Mathematical model of [`UrlParts`].
pub ghost struct UrlPartsView {
    pub scheme: Seq<char>,
    pub host: HostKind,
}

impl View for UrlParts {
    type V = UrlPartsView;

    open spec fn view(&self) -> UrlPartsView {
        UrlPartsView { scheme: self.scheme@, host: self.host }
    }
}

/// The outcome of parsing `input` as an HTTP request URI: the parts read from
/// the URI, or the parser's error message.
pub uninterp spec fn http_uri_parse(input: Seq<char>) -> Result<UriPartsView, Seq<char>>;

/// The outcome of parsing `input` as a WHATWG URL: the parts read from the
/// URL, or the parser's error message.
pub uninterp spec fn whatwg_url_parse(input: Seq<char>) -> Result<UrlPartsView, Seq<char>>;

/// Model of a parser outcome that holds [`UriParts`].
pub open spec fn uri_outcome_view(r: Result<UriParts, String>) -> Result<UriPartsView, Seq<char>> {
    match r {
        Ok(parts) => Ok(parts@),
        Err(msg) => Err(msg@),
    }
}

/// Model of a parser outcome that holds [`UrlParts`].
pub open spec fn url_outcome_view(r: Result<UrlParts, String>) -> Result<UrlPartsView, Seq<char>> {
    match r {
        Ok(parts) => Ok(parts@),
        Err(msg) => Err(msg@),
    }
}

/// Trusted: calls `<http::Uri as FromStr>::from_str` on `input` and copies out
/// `path()`, `query()` and `authority()`, or the text of the `InvalidUri`
/// error. The parser is a pure function of its input; its outcome is named
/// [`http_uri_parse`] and nothing more is claimed of it.
#[verifier::external_body]
fn parse_http_uri(input: &str) -> (parsed: Result<UriParts, String>)
    ensures
        uri_outcome_view(parsed) == http_uri_parse(input@),
{
    match input.parse::<http::Uri>() {
        Ok(uri) => Ok(UriParts {
            path: uri.path().to_string(),
            query: uri.query().map(str::to_string),
            authority: uri.authority().map(http::uri::Authority::to_string),
        }),
        Err(err) => Err(err.to_string()),
    }
}

/// Trusted: calls `url::Url::parse` on `input` and copies out `scheme()` and
/// the variant of `host()`, or the text of the `ParseError`. The parser is a
/// pure function of its input; its outcome is named [`whatwg_url_parse`] and
/// nothing more is claimed of it.
#[verifier::external_body]
fn parse_whatwg_url(input: &str) -> (parsed: Result<UrlParts, String>)
    ensures
        url_outcome_view(parsed) == whatwg_url_parse(input@),
{
    match url::Url::parse(input) {
        Ok(parsed) => Ok(UrlParts {
            scheme: parsed.scheme().to_string(),
            host: match parsed.host() {
                None => HostKind::Missing,
                Some(url::Host::Domain(_)) => HostKind::Domain,
                Some(url::Host::Ipv4(_)) => HostKind::Ipv4,
                Some(url::Host::Ipv6(_)) => HostKind::Ipv6,
            },
        }),
        Err(err) => Err(err.to_string()),
    }
}

/// Collects the most recent diagnostic raised while an endpoint is resolved.
#[derive(Debug)]
pub struct DiagnosticCollector {
    last_error: Option<String>,
}

impl View for DiagnosticCollector {
    type V = Option<Seq<char>>;

    closed spec fn view(&self) -> Option<Seq<char>> {
        match self.last_error {
            Some(msg) => Some(msg@),
            None => None,
        }
    }
}

impl DiagnosticCollector {
    /// A collector that holds no diagnostic.
    pub fn new() -> (collector: Self)
        ensures
            collector@ is None,
    {
        DiagnosticCollector { last_error: None }
    }

    /// Records `err`, replacing any earlier diagnostic.
    pub fn report_error(&mut self, err: String)
        ensures
            final(self)@ == Some(err@),
    {
        self.last_error = Some(err);
    }

    /// Hands out the recorded diagnostic and leaves the collector empty.
    pub fn take_last_error(&mut self) -> (taken: Option<String>)
        ensures
            final(self)@ is None,
            match taken {
                Some(msg) => old(self)@ == Some(msg@),
                None => old(self)@ is None,
            },
    {
        self.last_error.take()
    }

    /// Unwraps a success; records the error of a failure.
    pub fn capture<T>(&mut self, outcome: Result<T, String>) -> (value: Option<T>)
        ensures
            match outcome {
                Ok(v) => value == Some(v) && final(self)@ == old(self)@,
                Err(msg) => value is None && final(self)@ == Some(msg@),
            },
    {
        match outcome {
            Ok(v) => Some(v),
            Err(msg) => {
                self.report_error(msg);
                None
            },
        }
    }
}

/// An endpoint URL that passed [`parse_url`].
#[derive(PartialEq, Debug)]
pub struct Url<'a> {
    scheme: String,
    host: HostKind,
    uri_path: String,
    uri_authority: Option<String>,
    raw: &'a str,
}

/// Mathematical model of [`Url`].
pub ghost struct UrlView {
    /// The scheme, as the URL parser normalised it.
    pub scheme: Seq<char>,
    /// The kind of host the URL parser found.
    pub host: HostKind,
    /// The path, as the URI parser read it.
    pub uri_path: Seq<char>,
    /// The authority, as the URI parser read it.
    pub uri_authority: Option<Seq<char>>,
    /// The text that was parsed, as UTF-8 bytes.
    pub raw: Seq<u8>,
}

impl<'a> View for Url<'a> {
    type V = UrlView;

    closed spec fn view(&self) -> UrlView {
        UrlView {
            scheme: self.scheme@,
            host: self.host,
            uri_path: self.uri_path@,
            uri_authority: match self.uri_authority {
                Some(a) => Some(a@),
                None => None,
            },
            raw: self.raw.spec_bytes(),
        }
    }
}

/// Whether `bytes` ends with `/`.
pub open spec fn ends_with_slash(bytes: Seq<u8>) -> bool {
    bytes.len() > 0 && bytes.last() == SLASH
}

impl UrlView {
    /// The path as the caller wrote it: empty where the URI parser supplied
    /// the `/` of a URL that was written without one.
    pub open spec fn path(self) -> Seq<char> {
        if self.uri_path == seq!['/'] && !ends_with_slash(self.raw) {
            Seq::empty()
        } else {
            self.uri_path
        }
    }

    /// The path with `/` standing in for an empty one.
    pub open spec fn normalized_path(self) -> Seq<char> {
        if self.uri_path.len() > 0 {
            self.uri_path
        } else {
            seq!['/']
        }
    }

    /// Whether the host is an IP address.
    pub open spec fn is_ip(self) -> bool {
        self.host is Ipv4 || self.host is Ipv6
    }
}

impl<'a> Url<'a> {
    /// Whether the host is an IPv4 or IPv6 address.
    pub fn is_ip(&self) -> (ip: bool)
        ensures
            ip == self@.is_ip(),
    {
        match self.host {
            HostKind::Ipv4 => true,
            HostKind::Ipv6 => true,
            _ => false,
        }
    }

    /// The scheme, lower-cased by the URL parser.
    pub fn scheme(&self) -> (scheme: &str)
        ensures
            scheme@ == self@.scheme,
    {
        self.scheme.as_str()
    }

    /// Whether the URL has an authority component.
    pub fn has_authority(&self) -> (present: bool)
        ensures
            present == (self@.uri_authority is Some),
    {
        self.uri_authority.is_some()
    }

    /// The authority component.
    pub fn authority(&self) -> (authority: &str)
        requires
            self@.uri_authority is Some,
        ensures
            Some(authority@) == self@.uri_authority,
    {
        match &self.uri_authority {
            Some(a) => a.as_str(),
            None => "",
        }
    }

    /// The path, or `/` where the path is empty.
    pub fn normalized_path(&self) -> (path: &str)
        ensures
            path@ == self@.normalized_path(),
    {
        let path = self.uri_path.as_str();
        if !path.is_empty() {
            path
        } else {
            proof {
                reveal_strlit("/");
                assert("/"@ =~= seq!['/']);
            }
            "/"
        }
    }

    /// The path as written: empty where the text named no path at all.
    pub fn path(&self) -> (path: &str)
        ensures
            path@ == self@.path(),
    {
        proof {
            reveal_strlit("/");
            reveal_strlit("");
            assert("/"@ =~= seq!['/']);
            assert(""@ =~= Seq::<char>::empty());
        }
        let root = String::from_str("/");
        if self.uri_path == root && !text_ends_with_slash(self.raw) {
            ""
        } else {
            self.uri_path.as_str()
        }
    }
}

/// Whether the UTF-8 text ends with `/`.
pub fn text_ends_with_slash(text: &str) -> (ends: bool)
    ensures
        ends == ends_with_slash(text.spec_bytes()),
{
    let bytes = text.as_bytes();
    let n: usize = bytes.len();
    n > 0 && bytes[n - 1] == SLASH
}

/// The diagnostic for a URL that carries a query component.
pub open spec fn query_diagnostic(query: Seq<char>) -> Seq<char> {
    "URL cannot have a query component (found "@ + query + ")"@
}

/// The diagnostic for a URL whose scheme is neither `http` nor `https`.
pub open spec fn scheme_diagnostic(scheme: Seq<char>) -> Seq<char> {
    "URL scheme must be HTTP or HTTPS (found "@ + scheme + ")"@
}

/// Whether `scheme` is one of the two schemes an endpoint may use.
pub open spec fn supported_scheme(scheme: Seq<char>) -> bool {
    scheme == "http"@ || scheme == "https"@
}

/// The diagnostic that rejects an endpoint, given what the two parsers made
/// of its text; `None` where the endpoint is accepted. The URI parser's
/// error comes first, then the URL parser's, then the query, then the scheme.
pub open spec fn endpoint_rejection(
    uri: Result<UriPartsView, Seq<char>>,
    url: Result<UrlPartsView, Seq<char>>,
) -> Option<Seq<char>> {
    match uri {
        Err(msg) => Some(msg),
        Ok(uri_parts) => match url {
            Err(msg) => Some(msg),
            Ok(url_parts) => match uri_parts.query {
                Some(query) => Some(query_diagnostic(query)),
                None => if supported_scheme(url_parts.scheme) {
                    None
                } else {
                    Some(scheme_diagnostic(url_parts.scheme))
                },
            },
        },
    }
}

/// The endpoint that is accepted for `raw`, given what the two parsers read.
pub open spec fn accepted_endpoint(raw: Seq<u8>, uri: UriPartsView, url: UrlPartsView) -> UrlView {
    UrlView {
        scheme: url.scheme,
        host: url.host,
        uri_path: uri.path,
        uri_authority: uri.authority,
        raw,
    }
}

/// Decides on an endpoint from the outcomes of the two parsers.
///
/// The endpoint is accepted exactly when [`endpoint_rejection`] is `None`;
/// the collector is then left as it was. Otherwise the rejection becomes the
/// collector's diagnostic.
pub fn admit_endpoint<'a>(
    raw: &'a str,
    uri: Result<UriParts, String>,
    url: Result<UrlParts, String>,
    e: &mut DiagnosticCollector,
) -> (endpoint: Option<Url<'a>>)
    ensures
        match endpoint_rejection(uri_outcome_view(uri), url_outcome_view(url)) {
            Some(msg) => endpoint is None && final(e)@ == Some(msg),
            None => final(e)@ == old(e)@ && endpoint is Some && endpoint->0@ == accepted_endpoint(
                raw.spec_bytes(),
                uri->Ok_0@,
                url->Ok_0@,
            ),
        },
{
    let uri_parts = match e.capture(uri) {
        Some(parts) => parts,
        None => { return None; },
    };
    let url_parts = match e.capture(url) {
        Some(parts) => parts,
        None => { return None; },
    };
    if let Some(query) = &uri_parts.query {
        let mut msg = String::from_str("URL cannot have a query component (found ");
        msg.append(query.as_str());
        msg.append(")");
        e.report_error(msg);
        return None;
    }
    let http = String::from_str("http");
    let https = String::from_str("https");
    if !(url_parts.scheme == http || url_parts.scheme == https) {
        let mut msg = String::from_str("URL scheme must be HTTP or HTTPS (found ");
        msg.append(url_parts.scheme.as_str());
        msg.append(")");
        e.report_error(msg);
        return None;
    }
    Some(
        Url {
            scheme: url_parts.scheme,
            host: url_parts.host,
            uri_path: uri_parts.path,
            uri_authority: uri_parts.authority,
            raw,
        },
    )
}

/// Parses and checks an endpoint URL.
///
/// What the two parsers make of `url` is named by [`http_uri_parse`] and
/// [`whatwg_url_parse`]; the decision taken on their outcomes is that of
/// [`admit_endpoint`].
pub fn parse_url<'a, 'b>(url: &'a str, e: &'b mut DiagnosticCollector) -> (endpoint: Option<Url<'a>>)
    ensures
        match endpoint_rejection(http_uri_parse(url@), whatwg_url_parse(url@)) {
            Some(msg) => endpoint is None && final(e)@ == Some(msg),
            None => final(e)@ == old(e)@ && endpoint is Some && endpoint->0@ == accepted_endpoint(
                url.spec_bytes(),
                http_uri_parse(url@)->Ok_0,
                whatwg_url_parse(url@)->Ok_0,
            ),
        },
{
    let uri = parse_http_uri(url);
    let parsed = parse_whatwg_url(url);
    admit_endpoint(url, uri, parsed, e)
}

} // verus!
