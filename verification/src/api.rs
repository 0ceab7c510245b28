//! The daemon's HTTP API as the CLI sees it: the client's base URL, request
//! URLs, and the messages shown when a request fails.
//!
//! Sending requests is left to the caller; this module decides what is sent
//! where and what a failed response is reported as.
use vstd::prelude::*;
use crate::context::opt_str_view;
use crate::config::Context;
use crate::login::{base64_standard, decode_base64};
use crate::text::{concat2, concat3, dec, dec_str, owned, push_char};

verus! {

// ---------------------------------------------------------------------------
// Failed responses
// ---------------------------------------------------------------------------

/// The remediation hint shown under an error with this HTTP status.
pub open spec fn hint_of(status: u16) -> Option<Seq<char>> {
    if status == 401 || status == 403 {
        Some("Check your authentication credentials"@)
    } else if status == 404 {
        Some("Verify the resource name and project with: nexa pods / nexa deployments"@)
    } else if status == 500 {
        Some("Check nexad logs: journalctl -u nexad -n 50"@)
    } else if status == 502 || status == 503 {
        Some("nexad may be starting up. Retry in a few seconds"@)
    } else {
        None
    }
}

/// A hint for the statuses that have one: authentication (401, 403), a
/// missing resource (404), a server error (500) and a daemon that is not up
/// yet (502, 503).
pub fn error_hint(status: u16) -> (r: Option<&'static str>)
    ensures
        match r {
            Some(h) => hint_of(status) == Some(h@),
            None => hint_of(status) is None,
        },
{
    if status == 401 || status == 403 {
        Some("Check your authentication credentials")
    } else if status == 404 {
        Some("Verify the resource name and project with: nexa pods / nexa deployments")
    } else if status == 500 {
        Some("Check nexad logs: journalctl -u nexad -n 50")
    } else if status == 502 || status == 503 {
        Some("nexad may be starting up. Retry in a few seconds")
    } else {
        None
    }
}

/// The standard reason phrase of an HTTP status code, when the code has one
/// (`http::StatusCode::canonical_reason`).
pub uninterp spec fn canonical_reason(code: u16) -> Option<Seq<char>>;

/// How a status code is displayed: the number, a space and the reason phrase
/// (`<unknown status code>` for a code without one).
pub open spec fn status_display(code: u16) -> Seq<char> {
    dec(code as nat) + seq![' '] + reason_or_unknown(canonical_reason(code))
}

/// A reason phrase, or `<unknown status code>` when there is none.
pub open spec fn reason_or_unknown(reason: Option<Seq<char>>) -> Seq<char> {
    match reason {
        Some(r) => r,
        None => "<unknown status code>"@,
    }
}

/// `http::StatusCode`'s `Display` for a valid code (100 to 999): the code,
/// a space and its canonical reason phrase or `<unknown status code>`.
#[verifier::external_body]
fn status_text(code: u16) -> (r: String)
    requires
        100 <= code <= 999,
    ensures
        r@ == dec(code as nat) + seq![' '] + reason_or_unknown(canonical_reason(code)),
{
    reqwest::StatusCode::from_u16(code).unwrap().to_string()
}

/// The message for a failed response: the `error` field of a JSON body when
/// it is set and not empty, else a message for the status code.
pub open spec fn api_error_text(status: u16, body: Seq<char>, json_error: Option<Seq<char>>) -> Seq<char> {
    if json_error is Some && json_error->0.len() > 0 {
        json_error->0
    } else if status == 404 {
        "Resource not found"@
    } else if status == 409 {
        "Resource already exists or conflict"@
    } else if status == 422 {
        "Invalid request: "@ + body
    } else if status == 500 {
        "Internal server error — is nexad healthy?"@
    } else {
        "Request failed ("@ + status_display(status) + "): "@ + body
    }
}

/// The message for a failed response with HTTP `status` and `body`.
/// `json_error` is the body's `error` field when the body parsed as a JSON
/// object (`None` when it did not parse).
pub fn format_api_error(status: u16, body: &str, json_error: Option<&str>) -> (r: String)
    requires
        100 <= status <= 999,
    ensures
        r@ == api_error_text(status, body@, match json_error {
            Some(e) => Some(e@),
            None => None,
        }),
{
    match json_error {
        Some(e) => {
            if e.unicode_len() > 0 {
                return owned(e);
            }
        },
        None => {},
    }
    if status == 404 {
        owned("Resource not found")
    } else if status == 409 {
        owned("Resource already exists or conflict")
    } else if status == 422 {
        concat2("Invalid request: ", body)
    } else if status == 500 {
        owned("Internal server error — is nexad healthy?")
    } else {
        let shown = status_text(status);
        concat3(concat2("Request failed (", shown.as_str()).as_str(), "): ", body)
    }
}

/// The error reported for a failed request: the message, and the hint on a
/// second line when the status has one.
pub open spec fn failure_text(status: u16, body: Seq<char>, json_error: Option<Seq<char>>) -> Seq<char> {
    let msg = api_error_text(status, body, json_error);
    match hint_of(status) {
        Some(h) => msg + "\n  hint: "@ + h,
        None => msg,
    }
}

/// The error that a request with a non-success `status` ends in.
pub fn failure_message(status: u16, body: &str, json_error: Option<&str>) -> (r: String)
    requires
        100 <= status <= 999,
    ensures
        r@ == failure_text(status, body@, match json_error {
            Some(e) => Some(e@),
            None => None,
        }),
{
    let msg = format_api_error(status, body, json_error);
    match error_hint(status) {
        Some(h) => concat3(msg.as_str(), "\n  hint: ", h),
        None => msg,
    }
}

// ---------------------------------------------------------------------------
// The client
// ---------------------------------------------------------------------------

/// `s` without its trailing `/` characters.
pub open spec fn trim_trailing_slashes(s: Seq<char>) -> Seq<char>
    decreases s.len(),
{
    if s.len() > 0 && s.last() == '/' {
        trim_trailing_slashes(s.drop_last())
    } else {
        s
    }
}

/// A base URL without its trailing slashes.
pub fn normalize_base_url(url: &str) -> (r: String)
    ensures
        r@ == trim_trailing_slashes(url@),
{
    let v = crate::text::chars_of(url);
    let mut n = v.len();
    assert(v@.subrange(0, v.len() as int) =~= v@);
    while n > 0 && v[n - 1] == '/'
        invariant
            n <= v.len(),
            trim_trailing_slashes(v@.subrange(0, n as int)) == trim_trailing_slashes(v@),
        decreases n,
    {
        assert(v@.subrange(0, n as int).drop_last() =~= v@.subrange(0, n - 1));
        n -= 1;
    }
    crate::text::string_of_range(&v, 0, n)
}

#[verifier::external_type_specification]
#[verifier::external_body]
pub struct ExHttpClient(reqwest::Client);

/// The `Authorization` header value for a bearer token.
pub open spec fn bearer(token: Seq<char>) -> Seq<char> {
    "Bearer "@ + token
}

/// Text that an HTTP header value may hold: every UTF-8 byte of it is a tab
/// or at least 32 and not 127, so control characters other than tab are
/// refused and every non-ASCII character is taken.
pub open spec fn valid_header_text(s: Seq<char>) -> bool {
    forall|i: int|
        0 <= i < s.len() ==> (#[trigger] s[i] as u32 == 9 || (s[i] as u32 >= 32 && s[i] as u32 != 127))
}

/// The `Authorization` value that goes with an optional token: the bearer
/// value, when it is a valid header value (else none is sent).
pub open spec fn authorization_for(token: Option<Seq<char>>) -> Option<Seq<char>> {
    match token {
        Some(t) => if valid_header_text(bearer(t)) {
            Some(bearer(t))
        } else {
            None
        },
        None => None,
    }
}

/// Whether `http::HeaderValue::from_str` takes the text as a header value.
#[verifier::external_body]
fn header_value_ok(s: &str) -> (b: bool)
    ensures
        b == valid_header_text(s@),
{
    reqwest::header::HeaderValue::from_str(s).is_ok()
}

/// Whether reqwest takes some PEM text as a root certificate: whether
/// `Certificate::from_pem` and then `ClientBuilder::build` with it succeed,
/// which depends on the text alone.
pub uninterp spec fn root_accepted(pem: Seq<u8>) -> bool;

/// An HTTP client together with the settings it was built with.
pub struct HttpClient {
    client: reqwest::Client,
    accept_invalid_certs: bool,
    root_pem: Option<Vec<u8>>,
    connect_timeout_secs: u64,
    timeout_secs: u64,
}

impl HttpClient {
    /// Whether the client skips certificate checks.
    pub closed spec fn accepts_invalid_certs(&self) -> bool {
        self.accept_invalid_certs
    }

    /// The PEM text of the root certificate the client trusts beyond the
    /// built-in ones, if any.
    pub closed spec fn root(&self) -> Option<Seq<u8>> {
        match self.root_pem {
            Some(p) => Some(p@),
            None => None,
        }
    }

    /// Seconds the client waits to connect.
    pub closed spec fn connect_timeout(&self) -> u64 {
        self.connect_timeout_secs
    }

    /// Seconds a request may take in all.
    pub closed spec fn request_timeout(&self) -> u64 {
        self.timeout_secs
    }
}

/// Build an HTTP client (`reqwest::ClientBuilder::build`) with the given
/// connect timeout and whole-request timeout in seconds, that skips
/// certificate checks when `accept_invalid_certs` holds. With no extra root
/// certificate, rustls and these settings reach no error path of `build`.
/// The settings are recorded beside the client.
#[verifier::external_body]
fn build_http(accept_invalid_certs: bool, connect_timeout_secs: u64, timeout_secs: u64) -> (r: HttpClient)
    ensures
        r.accept_invalid_certs == accept_invalid_certs,
        r.root_pem is None,
        r.connect_timeout_secs == connect_timeout_secs,
        r.timeout_secs == timeout_secs,
{
    let client = reqwest::Client::builder().connect_timeout(std::time::Duration::from_secs(connect_timeout_secs)).timeout(
        std::time::Duration::from_secs(timeout_secs),
    ).danger_accept_invalid_certs(accept_invalid_certs).build().expect("failed to build HTTP client");
    HttpClient { client, accept_invalid_certs, root_pem: None, connect_timeout_secs, timeout_secs }
}

/// Build an HTTP client as `build_http` does that also trusts the
/// certificate in `pem` (`Certificate::from_pem`, then
/// `ClientBuilder::add_root_certificate`), or `None` when reqwest refuses
/// the text. The settings are recorded beside the client.
#[verifier::external_body]
fn build_http_with_root(pem: &[u8], accept_invalid_certs: bool, connect_timeout_secs: u64, timeout_secs: u64) -> (r:
    Option<HttpClient>)
    ensures
        r is Some <==> root_accepted(pem@),
        match r {
            Some(h) => h.accept_invalid_certs == accept_invalid_certs && h.root() == Some(pem@)
                && h.connect_timeout_secs == connect_timeout_secs && h.timeout_secs == timeout_secs,
            None => true,
        },
{
    let root = reqwest::Certificate::from_pem(pem).ok()?;
    let client = reqwest::Client::builder().connect_timeout(std::time::Duration::from_secs(connect_timeout_secs)).timeout(
        std::time::Duration::from_secs(timeout_secs),
    ).danger_accept_invalid_certs(accept_invalid_certs).add_root_certificate(root).build().ok()?;
    Some(HttpClient { client, accept_invalid_certs, root_pem: Some(pem.to_vec()), connect_timeout_secs, timeout_secs })
}

/// Seconds that an API client waits to connect.
pub const CONNECT_TIMEOUT_SECS: u64 = 5;

/// Seconds that an API request may take in all.
pub const REQUEST_TIMEOUT_SECS: u64 = 30;

/// The view of an optional byte slice.
pub open spec fn opt_bytes_view(b: Option<&[u8]>) -> Option<Seq<u8>> {
    match b {
        Some(v) => Some(v@),
        None => None,
    }
}

/// A client of the daemon's API at one base URL, with the `Authorization`
/// value that its requests carry (when it has one).
pub struct NexaClient {
    base_url: String,
    authorization: Option<String>,
    http: HttpClient,
}

impl NexaClient {
    /// The base URL that requests go to.
    pub closed spec fn base(&self) -> Seq<char> {
        self.base_url@
    }

    /// The `Authorization` value sent with every request.
    pub closed spec fn auth(&self) -> Option<Seq<char>> {
        match self.authorization {
            Some(a) => Some(a@),
            None => None,
        }
    }

    /// The HTTP client with its settings.
    pub closed spec fn transport(&self) -> HttpClient {
        self.http
    }

    /// The `Authorization` value for an optional token.
    fn authorization_value(token: Option<&str>) -> (r: Option<String>)
        ensures
            match r {
                Some(a) => authorization_for(opt_str_view(token)) == Some(a@),
                None => authorization_for(opt_str_view(token)) is None,
            },
    {
        match token {
            Some(t) => {
                let v = concat2("Bearer ", t);
                if header_value_ok(v.as_str()) {
                    Some(v)
                } else {
                    None
                }
            },
            None => None,
        }
    }

    /// A client for `base_url` (trailing slashes dropped) that authenticates
    /// with `token` as a bearer token when one is given, checks certificates
    /// against the built-in roots, waits 5 s to connect and 30 s for a request.
    pub fn new(base_url: &str, token: Option<&str>) -> (c: NexaClient)
        ensures
            c.base() == trim_trailing_slashes(base_url@),
            c.auth() == authorization_for(opt_str_view(token)),
            !c.transport().accepts_invalid_certs(),
            c.transport().root() is None,
            c.transport().connect_timeout() == CONNECT_TIMEOUT_SECS,
            c.transport().request_timeout() == REQUEST_TIMEOUT_SECS,
    {
        NexaClient {
            base_url: normalize_base_url(base_url),
            authorization: Self::authorization_value(token),
            http: build_http(false, CONNECT_TIMEOUT_SECS, REQUEST_TIMEOUT_SECS),
        }
    }

    /// A client as `new` makes it, that also trusts the CA certificate in
    /// `ca_pem` when one is given and skips certificate checks exactly when
    /// `insecure` holds. Without a CA there is always a client; with one,
    /// `None` exactly when reqwest refuses the PEM text.
    pub fn with_tls(base_url: &str, token: Option<&str>, ca_pem: Option<&[u8]>, insecure: bool) -> (r: Option<
        NexaClient,
    >)
        ensures
            match ca_pem {
                Some(p) => r is Some <==> root_accepted(p@),
                None => r is Some,
            },
            match r {
                Some(c) => {
                    &&& c.base() == trim_trailing_slashes(base_url@)
                    &&& c.auth() == authorization_for(opt_str_view(token))
                    &&& c.transport().accepts_invalid_certs() == insecure
                    &&& c.transport().root() == opt_bytes_view(ca_pem)
                    &&& c.transport().connect_timeout() == CONNECT_TIMEOUT_SECS
                    &&& c.transport().request_timeout() == REQUEST_TIMEOUT_SECS
                },
                None => true,
            },
    {
        let http = match ca_pem {
            None => Some(build_http(insecure, CONNECT_TIMEOUT_SECS, REQUEST_TIMEOUT_SECS)),
            Some(pem) => build_http_with_root(pem, insecure, CONNECT_TIMEOUT_SECS, REQUEST_TIMEOUT_SECS),
        };
        match http {
            Some(http) => Some(
                NexaClient {
                    base_url: normalize_base_url(base_url),
                    authorization: Self::authorization_value(token),
                    http,
                },
            ),
            None => None,
        }
    }

    /// The base URL, without trailing slashes.
    pub fn base_url(&self) -> (r: &str)
        ensures
            r@ == self.base(),
    {
        self.base_url.as_str()
    }

    /// The `Authorization` value to send with every request, if any.
    pub fn authorization(&self) -> (r: Option<&str>)
        ensures
            opt_str_view(r) == self.auth(),
    {
        match &self.authorization {
            Some(a) => Some(a.as_str()),
            None => None,
        }
    }

    /// The HTTP client that this API client sends its requests with.
    pub closed spec fn held_client(&self) -> reqwest::Client {
        self.http.client
    }

    /// The underlying HTTP client, with its timeouts and TLS settings.
    pub fn http_client(&self) -> (r: &reqwest::Client)
        ensures
            *r == self.held_client(),
    {
        &self.http.client
    }

    /// The URL of an API path.
    pub fn url(&self, path: &str) -> (r: String)
        ensures
            r@ == self.base() + path@,
    {
        concat2(self.base_url.as_str(), path)
    }
}

/// `c` is a client of `server` with `token` and the given TLS settings,
/// waiting 5 s to connect and 30 s for a request.
pub open spec fn client_of(
    c: NexaClient,
    server: Seq<char>,
    token: Option<Seq<char>>,
    insecure: bool,
    root: Option<Seq<u8>>,
) -> bool {
    &&& c.base() == trim_trailing_slashes(server)
    &&& c.auth() == authorization_for(token)
    &&& c.transport().accepts_invalid_certs() == insecure
    &&& c.transport().root() == root
    &&& c.transport().connect_timeout() == CONNECT_TIMEOUT_SECS
    &&& c.transport().request_timeout() == REQUEST_TIMEOUT_SECS
}

/// The client a command talks to `server` with. When the selected context
/// is for that server, its TLS settings hold: the pinned CA (stored as
/// base64 of its PEM) is trusted and certificate checks are skipped when
/// the context says `insecure`; `None` when the pinned CA cannot be used.
/// Otherwise the client checks certificates against the built-in roots.
pub fn command_client(server: &str, token: Option<&str>, ctx: Option<&Context>) -> (r: Option<NexaClient>)
    ensures
        match ctx {
            Some(x) if x@.server == server@ => match x@.ca {
                None => r matches Some(c) && client_of(c, server@, opt_str_view(token), x@.insecure, None),
                Some(t) => forall|pem: Seq<u8>|
                    #[trigger] base64_standard(pem) == t ==> {
                        &&& (r is Some <==> root_accepted(pem))
                        &&& (r matches Some(c) ==> client_of(c, server@, opt_str_view(token), x@.insecure, Some(pem)))
                    },
            },
            _ => r matches Some(c) && client_of(c, server@, opt_str_view(token), false, None),
        },
{
    match ctx {
        Some(x) => {
            if crate::text::eq_str(x.server.as_str(), server) {
                match &x.ca {
                    None => NexaClient::with_tls(server, token, None, x.insecure),
                    Some(t) => match decode_base64(t.as_str()) {
                        Some(pem) => NexaClient::with_tls(server, token, Some(pem.as_slice()), x.insecure),
                        None => None,
                    },
                }
            } else {
                Some(NexaClient::new(server, token))
            }
        },
        None => Some(NexaClient::new(server, token)),
    }
}

} // verus!
