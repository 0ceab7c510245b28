//! Command-line decisions: the output mode, which server to talk to, and the
//! messages of the simpler commands.
use vstd::prelude::*;
use crate::text::{concat2, concat3, dec, dec_str, eq_str, owned, starts_with, starts_with_str};

verus! {

// ---------------------------------------------------------------------------
// Output mode
// ---------------------------------------------------------------------------

/// Whether output is JSON (for scripts) or styled text.
pub struct OutputMode {
    pub json: bool,
}

/// Styled text, until JSON is asked for.
pub fn text_mode() -> (m: OutputMode)
    ensures
        !m.json,
{
    OutputMode { json: false }
}

/// Switch JSON output on or off.
pub fn set_json_mode(mode: &mut OutputMode, enabled: bool)
    ensures
        final(mode).json == enabled,
{
    mode.json = enabled;
}

/// Whether output is JSON.
pub fn is_json_mode(mode: &OutputMode) -> (b: bool)
    ensures
        b == mode.json,
{
    mode.json
}

// ---------------------------------------------------------------------------
// Server
// ---------------------------------------------------------------------------

/// The server used when neither a flag, the environment nor the config names one.
pub open spec fn default_server() -> Seq<char> {
    "http://localhost:6443"@
}

/// The server to talk to: `--server` (or `HELYOS_SERVER`), else the config's,
/// else `http://localhost:6443`.
pub fn resolve_server(flag: Option<&str>, configured: Option<&str>) -> (r: String)
    ensures
        r@ == match flag {
            Some(f) => f@,
            None => match configured {
                Some(c) => c@,
                None => default_server(),
            },
        },
{
    match flag {
        Some(f) => owned(f),
        None => match configured {
            Some(c) => owned(c),
            None => owned("http://localhost:6443"),
        },
    }
}

/// Talking to `server` sends secrets over unencrypted HTTP to a host other
/// than the local default.
pub open spec fn plain_http_risk(server: Seq<char>) -> bool {
    starts_with(server, "http://"@) && server != default_server() && server != "http://127.0.0.1:6443"@
}

/// Whether to warn that the server is reached over unencrypted HTTP.
pub fn warns_plain_http(server: &str) -> (b: bool)
    ensures
        b == plain_http_risk(server@),
{
    starts_with_str(server, "http://") && !eq_str(server, "http://localhost:6443") && !eq_str(
        server,
        "http://127.0.0.1:6443",
    )
}

/// Whether `url::Url::parse` (as `reqwest::Url`) takes some text as a URL.
pub uninterp spec fn url_parses(s: Seq<char>) -> bool;

/// `reqwest::Url::parse(s).is_ok()`.
#[verifier::external_body]
fn parses_as_url(s: &str) -> (b: bool)
    ensures
        b == url_parses(s@),
{
    reqwest::Url::parse(s).is_ok()
}

/// The message for a server address that is no URL.
pub open spec fn invalid_server_message(server: Seq<char>) -> Seq<char> {
    "Invalid server URL: "@ + server + "\n  Expected format: http(s)://host:port"@
}

/// Check the server address before any request: `Err` with the message to
/// print exactly when it does not parse as a URL.
pub fn check_server(server: &str) -> (r: Result<(), String>)
    ensures
        r is Ok <==> url_parses(server@),
        match r {
            Err(m) => m@ == invalid_server_message(server@),
            Ok(_) => true,
        },
{
    if parses_as_url(server) {
        Ok(())
    } else {
        Err(concat3("Invalid server URL: ", server, "\n  Expected format: http(s)://host:port"))
    }
}

// ---------------------------------------------------------------------------
// Messages
// ---------------------------------------------------------------------------

/// `s` after a count above one.
pub open spec fn plural(n: u32) -> Seq<char> {
    if n > 1 {
        seq!['s']
    } else {
        seq![]
    }
}

fn plural_str(n: u32) -> (r: &'static str)
    ensures
        r@ == plural(n),
{
    proof {
        reveal_strlit("s");
        reveal_strlit("");
        assert("s"@ =~= seq!['s']);
        assert(""@ =~= Seq::<char>::empty());
    }
    if n > 1 {
        "s"
    } else {
        ""
    }
}

/// The spinner text while a deployment is scaled.
pub fn scaling_message(name: &str, replicas: u32) -> (r: String)
    ensures
        r@ == "Scaling '"@ + name@ + "' to "@ + dec(replicas as nat) + " replica"@ + plural(replicas) + "..."@,
{
    let mut r = concat3("Scaling '", name, "' to ");
    r.append(dec_str(replicas as u128).as_str());
    r.append(" replica");
    r.append(plural_str(replicas));
    r.append("...");
    r
}

/// The message once a deployment is scaled to `replicas`.
pub fn scaled_message(name: &str, replicas: u32) -> (r: String)
    ensures
        r@ == "Scaled '"@ + name@ + "' to "@ + dec(replicas as nat) + " replica"@ + plural(replicas),
{
    let mut r = concat3("Scaled '", name, "' to ");
    r.append(dec_str(replicas as u128).as_str());
    r.append(" replica");
    r.append(plural_str(replicas));
    r
}

/// The project, deployment and image of `helyos init NAME [--image IMAGE]`:
/// the project and the deployment are both named NAME, and the image
/// defaults to `nginx:alpine`.
pub fn init_names(name: &str, image: Option<&str>) -> (r: (String, String, String))
    ensures
        r.0@ == name@,
        r.1@ == name@,
        r.2@ == match image {
            Some(i) => i@,
            None => "nginx:alpine"@,
        },
{
    let img = match image {
        Some(i) => i,
        None => "nginx:alpine",
    };
    (owned(name), owned(name), owned(img))
}

/// The file that `helyos init` writes for a project.
pub fn spec_file(project: &str) -> (r: String)
    ensures
        r@ == project@ + "/app.yaml"@,
{
    concat2(project, "/app.yaml")
}

} // verus!
