//! The API paths that the commands request, with user-given names
//! percent-encoded where the commands encode them.
use vstd::prelude::*;
use crate::context::opt_str_view;
use crate::text::{concat2, concat3, dec, dec_str, owned};

verus! {

/// A character that `urlencoding::encode` leaves as it is.
pub open spec fn is_unreserved(c: char) -> bool {
    ('0' <= c && c <= '9') || ('a' <= c && c <= 'z') || ('A' <= c && c <= 'Z') || c == '-' || c == '.' || c == '_'
        || c == '~'
}

/// An upper-case hexadecimal digit.
pub open spec fn hex_upper(d: int) -> char {
    if d < 10 {
        (48 + d) as char
    } else {
        (55 + d) as char
    }
}

/// The UTF-8 bytes of a character.
pub open spec fn utf8_of(c: char) -> Seq<int> {
    let v = c as int;
    if v < 0x80 {
        seq![v]
    } else if v < 0x800 {
        seq![0xC0 + v / 64, 0x80 + v % 64]
    } else if v < 0x10000 {
        seq![0xE0 + v / 4096, 0x80 + v / 64 % 64, 0x80 + v % 64]
    } else {
        seq![0xF0 + v / 262144, 0x80 + v / 4096 % 64, 0x80 + v / 64 % 64, 0x80 + v % 64]
    }
}

/// Bytes written as `%` and two upper-case hexadecimal digits each.
pub open spec fn percent_bytes(bs: Seq<int>) -> Seq<char>
    decreases bs.len(),
{
    if bs.len() == 0 {
        seq![]
    } else {
        seq!['%', hex_upper(bs[0] / 16), hex_upper(bs[0] % 16)] + percent_bytes(bs.drop_first())
    }
}

/// What `urlencoding::encode` makes of a string: every byte of its UTF-8
/// form percent-encoded except ASCII letters, digits and `-`, `.`, `_`, `~`.
pub open spec fn url_encoded(s: Seq<char>) -> Seq<char>
    decreases s.len(),
{
    if s.len() == 0 {
        seq![]
    } else {
        let c = s.last();
        url_encoded(s.drop_last()) + if is_unreserved(c) {
            seq![c]
        } else {
            percent_bytes(utf8_of(c))
        }
    }
}

/// A text of unreserved characters only is encoded as itself.
pub proof fn unreserved_text_is_unchanged(s: Seq<char>)
    requires
        forall|i: int| 0 <= i < s.len() ==> is_unreserved(#[trigger] s[i]),
    ensures
        url_encoded(s) == s,
    decreases s.len(),
{
    if s.len() > 0 {
        let t = s.drop_last();
        assert forall|i: int| 0 <= i < t.len() implies is_unreserved(#[trigger] t[i]) by {
            assert(t[i] == s[i]);
        }
        unreserved_text_is_unchanged(t);
        assert(is_unreserved(s[s.len() - 1]));
        assert(t + seq![s.last()] =~= s);
    }
}

/// `urlencoding::encode`: the text percent-encoded for a URL path or query.
#[verifier::external_body]
fn url_encode(s: &str) -> (r: String)
    ensures
        r@ == url_encoded(s@),
{
    urlencoding::encode(s).into_owned()
}

/// The project a command works in: the one given, else `default`.
pub open spec fn project_or_default(project: Option<Seq<char>>) -> Seq<char> {
    match project {
        Some(p) => p,
        None => "default"@,
    }
}

fn project_name(project: Option<&str>) -> (r: &str)
    ensures
        r@ == project_or_default(opt_str_view(project)),
{
    match project {
        Some(p) => p,
        None => "default",
    }
}

/// `/api/v1/pods`, filtered to a project when one is given.
pub fn pods_path(project: Option<&str>) -> (r: String)
    ensures
        r@ == match project {
            Some(p) => "/api/v1/pods?project="@ + url_encoded(p@),
            None => "/api/v1/pods"@,
        },
{
    match project {
        Some(p) => concat2("/api/v1/pods?project=", url_encode(p).as_str()),
        None => owned("/api/v1/pods"),
    }
}

/// `/api/v1/deployments`, filtered to a project when one is given.
pub fn deployments_path(project: Option<&str>) -> (r: String)
    ensures
        r@ == match project {
            Some(p) => "/api/v1/deployments?project="@ + url_encoded(p@),
            None => "/api/v1/deployments"@,
        },
{
    match project {
        Some(p) => concat2("/api/v1/deployments?project=", url_encode(p).as_str()),
        None => owned("/api/v1/deployments"),
    }
}

/// The path of a deployment, its project and name encoded.
pub open spec fn deployment_path_spec(project: Option<Seq<char>>, name: Seq<char>) -> Seq<char> {
    "/api/v1/projects/"@ + url_encoded(project_or_default(project)) + "/deployments/"@ + url_encoded(name)
}

/// The path of a deployment in a project (`default` when none is given).
pub fn deployment_path(project: Option<&str>, name: &str) -> (r: String)
    ensures
        r@ == deployment_path_spec(opt_str_view(project), name@),
{
    let p = url_encode(project_name(project));
    let n = url_encode(name);
    concat2(concat3("/api/v1/projects/", p.as_str(), "/deployments/").as_str(), n.as_str())
}

/// The path that stops a deployment.
pub fn stop_path(project: Option<&str>, name: &str) -> (r: String)
    ensures
        r@ == deployment_path_spec(opt_str_view(project), name@) + "/stop"@,
{
    concat2(deployment_path(project, name).as_str(), "/stop")
}

/// The path that streams a deployment's logs, with the number of lines to
/// start from when `tail` is given.
pub fn logs_path(project: Option<&str>, name: &str, tail: Option<u64>) -> (r: String)
    ensures
        r@ == deployment_path_spec(opt_str_view(project), name@) + "/logs"@ + match tail {
            Some(t) => "?tail="@ + dec(t as nat),
            None => seq![],
        },
{
    let base = concat2(deployment_path(project, name).as_str(), "/logs");
    match tail {
        Some(t) => concat3(base.as_str(), "?tail=", dec_str(t as u128).as_str()),
        None => base,
    }
}

/// The path that scales a deployment (project and name as given, unencoded).
pub fn scale_path(project: Option<&str>, name: &str) -> (r: String)
    ensures
        r@ == "/api/v1/projects/"@ + project_or_default(opt_str_view(project)) + "/deployments/"@ + name@
            + "/scale"@,
{
    concat3(concat3("/api/v1/projects/", project_name(project), "/deployments/").as_str(), name, "/scale")
}

/// The path of a node.
pub fn node_path(name: &str) -> (r: String)
    ensures
        r@ == "/api/v1/nodes/"@ + url_encoded(name@),
{
    concat2("/api/v1/nodes/", url_encode(name).as_str())
}

/// The path that drains a node.
pub fn drain_path(name: &str) -> (r: String)
    ensures
        r@ == "/api/v1/nodes/"@ + url_encoded(name@) + "/drain"@,
{
    concat3("/api/v1/nodes/", url_encode(name).as_str(), "/drain")
}

/// The path of a project.
pub fn project_path(name: &str) -> (r: String)
    ensures
        r@ == "/api/v1/projects/"@ + url_encoded(name@),
{
    concat2("/api/v1/projects/", url_encode(name).as_str())
}

/// The path of an action on a project (`suspend`, `resume`).
pub fn project_action_path(name: &str, action: &str) -> (r: String)
    ensures
        r@ == "/api/v1/projects/"@ + url_encoded(name@) + seq!['/'] + action@,
{
    proof {
        reveal_strlit("/");
        assert("/"@ =~= seq!['/']);
    }
    concat2(concat3("/api/v1/projects/", url_encode(name).as_str(), "/").as_str(), action)
}

/// The path of an API token.
pub fn token_path(name: &str) -> (r: String)
    ensures
        r@ == "/api/v1/tokens/"@ + url_encoded(name@),
{
    concat2("/api/v1/tokens/", url_encode(name).as_str())
}

/// The secrets of a project (unencoded).
pub fn secrets_path(project: &str) -> (r: String)
    ensures
        r@ == "/api/v1/projects/"@ + project@ + "/secrets"@,
{
    concat3("/api/v1/projects/", project, "/secrets")
}

/// One secret of a project (unencoded).
pub fn secret_path(project: &str, name: &str) -> (r: String)
    ensures
        r@ == "/api/v1/projects/"@ + project@ + "/secrets/"@ + name@,
{
    concat2(concat3("/api/v1/projects/", project, "/secrets/").as_str(), name)
}

/// `/api/v1/routes`, filtered to a project when one is given (unencoded).
pub fn routes_path(project: Option<&str>) -> (r: String)
    ensures
        r@ == match project {
            Some(p) => "/api/v1/routes?project="@ + p@,
            None => "/api/v1/routes"@,
        },
{
    match project {
        Some(p) => concat2("/api/v1/routes?project=", p),
        None => owned("/api/v1/routes"),
    }
}

/// The path of a route (unencoded).
pub fn route_path(domain: &str) -> (r: String)
    ensures
        r@ == "/api/v1/routes/"@ + domain@,
{
    concat2("/api/v1/routes/", domain)
}

} // verus!
