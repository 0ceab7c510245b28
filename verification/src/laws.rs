//! Properties that hold across the library's operations.
use vstd::prelude::*;
use crate::api::{api_error_text, trim_trailing_slashes};
use crate::config::{ConfigView, ContextView};
use crate::context::logged_out;
use crate::ctxmap::{
    has_key, lemma_lookup_first, lemma_lookup_some, lemma_remove, lemma_upsert, lookup, remove_key, sorted, upsert,
};
use crate::deploy::{adds_pod_steps, outcome_of, running_count, DeployOutcome, PodPhase, PodView, StepView};
use crate::stream::{data_lines, data_of};
use crate::context::context_row;
use crate::table::{raw_col_width, raw_col_widths};
use crate::login::{after_login, normalize_server_spec, server_with_scheme};
use crate::style::status_code_of_lower;
use crate::template::template_text;
use crate::text::{
    ascii_lowered, before_char, byte_len, contains, lemma_lex_irreflexive, lex_lt, eq_ignore_ascii_case, from_char, is_ws, lemma_before_char_at,
    lemma_before_char_split, lemma_find_first, lemma_lead_ws_char, lemma_trail_ws_bound, lemma_trail_ws_char, occurs_at, split_once, starts_with, trim,
    trim_start,
};

verus! {

// ---------------------------------------------------------------------------
// Contexts
// ---------------------------------------------------------------------------

/// The active context is the one stored under the active name, and there is
/// an active context exactly when there is an active name.
pub proof fn active_is_stored_under_active_name(c: ConfigView)
    ensures
        c.active() is Some <==> c.active_name() is Some,
        c.active_name() is Some ==> c.active() == lookup(c.contexts, c.active_name()->0),
{
    if c.contexts.len() > 0 {
        lemma_lookup_first(c.contexts);
    }
}

/// After switching to an existing context, it is the active one.
pub proof fn switching_activates(c: ConfigView, name: Seq<char>)
    requires
        has_key(c.contexts, name),
    ensures
        c.with_current(name).active_name() == Some(name),
        c.with_current(name).active() == lookup(c.contexts, name),
{
}

/// After a login that makes its context current, that context is active
/// under its name.
pub proof fn login_activates(c: ConfigView, name: Seq<char>, ctx: ContextView)
    requires
        sorted(c.contexts),
    ensures
        after_login(c, name, ctx, true).active_name() == Some(name),
        after_login(c, name, ctx, true).active() == Some(ctx),
{
    lemma_upsert(c.contexts, name, ctx);
}

/// A login changes no other context, whether or not it makes its own current.
pub proof fn login_keeps_other_contexts(c: ConfigView, name: Seq<char>, ctx: ContextView, make_current: bool, other: Seq<char>)
    requires
        sorted(c.contexts),
        other != name,
    ensures
        lookup(after_login(c, name, ctx, make_current).contexts, other) == lookup(c.contexts, other),
{
    lemma_upsert(c.contexts, name, ctx);
}

/// A removed context is gone, it is no longer current, and the others stay.
pub proof fn remove_forgets_only_that_context(c: ConfigView, name: Seq<char>, other: Seq<char>)
    requires
        sorted(c.contexts),
    ensures
        !has_key(c.without_context(name).contexts, name),
        c.without_context(name).current_context != Some(name),
        other != name ==> lookup(c.without_context(name).contexts, other) == lookup(c.contexts, other),
{
    lemma_remove(c.contexts, name);
}

/// A rename moves the context to its new name, drops the old name, keeps
/// every other context, and the current context follows it.
pub proof fn rename_moves_the_context(c: ConfigView, from: Seq<char>, to: Seq<char>, other: Seq<char>)
    requires
        sorted(c.contexts),
        has_key(c.contexts, from),
        !has_key(c.contexts, to),
    ensures
        lookup(c.renamed(from, to).contexts, to) == lookup(c.contexts, from),
        !has_key(c.renamed(from, to).contexts, from),
        other != from && other != to ==> lookup(c.renamed(from, to).contexts, other) == lookup(c.contexts, other),
        c.current_context == Some(from) ==> c.renamed(from, to).current_context == Some(to),
{
    lemma_remove(c.contexts, from);
    lemma_upsert(remove_key(c.contexts, from), to, lookup(c.contexts, from).unwrap());
}

/// Logging out drops the token and its name and keeps the server, the pinned
/// CA, the default project and the TLS setting.
pub proof fn logout_keeps_server_and_ca(c: ContextView)
    ensures
        logged_out(c).token is None,
        logged_out(c).token_name is None,
        logged_out(c).server == c.server,
        logged_out(c).ca == c.ca,
        logged_out(c).ca_sha256 == c.ca_sha256,
        logged_out(c).project == c.project,
        logged_out(c).insecure == c.insecure,
{
}

// ---------------------------------------------------------------------------
// The API
// ---------------------------------------------------------------------------

/// A base URL loses all its trailing slashes, and normalizing it again
/// changes nothing.
pub proof fn base_url_normalization_is_idempotent(s: Seq<char>)
    ensures
        trim_trailing_slashes(trim_trailing_slashes(s)) == trim_trailing_slashes(s),
        trim_trailing_slashes(s).len() > 0 ==> trim_trailing_slashes(s).last() != '/',
    decreases s.len(),
{
    if s.len() > 0 && s.last() == '/' {
        base_url_normalization_is_idempotent(s.drop_last());
    }
}

/// A non-empty `error` field in a JSON body is the message, whatever the status.
pub proof fn json_error_wins(status: u16, body: Seq<char>, error: Seq<char>)
    requires
        error.len() > 0,
    ensures
        api_error_text(status, body, Some(error)) == error,
{
}

// ---------------------------------------------------------------------------
// Server addresses
// ---------------------------------------------------------------------------

/// A string whose first and last characters are not whitespace trims to
/// itself.
proof fn lemma_trim_fixed(s: Seq<char>)
    requires
        s.len() > 0,
        !is_ws(s[0]),
        !is_ws(s.last()),
    ensures
        trim(s) == s,
{
    lemma_lead_ws_char(s, 0);
    assert(trim_start(s) =~= s);
    lemma_trail_ws_char(s, 0);
    assert(trim(s) =~= s);
}

/// The address with its scheme: non-empty, no whitespace at either end,
/// and starting with `http://` (scheme ending at 4) or `https://` (at 5).
proof fn lemma_with_scheme_shape(input: Seq<char>)
    ensures
        ({
            let w = server_with_scheme(input);
            &&& w.len() > 0
            &&& !is_ws(w[0])
            &&& !is_ws(w.last())
            &&& starts_with(w, "http://"@) || starts_with(w, "https://"@)
        }),
{
    reveal_strlit("http://");
    reveal_strlit("https://");
    let s = trim(input);
    let y = trim_start(input);
    lemma_trail_ws_bound(y);
    if s.len() > 0 {
        assert(s.last() == y[y.len() - crate::text::trail_ws(y) - 1]);
    }
    let w = server_with_scheme(input);
    if !(starts_with(s, "http://"@) || starts_with(s, "https://"@)) {
        assert(w =~= "https://"@ + s);
        assert(w.subrange(0, 8) =~= "https://"@);
    } else {
        assert(w[0] == s.subrange(0, 7)[0]);
    }
}

/// A string that starts with a scheme and `://` splits at that `://`.
proof fn lemma_split_scheme(pre: Seq<char>, t: Seq<char>)
    requires
        pre == "http://"@ || pre == "https://"@,
    ensures
        pre.len() >= 7,
        split_once(pre + t, "://"@) == Some((pre.subrange(0, pre.len() - 3), t)),
        pre.subrange(0, pre.len() - 3) + "://"@ == pre,
{
    reveal_strlit("http://");
    reveal_strlit("https://");
    reveal_strlit("://");
    let p = "://"@;
    let k = pre.len() - 3;
    let n = pre + t;
    assert forall|j: int| 0 <= j < k implies !occurs_at(n, p, j) by {
        if occurs_at(n, p, j) {
            assert(n.subrange(j, j + 3)[0] == n[j]);
            assert(n[j] == pre[j]);
            assert(pre[j] != ':');
        }
    }
    assert(n.subrange(k, k + 3) =~= p);
    assert(occurs_at(n, p, k));
    lemma_find_first(n, p, k);
    assert(n.subrange(0, k) =~= pre.subrange(0, k));
    assert(n.subrange(k + 3, n.len() as int) =~= t);
    assert(pre.subrange(0, k) + p =~= pre);
}

/// Normalizing a server address a second time changes nothing.
pub proof fn server_normalization_is_idempotent(input: Seq<char>)
    ensures
        normalize_server_spec(normalize_server_spec(input)) == normalize_server_spec(input),
{
    reveal_strlit("http://");
    reveal_strlit("https://");
    reveal_strlit(":6443");
    let w = server_with_scheme(input);
    let n = normalize_server_spec(input);
    lemma_with_scheme_shape(input);
    let pre: Seq<char> = if starts_with(w, "http://"@) { "http://"@ } else { "https://"@ };
    let rest = w.subrange(pre.len() as int, w.len() as int);
    assert(w =~= pre + rest);
    lemma_split_scheme(pre, rest);
    let scheme = pre.subrange(0, pre.len() - 3);
    let a = before_char(rest, '/');
    let path = from_char(rest, '/');
    lemma_before_char_split(rest, '/');
    if contains(a, seq![':']) {
        assert(n == w);
        lemma_trim_fixed(n);
        assert(server_with_scheme(n) == n);
    } else {
        let x = ":6443"@;
        let rest2 = a + x + path;
        assert(n == scheme + "://"@ + a + x + path);
        assert(n =~= pre + rest2);
        assert(n[0] == pre[0]);
        assert(w[0] == pre[0]);
        if path.len() > 0 {
            assert(n.last() == path.last());
            assert(rest.last() == path.last());
            assert(w.last() == rest.last());
        } else {
            assert(n.last() == '3');
        }
        lemma_trim_fixed(n);
        assert(n.subrange(0, pre.len() as int) =~= pre);
        assert(w.subrange(0, pre.len() as int) =~= pre);
        assert(server_with_scheme(n) == n);
        lemma_split_scheme(pre, rest2);
        let e: int = a.len() as int + 5;
        assert forall|k: int| 0 <= k < e implies rest2[k] != '/' by {
            if k < a.len() {
                assert(rest2[k] == rest[k]);
            } else {
                assert(rest2[k] == x[k - a.len()]);
            }
        }
        if e < rest2.len() {
            assert(rest2[e] == path[0]);
        }
        lemma_before_char_at(rest2, '/', e);
        assert(rest2.subrange(0, e) =~= a + x);
        assert((a + x).subrange(a.len() as int, a.len() + 1int) =~= seq![':']);
        assert(occurs_at(a + x, seq![':'], a.len() as int));
    }
}

/// What follows `://` in the address with its scheme.
pub open spec fn server_rest(input: Seq<char>) -> Seq<char> {
    match split_once(server_with_scheme(input), "://"@) {
        Some((_, rest)) => rest,
        None => seq![],
    }
}

/// An address without a path keeps its scheme (`http://` is never made
/// `https://`) and is the address with its scheme, with `:6443` appended
/// unless it names a port.
pub proof fn server_without_path(input: Seq<char>)
    requires
        !contains(server_rest(input), seq!['/']),
    ensures
        normalize_server_spec(input) == if contains(server_rest(input), seq![':']) {
            server_with_scheme(input)
        } else {
            server_with_scheme(input) + ":6443"@
        },
        starts_with(trim(input), "http://"@) ==> starts_with(normalize_server_spec(input), "http://"@),
{
    reveal_strlit("http://");
    reveal_strlit("https://");
    let w = server_with_scheme(input);
    lemma_with_scheme_shape(input);
    let pre: Seq<char> = if starts_with(w, "http://"@) { "http://"@ } else { "https://"@ };
    let rest = w.subrange(pre.len() as int, w.len() as int);
    assert(w =~= pre + rest);
    lemma_split_scheme(pre, rest);
    assert(server_rest(input) == rest);
    assert forall|k: int| 0 <= k < rest.len() implies rest[k] != '/' by {
        if rest[k] == '/' {
            assert(rest.subrange(k, k + 1) =~= seq!['/']);
            assert(occurs_at(rest, seq!['/'], k));
        }
    }
    lemma_before_char_at(rest, '/', rest.len() as int);
    assert(rest.subrange(0, rest.len() as int) =~= rest);
    assert(from_char(rest, '/') =~= Seq::<char>::empty());
    let n = normalize_server_spec(input);
    if !contains(rest, seq![':']) {
        assert(n =~= w + ":6443"@);
    }
    if starts_with(trim(input), "http://"@) {
        assert(w == trim(input));
        assert(n.subrange(0, 7) =~= w.subrange(0, 7));
    }
}


// ---------------------------------------------------------------------------
// Following a deployment
// ---------------------------------------------------------------------------

/// The pods that are running.
pub open spec fn running_pods(pods: Seq<PodView>) -> Seq<PodView> {
    pods.filter(|p: PodView| p.2 == PodPhase::Running)
}

/// Only running pods count: the count is the number of pods whose phase is
/// `Running`, so a restarting, failed or pending pod never adds to it.
proof fn lemma_running_count(pods: Seq<PodView>)
    ensures
        running_count(pods) == running_pods(pods).len(),
    decreases pods.len(),
{
    reveal(Seq::filter);
    if pods.len() > 0 {
        lemma_running_count(pods.drop_last());
    }
}

/// A deployment is ready exactly when the pods in phase `Running` are at
/// least the replicas asked for, and the number it reports is how many pods
/// run; a pod in any other phase (restarting among them) never counts.
pub proof fn ready_counts_running_pods_only(pods: Seq<PodView>, replicas: u32)
    requires
        pods.len() <= u32::MAX,
    ensures
        (outcome_of(pods, replicas) is Ready) <==> running_pods(pods).len() >= replicas,
        outcome_of(pods, replicas) matches DeployOutcome::Ready(n) ==> n == running_pods(pods).len(),
        forall|p: PodView|
            p.2 != PodPhase::Running ==> #[trigger] running_pods(pods.push(p)) == running_pods(pods),
{
    reveal(Seq::filter);
    lemma_running_count(pods);
    assert(running_pods(pods).len() <= pods.len()) by {
        pods.lemma_filter_len(|p: PodView| p.2 == PodPhase::Running);
    }
    assert forall|p: PodView| p.2 != PodPhase::Running implies #[trigger] running_pods(pods.push(p)) == running_pods(
        pods,
    ) by {
        assert(pods.push(p).drop_last() =~= pods);
    }
}

// ---------------------------------------------------------------------------
// Log streams
// ---------------------------------------------------------------------------

/// Every `data: ` line of a log chunk gives its payload, in order, whatever
/// lines stand around it (blank ones included): the payloads of two runs of
/// lines one after the other are those of the first then those of the
/// second, and a single line gives its payload when it is a `data: ` line
/// and nothing otherwise.
pub proof fn every_data_line_counts(ls1: Seq<Seq<char>>, ls2: Seq<Seq<char>>, l: Seq<char>)
    ensures
        data_lines(ls1 + ls2) == data_lines(ls1) + data_lines(ls2),
        data_lines(seq![l]) == match data_of(l) {
            Some(d) => seq![d],
            None => Seq::<Seq<char>>::empty(),
        },
    decreases ls2.len(),
{
    assert(seq![l].drop_last() =~= Seq::<Seq<char>>::empty());
    assert(seq![l].last() == l);
    let one = match data_of(l) {
        Some(d) => seq![d],
        None => Seq::<Seq<char>>::empty(),
    };
    assert(data_lines(Seq::<Seq<char>>::empty()) == Seq::<Seq<char>>::empty());
    assert(Seq::<Seq<char>>::empty() + one =~= one);
    if ls2.len() == 0 {
        assert(ls1 + ls2 =~= ls1);
        assert(data_lines(ls1) + data_lines(ls2) =~= data_lines(ls1));
    } else {
        every_data_line_counts(ls1, ls2.drop_last(), l);
        assert((ls1 + ls2).drop_last() =~= ls1 + ls2.drop_last());
        assert((ls1 + ls2).last() == ls2.last());
        assert(data_lines(ls1 + ls2) =~= data_lines(ls1) + data_lines(ls2));
    }
}

// ---------------------------------------------------------------------------
// Listing contexts
// ---------------------------------------------------------------------------

/// In `helyos context ls` the row of the active context, and only that row,
/// is marked `*`; every other row is marked with a space. A row names its
/// context, so with names kept unique at most one row is marked, and one is
/// whenever a context is active.
pub proof fn only_the_active_context_is_marked(c: ConfigView)
    requires
        sorted(c.contexts),
    ensures
        forall|i: int|
            0 <= i < c.contexts.len() ==> {
                let row = #[trigger] context_row(c.contexts[i].0, c.contexts[i].1, c.active_name());
                &&& row[1] == c.contexts[i].0
                &&& (row[0] == "*"@ <==> c.active_name() == Some(c.contexts[i].0))
                &&& (row[0] != "*"@ ==> row[0] == " "@)
            },
        forall|i: int, j: int|
            0 <= i < c.contexts.len() && 0 <= j < c.contexts.len()
                && context_row(c.contexts[i].0, c.contexts[i].1, c.active_name())[0] == "*"@
                && context_row(c.contexts[j].0, c.contexts[j].1, c.active_name())[0] == "*"@ ==> i == j,
        c.active_name() is Some ==> exists|i: int|
            0 <= i < c.contexts.len() && (#[trigger] context_row(c.contexts[i].0, c.contexts[i].1, c.active_name()))[0]
                == "*"@,
{
    reveal_strlit("*");
    reveal_strlit(" ");
    assert(" "@ != "*"@) by {
        assert(" "@[0] != "*"@[0]);
    }
    assert forall|i: int, j: int|
        0 <= i < c.contexts.len() && 0 <= j < c.contexts.len()
            && context_row(c.contexts[i].0, c.contexts[i].1, c.active_name())[0] == "*"@
            && context_row(c.contexts[j].0, c.contexts[j].1, c.active_name())[0] == "*"@ implies i == j by {
        if i < j {
            assert(lex_lt(c.contexts[i].0, c.contexts[j].0));
            lemma_lex_irreflexive(c.contexts[i].0);
        } else if j < i {
            assert(lex_lt(c.contexts[j].0, c.contexts[i].0));
            lemma_lex_irreflexive(c.contexts[j].0);
        }
    }
    if c.active_name() is Some {
        let n = c.active_name()->0;
        if c.current_context is Some && has_key(c.contexts, c.current_context->0) {
            let m = c.current_context->0;
            lemma_lookup_some(c.contexts, m);
            let i = choose|i: int| 0 <= i < c.contexts.len() && (#[trigger] c.contexts[i]).0 == m
                && lookup(c.contexts, m) == Some(c.contexts[i].1);
            assert(context_row(c.contexts[i].0, c.contexts[i].1, c.active_name())[0] == "*"@);
        } else {
            assert(context_row(c.contexts[0].0, c.contexts[0].1, c.active_name())[0] == "*"@);
        }
    }
}

// ---------------------------------------------------------------------------
// Tables
// ---------------------------------------------------------------------------

/// Every column of a printed table is as wide as its header and as every
/// cell of it in every row, and no wider than the widest of them.
pub proof fn columns_fit_every_cell(headers: Seq<Seq<char>>, rows: Seq<Seq<Seq<char>>>)
    ensures
        raw_col_widths(headers, rows).len() == headers.len(),
        forall|i: int| 0 <= i < headers.len() ==> raw_col_widths(headers, rows)[i] >= byte_len(#[trigger] headers[i]),
        forall|r: int, i: int|
            0 <= r < rows.len() && 0 <= i < headers.len() && i < rows[r].len() ==> raw_col_widths(headers, rows)[i]
                >= byte_len(#[trigger] rows[r][i]),
        forall|i: int|
            0 <= i < headers.len() ==> (#[trigger] raw_col_widths(headers, rows)[i] == byte_len(headers[i])
                || exists|r: int|
                0 <= r < rows.len() && i < rows[r].len() && raw_col_widths(headers, rows)[i] == byte_len(
                    #[trigger] rows[r][i],
                )),
{
    assert forall|i: int| 0 <= i < headers.len() implies {
        &&& raw_col_widths(headers, rows)[i] >= byte_len(headers[i])
        &&& forall|r: int| 0 <= r < rows.len() && i < rows[r].len() ==> raw_col_widths(headers, rows)[i] >= byte_len(
            #[trigger] rows[r][i],
        )
        &&& (raw_col_widths(headers, rows)[i] == byte_len(headers[i]) || exists|r: int|
            0 <= r < rows.len() && i < rows[r].len() && raw_col_widths(headers, rows)[i] == byte_len(
                #[trigger] rows[r][i],
            ))
    } by {
        lemma_col_width(headers, rows, i, rows.len());
    }
}

/// The width of a column over the header and the first `n` rows.
proof fn lemma_col_width(headers: Seq<Seq<char>>, rows: Seq<Seq<Seq<char>>>, i: int, n: nat)
    requires
        0 <= i < headers.len(),
        n <= rows.len(),
    ensures
        raw_col_width(headers, rows, i, n) >= byte_len(headers[i]),
        forall|r: int| 0 <= r < n && i < rows[r].len() ==> raw_col_width(headers, rows, i, n) >= byte_len(
            #[trigger] rows[r][i],
        ),
        raw_col_width(headers, rows, i, n) == byte_len(headers[i]) || exists|r: int|
            0 <= r < n && i < rows[r].len() && raw_col_width(headers, rows, i, n) == byte_len(#[trigger] rows[r][i]),
    decreases n,
{
    if n > 0 {
        lemma_col_width(headers, rows, i, (n - 1) as nat);
    }
}

// ---------------------------------------------------------------------------
// Statuses
// ---------------------------------------------------------------------------

/// Statuses are read without regard to case: two statuses that differ only in
/// the case of their ASCII letters lower-case to the same text, so for ASCII
/// statuses `status_style` and `status_dot` give them the same colour and the
/// same dot text.
pub proof fn status_case_is_ignored(a: Seq<char>, b: Seq<char>)
    requires
        eq_ignore_ascii_case(a, b),
    ensures
        ascii_lowered(a) == ascii_lowered(b),
        status_code_of_lower(ascii_lowered(a)) == status_code_of_lower(ascii_lowered(b)),
        seq!['●', ' '] + ascii_lowered(a) == seq!['●', ' '] + ascii_lowered(b),
{
    assert(ascii_lowered(a) =~= ascii_lowered(b));
}

// ---------------------------------------------------------------------------
// The starter spec
// ---------------------------------------------------------------------------

proof fn lemma_occurs_in_middle(a: Seq<char>, m: Seq<char>, b: Seq<char>)
    ensures
        contains(a + m + b, m),
{
    assert((a + m + b).subrange(a.len() as int, (a.len() + m.len()) as int) =~= m);
    assert(occurs_at(a + m + b, m, a.len() as int));
}

/// The starter spec names the project, the deployment and the image.
pub proof fn template_names_its_inputs(project: Seq<char>, deployment: Seq<char>, image: Seq<char>)
    ensures
        contains(template_text(project, deployment, image), "project: "@ + project),
        contains(template_text(project, deployment, image), "name: "@ + deployment),
        contains(template_text(project, deployment, image), "image: "@ + image),
{
    reveal_strlit("# Helyos deployment spec — ");
    reveal_strlit("\n# Docs: https://github.com/helyos-labs/helyos\n\nproject: ");
    reveal_strlit("\n# Docs: https://github.com/helyos-labs/helyos\n\n");
    reveal_strlit("project: ");
    reveal_strlit("\n\ndeployment:\n  name: ");
    reveal_strlit("\n\ndeployment:\n  ");
    reveal_strlit("name: ");
    reveal_strlit("\n\nimage: ");
    reveal_strlit("\n\n");
    reveal_strlit("image: ");
    let t = template_text(project, deployment, image);
    let p1 = "# Helyos deployment spec — "@ + deployment + "\n# Docs: https://github.com/helyos-labs/helyos\n\n"@;
    let r1 = t.subrange((p1.len() + 9 + project.len()) as int, t.len() as int);
    assert("\n# Docs: https://github.com/helyos-labs/helyos\n\nproject: "@ =~= "\n# Docs: https://github.com/helyos-labs/helyos\n\n"@
        + "project: "@);
    assert(t =~= p1 + ("project: "@ + project) + r1);
    lemma_occurs_in_middle(p1, "project: "@ + project, r1);
    let p2 = p1 + "project: "@ + project + "\n\ndeployment:\n  "@;
    let r2 = t.subrange((p2.len() + 6 + deployment.len()) as int, t.len() as int);
    assert("\n\ndeployment:\n  name: "@ =~= "\n\ndeployment:\n  "@ + "name: "@);
    assert(t =~= p2 + ("name: "@ + deployment) + r2);
    lemma_occurs_in_middle(p2, "name: "@ + deployment, r2);
    let p3 = p2 + "name: "@ + deployment + "\n\n"@;
    let r3 = t.subrange((p3.len() + 7 + image.len()) as int, t.len() as int);
    assert("\n\nimage: "@ =~= "\n\n"@ + "image: "@);
    assert(t =~= p3 + ("image: "@ + image) + r3);
    lemma_occurs_in_middle(p3, "image: "@ + image, r3);
}

// ---------------------------------------------------------------------------
// Deploy steps
// ---------------------------------------------------------------------------

/// Looking at the pods only ever adds steps: the steps before are a prefix
/// of the steps after.
pub proof fn pod_steps_only_grow(before: Seq<StepView>, pods: Seq<PodView>, after: Seq<StepView>)
    requires
        adds_pod_steps(before, pods, after),
    ensures
        before.len() <= after.len(),
        after.take(before.len() as int) == before,
    decreases pods.len(),
{
    if pods.len() == 0 {
        assert(after.take(before.len() as int) =~= before);
    } else {
        let p = pods.last();
        if adds_pod_steps(before, pods.drop_last(), after) {
            pod_steps_only_grow(before, pods.drop_last(), after);
        } else {
            pod_steps_only_grow(before, pods.drop_last(), after.drop_last());
            assert(after.take(before.len() as int) =~= after.drop_last().take(before.len() as int));
        }
    }
}

} // verus!
