//! `helyos context …` — manage named connection contexts (config only; no
//! server). Each command edits a loaded [`Config`] and returns the message to
//! show; loading and saving the file is left to the caller.
use vstd::prelude::*;
use crate::text::{concat2, concat3, eq_str, owned, starts_with, starts_with_str};
use crate::config::{opt_copy, opt_view, Config, ConfigError, ConfigView, Context, ContextView};
use crate::ctxmap::{has_key, keys, lookup, upsert};

verus! {

/// The TLS mode shown for a context.
pub open spec fn tls_mode_spec(c: ContextView) -> Seq<char> {
    if starts_with(c.server, "https://"@) {
        if c.insecure {
            "insecure"@
        } else if c.ca is Some {
            "pinned"@
        } else {
            "system"@
        }
    } else {
        "http"@
    }
}

/// TLS mode label for display: `http`, or for `https://` servers `insecure`,
/// `pinned` (a CA is stored) or `system`.
pub fn tls_mode(c: &Context) -> (r: String)
    ensures
        r@ == tls_mode_spec(c@),
{
    proof {
        reveal_strlit("https://");
    }
    if starts_with_str(c.server.as_str(), "https://") {
        if c.insecure {
            owned("insecure")
        } else if c.ca.is_some() {
            owned("pinned")
        } else {
            owned("system")
        }
    } else {
        owned("http")
    }
}

/// `"<prefix>'<name>'<suffix>"`.
pub open spec fn quoted(prefix: Seq<char>, name: Seq<char>, suffix: Seq<char>) -> Seq<char> {
    prefix + "'"@ + name + "'"@ + suffix
}

fn quoted_str(prefix: &str, name: &str, suffix: &str) -> (r: String)
    ensures
        r@ == quoted(prefix@, name@, suffix@),
{
    let a = concat3(prefix, "'", name);
    let b = concat3(a.as_str(), "'", suffix);
    b
}

/// `r` succeeded with the message `m`.
pub open spec fn ok_msg(r: Result<String, ConfigError>, m: Seq<char>) -> bool {
    r matches Ok(x) && x@ == m
}

/// `r` failed because a context named `name` exists already.
pub open spec fn taken(r: Result<String, ConfigError>, name: Seq<char>) -> bool {
    r matches Err(ConfigError::AlreadyExists(n)) && n@ == name
}

/// `r` failed because no context is named `name`.
pub open spec fn no_such(r: Result<String, ConfigError>, name: Seq<char>) -> bool {
    r matches Err(ConfigError::NoSuchContext(n)) && n@ == name
}

/// Switch the active context.
pub fn use_context(cfg: &mut Config, name: &str) -> (r: Result<String, ConfigError>)
    ensures
        has_key(old(cfg)@.contexts, name@) ==> final(cfg)@ == old(cfg)@.with_current(name@) && ok_msg(
            r,
            quoted("Switched to context "@, name@, ""@),
        ),
        !has_key(old(cfg)@.contexts, name@) ==> final(cfg)@ == old(cfg)@ && no_such(r, name@),
{
    match cfg.set_current(name) {
        Ok(()) => Ok(quoted_str("Switched to context ", name, "")),
        Err(e) => Err(e),
    }
}

/// Remove a context.
pub fn remove(cfg: &mut Config, name: &str) -> (r: Result<String, ConfigError>)
    ensures
        has_key(old(cfg)@.contexts, name@) ==> final(cfg)@ == old(cfg)@.without_context(name@) && ok_msg(
            r,
            quoted("Removed context "@, name@, ""@),
        ),
        !has_key(old(cfg)@.contexts, name@) ==> final(cfg)@ == old(cfg)@ && no_such(r, name@),
{
    match cfg.remove(name) {
        Ok(()) => Ok(quoted_str("Removed context ", name, "")),
        Err(e) => Err(e),
    }
}

/// Rename a context.
pub fn rename(cfg: &mut Config, from: &str, to: &str) -> (r: Result<String, ConfigError>)
    ensures
        !has_key(old(cfg)@.contexts, from@) ==> final(cfg)@ == old(cfg)@ && no_such(r, from@),
        has_key(old(cfg)@.contexts, from@) && has_key(old(cfg)@.contexts, to@) ==> final(cfg)@ == old(cfg)@
            && taken(r, to@),
        has_key(old(cfg)@.contexts, from@) && !has_key(old(cfg)@.contexts, to@) ==> final(cfg)@ == old(
            cfg,
        )@.renamed(from@, to@) && ok_msg(r, quoted("Renamed context "@, from@, quoted(" → "@, to@, ""@))),
{
    match cfg.rename(from, to) {
        Ok(()) => {
            let tail = quoted_str(" → ", to, "");
            Ok(quoted_str("Renamed context ", from, tail.as_str()))
        },
        Err(e) => Err(e),
    }
}

/// The context `c` with the server and project replaced where given.
pub open spec fn edited(c: ContextView, server: Option<Seq<char>>, project: Option<Seq<char>>) -> ContextView {
    ContextView {
        server: match server {
            Some(s) => s,
            None => c.server,
        },
        project: match project {
            Some(p) => Some(p),
            None => c.project,
        },
        ..c
    }
}

/// The model of an optional string slice.
pub open spec fn opt_str_view(o: Option<&str>) -> Option<Seq<char>> {
    match o {
        Some(s) => Some(s@),
        None => None,
    }
}

/// Change the server and/or default project of a context.
pub fn set(cfg: &mut Config, name: &str, server: Option<&str>, project: Option<&str>) -> (r: Result<
    String,
    ConfigError,
>)
    ensures
        has_key(old(cfg)@.contexts, name@) ==> final(cfg)@ == old(cfg)@.with_context(
            name@,
            edited(lookup(old(cfg)@.contexts, name@).unwrap(), opt_str_view(server), opt_str_view(project)),
        ) && ok_msg(r, quoted("Updated context "@, name@, ""@)),
        !has_key(old(cfg)@.contexts, name@) ==> final(cfg)@ == old(cfg)@ && no_such(r, name@),
{
    let mut ctx = match cfg.contexts.get(name) {
        Some(c) => c.copy(),
        None => {
            return Err(ConfigError::NoSuchContext(owned(name)));
        },
    };
    if let Some(s) = server {
        ctx.server = owned(s);
    }
    if let Some(p) = project {
        ctx.project = Some(owned(p));
    }
    cfg.upsert(name, ctx);
    Ok(quoted_str("Updated context ", name, ""))
}

/// The context `c` without its token (server, CA and project are kept).
pub open spec fn logged_out(c: ContextView) -> ContextView {
    ContextView { token: None, token_name: None, ..c }
}

/// Drop the token from a context (the active one when no name is given),
/// keeping its server and pinned CA so that a later login needs one paste.
pub fn logout(cfg: &mut Config, name: Option<&str>) -> (r: Result<String, ConfigError>)
    ensures
        ({
            let target = match name {
                Some(n) => Some(n@),
                None => old(cfg)@.active_name(),
            };
            match target {
                None => final(cfg)@ == old(cfg)@ && r == Err::<String, ConfigError>(ConfigError::NoActiveContext),
                Some(t) => if has_key(old(cfg)@.contexts, t) {
                    final(cfg)@ == old(cfg)@.with_context(t, logged_out(lookup(old(cfg)@.contexts, t).unwrap()))
                        && ok_msg(r, quoted("Logged out of context "@, t, " (server + pinned CA kept; re-login with one paste)"@))
                } else {
                    final(cfg)@ == old(cfg)@ && no_such(r, t)
                },
            }
        }),
{
    let target = match name {
        Some(n) => owned(n),
        None => match cfg.active_name() {
            Some(n) => n,
            None => {
                return Err(ConfigError::NoActiveContext);
            },
        },
    };
    let mut ctx = match cfg.contexts.get(target.as_str()) {
        Some(c) => c.copy(),
        None => {
            return Err(ConfigError::NoSuchContext(target));
        },
    };
    ctx.token = None;
    ctx.token_name = None;
    cfg.upsert(target.as_str(), ctx);
    Ok(quoted_str("Logged out of context ", target.as_str(), " (server + pinned CA kept; re-login with one paste)"))
}

/// One row of `helyos context ls`: active marker, name, server, project, TLS mode.
pub open spec fn context_row(name: Seq<char>, c: ContextView, active: Option<Seq<char>>) -> Seq<Seq<char>> {
    seq![
        if active == Some(name) { "*"@ } else { " "@ },
        name,
        c.server,
        match c.project {
            Some(p) => p,
            None => "-"@,
        },
        tls_mode_spec(c),
    ]
}

/// The model of a table of strings.
pub open spec fn rows_view(rows: Seq<Vec<String>>) -> Seq<Seq<Seq<char>>> {
    rows.map_values(|r: Vec<String>| r@.map_values(|s: String| s@))
}

/// The rows of `helyos context ls`, in name order.
pub fn context_rows(cfg: &Config) -> (rows: Vec<Vec<String>>)
    ensures
        rows_view(rows@).len() == cfg@.contexts.len(),
        forall|i: int| 0 <= i < cfg@.contexts.len() ==> #[trigger] rows_view(rows@)[i] == context_row(
            cfg@.contexts[i].0,
            cfg@.contexts[i].1,
            cfg@.active_name(),
        ),
{
    let active = cfg.active_name();
    let mut rows: Vec<Vec<String>> = Vec::new();
    let mut i: usize = 0;
    while i < cfg.contexts.len()
        invariant
            i <= cfg@.contexts.len(),
            opt_view(active) == cfg@.active_name(),
            rows@.len() == i,
            forall|j: int| 0 <= j < i ==> #[trigger] rows_view(rows@)[j] == context_row(
                cfg@.contexts[j].0,
                cfg@.contexts[j].1,
                cfg@.active_name(),
            ),
        decreases cfg@.contexts.len() - i,
    {
        let name = cfg.contexts.key_at(i);
        let c = cfg.contexts.value_at(i);
        let is_active = match &active {
            Some(a) => eq_str(a.as_str(), name.as_str()),
            None => false,
        };
        let mut row: Vec<String> = Vec::new();
        row.push(if is_active { owned("*") } else { owned(" ") });
        row.push(name.clone());
        row.push(c.server.clone());
        row.push(match &c.project {
            Some(p) => p.clone(),
            None => owned("-"),
        });
        row.push(tls_mode(c));
        let ghost before = rows@;
        rows.push(row);
        proof {
            assert(rows@ == before.push(row));
            assert(rows_view(rows@)[i as int] =~= context_row(
                cfg@.contexts[i as int].0,
                cfg@.contexts[i as int].1,
                cfg@.active_name(),
            ));
            assert forall|j: int| 0 <= j < i + 1 implies #[trigger] rows_view(rows@)[j] == context_row(
                cfg@.contexts[j].0,
                cfg@.contexts[j].1,
                cfg@.active_name(),
            ) by {
                if j < i {
                    assert(rows@[j] == before[j]);
                    assert(rows_view(rows@)[j] == rows_view(before)[j]);
                }
            }
        }
        i = i + 1;
    }
    rows
}

/// The lines of `helyos context current`: the name, then indented server,
/// project (when set) and TLS mode.
pub open spec fn current_lines_spec(name: Seq<char>, c: ContextView) -> Seq<Seq<char>> {
    seq![name, "  server:  "@ + c.server] + match c.project {
        Some(p) => seq!["  project: "@ + p],
        None => seq![],
    } + seq!["  tls:     "@ + tls_mode_spec(c)]
}

/// The lines that describe the active context; an error message when no
/// context is active.
pub fn current_lines(cfg: &Config) -> (r: Result<(String, Vec<String>), String>)
    ensures
        match cfg@.active_name() {
            None => r matches Err(m) && m@ == "no active context. Set one with: helyos context use <name>"@,
            Some(n) => r matches Ok((name, ls)) && name@ == n && ls@.map_values(|s: String| s@)
                == current_lines_spec(n, lookup(cfg@.contexts, n).unwrap()),
        },
{
    let name = match cfg.active_name() {
        Some(n) => n,
        None => {
            return Err(owned("no active context. Set one with: helyos context use <name>"));
        },
    };
    proof {
        if cfg@.current_context matches Some(cur) && has_key(cfg@.contexts, cur) {
        } else {
            crate::ctxmap::lemma_lookup_first(cfg@.contexts);
        }
    }
    let c = match cfg.contexts.get(name.as_str()) {
        Some(c) => c,
        None => {
            return Err(owned("no active context. Set one with: helyos context use <name>"));
        },
    };
    let mut ls: Vec<String> = Vec::new();
    ls.push(name.clone());
    ls.push(concat2("  server:  ", c.server.as_str()));
    if let Some(p) = &c.project {
        ls.push(concat2("  project: ", p.as_str()));
    }
    ls.push(concat2("  tls:     ", tls_mode(c).as_str()));
    proof {
        assert(ls@.map_values(|s: String| s@) =~= current_lines_spec(name@, c@));
    }
    Ok((name, ls))
}

} // verus!
