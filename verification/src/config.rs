//! Config file support: named, switchable contexts.
//!
//! The file (`~/.helyos/config.toml`, or `$HELYOS_CONFIG`) is a tiny TOML
//! subset: top-level `key = value`, `[context.NAME]` section headers, `#`
//! comments and blank lines. A legacy file with only top-level
//! `server`/`token` (no `[context.*]` sections) is read as an implicit context
//! named "default" so existing setups keep working. Reading and writing the
//! file is the caller's business; this module parses and edits the contents.
use vstd::prelude::*;
use crate::context::opt_str_view;
use crate::text::{
    chars_of, eq_str, lines, lines_of, owned, split_once, split_once_str, starts_with, string_of_range,
    trim, trim_bounds, trim_str,
};
use crate::ctxmap::{
    ensure_key, has_key, lemma_lookup_some, lemma_remove, lemma_upsert, lookup, remove_key, sorted,
    upsert, ContextMap, Entries,
};

verus! {

// ---------------------------------------------------------------------------
// Contexts
// ---------------------------------------------------------------------------

/// The model of a [`Context`].
pub struct ContextView {
    pub server: Seq<char>,
    pub token: Option<Seq<char>>,
    pub ca: Option<Seq<char>>,
    pub ca_sha256: Option<Seq<char>>,
    pub project: Option<Seq<char>>,
    pub insecure: bool,
    pub token_name: Option<Seq<char>>,
}

impl ContextView {
    /// The default context: empty server, nothing else set.
    pub open spec fn empty() -> ContextView {
        ContextView {
            server: seq![],
            token: None,
            ca: None,
            ca_sha256: None,
            project: None,
            insecure: false,
            token_name: None,
        }
    }
}

/// The model of an optional string.
pub open spec fn opt_view(o: Option<String>) -> Option<Seq<char>> {
    match o {
        Some(s) => Some(s@),
        None => None,
    }
}

/// A copy of an optional string.
pub fn opt_copy(o: &Option<String>) -> (r: Option<String>)
    ensures
        opt_view(r) == opt_view(*o),
{
    match o {
        Some(s) => Some(s.clone()),
        None => None,
    }
}

/// An optional owned copy of an optional string slice.
pub fn opt_owned(o: Option<&str>) -> (r: Option<String>)
    ensures
        opt_view(r) == match o {
            Some(s) => Some(s@),
            None => None::<Seq<char>>,
        },
{
    match o {
        Some(s) => Some(owned(s)),
        None => None,
    }
}

/// One named target: where + who + defaults. `server` is required; the rest are
/// optional. `ca`/`ca_sha256`/`insecure`/`token_name` are filled in by a login
/// and are treated as opaque pass-through values here.
#[derive(Debug, Clone, PartialEq)]
pub struct Context {
    pub server: String,
    pub token: Option<String>,
    pub ca: Option<String>,
    pub ca_sha256: Option<String>,
    pub project: Option<String>,
    pub insecure: bool,
    pub token_name: Option<String>,
}

impl View for Context {
    type V = ContextView;

    open spec fn view(&self) -> ContextView {
        ContextView {
            server: self.server@,
            token: opt_view(self.token),
            ca: opt_view(self.ca),
            ca_sha256: opt_view(self.ca_sha256),
            project: opt_view(self.project),
            insecure: self.insecure,
            token_name: opt_view(self.token_name),
        }
    }
}

impl Default for Context {
    fn default() -> (c: Context)
        ensures
            c@ == ContextView::empty(),
    {
        Context {
            server: String::new(),
            token: None,
            ca: None,
            ca_sha256: None,
            project: None,
            insecure: false,
            token_name: None,
        }
    }
}

impl Context {
    /// A copy of this context.
    pub fn copy(&self) -> (c: Context)
        ensures
            c@ == self@,
    {
        Context {
            server: self.server.clone(),
            token: opt_copy(&self.token),
            ca: opt_copy(&self.ca),
            ca_sha256: opt_copy(&self.ca_sha256),
            project: opt_copy(&self.project),
            insecure: self.insecure,
            token_name: opt_copy(&self.token_name),
        }
    }
}

// ---------------------------------------------------------------------------
// The whole config
// ---------------------------------------------------------------------------

/// The model of a [`Config`].
pub struct ConfigView {
    pub current_context: Option<Seq<char>>,
    pub contexts: Entries,
}

impl ConfigView {
    /// The empty config.
    pub open spec fn empty() -> ConfigView {
        ConfigView { current_context: None, contexts: seq![] }
    }

    /// The name of the active context: `current-context` if set and present,
    /// else the sole context when there is exactly one, else none.
    pub open spec fn active_name(self) -> Option<Seq<char>> {
        match self.current_context {
            Some(n) if has_key(self.contexts, n) => Some(n),
            _ => if self.contexts.len() == 1 {
                Some(self.contexts[0].0)
            } else {
                None
            },
        }
    }

    /// The active context (same rules as [`ConfigView::active_name`]).
    pub open spec fn active(self) -> Option<ContextView> {
        match self.current_context {
            Some(n) if has_key(self.contexts, n) => lookup(self.contexts, n),
            _ => if self.contexts.len() == 1 {
                Some(self.contexts[0].1)
            } else {
                None
            },
        }
    }
}

/// The whole config: a set of named contexts + the active one.
#[derive(Debug)]
pub struct Config {
    pub current_context: Option<String>,
    pub contexts: ContextMap,
}

impl View for Config {
    type V = ConfigView;

    open spec fn view(&self) -> ConfigView {
        ConfigView { current_context: opt_view(self.current_context), contexts: self.contexts@ }
    }
}

impl Default for Config {
    fn default() -> (c: Config)
        ensures
            c@ == ConfigView::empty(),
    {
        Config { current_context: None, contexts: ContextMap::new() }
    }
}

/// Why an edit of the config was refused.
#[derive(Debug, Clone, PartialEq, Eq)]
pub enum ConfigError {
    /// No context has this name.
    NoSuchContext(String),
    /// A context of this name exists already.
    AlreadyExists(String),
    /// No context is active and none was named.
    NoActiveContext,
}

// ---------------------------------------------------------------------------
// Parsing
// ---------------------------------------------------------------------------

/// `unquote`: trim, then strip surrounding double/single quotes, or a trailing
/// ` # comment`.
pub open spec fn unquote(raw: Seq<char>) -> Seq<char> {
    let s = trim(raw);
    if s.len() >= 2 && ((s[0] == '"' && s.last() == '"') || (s[0] == '\'' && s.last() == '\'')) {
        s.subrange(1, s.len() - 1)
    } else {
        match split_once(s, seq![' ', '#']) {
            Some((before, _)) => trim(before),
            None => s,
        }
    }
}

/// The inside of a `[...]` section header, trimmed.
pub open spec fn header_inner(line: Seq<char>) -> Option<Seq<char>> {
    if line.len() >= 2 && line[0] == '[' && line.last() == ']' {
        Some(trim(line.subrange(1, line.len() - 1)))
    } else {
        None
    }
}

/// The section that the parser is in.
pub enum Section {
    /// Before any section header.
    Top,
    /// Inside a section that is not `[context.NAME]`: its keys are ignored.
    Ignored,
    /// Inside `[context.NAME]`.
    Named(Seq<char>),
}

/// Where the line-by-line parse stands.
pub struct ParseState {
    pub cfg: ConfigView,
    pub legacy: ContextView,
    pub legacy_seen: bool,
    pub section: Section,
}

pub open spec fn initial_state() -> ParseState {
    ParseState { cfg: ConfigView::empty(), legacy: ContextView::empty(), legacy_seen: false, section: Section::Top }
}

/// The effect of one `key = value` line inside a `[context.NAME]` section.
pub open spec fn apply_key_spec(ctx: ContextView, key: Seq<char>, value: Seq<char>) -> ContextView {
    if value.len() == 0 && key != "insecure"@ {
        ctx
    } else if key == "server"@ {
        ContextView { server: value, ..ctx }
    } else if key == "token"@ {
        ContextView { token: Some(value), ..ctx }
    } else if key == "ca"@ {
        ContextView { ca: Some(value), ..ctx }
    } else if key == "ca-sha256"@ {
        ContextView { ca_sha256: Some(value), ..ctx }
    } else if key == "project"@ {
        ContextView { project: Some(value), ..ctx }
    } else if key == "token-name"@ {
        ContextView { token_name: Some(value), ..ctx }
    } else if key == "insecure"@ {
        ContextView { insecure: value == "true"@, ..ctx }
    } else {
        ctx
    }
}

/// The effect of a top-level `key = value` line.
pub open spec fn top_key(st: ParseState, key: Seq<char>, value: Seq<char>) -> ParseState {
    if key == "current-context"@ {
        if value.len() > 0 {
            ParseState { cfg: ConfigView { current_context: Some(value), ..st.cfg }, ..st }
        } else {
            st
        }
    } else if key == "server"@ {
        ParseState { legacy: ContextView { server: value, ..st.legacy }, legacy_seen: true, ..st }
    } else if key == "token"@ {
        if value.len() > 0 {
            ParseState { legacy: ContextView { token: Some(value), ..st.legacy }, legacy_seen: true, ..st }
        } else {
            st
        }
    } else {
        st
    }
}

/// The effect of one line of the file.
pub open spec fn parse_line(st: ParseState, raw: Seq<char>) -> ParseState {
    let line = trim(raw);
    if line.len() == 0 || line[0] == '#' {
        st
    } else {
        match header_inner(line) {
            Some(sec) => {
                let name = unquote(sec.subrange(8, sec.len() as int));
                if starts_with(sec, "context."@) && name.len() > 0 {
                    ParseState {
                        cfg: ConfigView { contexts: ensure_key(st.cfg.contexts, name), ..st.cfg },
                        section: Section::Named(name),
                        ..st
                    }
                } else {
                    ParseState { section: Section::Ignored, ..st }
                }
            },
            None => match split_once(line, "="@) {
                None => st,
                Some((k, v)) => {
                    let key = trim(k);
                    let value = unquote(v);
                    match st.section {
                        Section::Top => top_key(st, key, value),
                        Section::Ignored => st,
                        Section::Named(name) => {
                            let ctx = match lookup(st.cfg.contexts, name) {
                                Some(c) => c,
                                None => ContextView::empty(),
                            };
                            ParseState {
                                cfg: ConfigView {
                                    contexts: upsert(st.cfg.contexts, name, apply_key_spec(ctx, key, value)),
                                    ..st.cfg
                                },
                                ..st
                            }
                        },
                    }
                },
            },
        }
    }
}

/// The state after the first `n` lines.
pub open spec fn parse_lines(ls: Seq<Seq<char>>, n: nat) -> ParseState
    decreases n,
{
    if n == 0 || n > ls.len() {
        initial_state()
    } else {
        parse_line(parse_lines(ls, (n - 1) as nat), ls[n - 1])
    }
}

/// The config described by a whole state: a legacy flat file (no
/// `[context.*]` sections) becomes a context named "default".
pub open spec fn finish(st: ParseState) -> ConfigView {
    if st.legacy_seen && st.legacy.server.len() > 0 && st.cfg.contexts.len() == 0 {
        ConfigView { contexts: upsert(st.cfg.contexts, "default"@, st.legacy), ..st.cfg }
    } else {
        st.cfg
    }
}

/// What a config file's contents describe.
pub open spec fn parse_spec(contents: Seq<char>) -> ConfigView {
    let ls = lines(contents);
    finish(parse_lines(ls, ls.len()))
}

/// Strip surrounding double/single quotes, or a trailing ` # comment`.
pub fn unquote_str(raw: &str) -> (r: String)
    ensures
        r@ == unquote(raw@),
{
    let t = trim_str(raw);
    let v = chars_of(t.as_str());
    let n = v.len();
    if n >= 2 && ((v[0] == '"' && v[n - 1] == '"') || (v[0] == '\'' && v[n - 1] == '\'')) {
        return string_of_range(&v, 1, n - 1);
    }
    proof {
        reveal_strlit(" #");
        assert(" #"@ =~= seq![' ', '#']);
    }
    match split_once_str(t.as_str(), " #") {
        Some((before, _)) => trim_str(before.as_str()),
        None => t,
    }
}

/// The effect of one `key = value` line on a context.
pub fn apply_key(ctx: &mut Context, key: &str, value: &str)
    ensures
        final(ctx)@ == apply_key_spec(old(ctx)@, key@, value@),
{
    proof {
        reveal_strlit("insecure");
        reveal_strlit("server");
        reveal_strlit("token");
        reveal_strlit("ca");
        reveal_strlit("ca-sha256");
        reveal_strlit("project");
        reveal_strlit("token-name");
        reveal_strlit("true");
    }
    if value.unicode_len() == 0 && !eq_str(key, "insecure") {
        return;
    }
    if eq_str(key, "server") {
        ctx.server = owned(value);
    } else if eq_str(key, "token") {
        ctx.token = Some(owned(value));
    } else if eq_str(key, "ca") {
        ctx.ca = Some(owned(value));
    } else if eq_str(key, "ca-sha256") {
        ctx.ca_sha256 = Some(owned(value));
    } else if eq_str(key, "project") {
        ctx.project = Some(owned(value));
    } else if eq_str(key, "token-name") {
        ctx.token_name = Some(owned(value));
    } else if eq_str(key, "insecure") {
        ctx.insecure = eq_str(value, "true");
    }
}

/// The executable section marker.
pub enum SectionExec {
    Top,
    Ignored,
    Named(String),
}

impl View for SectionExec {
    type V = Section;

    open spec fn view(&self) -> Section {
        match self {
            SectionExec::Top => Section::Top,
            SectionExec::Ignored => Section::Ignored,
            SectionExec::Named(n) => Section::Named(n@),
        }
    }
}

/// The executable parse state.
pub struct ParseStateExec {
    pub cfg: Config,
    pub legacy: Context,
    pub legacy_seen: bool,
    pub section: SectionExec,
}

impl View for ParseStateExec {
    type V = ParseState;

    open spec fn view(&self) -> ParseState {
        ParseState { cfg: self.cfg@, legacy: self.legacy@, legacy_seen: self.legacy_seen, section: self.section@ }
    }
}

/// Apply one line of the file to the parse state.
pub fn parse_line_exec(st: &mut ParseStateExec, raw: &str)
    ensures
        final(st)@ == parse_line(old(st)@, raw@),
{
    let line = trim_str(raw);
    let lv = chars_of(line.as_str());
    let n = lv.len();
    if n == 0 || lv[0] == '#' {
        return;
    }
    if n >= 2 && lv[0] == '[' && lv[n - 1] == ']' {
        let (a, b) = trim_bounds(&lv);
        let inner = string_of_range(&lv, 1, n - 1);
        let sec = trim_str(inner.as_str());
        let sv = chars_of(sec.as_str());
        let prefix = chars_of("context.");
        proof {
            reveal_strlit("context.");
            assert(header_inner(line@) == Some(sec@));
        }
        let is_ctx = sv.len() >= 8 && has_prefix8(&sv, &prefix);
        let name = if sv.len() >= 8 {
            let rest = string_of_range(&sv, 8, sv.len());
            unquote_str(rest.as_str())
        } else {
            String::new()
        };
        proof {
            if sv.len() < 8 {
                assert(!starts_with(sec@, "context."@));
            }
        }
        if is_ctx && name.unicode_len() > 0 {
            if !st.cfg.contexts.contains_key(name.as_str()) {
                st.cfg.contexts.insert(name.clone(), Context::default());
            }
            st.section = SectionExec::Named(name);
        } else {
            st.section = SectionExec::Ignored;
        }
        return;
    }
    proof {
        assert(header_inner(line@) is None);
        reveal_strlit("=");
        assert("="@ =~= seq!['=']);
    }
    match split_once_str(line.as_str(), "=") {
        None => {},
        Some((k, v)) => {
            let key = trim_str(k.as_str());
            let value = unquote_str(v.as_str());
            proof {
                reveal_strlit("current-context");
                reveal_strlit("server");
                reveal_strlit("token");
            }
            match &st.section {
                SectionExec::Top => {
                    if eq_str(key.as_str(), "current-context") {
                        if value.unicode_len() > 0 {
                            st.cfg.current_context = Some(value);
                        }
                    } else if eq_str(key.as_str(), "server") {
                        st.legacy.server = value;
                        st.legacy_seen = true;
                    } else if eq_str(key.as_str(), "token") {
                        if value.unicode_len() > 0 {
                            st.legacy.token = Some(value);
                            st.legacy_seen = true;
                        }
                    }
                },
                SectionExec::Ignored => {},
                SectionExec::Named(name) => {
                    let name = name.clone();
                    let mut ctx = match st.cfg.contexts.get(name.as_str()) {
                        Some(c) => c.copy(),
                        None => Context::default(),
                    };
                    apply_key(&mut ctx, key.as_str(), value.as_str());
                    st.cfg.contexts.insert(name, ctx);
                },
            }
        },
    }
}

/// Whether `v` starts with the eight characters of `p`.
fn has_prefix8(v: &Vec<char>, p: &Vec<char>) -> (b: bool)
    requires
        v.len() >= 8,
        p.len() == 8,
    ensures
        b == starts_with(v@, p@),
{
    let mut i: usize = 0;
    while i < 8
        invariant
            i <= 8,
            v.len() >= 8,
            p.len() == 8,
            forall|j: int| 0 <= j < i ==> v@[j] == p@[j],
        decreases 8 - i,
    {
        if v[i] != p[i] {
            assert(v@.subrange(0, 8)[i as int] != p@[i as int]);
            return false;
        }
        i = i + 1;
    }
    assert(v@.subrange(0, 8) =~= p@);
    true
}

/// Parse the config file format: top-level `current-context`, legacy
/// top-level `server`/`token` (→ a "default" context), and `[context.NAME]`
/// sections. Unknown sections and keys are ignored; parsing never fails.
pub fn parse(contents: &str) -> (c: Config)
    ensures
        c@ == parse_spec(contents@),
{
    let ls = lines_of(contents);
    let ghost lv = lines(contents@);
    let mut st = ParseStateExec {
        cfg: Config::default(),
        legacy: Context::default(),
        legacy_seen: false,
        section: SectionExec::Top,
    };
    let mut i: usize = 0;
    while i < ls.len()
        invariant
            i <= ls.len(),
            ls@.map_values(|l: String| l@) == lv,
            st@ == parse_lines(lv, i as nat),
        decreases ls.len() - i,
    {
        let ghost before = st@;
        parse_line_exec(&mut st, ls[i].as_str());
        proof {
            assert(lv[i as int] == ls[i as int]@);
        }
        i = i + 1;
    }
    proof {
        reveal_strlit("default");
    }
    let mut cfg = st.cfg;
    if st.legacy_seen && st.legacy.server.unicode_len() > 0 && cfg.contexts.is_empty() {
        cfg.contexts.insert(owned("default"), st.legacy);
    }
    cfg
}

// ---------------------------------------------------------------------------
// The active context
// ---------------------------------------------------------------------------

impl Config {
    /// A copy of this config.
    pub fn copy(&self) -> (c: Config)
        ensures
            c@ == self@,
    {
        Config { current_context: opt_copy(&self.current_context), contexts: self.contexts.copy() }
    }

    /// The active context: `current-context` if set & present, else the sole
    /// context when there is exactly one, else `None`.
    pub fn active(&self) -> (r: Option<&Context>)
        ensures
            match r {
                Some(c) => self@.active() == Some(c@),
                None => self@.active() is None,
            },
    {
        if let Some(name) = &self.current_context {
            if let Some(c) = self.contexts.get(name.as_str()) {
                return Some(c);
            }
        }
        if self.contexts.len() == 1 {
            return Some(self.contexts.value_at(0));
        }
        None
    }

    /// The context a command uses: the one named by `--context`, which must
    /// exist, else the active one (none when no context is active).
    pub fn select(&self, name: Option<&str>) -> (r: Result<Option<&Context>, ConfigError>)
        ensures
            match name {
                Some(n) => match r {
                    Ok(Some(c)) => lookup(self@.contexts, n@) == Some(c@),
                    Ok(None) => false,
                    Err(e) => lookup(self@.contexts, n@) is None && (e matches ConfigError::NoSuchContext(m) && m@
                        == n@),
                },
                None => match r {
                    Ok(Some(c)) => self@.active() == Some(c@),
                    Ok(None) => self@.active() is None,
                    Err(_) => false,
                },
            },
    {
        match name {
            Some(n) => match self.contexts.get(n) {
                Some(c) => Ok(Some(c)),
                None => Err(ConfigError::NoSuchContext(n.to_string())),
            },
            None => Ok(self.active()),
        }
    }

    /// Name of the active context (same rules as [`Config::active`]).
    pub fn active_name(&self) -> (r: Option<String>)
        ensures
            opt_view(r) == self@.active_name(),
    {
        if let Some(name) = &self.current_context {
            if self.contexts.contains_key(name.as_str()) {
                return Some(name.clone());
            }
        }
        if self.contexts.len() == 1 {
            return Some(self.contexts.key_at(0).clone());
        }
        None
    }
}


// ---------------------------------------------------------------------------
// Editing
// ---------------------------------------------------------------------------

impl ConfigView {
    /// This config with `name` as the current context.
    pub open spec fn with_current(self, name: Seq<char>) -> ConfigView {
        ConfigView { current_context: Some(name), ..self }
    }

    /// This config with `ctx` stored under `name`.
    pub open spec fn with_context(self, name: Seq<char>, ctx: ContextView) -> ConfigView {
        ConfigView { contexts: upsert(self.contexts, name, ctx), ..self }
    }

    /// This config without the context `name` (no longer current either).
    pub open spec fn without_context(self, name: Seq<char>) -> ConfigView {
        ConfigView {
            current_context: if self.current_context == Some(name) {
                None
            } else {
                self.current_context
            },
            contexts: remove_key(self.contexts, name),
        }
    }

    /// This config with the context `old` renamed to `new` (the current
    /// context follows the rename).
    pub open spec fn renamed(self, old: Seq<char>, new: Seq<char>) -> ConfigView {
        ConfigView {
            current_context: if self.current_context == Some(old) {
                Some(new)
            } else {
                self.current_context
            },
            contexts: upsert(remove_key(self.contexts, old), new, lookup(self.contexts, old).unwrap()),
        }
    }
}

/// `r` is the "no such context" error for `name`.
pub open spec fn is_no_such(r: Result<(), ConfigError>, name: Seq<char>) -> bool {
    r matches Err(ConfigError::NoSuchContext(n)) && n@ == name
}

/// `r` is the "already exists" error for `name`.
pub open spec fn is_taken(r: Result<(), ConfigError>, name: Seq<char>) -> bool {
    r matches Err(ConfigError::AlreadyExists(n)) && n@ == name
}

impl ConfigError {
    /// The message shown for this error.
    pub fn message(&self) -> (m: String)
        ensures
            m@ == match self {
                ConfigError::NoSuchContext(n) => "no context named '"@ + n@ + "'"@,
                ConfigError::AlreadyExists(n) => "context '"@ + n@ + "' already exists"@,
                ConfigError::NoActiveContext => "no active context to log out of"@,
            },
    {
        match self {
            ConfigError::NoSuchContext(n) => crate::text::concat3("no context named '", n.as_str(), "'"),
            ConfigError::AlreadyExists(n) => crate::text::concat3("context '", n.as_str(), "' already exists"),
            ConfigError::NoActiveContext => owned("no active context to log out of"),
        }
    }
}

impl Config {
    /// Insert or replace the context `name`.
    pub fn upsert(&mut self, name: &str, ctx: Context)
        ensures
            final(self)@ == old(self)@.with_context(name@, ctx@),
            crate::ctxmap::sorted(old(self)@.contexts),
    {
        self.contexts.insert(owned(name), ctx);
    }

    /// Make `name` the current context; refused when no context has that name.
    pub fn set_current(&mut self, name: &str) -> (r: Result<(), ConfigError>)
        ensures
            has_key(old(self)@.contexts, name@) ==> r is Ok && final(self)@ == old(self)@.with_current(name@),
            !has_key(old(self)@.contexts, name@) ==> is_no_such(r, name@) && final(self)@ == old(self)@,
    {
        if !self.contexts.contains_key(name) {
            return Err(ConfigError::NoSuchContext(name.to_string()));
        }
        self.current_context = Some(owned(name));
        Ok(())
    }

    /// Remove the context `name` (and forget it as current); refused when
    /// there is none.
    pub fn remove(&mut self, name: &str) -> (r: Result<(), ConfigError>)
        ensures
            has_key(old(self)@.contexts, name@) ==> r is Ok && final(self)@ == old(self)@.without_context(name@),
            !has_key(old(self)@.contexts, name@) ==> is_no_such(r, name@) && final(self)@ == old(self)@,
    {
        if !self.contexts.contains_key(name) {
            return Err(ConfigError::NoSuchContext(name.to_string()));
        }
        let _ = self.contexts.remove(name);
        let is_current = match &self.current_context {
            Some(c) => eq_str(c.as_str(), name),
            None => false,
        };
        if is_current {
            self.current_context = None;
        }
        Ok(())
    }

    /// Rename the context `from` to `to` (the current context follows);
    /// refused when `from` is missing or `to` is taken.
    pub fn rename(&mut self, from: &str, to: &str) -> (r: Result<(), ConfigError>)
        ensures
            !has_key(old(self)@.contexts, from@) ==> is_no_such(r, from@) && final(self)@ == old(self)@,
            has_key(old(self)@.contexts, from@) && has_key(old(self)@.contexts, to@) ==> is_taken(r, to@)
                && final(self)@ == old(self)@,
            has_key(old(self)@.contexts, from@) && !has_key(old(self)@.contexts, to@) ==> r is Ok
                && final(self)@ == old(self)@.renamed(from@, to@),
    {
        if !self.contexts.contains_key(from) {
            return Err(ConfigError::NoSuchContext(from.to_string()));
        }
        if self.contexts.contains_key(to) {
            return Err(ConfigError::AlreadyExists(to.to_string()));
        }
        let moved = self.contexts.remove(from);
        match moved {
            Some(ctx) => {
                self.contexts.insert(owned(to), ctx);
            },
            None => {},
        }
        let is_current = match &self.current_context {
            Some(c) => eq_str(c.as_str(), from),
            None => false,
        };
        if is_current {
            self.current_context = Some(owned(to));
        }
        Ok(())
    }
}


// ---------------------------------------------------------------------------
// Writing
// ---------------------------------------------------------------------------

/// A value between double quotes.
pub open spec fn quoted_value(v: Seq<char>) -> Seq<char> {
    seq!['"'] + v + seq!['"']
}

/// A `key = "value"` line.
pub open spec fn key_line(key: Seq<char>, v: Seq<char>) -> Seq<char> {
    key + " = "@ + quoted_value(v) + seq!['\n']
}

/// A `key = "value"` line when the value is set, nothing otherwise.
pub open spec fn opt_key_line(key: Seq<char>, o: Option<Seq<char>>) -> Seq<char> {
    match o {
        Some(v) => key_line(key, v),
        None => seq![],
    }
}

/// The section of one context: its `[context."NAME"]` header and its keys.
pub open spec fn context_text(name: Seq<char>, c: ContextView) -> Seq<char> {
    "[context."@ + quoted_value(name) + "]\n"@ + key_line("server"@, c.server) + opt_key_line("token"@, c.token)
        + opt_key_line("ca"@, c.ca) + opt_key_line("ca-sha256"@, c.ca_sha256) + opt_key_line("project"@, c.project)
        + opt_key_line("token-name"@, c.token_name) + if c.insecure {
        key_line("insecure"@, "true"@)
    } else {
        seq![]
    }
}

/// The sections of the contexts, in order.
pub open spec fn contexts_text(e: Entries) -> Seq<char>
    decreases e.len(),
{
    if e.len() == 0 {
        seq![]
    } else {
        contexts_text(e.drop_last()) + context_text(e.last().0, e.last().1)
    }
}

/// The file that a config is saved as: the current context, then one
/// section per context.
pub open spec fn config_text(c: ConfigView) -> Seq<char> {
    opt_key_line("current-context"@, c.current_context) + contexts_text(c.contexts)
}

fn push_key_line(out: &mut String, key: &str, v: &str)
    ensures
        final(out)@ == old(out)@ + key_line(key@, v@),
{
    proof {
        reveal_strlit(" = \"");
        reveal_strlit("\"\n");
        reveal_strlit(" = ");
        assert(" = \""@ =~= " = "@ + seq!['"']);
        assert("\"\n"@ =~= seq!['"', '\n']);
    }
    out.append(key);
    out.append(" = \"");
    out.append(v);
    out.append("\"\n");
    assert(out@ =~= old(out)@ + key_line(key@, v@));
}

fn push_opt_key_line(out: &mut String, key: &str, o: &Option<String>)
    ensures
        final(out)@ == old(out)@ + opt_key_line(key@, opt_view(*o)),
{
    match o {
        Some(v) => push_key_line(out, key, v.as_str()),
        None => {
            assert(out@ =~= out@ + opt_key_line(key@, opt_view(*o)));
        },
    }
}

fn push_context(out: &mut String, name: &str, c: &Context)
    ensures
        final(out)@ == old(out)@ + context_text(name@, c@),
{
    proof {
        reveal_strlit("[context.\"");
        reveal_strlit("\"]\n");
        reveal_strlit("[context.");
        reveal_strlit("]\n");
        assert("[context.\""@ =~= "[context."@ + seq!['"']);
        assert("\"]\n"@ =~= seq!['"'] + "]\n"@);
    }
    let ghost start = out@;
    out.append("[context.\"");
    out.append(name);
    out.append("\"]\n");
    assert(out@ =~= start + "[context."@ + quoted_value(name@) + "]\n"@);
    let ghost h = out@;
    push_key_line(out, "server", c.server.as_str());
    push_opt_key_line(out, "token", &c.token);
    push_opt_key_line(out, "ca", &c.ca);
    push_opt_key_line(out, "ca-sha256", &c.ca_sha256);
    push_opt_key_line(out, "project", &c.project);
    push_opt_key_line(out, "token-name", &c.token_name);
    let ghost k = out@;
    if c.insecure {
        push_key_line(out, "insecure", "true");
    }
    assert(out@ =~= k + if c.insecure {
        key_line("insecure"@, "true"@)
    } else {
        Seq::<char>::empty()
    });
    assert(out@ =~= start + context_text(name@, c@));
}

impl Config {
    /// The text that this config is saved as (and that [`parse`] reads back).
    pub fn to_text(&self) -> (r: String)
        ensures
            r@ == config_text(self@),
    {
        let mut out = String::new();
        push_opt_key_line(&mut out, "current-context", &self.current_context);
        let ghost head = out@;
        let mut i: usize = 0;
        while i < self.contexts.len()
            invariant
                i <= self.contexts@.len(),
                head == opt_key_line("current-context"@, self@.current_context),
                out@ == head + contexts_text(self.contexts@.take(i as int)),
            decreases self.contexts@.len() - i,
        {
            let name = self.contexts.key_at(i);
            let c = self.contexts.value_at(i);
            push_context(&mut out, name.as_str(), c);
            proof {
                crate::panel::lemma_lines_take(self.contexts@, i as int);
            }
            i += 1;
        }
        assert(self.contexts@.take(self.contexts@.len() as int) =~= self.contexts@);
        out
    }
}

// ---------------------------------------------------------------------------
// Where the file lives
// ---------------------------------------------------------------------------

/// Where the config file lives, from the values of `HELYOS_CONFIG`, `HOME`
/// and `USERPROFILE`: the first of them that is set and not empty, with
/// `true` when `.helyos/config.toml` is to be joined onto it (a home
/// directory) and `false` when it names the file itself; `None` when all
/// three are missing or empty.
pub open spec fn config_location_spec(
    helyos_config: Option<Seq<char>>,
    home: Option<Seq<char>>,
    userprofile: Option<Seq<char>>,
) -> Option<(Seq<char>, bool)> {
    if helyos_config is Some && helyos_config->0.len() > 0 {
        Some((helyos_config->0, false))
    } else if home is Some && home->0.len() > 0 {
        Some((home->0, true))
    } else if userprofile is Some && userprofile->0.len() > 0 {
        Some((userprofile->0, true))
    } else {
        None
    }
}

/// Where the config file lives: `HELYOS_CONFIG` when it is not empty, else
/// `.helyos/config.toml` under `HOME`, else under `USERPROFILE`.
pub fn config_location(helyos_config: Option<&str>, home: Option<&str>, userprofile: Option<&str>) -> (r: Option<(String, bool)>)
    ensures
        match r {
            Some((p, join)) => config_location_spec(opt_str_view(helyos_config), opt_str_view(home), opt_str_view(userprofile))
                == Some((p@, join)),
            None => config_location_spec(opt_str_view(helyos_config), opt_str_view(home), opt_str_view(userprofile)) is None,
        },
{
    if let Some(p) = helyos_config {
        if p.unicode_len() > 0 {
            return Some((p.to_string(), false));
        }
    }
    if let Some(h) = home {
        if h.unicode_len() > 0 {
            return Some((h.to_string(), true));
        }
    }
    if let Some(h) = userprofile {
        if h.unicode_len() > 0 {
            return Some((h.to_string(), true));
        }
    }
    None
}

} // verus!
