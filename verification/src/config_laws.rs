//! Saving a config and reading it back gives the same config.
use vstd::prelude::*;
use crate::config::{
    apply_key_spec, config_text, context_text, contexts_text, finish, header_inner, initial_state, key_line,
    opt_key_line, parse_line, parse_lines, parse_spec, quoted_value, top_key, unquote, ConfigView, ContextView,
    ParseState, Section,
};
use crate::ctxmap::{ensure_key, has_key, lemma_lookup_none, lemma_upsert, lookup, sorted, upsert, Entries};
use crate::text::{
    find, is_ws, lead_ws, lemma_lex_asym, lemma_lex_irreflexive, lemma_lines_unfold, lex_lt, lines, occurs_at,
    split_once, starts_with, strip_cr, trail_ws, trim,
};

verus! {

/// Inside a `[context.NAME]` section, a line `insecure = v` turns TLS checks
/// off for that context exactly when `v` (unquoted) is the text `true`; any
/// other value, `false` or `yes` or empty, leaves them on. Nothing else of
/// the context changes.
pub proof fn insecure_only_when_true(st: ParseState, raw: Seq<char>, name: Seq<char>, k: Seq<char>, v: Seq<char>)
    requires
        sorted(st.cfg.contexts),
        st.section == Section::Named(name),
        trim(raw).len() > 0,
        trim(raw)[0] != '#',
        header_inner(trim(raw)) is None,
        split_once(trim(raw), "="@) == Some((k, v)),
        trim(k) == "insecure"@,
    ensures
        ({
            let before = match lookup(st.cfg.contexts, name) {
                Some(c) => c,
                None => ContextView::empty(),
            };
            &&& lookup(parse_line(st, raw).cfg.contexts, name) matches Some(c)
            &&& (lookup(parse_line(st, raw).cfg.contexts, name)->0.insecure <==> unquote(v) == "true"@)
            &&& lookup(parse_line(st, raw).cfg.contexts, name)->0.server == before.server
            &&& lookup(parse_line(st, raw).cfg.contexts, name)->0.token == before.token
            &&& lookup(parse_line(st, raw).cfg.contexts, name)->0.ca == before.ca
        }),
{
    reveal_strlit("insecure");
    reveal_strlit("server");
    reveal_strlit("token");
    reveal_strlit("ca");
    reveal_strlit("ca-sha256");
    reveal_strlit("project");
    reveal_strlit("token-name");
    let before = match lookup(st.cfg.contexts, name) {
        Some(c) => c,
        None => ContextView::empty(),
    };
    let key = trim(k);
    assert(key.len() == 8);
    assert(key != "server"@);
    assert(key != "token"@);
    assert(key != "ca"@);
    assert(key != "ca-sha256"@);
    assert(key != "project"@);
    assert(key != "token-name"@);
    let after = apply_key_spec(before, key, unquote(v));
    assert(after == ContextView { insecure: unquote(v) == "true"@, ..before });
    lemma_upsert(st.cfg.contexts, name, after);
}

/// The config that a list of lines describes.
pub open spec fn parsed_lines(ls: Seq<Seq<char>>) -> ConfigView {
    finish(parse_lines(ls, ls.len()))
}

/// A line that the parser passes over: blank, or a `#` comment.
pub open spec fn ignorable_line(l: Seq<char>) -> bool {
    trim(l).len() == 0 || trim(l)[0] == '#'
}

/// Before an inserted line, the state is the same as without it.
proof fn lemma_insert_prefix(ls: Seq<Seq<char>>, i: int, l: Seq<char>, n: nat)
    requires
        0 <= i <= ls.len(),
        n <= i,
    ensures
        parse_lines(ls.insert(i, l), n) == parse_lines(ls, n),
    decreases n,
{
    if n > 0 {
        lemma_insert_prefix(ls, i, l, (n - 1) as nat);
        assert(ls.insert(i, l)[n - 1] == ls[n - 1]);
    }
}

/// After an inserted ignorable line, the state is one line behind.
proof fn lemma_insert_suffix(ls: Seq<Seq<char>>, i: int, l: Seq<char>, n: nat)
    requires
        0 <= i <= n <= ls.len(),
        ignorable_line(l),
    ensures
        parse_lines(ls.insert(i, l), n + 1) == parse_lines(ls, n),
    decreases n,
{
    let ls2 = ls.insert(i, l);
    if n == i {
        lemma_insert_prefix(ls, i, l, n);
        assert(ls2[n as int] == l);
    } else {
        lemma_insert_suffix(ls, i, l, (n - 1) as nat);
        assert(ls2[n as int] == ls[n - 1]);
    }
}

/// Reading one more line leaves the states of the lines before it alone.
proof fn lemma_parse_prefix(ls: Seq<Seq<char>>, x: Seq<char>, k: nat)
    requires
        k <= ls.len(),
    ensures
        parse_lines(ls.push(x), k) == parse_lines(ls, k),
    decreases k,
{
    if k > 0 {
        lemma_parse_prefix(ls, x, (k - 1) as nat);
        assert(ls.push(x)[k - 1] == ls[k - 1]);
    }
}

/// Reading one more line takes the state one line further.
proof fn lemma_parse_push(ls: Seq<Seq<char>>, x: Seq<char>)
    ensures
        parse_lines(ls.push(x), ls.len() + 1) == parse_line(parse_lines(ls, ls.len()), x),
{
    lemma_parse_prefix(ls, x, ls.len());
    assert(ls.push(x)[ls.len() as int] == x);
}

/// The lines that the parser does not pass over.
pub open spec fn meaningful_lines(ls: Seq<Seq<char>>) -> Seq<Seq<char>> {
    ls.filter(|l: Seq<char>| !ignorable_line(l))
}

/// The state after some lines is the state after their meaningful lines.
proof fn lemma_parse_meaningful(ls: Seq<Seq<char>>)
    ensures
        parse_lines(ls, ls.len()) == parse_lines(meaningful_lines(ls), meaningful_lines(ls).len()),
    decreases ls.len(),
{
    reveal(Seq::filter);
    if ls.len() > 0 {
        let init = ls.drop_last();
        let x = ls.last();
        lemma_parse_meaningful(init);
        assert(init.push(x) =~= ls);
        lemma_parse_push(init, x);
        let m = meaningful_lines(init);
        if ignorable_line(x) {
            assert(meaningful_lines(ls) == m);
        } else {
            assert(meaningful_lines(ls) == m.push(x));
            lemma_parse_push(m, x);
        }
    }
}

/// The config read from some lines is the one read from their meaningful
/// lines alone.
pub proof fn only_meaningful_lines_count(ls: Seq<Seq<char>>)
    ensures
        parsed_lines(ls) == parsed_lines(meaningful_lines(ls)),
{
    lemma_parse_meaningful(ls);
}

/// Two files whose lines differ only in blank and `#` comment lines, added
/// or taken out anywhere, read to the same config.
pub proof fn ignorable_lines_never_matter(ls1: Seq<Seq<char>>, ls2: Seq<Seq<char>>)
    requires
        meaningful_lines(ls1) == meaningful_lines(ls2),
    ensures
        parsed_lines(ls1) == parsed_lines(ls2),
{
    only_meaningful_lines_count(ls1);
    only_meaningful_lines_count(ls2);
}

/// A file is read as its lines (`parse_spec(s) == parsed_lines(lines(s))`),
/// and putting a blank or comment line anywhere among them, or taking one
/// out, leaves the config read the same.
pub proof fn ignorable_lines_change_nothing(ls: Seq<Seq<char>>, i: int, l: Seq<char>)
    requires
        0 <= i <= ls.len(),
        ignorable_line(l),
    ensures
        parsed_lines(ls.insert(i, l)) == parsed_lines(ls),
        forall|s: Seq<char>| parse_spec(s) == #[trigger] parsed_lines(lines(s)),
{
    lemma_insert_suffix(ls, i, l, ls.len());
}

// ---------------------------------------------------------------------------
// The saved file as a list of lines
// ---------------------------------------------------------------------------

/// A `key = "value"` line without its line feed.
pub open spec fn line_of(key: Seq<char>, v: Seq<char>) -> Seq<char> {
    key + " = "@ + quoted_value(v)
}

/// The line of an optional value.
pub open spec fn opt_lines(key: Seq<char>, o: Option<Seq<char>>) -> Seq<Seq<char>> {
    match o {
        Some(v) => seq![line_of(key, v)],
        None => seq![],
    }
}

/// A `[context."NAME"]` header without its line feed.
pub open spec fn header_of(name: Seq<char>) -> Seq<char> {
    "[context."@ + quoted_value(name) + "]"@
}

/// The lines of one context's section.
pub open spec fn context_lines(name: Seq<char>, c: ContextView) -> Seq<Seq<char>> {
    seq![header_of(name), line_of("server"@, c.server)] + opt_lines("token"@, c.token) + opt_lines("ca"@, c.ca)
        + opt_lines("ca-sha256"@, c.ca_sha256) + opt_lines("project"@, c.project) + opt_lines(
        "token-name"@,
        c.token_name,
    ) + if c.insecure {
        seq![line_of("insecure"@, "true"@)]
    } else {
        seq![]
    }
}

pub open spec fn contexts_lines(e: Entries) -> Seq<Seq<char>>
    decreases e.len(),
{
    if e.len() == 0 {
        seq![]
    } else {
        contexts_lines(e.drop_last()) + context_lines(e.last().0, e.last().1)
    }
}

pub open spec fn config_lines(c: ConfigView) -> Seq<Seq<char>> {
    opt_lines("current-context"@, c.current_context) + contexts_lines(c.contexts)
}

/// Lines, each followed by a line feed.
pub open spec fn joined(ls: Seq<Seq<char>>) -> Seq<char>
    decreases ls.len(),
{
    if ls.len() == 0 {
        seq![]
    } else {
        ls[0] + seq!['\n'] + joined(ls.drop_first())
    }
}

proof fn lemma_joined_concat(a: Seq<Seq<char>>, b: Seq<Seq<char>>)
    ensures
        joined(a + b) == joined(a) + joined(b),
    decreases a.len(),
{
    if a.len() == 0 {
        assert(a + b =~= b);
        assert(joined(a) + joined(b) =~= joined(b));
    } else {
        lemma_joined_concat(a.drop_first(), b);
        assert((a + b).drop_first() =~= a.drop_first() + b);
        assert((a + b)[0] == a[0]);
        assert(joined(a + b) =~= joined(a) + joined(b));
    }
}

proof fn lemma_joined_one(l: Seq<char>)
    ensures
        joined(seq![l]) == l + seq!['\n'],
{
    assert(seq![l].drop_first() =~= Seq::<Seq<char>>::empty());
    assert(joined(Seq::<Seq<char>>::empty()) == Seq::<char>::empty());
    assert(joined(seq![l]) == seq![l][0] + seq!['\n'] + joined(seq![l].drop_first()));
    assert(joined(seq![l]) =~= l + seq!['\n']);
}

proof fn lemma_key_line_joined(key: Seq<char>, v: Seq<char>)
    ensures
        key_line(key, v) == joined(seq![line_of(key, v)]),
{
    lemma_joined_one(line_of(key, v));
    assert(key_line(key, v) =~= line_of(key, v) + seq!['\n']);
}

proof fn lemma_opt_joined(key: Seq<char>, o: Option<Seq<char>>)
    ensures
        opt_key_line(key, o) == joined(opt_lines(key, o)),
{
    match o {
        Some(v) => lemma_key_line_joined(key, v),
        None => {},
    }
}

proof fn lemma_context_joined(name: Seq<char>, c: ContextView)
    ensures
        context_text(name, c) == joined(context_lines(name, c)),
{
    let h = seq![header_of(name), line_of("server"@, c.server)];
    let t1 = opt_lines("token"@, c.token);
    let t2 = opt_lines("ca"@, c.ca);
    let t3 = opt_lines("ca-sha256"@, c.ca_sha256);
    let t4 = opt_lines("project"@, c.project);
    let t5 = opt_lines("token-name"@, c.token_name);
    let t6: Seq<Seq<char>> = if c.insecure {
        seq![line_of("insecure"@, "true"@)]
    } else {
        seq![]
    };
    lemma_joined_concat(h, t1);
    lemma_joined_concat(h + t1, t2);
    lemma_joined_concat(h + t1 + t2, t3);
    lemma_joined_concat(h + t1 + t2 + t3, t4);
    lemma_joined_concat(h + t1 + t2 + t3 + t4, t5);
    lemma_joined_concat(h + t1 + t2 + t3 + t4 + t5, t6);
    lemma_opt_joined("token"@, c.token);
    lemma_opt_joined("ca"@, c.ca);
    lemma_opt_joined("ca-sha256"@, c.ca_sha256);
    lemma_opt_joined("project"@, c.project);
    lemma_opt_joined("token-name"@, c.token_name);
    if c.insecure {
        lemma_key_line_joined("insecure"@, "true"@);
    }
    lemma_key_line_joined("server"@, c.server);
    lemma_joined_concat(seq![header_of(name)], seq![line_of("server"@, c.server)]);
    assert(seq![header_of(name)] + seq![line_of("server"@, c.server)] =~= h);
    lemma_joined_one(header_of(name));
    reveal_strlit("]\n");
    reveal_strlit("]");
    assert("]\n"@ =~= "]"@ + seq!['\n']);
    assert(joined(h) =~= "[context."@ + quoted_value(name) + "]\n"@ + key_line("server"@, c.server));
    assert(context_lines(name, c) =~= h + t1 + t2 + t3 + t4 + t5 + t6);
}

proof fn lemma_contexts_joined(e: Entries)
    ensures
        contexts_text(e) == joined(contexts_lines(e)),
    decreases e.len(),
{
    if e.len() > 0 {
        lemma_contexts_joined(e.drop_last());
        lemma_context_joined(e.last().0, e.last().1);
        lemma_joined_concat(contexts_lines(e.drop_last()), context_lines(e.last().0, e.last().1));
    } else {
        assert(contexts_lines(e) =~= Seq::<Seq<char>>::empty());
    }
}

proof fn lemma_config_joined(c: ConfigView)
    ensures
        config_text(c) == joined(config_lines(c)),
{
    lemma_opt_joined("current-context"@, c.current_context);
    lemma_contexts_joined(c.contexts);
    lemma_joined_concat(opt_lines("current-context"@, c.current_context), contexts_lines(c.contexts));
}

/// A line without line feeds that does not end in a carriage return.
pub open spec fn plain_line(l: Seq<char>) -> bool {
    &&& forall|k: int| 0 <= k < l.len() ==> l[k] != '\n'
    &&& l.len() > 0 ==> l.last() != '\r'
}

proof fn lemma_lines_joined(ls: Seq<Seq<char>>)
    requires
        forall|i: int| 0 <= i < ls.len() ==> plain_line(#[trigger] ls[i]),
    ensures
        lines(joined(ls)) == ls,
    decreases ls.len(),
{
    if ls.len() > 0 {
        let rest = ls.drop_first();
        assert forall|i: int| 0 <= i < rest.len() implies plain_line(#[trigger] rest[i]) by {
            assert(rest[i] == ls[i + 1]);
        }
        lemma_lines_joined(rest);
        let l = ls[0];
        assert(plain_line(ls[0]));
        let s = joined(ls);
        assert(s == l + seq!['\n'] + joined(rest));
        assert(s[l.len() as int] == '\n');
        assert forall|k: int| 0 <= k < l.len() implies s[k] != '\n' by {
            assert(s[k] == l[k]);
        }
        lemma_lines_unfold(s, l.len() as int);
        assert(s.subrange(0, l.len() as int) =~= l);
        assert(s.subrange((l.len() + 1) as int, s.len() as int) =~= joined(rest));
        assert(strip_cr(l) == l);
        assert(lines(s) =~= ls);
    }
}


// ---------------------------------------------------------------------------
// Reading the lines back
// ---------------------------------------------------------------------------

/// The parse state after the lines `ls`, one after the other, from `st`.
pub open spec fn run(st: ParseState, ls: Seq<Seq<char>>) -> ParseState
    decreases ls.len(),
{
    if ls.len() == 0 {
        st
    } else {
        parse_line(run(st, ls.drop_last()), ls.last())
    }
}

proof fn lemma_parse_lines_run(ls: Seq<Seq<char>>, n: nat)
    requires
        n <= ls.len(),
    ensures
        parse_lines(ls, n) == run(initial_state(), ls.take(n as int)),
    decreases n,
{
    if n > 0 {
        lemma_parse_lines_run(ls, (n - 1) as nat);
        assert(ls.take(n as int).drop_last() =~= ls.take(n - 1));
    } else {
        assert(ls.take(0) =~= Seq::<Seq<char>>::empty());
    }
}

proof fn lemma_run_concat(st: ParseState, a: Seq<Seq<char>>, b: Seq<Seq<char>>)
    ensures
        run(st, a + b) == run(run(st, a), b),
    decreases b.len(),
{
    if b.len() == 0 {
        assert(a + b =~= a);
    } else {
        lemma_run_concat(st, a, b.drop_last());
        assert((a + b).drop_last() =~= a + b.drop_last());
        assert((a + b).last() == b.last());
    }
}

proof fn lemma_run_one(st: ParseState, l: Seq<char>)
    ensures
        run(st, seq![l]) == parse_line(st, l),
{
    assert(seq![l].drop_last() =~= Seq::<Seq<char>>::empty());
    assert(run(st, Seq::<Seq<char>>::empty()) == st);
    assert(seq![l].last() == l);
}

proof fn lemma_trim_noop(s: Seq<char>)
    requires
        s.len() > 0,
        !is_ws(s[0]),
        !is_ws(s.last()),
    ensures
        trim(s) == s,
{
    assert(lead_ws(s) == 0);
    assert(s.subrange(0, s.len() as int) =~= s);
    assert(trail_ws(s) == 0);
}

proof fn lemma_find_char(s: Seq<char>, c: char, i: int)
    requires
        0 <= i < s.len(),
        s[i] == c,
        forall|k: int| 0 <= k < i ==> s[k] != c,
    ensures
        find(s, seq![c]) == Some(i),
{
    reveal(find);
    let p = seq![c];
    assert forall|k: int| 0 <= k < i implies !occurs_at(s, p, k) by {
        assert(s.subrange(k, k + 1)[0] == s[k]);
    }
    assert(s.subrange(i, i + 1) =~= p);
    assert(occurs_at(s, p, i));
    let w = choose|w: int| occurs_at(s, p, w) && forall|m: int| 0 <= m < w ==> !occurs_at(s, p, m);
    assert(w == i) by {
        if w < i {
            assert(!occurs_at(s, p, w));
        }
        if w > i {
            assert(!occurs_at(s, p, i));
        }
    }
}

/// A key of the file: lower-case letters, digits and dashes.
pub open spec fn simple_key(key: Seq<char>) -> bool {
    &&& key.len() > 0
    &&& forall|k: int| 0 <= k < key.len() ==> ('a' <= #[trigger] key[k] && key[k] <= 'z') || ('0' <= key[k] && key[k] <= '9') || key[k] == '-'
}

proof fn lemma_unquote_quoted(v: Seq<char>)
    ensures
        unquote(quoted_value(v)) == v,
        unquote(seq![' '] + quoted_value(v)) == v,
{
    let q = quoted_value(v);
    lemma_trim_noop(q);
    assert(q.subrange(1, q.len() - 1) =~= v);
    let sq = seq![' '] + q;
    assert(lead_ws(sq) == 1 + lead_ws(sq.drop_first()));
    assert(sq.drop_first() =~= q);
    assert(lead_ws(q) == 0);
    assert(sq.subrange(1, sq.len() as int) =~= q);
    assert(trail_ws(q) == 0);
    assert(q.subrange(0, q.len() as int) =~= q);
    assert(trim(sq) == q);
}

/// What a `key = value` line does to the parse state.
pub open spec fn key_step(st: ParseState, key: Seq<char>, value: Seq<char>) -> ParseState {
    match st.section {
        Section::Top => top_key(st, key, value),
        Section::Ignored => st,
        Section::Named(name) => {
            let ctx = match lookup(st.cfg.contexts, name) {
                Some(c) => c,
                None => ContextView::empty(),
            };
            ParseState {
                cfg: ConfigView { contexts: upsert(st.cfg.contexts, name, apply_key_spec(ctx, key, value)), ..st.cfg },
                ..st
            }
        },
    }
}

proof fn lemma_key_line(st: ParseState, key: Seq<char>, v: Seq<char>)
    requires
        simple_key(key),
    ensures
        parse_line(st, line_of(key, v)) == key_step(st, key, v),
{
    reveal_strlit(" = ");
    reveal_strlit("=");
    let line = line_of(key, v);
    let n = key.len() as int;
    assert(line[0] == key[0]);
    assert(line.last() == '"');
    lemma_trim_noop(line);
    assert(header_inner(line) is None);
    assert("="@ =~= seq!['=']);
    assert forall|k: int| 0 <= k < n + 1 implies line[k] != '=' by {
        if k < n {
            assert(line[k] == key[k]);
        }
    }
    assert(line[n + 1] == '=');
    lemma_find_char(line, '=', n + 1);
    let kpart = line.subrange(0, n + 1);
    let vpart = line.subrange(n + 2, line.len() as int);
    assert(split_once(line, "="@) == Some((kpart, vpart)));
    assert(kpart =~= key + seq![' ']);
    assert(vpart =~= seq![' '] + quoted_value(v));
    lemma_unquote_quoted(v);
    assert(lead_ws(kpart) == 0);
    assert(trail_ws(kpart) == 1 + trail_ws(kpart.drop_last()));
    assert(kpart.drop_last() =~= key);
    assert(trail_ws(key) == 0);
    assert(kpart.subrange(0, kpart.len() as int) =~= kpart);
    assert(kpart.subrange(0, kpart.len() - 1) =~= key);
    assert(trim(kpart) == key);
}

proof fn lemma_header_line(st: ParseState, name: Seq<char>)
    requires
        name.len() > 0,
    ensures
        parse_line(st, header_of(name)) == (ParseState {
            cfg: ConfigView { contexts: ensure_key(st.cfg.contexts, name), ..st.cfg },
            section: Section::Named(name),
            ..st
        }),
{
    reveal_strlit("[context.");
    reveal_strlit("context.");
    reveal_strlit("]");
    let line = header_of(name);
    assert(line[0] == '[');
    assert(line.last() == ']');
    lemma_trim_noop(line);
    let inner = line.subrange(1, line.len() - 1);
    assert(inner =~= "context."@ + quoted_value(name));
    assert(inner[0] == 'c');
    assert(inner.last() == '"');
    lemma_trim_noop(inner);
    assert(header_inner(line) == Some(inner));
    assert(inner.subrange(0, 8) =~= "context."@);
    assert(starts_with(inner, "context."@));
    assert(inner.subrange(8, inner.len() as int) =~= quoted_value(name));
    lemma_unquote_quoted(name);
}

// ---------------------------------------------------------------------------
// One context's section
// ---------------------------------------------------------------------------

/// Every name in `p` comes before `name`.
pub open spec fn all_before(p: Entries, name: Seq<char>) -> bool {
    forall|i: int| 0 <= i < p.len() ==> lex_lt(#[trigger] p[i].0, name)
}

proof fn lemma_upsert_after_all(p: Entries, k: Seq<char>, v: ContextView)
    requires
        all_before(p, k),
    ensures
        upsert(p, k, v) == p.push((k, v)),
    decreases p.len(),
{
    if p.len() == 0 {
        assert(seq![(k, v)] =~= p.push((k, v)));
    } else {
        assert(lex_lt(p[0].0, k));
        lemma_lex_irreflexive(k);
        lemma_lex_asym(p[0].0, k);
        assert(all_before(p.drop_first(), k)) by {
            assert forall|i: int| 0 <= i < p.drop_first().len() implies lex_lt(#[trigger] p.drop_first()[i].0, k) by {
                assert(p.drop_first()[i] == p[i + 1]);
            }
        }
        lemma_upsert_after_all(p.drop_first(), k, v);
        assert(seq![p[0]] + p.drop_first().push((k, v)) =~= p.push((k, v)));
    }
}

proof fn lemma_upsert_last(p: Entries, k: Seq<char>, w: ContextView, v: ContextView)
    requires
        all_before(p, k),
    ensures
        upsert(p.push((k, w)), k, v) == p.push((k, v)),
        lookup(p.push((k, w)), k) == Some(w),
    decreases p.len(),
{
    let s = p.push((k, w));
    if p.len() == 0 {
        assert(s[0].0 == k);
        assert(s.drop_first() =~= Seq::<(Seq<char>, ContextView)>::empty());
        assert(seq![(k, v)] + s.drop_first() =~= p.push((k, v)));
    } else {
        assert(lex_lt(p[0].0, k));
        lemma_lex_irreflexive(k);
        lemma_lex_asym(p[0].0, k);
        assert(s[0] == p[0]);
        assert(s.drop_first() =~= p.drop_first().push((k, w)));
        assert(all_before(p.drop_first(), k)) by {
            assert forall|i: int| 0 <= i < p.drop_first().len() implies lex_lt(#[trigger] p.drop_first()[i].0, k) by {
                assert(p.drop_first()[i] == p[i + 1]);
            }
        }
        lemma_upsert_last(p.drop_first(), k, w, v);
        assert(seq![p[0]] + p.drop_first().push((k, v)) =~= p.push((k, v)));
    }
}

/// The context after a line that may be absent.
pub open spec fn apply_opt(cur: ContextView, key: Seq<char>, o: Option<Seq<char>>) -> ContextView {
    match o {
        Some(v) => apply_key_spec(cur, key, v),
        None => cur,
    }
}

/// The parse is inside the section of `name`, the last context, which holds `cur`.
pub open spec fn in_section(st: ParseState, p: Entries, name: Seq<char>, cur: ContextView) -> bool {
    st.cfg.contexts == p.push((name, cur)) && st.section == Section::Named(name)
}

proof fn lemma_opt_step(st: ParseState, p: Entries, name: Seq<char>, cur: ContextView, key: Seq<char>, o: Option<Seq<char>>)
    requires
        in_section(st, p, name, cur),
        all_before(p, name),
        simple_key(key),
    ensures
        run(st, opt_lines(key, o)) == (ParseState {
            cfg: ConfigView { contexts: p.push((name, apply_opt(cur, key, o))), ..st.cfg },
            ..st
        }),
{
    match o {
        Some(v) => {
            lemma_run_one(st, line_of(key, v));
            lemma_key_line(st, key, v);
            lemma_upsert_last(p, name, cur, apply_key_spec(cur, key, v));
        },
        None => {
            assert(opt_lines(key, o) =~= Seq::<Seq<char>>::empty());
        },
    }
}


/// No line feed in the text.
pub open spec fn one_line(s: Seq<char>) -> bool {
    forall|k: int| 0 <= k < s.len() ==> s[k] != '\n'
}

/// An optional value that the file can hold: unset, or set, not empty and on one line.
pub open spec fn storable(o: Option<Seq<char>>) -> bool {
    match o {
        Some(v) => v.len() > 0 && one_line(v),
        None => true,
    }
}

/// A context that the file can hold: a non-empty name and a server on one
/// line each, and storable optional values.
pub open spec fn storable_context(name: Seq<char>, c: ContextView) -> bool {
    &&& name.len() > 0
    &&& one_line(name)
    &&& one_line(c.server)
    &&& storable(c.token)
    &&& storable(c.ca)
    &&& storable(c.ca_sha256)
    &&& storable(c.project)
    &&& storable(c.token_name)
}

proof fn lemma_keys_are_simple()
    ensures
        simple_key("server"@),
        simple_key("token"@),
        simple_key("ca"@),
        simple_key("ca-sha256"@),
        simple_key("project"@),
        simple_key("token-name"@),
        simple_key("insecure"@),
        simple_key("current-context"@),
{
    reveal_strlit("server");
    reveal_strlit("token");
    reveal_strlit("ca");
    reveal_strlit("ca-sha256");
    reveal_strlit("project");
    reveal_strlit("token-name");
    reveal_strlit("insecure");
    reveal_strlit("current-context");
}

proof fn lemma_before_is_absent(p: Entries, name: Seq<char>)
    requires
        all_before(p, name),
    ensures
        !has_key(p, name),
        ensure_key(p, name) == p.push((name, ContextView::empty())),
{
    assert forall|i: int| 0 <= i < p.len() implies (#[trigger] p[i]).0 != name by {
        lemma_lex_irreflexive(name);
        assert(lex_lt(p[i].0, name));
    }
    lemma_lookup_none(p, name);
    lemma_upsert_after_all(p, name, ContextView::empty());
}

/// The state inside the section of `name`, the last context, holding `cur`.
pub open spec fn sect_state(st: ParseState, p: Entries, name: Seq<char>, cur: ContextView) -> ParseState {
    ParseState { cfg: ConfigView { contexts: p.push((name, cur)), ..st.cfg }, section: Section::Named(name), ..st }
}

proof fn lemma_sect_step(st: ParseState, p: Entries, name: Seq<char>, cur: ContextView, key: Seq<char>, o: Option<Seq<char>>)
    requires
        all_before(p, name),
        simple_key(key),
    ensures
        run(sect_state(st, p, name, cur), opt_lines(key, o)) == sect_state(st, p, name, apply_opt(cur, key, o)),
{
    let s0 = sect_state(st, p, name, cur);
    lemma_opt_step(s0, p, name, cur, key, o);
}

/// `insecure = "true"` when the context skips TLS checks.
pub open spec fn insecure_value(c: ContextView) -> Option<Seq<char>> {
    if c.insecure {
        Some("true"@)
    } else {
        None
    }
}

/// The context that a section's key lines build from an empty one.
pub open spec fn built(c: ContextView) -> ContextView {
    let c1 = apply_opt(ContextView::empty(), "server"@, Some(c.server));
    let c2 = apply_opt(c1, "token"@, c.token);
    let c3 = apply_opt(c2, "ca"@, c.ca);
    let c4 = apply_opt(c3, "ca-sha256"@, c.ca_sha256);
    let c5 = apply_opt(c4, "project"@, c.project);
    let c6 = apply_opt(c5, "token-name"@, c.token_name);
    apply_opt(c6, "insecure"@, insecure_value(c))
}

proof fn lemma_block_runs(st: ParseState, p: Entries, name: Seq<char>, c: ContextView)
    requires
        all_before(p, name),
    ensures
        run(sect_state(st, p, name, ContextView::empty()), context_lines(name, c).drop_first()) == sect_state(
            st,
            p,
            name,
            built(c),
        ),
{
    lemma_keys_are_simple();
    let e = ContextView::empty();
    let l1 = opt_lines("server"@, Some(c.server));
    let t1 = opt_lines("token"@, c.token);
    let t2 = opt_lines("ca"@, c.ca);
    let t3 = opt_lines("ca-sha256"@, c.ca_sha256);
    let t4 = opt_lines("project"@, c.project);
    let t5 = opt_lines("token-name"@, c.token_name);
    let t6 = opt_lines("insecure"@, insecure_value(c));
    assert(context_lines(name, c).drop_first() =~= l1 + t1 + t2 + t3 + t4 + t5 + t6);
    let c1 = apply_opt(e, "server"@, Some(c.server));
    let c2 = apply_opt(c1, "token"@, c.token);
    let c3 = apply_opt(c2, "ca"@, c.ca);
    let c4 = apply_opt(c3, "ca-sha256"@, c.ca_sha256);
    let c5 = apply_opt(c4, "project"@, c.project);
    let c6 = apply_opt(c5, "token-name"@, c.token_name);
    let s0 = sect_state(st, p, name, e);
    lemma_sect_step(st, p, name, e, "server"@, Some(c.server));
    lemma_sect_step(st, p, name, c1, "token"@, c.token);
    lemma_run_concat(s0, l1, t1);
    lemma_sect_step(st, p, name, c2, "ca"@, c.ca);
    lemma_run_concat(s0, l1 + t1, t2);
    lemma_sect_step(st, p, name, c3, "ca-sha256"@, c.ca_sha256);
    lemma_run_concat(s0, l1 + t1 + t2, t3);
    lemma_sect_step(st, p, name, c4, "project"@, c.project);
    lemma_run_concat(s0, l1 + t1 + t2 + t3, t4);
    lemma_sect_step(st, p, name, c5, "token-name"@, c.token_name);
    lemma_run_concat(s0, l1 + t1 + t2 + t3 + t4, t5);
    lemma_sect_step(st, p, name, c6, "insecure"@, insecure_value(c));
    lemma_run_concat(s0, l1 + t1 + t2 + t3 + t4 + t5, t6);
}

proof fn lemma_set_server(cur: ContextView, v: Seq<char>)
    requires
        v.len() > 0 || cur.server == v,
    ensures
        apply_opt(cur, "server"@, Some(v)) == (ContextView { server: v, ..cur }),
{
    reveal_strlit("server");
    assert("server"@.len() == 6);
    reveal_strlit("insecure");
    assert("insecure"@.len() == 8);
}

proof fn lemma_set_token(cur: ContextView, o: Option<Seq<char>>)
    requires
        storable(o),
        cur.token is None,
    ensures
        apply_opt(cur, "token"@, o) == (ContextView { token: o, ..cur }),
{
    reveal_strlit("server");
    assert("server"@.len() == 6);
    reveal_strlit("token");
    assert("token"@.len() == 5);
    reveal_strlit("insecure");
    assert("insecure"@.len() == 8);
    assert("token"@.len() == 5);
    assert("token"@ != "server"@);
    assert("token"@ != "insecure"@);
    match o {
        Some(v) => {
            assert(v.len() > 0);
            assert(apply_key_spec(cur, "token"@, v) == ContextView { token: Some(v), ..cur });
        },
        None => {
            assert(cur == ContextView { token: o, ..cur });
        },
    }
}

proof fn lemma_set_ca(cur: ContextView, o: Option<Seq<char>>)
    requires
        storable(o),
        cur.ca is None,
    ensures
        apply_opt(cur, "ca"@, o) == (ContextView { ca: o, ..cur }),
{
    reveal_strlit("server");
    assert("server"@.len() == 6);
    reveal_strlit("token");
    assert("token"@.len() == 5);
    reveal_strlit("ca");
    assert("ca"@.len() == 2);
    reveal_strlit("insecure");
    assert("insecure"@.len() == 8);
    assert("ca"@ != "server"@);
    assert("ca"@ != "token"@);
    assert("ca"@ != "insecure"@);
    match o {
        Some(v) => {
            assert(v.len() > 0);
            assert(apply_key_spec(cur, "ca"@, v) == ContextView { ca: Some(v), ..cur });
        },
        None => {
            assert(cur == ContextView { ca: o, ..cur });
        },
    }
}

proof fn lemma_set_ca_sha(cur: ContextView, o: Option<Seq<char>>)
    requires
        storable(o),
        cur.ca_sha256 is None,
    ensures
        apply_opt(cur, "ca-sha256"@, o) == (ContextView { ca_sha256: o, ..cur }),
{
    reveal_strlit("server");
    assert("server"@.len() == 6);
    reveal_strlit("token");
    assert("token"@.len() == 5);
    reveal_strlit("ca");
    assert("ca"@.len() == 2);
    reveal_strlit("ca-sha256");
    assert("ca-sha256"@.len() == 9);
    reveal_strlit("insecure");
    assert("insecure"@.len() == 8);
    assert("ca-sha256"@ != "server"@);
    assert("ca-sha256"@ != "token"@);
    assert("ca-sha256"@ != "ca"@);
    assert("ca-sha256"@ != "insecure"@);
    match o {
        Some(v) => {
            assert(v.len() > 0);
            assert(apply_key_spec(cur, "ca-sha256"@, v) == ContextView { ca_sha256: Some(v), ..cur });
        },
        None => {
            assert(cur == ContextView { ca_sha256: o, ..cur });
        },
    }
}

proof fn lemma_set_project(cur: ContextView, o: Option<Seq<char>>)
    requires
        storable(o),
        cur.project is None,
    ensures
        apply_opt(cur, "project"@, o) == (ContextView { project: o, ..cur }),
{
    reveal_strlit("server");
    assert("server"@.len() == 6);
    reveal_strlit("token");
    assert("token"@.len() == 5);
    reveal_strlit("ca");
    assert("ca"@.len() == 2);
    reveal_strlit("ca-sha256");
    assert("ca-sha256"@.len() == 9);
    reveal_strlit("project");
    assert("project"@.len() == 7);
    reveal_strlit("insecure");
    assert("insecure"@.len() == 8);
    assert("project"@ != "server"@);
    assert("project"@ != "token"@);
    assert("project"@ != "ca"@);
    assert("project"@ != "ca-sha256"@);
    assert("project"@ != "insecure"@);
    match o {
        Some(v) => {
            assert(v.len() > 0);
            assert(apply_key_spec(cur, "project"@, v) == ContextView { project: Some(v), ..cur });
        },
        None => {
            assert(cur == ContextView { project: o, ..cur });
        },
    }
}

proof fn lemma_set_token_name(cur: ContextView, o: Option<Seq<char>>)
    requires
        storable(o),
        cur.token_name is None,
    ensures
        apply_opt(cur, "token-name"@, o) == (ContextView { token_name: o, ..cur }),
{
    reveal_strlit("server");
    assert("server"@.len() == 6);
    reveal_strlit("token");
    assert("token"@.len() == 5);
    reveal_strlit("ca");
    assert("ca"@.len() == 2);
    reveal_strlit("ca-sha256");
    assert("ca-sha256"@.len() == 9);
    reveal_strlit("project");
    assert("project"@.len() == 7);
    reveal_strlit("token-name");
    assert("token-name"@.len() == 10);
    reveal_strlit("insecure");
    assert("insecure"@.len() == 8);
    assert("token-name"@ != "server"@);
    assert("token-name"@ != "token"@);
    assert("token-name"@ != "ca"@);
    assert("token-name"@ != "ca-sha256"@);
    assert("token-name"@ != "project"@);
    assert("token-name"@ != "insecure"@);
    match o {
        Some(v) => {
            assert(v.len() > 0);
            assert(apply_key_spec(cur, "token-name"@, v) == ContextView { token_name: Some(v), ..cur });
        },
        None => {
            assert(cur == ContextView { token_name: o, ..cur });
        },
    }
}

proof fn lemma_set_insecure(cur: ContextView, c: ContextView)
    requires
        !cur.insecure,
    ensures
        apply_opt(cur, "insecure"@, insecure_value(c)) == (ContextView { insecure: c.insecure, ..cur }),
{
    reveal_strlit("server");
    assert("server"@.len() == 6);
    reveal_strlit("token");
    assert("token"@.len() == 5);
    reveal_strlit("ca");
    assert("ca"@.len() == 2);
    reveal_strlit("ca-sha256");
    assert("ca-sha256"@.len() == 9);
    reveal_strlit("project");
    assert("project"@.len() == 7);
    reveal_strlit("token-name");
    assert("token-name"@.len() == 10);
    reveal_strlit("insecure");
    assert("insecure"@.len() == 8);
    reveal_strlit("true");
    assert("true"@.len() == 4);
    assert("insecure"@ != "server"@);
    assert("insecure"@ != "token"@);
    assert("insecure"@ != "ca"@);
    assert("insecure"@ != "ca-sha256"@);
    assert("insecure"@ != "project"@);
    assert("insecure"@ != "token-name"@);
    if c.insecure {
        assert(apply_key_spec(cur, "insecure"@, "true"@) == ContextView { insecure: true, ..cur });
    } else {
        assert(cur == ContextView { insecure: c.insecure, ..cur });
    }
}

proof fn lemma_built(c: ContextView)
    requires
        storable(c.token),
        storable(c.ca),
        storable(c.ca_sha256),
        storable(c.project),
        storable(c.token_name),
    ensures
        built(c) == c,
{
    let e = ContextView::empty();
    if c.server.len() == 0 {
        assert(c.server =~= Seq::<char>::empty());
    }
    lemma_set_server(e, c.server);
    let c1 = apply_opt(e, "server"@, Some(c.server));
    lemma_set_token(c1, c.token);
    let c2 = apply_opt(c1, "token"@, c.token);
    lemma_set_ca(c2, c.ca);
    let c3 = apply_opt(c2, "ca"@, c.ca);
    lemma_set_ca_sha(c3, c.ca_sha256);
    let c4 = apply_opt(c3, "ca-sha256"@, c.ca_sha256);
    lemma_set_project(c4, c.project);
    let c5 = apply_opt(c4, "project"@, c.project);
    lemma_set_token_name(c5, c.token_name);
    let c6 = apply_opt(c5, "token-name"@, c.token_name);
    lemma_set_insecure(c6, c);
}

/// The section of a context, read after the contexts `p` that all come
/// before it, adds it after them.
proof fn lemma_context_block(st: ParseState, p: Entries, name: Seq<char>, c: ContextView)
    requires
        st.cfg.contexts == p,
        all_before(p, name),
        storable_context(name, c),
    ensures
        run(st, context_lines(name, c)) == sect_state(st, p, name, c),
{
    let e = ContextView::empty();
    lemma_before_is_absent(p, name);
    lemma_run_one(st, header_of(name));
    lemma_header_line(st, name);
    assert(run(st, seq![header_of(name)]) == sect_state(st, p, name, e));
    lemma_block_runs(st, p, name, c);
    lemma_built(c);
    let ls = context_lines(name, c);
    assert(ls =~= seq![header_of(name)] + ls.drop_first());
    lemma_run_concat(st, seq![header_of(name)], ls.drop_first());
}

/// The sections of sorted contexts, read after a state with no contexts,
/// give those contexts.
proof fn lemma_contexts_block(st: ParseState, e: Entries)
    requires
        st.cfg.contexts == Seq::<(Seq<char>, ContextView)>::empty(),
        sorted(e),
        forall|i: int| 0 <= i < e.len() ==> storable_context(#[trigger] e[i].0, e[i].1),
    ensures
        run(st, contexts_lines(e)).cfg == (ConfigView { contexts: e, ..st.cfg }),
        run(st, contexts_lines(e)).legacy_seen == st.legacy_seen,
    decreases e.len(),
{
    if e.len() == 0 {
        assert(contexts_lines(e) =~= Seq::<Seq<char>>::empty());
        assert(e =~= Seq::<(Seq<char>, ContextView)>::empty());
    } else {
        let d = e.drop_last();
        assert(sorted(d));
        assert forall|i: int| 0 <= i < d.len() implies storable_context(#[trigger] d[i].0, d[i].1) by {
            assert(d[i] == e[i]);
        }
        lemma_contexts_block(st, d);
        let mid = run(st, contexts_lines(d));
        assert(all_before(d, e.last().0)) by {
            assert forall|i: int| 0 <= i < d.len() implies lex_lt(#[trigger] d[i].0, e.last().0) by {
                assert(d[i] == e[i]);
            }
        }
        assert(storable_context(e[e.len() - 1].0, e[e.len() - 1].1));
        lemma_context_block(mid, d, e.last().0, e.last().1);
        lemma_run_concat(st, contexts_lines(d), context_lines(e.last().0, e.last().1));
        assert(d.push((e.last().0, e.last().1)) =~= e);
    }
}

/// A config whose every value the file can hold.
pub open spec fn storable_config(c: ConfigView) -> bool {
    &&& sorted(c.contexts)
    &&& storable(c.current_context)
    &&& forall|i: int| 0 <= i < c.contexts.len() ==> storable_context(#[trigger] c.contexts[i].0, c.contexts[i].1)
}

proof fn lemma_lines_are_plain(c: ConfigView)
    requires
        storable_config(c),
    ensures
        forall|i: int| 0 <= i < config_lines(c).len() ==> plain_line(#[trigger] config_lines(c)[i]),
{
    lemma_keys_one_line();
    lemma_plain_opt("current-context"@, c.current_context);
    lemma_plain_contexts(c.contexts);
    let a = opt_lines("current-context"@, c.current_context);
    let b = contexts_lines(c.contexts);
    assert forall|i: int| 0 <= i < (a + b).len() implies plain_line(#[trigger] (a + b)[i]) by {
        if i < a.len() {
            assert((a + b)[i] == a[i]);
        } else {
            assert((a + b)[i] == b[i - a.len()]);
        }
    }
}

proof fn lemma_plain_line_of(key: Seq<char>, v: Seq<char>)
    requires
        one_line(key),
        one_line(v),
    ensures
        plain_line(line_of(key, v)),
{
    reveal_strlit(" = ");
    let l = line_of(key, v);
    assert forall|k: int| 0 <= k < l.len() implies l[k] != '\n' by {
        if k < key.len() {
            assert(l[k] == key[k]);
        } else if k < key.len() + 3 {
        } else if k == key.len() + 3 {
        } else if k < key.len() + 4 + v.len() {
            assert(l[k] == v[k - key.len() - 4]);
        }
    }
}

proof fn lemma_plain_opt(key: Seq<char>, o: Option<Seq<char>>)
    requires
        one_line(key),
        storable(o),
    ensures
        forall|i: int| 0 <= i < opt_lines(key, o).len() ==> plain_line(#[trigger] opt_lines(key, o)[i]),
{
    match o {
        Some(v) => lemma_plain_line_of(key, v),
        None => {},
    }
}

proof fn lemma_keys_one_line()
    ensures
        one_line("server"@),
        one_line("token"@),
        one_line("ca"@),
        one_line("ca-sha256"@),
        one_line("project"@),
        one_line("token-name"@),
        one_line("insecure"@),
        one_line("current-context"@),
        one_line("true"@),
{
    lemma_keys_are_simple();
    reveal_strlit("true");
}

proof fn lemma_plain_context(name: Seq<char>, c: ContextView)
    requires
        storable_context(name, c),
    ensures
        forall|i: int| 0 <= i < context_lines(name, c).len() ==> plain_line(#[trigger] context_lines(name, c)[i]),
{
    lemma_keys_one_line();
    reveal_strlit("[context.");
    reveal_strlit("]");
    let h = header_of(name);
    assert forall|k: int| 0 <= k < h.len() implies h[k] != '\n' by {
        if 10 <= k < 10 + name.len() {
            assert(h[k] == name[k - 10]);
        }
    }
    lemma_plain_line_of("server"@, c.server);
    lemma_plain_opt("token"@, c.token);
    lemma_plain_opt("ca"@, c.ca);
    lemma_plain_opt("ca-sha256"@, c.ca_sha256);
    lemma_plain_opt("project"@, c.project);
    lemma_plain_opt("token-name"@, c.token_name);
    if c.insecure {
        lemma_plain_line_of("insecure"@, "true"@);
    }
    let ls = context_lines(name, c);
    assert forall|i: int| 0 <= i < ls.len() implies plain_line(#[trigger] ls[i]) by {
        lemma_plain_index(name, c, i);
    }
}

proof fn lemma_plain_index(name: Seq<char>, c: ContextView, i: int)
    requires
        storable_context(name, c),
        0 <= i < context_lines(name, c).len(),
        plain_line(header_of(name)),
        plain_line(line_of("server"@, c.server)),
        forall|j: int| 0 <= j < opt_lines("token"@, c.token).len() ==> plain_line(#[trigger] opt_lines("token"@, c.token)[j]),
        forall|j: int| 0 <= j < opt_lines("ca"@, c.ca).len() ==> plain_line(#[trigger] opt_lines("ca"@, c.ca)[j]),
        forall|j: int|
            0 <= j < opt_lines("ca-sha256"@, c.ca_sha256).len() ==> plain_line(#[trigger] opt_lines("ca-sha256"@, c.ca_sha256)[j]),
        forall|j: int| 0 <= j < opt_lines("project"@, c.project).len() ==> plain_line(#[trigger] opt_lines("project"@, c.project)[j]),
        forall|j: int|
            0 <= j < opt_lines("token-name"@, c.token_name).len() ==> plain_line(#[trigger] opt_lines("token-name"@, c.token_name)[j]),
        c.insecure ==> plain_line(line_of("insecure"@, "true"@)),
    ensures
        plain_line(context_lines(name, c)[i]),
{
    let parts: Seq<Seq<Seq<char>>> = seq![
        seq![header_of(name), line_of("server"@, c.server)],
        opt_lines("token"@, c.token),
        opt_lines("ca"@, c.ca),
        opt_lines("ca-sha256"@, c.ca_sha256),
        opt_lines("project"@, c.project),
        opt_lines("token-name"@, c.token_name),
        if c.insecure {
            seq![line_of("insecure"@, "true"@)]
        } else {
            seq![]
        },
    ];
    let ls = context_lines(name, c);
    let a = parts[0];
    let b = parts[1];
    let d = parts[2];
    let f = parts[3];
    let g = parts[4];
    let h = parts[5];
    let k = parts[6];
    assert(ls =~= a + b + d + f + g + h + k);
    let n1 = a.len() as int;
    let n2 = n1 + b.len();
    let n3 = n2 + d.len();
    let n4 = n3 + f.len();
    let n5 = n4 + g.len();
    let n6 = n5 + h.len();
    if i < n1 {
        assert(ls[i] == a[i]);
    } else if i < n2 {
        assert(ls[i] == b[i - n1]);
    } else if i < n3 {
        assert(ls[i] == d[i - n2]);
    } else if i < n4 {
        assert(ls[i] == f[i - n3]);
    } else if i < n5 {
        assert(ls[i] == g[i - n4]);
    } else if i < n6 {
        assert(ls[i] == h[i - n5]);
    } else {
        assert(ls[i] == k[i - n6]);
    }
}

proof fn lemma_plain_contexts(e: Entries)
    requires
        forall|i: int| 0 <= i < e.len() ==> storable_context(#[trigger] e[i].0, e[i].1),
    ensures
        forall|i: int| 0 <= i < contexts_lines(e).len() ==> plain_line(#[trigger] contexts_lines(e)[i]),
    decreases e.len(),
{
    if e.len() > 0 {
        let d = e.drop_last();
        assert forall|i: int| 0 <= i < d.len() implies storable_context(#[trigger] d[i].0, d[i].1) by {
            assert(d[i] == e[i]);
        }
        lemma_plain_contexts(d);
        assert(storable_context(e[e.len() - 1].0, e[e.len() - 1].1));
        lemma_plain_context(e.last().0, e.last().1);
        let a = contexts_lines(d);
        let b = context_lines(e.last().0, e.last().1);
        assert forall|i: int| 0 <= i < (a + b).len() implies plain_line(#[trigger] (a + b)[i]) by {
            if i < a.len() {
                assert((a + b)[i] == a[i]);
            } else {
                assert((a + b)[i] == b[i - a.len()]);
            }
        }
    }
}

/// Saving a config and reading the file back gives the same config, as long
/// as the file can hold every value: names and values on one line, names
/// not empty, and optional values, when set, not empty.
pub proof fn saved_config_reads_back(c: ConfigView)
    requires
        storable_config(c),
    ensures
        parse_spec(config_text(c)) == c,
{
    lemma_config_joined(c);
    lemma_lines_are_plain(c);
    lemma_lines_joined(config_lines(c));
    let ls = config_lines(c);
    assert(lines(config_text(c)) == ls);
    lemma_parse_lines_run(ls, ls.len());
    assert(ls.take(ls.len() as int) =~= ls);
    let a = opt_lines("current-context"@, c.current_context);
    lemma_run_concat(initial_state(), a, contexts_lines(c.contexts));
    let st0 = initial_state();
    lemma_keys_are_simple();
    reveal_strlit("current-context");
    reveal_strlit("server");
    reveal_strlit("token");
    let st1 = run(st0, a);
    match c.current_context {
        Some(n) => {
            lemma_run_one(st0, line_of("current-context"@, n));
            lemma_key_line(st0, "current-context"@, n);
            assert(st1.cfg == (ConfigView { current_context: Some(n), ..st0.cfg }));
        },
        None => {
            assert(a =~= Seq::<Seq<char>>::empty());
        },
    }
    assert(st1.cfg.contexts == Seq::<(Seq<char>, ContextView)>::empty());
    assert(!st1.legacy_seen);
    lemma_contexts_block(st1, c.contexts);
    let st2 = run(st1, contexts_lines(c.contexts));
    assert(finish(st2) == st2.cfg);
    assert(st2.cfg == c);
}

} // verus!
