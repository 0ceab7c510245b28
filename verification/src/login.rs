//! Server addresses, CA fingerprints and context names for `helyos login` /
//! `helyos logout`.
use vstd::prelude::*;
use vstd::set_lib::{lemma_int_range, set_int_range};
use crate::text::{
    before_char, before_char_str, chars_of, from_char, split_at_char, concat2, concat3, contains, dec, dec_str, digit_char, find_in,
    index_of, is_ascii_alnum, lemma_dec_len_bound, owned, split_once, split_once_str, starts_with,
    starts_with_str, string_of, string_of_range, to_lowercase, trim, trim_str, unicode_lower,
};
use crate::config::{Config, ConfigError, ConfigView, ContextView};
use crate::ctxmap::{has_key, lookup, upsert, Entries};

verus! {

// ---------------------------------------------------------------------------
// Server addresses
// ---------------------------------------------------------------------------

/// The trimmed address, with `https://` in front when it names no scheme.
pub open spec fn server_with_scheme(input: Seq<char>) -> Seq<char> {
    let s = trim(input);
    if starts_with(s, "http://"@) || starts_with(s, "https://"@) {
        s
    } else {
        "https://"@ + s
    }
}

/// A server address with `https://` assumed when no scheme is given and port
/// `6443` assumed when the authority (what comes between `://` and the first
/// `/`) names none: the port goes at the end of the authority, before any path.
pub open spec fn normalize_server_spec(input: Seq<char>) -> Seq<char> {
    let with_scheme = server_with_scheme(input);
    match split_once(with_scheme, "://"@) {
        Some((scheme, rest)) => {
            let authority = before_char(rest, '/');
            if contains(authority, seq![':']) {
                with_scheme
            } else {
                scheme + "://"@ + authority + ":6443"@ + from_char(rest, '/')
            }
        },
        None => with_scheme + ":6443"@,
    }
}

/// Normalize a server address: `https://` and `:6443` are assumed when left out.
pub fn normalize_server(input: &str) -> (r: String)
    ensures
        r@ == normalize_server_spec(input@),
{
    proof {
        reveal_strlit("http://");
        reveal_strlit("https://");
        reveal_strlit("://");
        reveal_strlit(":6443");
        reveal_strlit(":");
    }
    let s = trim_str(input);
    let with_scheme = if starts_with_str(s.as_str(), "http://") || starts_with_str(s.as_str(), "https://") {
        s
    } else {
        concat2("https://", s.as_str())
    };
    match split_once_str(with_scheme.as_str(), "://") {
        Some((scheme, rest)) => {
            let (authority, path) = split_at_char(rest.as_str(), '/');
            assert(":"@ =~= seq![':']);
            if crate::text::contains_str(authority.as_str(), ":") {
                with_scheme
            } else {
                let head = concat3(scheme.as_str(), "://", authority.as_str());
                concat3(head.as_str(), ":6443", path.as_str())
            }
        },
        None => concat2(with_scheme.as_str(), ":6443"),
    }
}

// ---------------------------------------------------------------------------
// CA fingerprints
// ---------------------------------------------------------------------------

/// `s` with every leading copy of `p` removed (`str::trim_start_matches`).
pub open spec fn strip_all_prefix(s: Seq<char>, p: Seq<char>) -> Seq<char>
    decreases s.len(),
{
    if p.len() > 0 && starts_with(s, p) {
        strip_all_prefix(s.subrange(p.len() as int, s.len() as int), p)
    } else {
        s
    }
}

/// The comparable form of a fingerprint: trimmed, without `sha256:`
/// prefixes or `:` separators, lower-cased.
pub open spec fn fingerprint_norm(s: Seq<char>) -> Seq<char> {
    unicode_lower(strip_all_prefix(trim(s), "sha256:"@).filter(|c: char| c != ':'))
}

/// `s` without the leading copies of `p`.
fn strip_all_prefix_exec(s: &Vec<char>, p: &Vec<char>) -> (r: Vec<char>)
    ensures
        r@ == strip_all_prefix(s@, p@),
{
    let mut cur: Vec<char> = s.clone();
    proof {
        assert(cur@ == s@);
    }
    let mut from: usize = 0;
    assert(cur@.subrange(0, cur@.len() as int) =~= s@);
    // `cur[from..]` is the part still to strip
    while p.len() > 0 && crate::text::has_at(&cur, from, p)
        invariant
            cur@ == s@,
            from <= cur.len(),
            strip_all_prefix(cur@.subrange(from as int, cur@.len() as int), p@) == strip_all_prefix(s@, p@),
        decreases cur.len() - from,
    {
        proof {
            let rest = cur@.subrange(from as int, cur@.len() as int);
            assert(rest.subrange(0, p@.len() as int) =~= cur@.subrange(from as int, from + p@.len()));
            assert(starts_with(rest, p@));
            assert(rest.subrange(p@.len() as int, rest.len() as int) =~= cur@.subrange(
                from + p@.len(),
                cur@.len() as int,
            ));
        }
        from = from + p.len();
    }
    proof {
        let rest = cur@.subrange(from as int, cur@.len() as int);
        if p@.len() > 0 && starts_with(rest, p@) {
            assert(rest.subrange(0, p@.len() as int) =~= cur@.subrange(from as int, from + p@.len()));
        }
    }
    let mut r: Vec<char> = Vec::new();
    let mut i = from;
    while i < cur.len()
        invariant
            from <= i <= cur.len(),
            r@ == cur@.subrange(from as int, i as int),
        decreases cur.len() - i,
    {
        r.push(cur[i]);
        i = i + 1;
        assert(r@ =~= cur@.subrange(from as int, i as int));
    }
    r
}

/// The comparable form of a fingerprint.
fn fingerprint_norm_exec(s: &str) -> (r: String)
    ensures
        r@ == fingerprint_norm(s@),
{
    let t = trim_str(s);
    let tv = chars_of(t.as_str());
    let pv = chars_of("sha256:");
    let stripped = strip_all_prefix_exec(&tv, &pv);
    let mut kept: Vec<char> = Vec::new();
    let mut i: usize = 0;
    while i < stripped.len()
        invariant
            i <= stripped.len(),
            kept@ == stripped@.subrange(0, i as int).filter(|c: char| c != ':'),
        decreases stripped.len() - i,
    {
        let c = stripped[i];
        proof {
            let f = |c: char| c != ':';
            assert(stripped@.subrange(0, i + 1).drop_last() =~= stripped@.subrange(0, i as int));
            assert(stripped@.subrange(0, i + 1).last() == c);
            reveal_with_fuel(Seq::<_>::filter, 1);
            assert(stripped@.subrange(0, i as int).push(c) =~= stripped@.subrange(0, i + 1));
            assert(stripped@.subrange(0, i + 1).filter(f) == if f(c) {
                stripped@.subrange(0, i as int).filter(f).push(c)
            } else {
                stripped@.subrange(0, i as int).filter(f)
            });
        }
        if c != ':' {
            kept.push(c);
        }
        i = i + 1;
    }
    assert(stripped@.subrange(0, stripped@.len() as int) =~= stripped@);
    let joined = string_of(&kept);
    to_lowercase(joined.as_str())
}

/// Whether two CA fingerprints are the same, ignoring case, surrounding
/// whitespace, a `sha256:` prefix and `:` separators.
pub fn fingerprints_match(a: &str, b: &str) -> (r: bool)
    ensures
        r == (fingerprint_norm(a@) == fingerprint_norm(b@)),
{
    let na = fingerprint_norm_exec(a);
    let nb = fingerprint_norm_exec(b);
    na == nb
}

/// Fingerprint matching is an equivalence: reflexive, symmetric and transitive.
pub proof fn fingerprints_match_is_equivalence(a: Seq<char>, b: Seq<char>, c: Seq<char>)
    ensures
        fingerprint_norm(a) == fingerprint_norm(a),
        (fingerprint_norm(a) == fingerprint_norm(b)) == (fingerprint_norm(b) == fingerprint_norm(a)),
        fingerprint_norm(a) == fingerprint_norm(b) && fingerprint_norm(b) == fingerprint_norm(c)
            ==> fingerprint_norm(a) == fingerprint_norm(c),
{
}

// ---------------------------------------------------------------------------
// Context names
// ---------------------------------------------------------------------------

/// A character kept in a derived name: ASCII alphanumerics and `-`;
/// anything else becomes `-`.
pub open spec fn name_char(c: char) -> char {
    if is_ascii_alnum(c) || c == '-' {
        c
    } else {
        '-'
    }
}

/// Number of leading `c`.
pub open spec fn lead_count(s: Seq<char>, c: char) -> nat
    decreases s.len(),
{
    if s.len() > 0 && s[0] == c {
        1 + lead_count(s.drop_first(), c)
    } else {
        0
    }
}

/// Number of trailing `c`.
pub open spec fn trail_count(s: Seq<char>, c: char) -> nat
    decreases s.len(),
{
    if s.len() > 0 && s.last() == c {
        1 + trail_count(s.drop_last(), c)
    } else {
        0
    }
}

/// `str::trim_matches(c)`.
pub open spec fn trim_char(s: Seq<char>, c: char) -> Seq<char> {
    let a = lead_count(s, c);
    let t = s.subrange(a as int, s.len() as int);
    t.subrange(0, t.len() - trail_count(t, c))
}

/// The host of a server address: after any `scheme://`, before any path or port.
pub open spec fn host_of(server: Seq<char>) -> Seq<char> {
    let rest = match split_once(server, "://"@) {
        Some((_, r)) => r,
        None => server,
    };
    before_char(before_char(rest, '/'), ':')
}

/// A context name derived from a server address: its host, with characters
/// other than ASCII alphanumerics and `-` turned into `-`, without leading or
/// trailing `-`; "default" when nothing is left.
pub open spec fn derive_name_spec(server: Seq<char>) -> Seq<char> {
    let cleaned = trim_char(host_of(server).map_values(|c: char| name_char(c)), '-');
    if cleaned.len() == 0 {
        "default"@
    } else {
        cleaned
    }
}

/// `str::trim_matches(c)` on a character vector.
fn trim_char_exec(v: &Vec<char>, c: char) -> (r: Vec<char>)
    ensures
        r@ == trim_char(v@, c),
{
    let mut a: usize = 0;
    while a < v.len() && v[a] == c
        invariant
            a <= v.len(),
            forall|k: int| 0 <= k < a ==> v@[k] == c,
        decreases v.len() - a,
    {
        a = a + 1;
    }
    proof {
        lemma_lead_count(v@, c, a as int);
    }
    let mut b: usize = v.len();
    while b > a && v[b - 1] == c
        invariant
            a <= b <= v.len(),
            forall|k: int| b <= k < v.len() ==> v@[k] == c,
        decreases b - a,
    {
        b = b - 1;
    }
    proof {
        let t = v@.subrange(a as int, v@.len() as int);
        lemma_trail_count(t, c, (v.len() - b) as int);
        assert(t.subrange(0, t.len() - (v.len() - b)) =~= v@.subrange(a as int, b as int));
    }
    let mut r: Vec<char> = Vec::new();
    let mut i = a;
    while i < b
        invariant
            a <= i <= b <= v.len(),
            r@ == v@.subrange(a as int, i as int),
        decreases b - i,
    {
        r.push(v[i]);
        i = i + 1;
        assert(r@ =~= v@.subrange(a as int, i as int));
    }
    r
}

proof fn lemma_lead_count(s: Seq<char>, c: char, k: int)
    requires
        0 <= k <= s.len(),
        forall|i: int| 0 <= i < k ==> s[i] == c,
        k == s.len() || s[k] != c,
    ensures
        lead_count(s, c) == k,
    decreases s.len(),
{
    if k > 0 {
        let t = s.drop_first();
        assert forall|i: int| 0 <= i < k - 1 implies t[i] == c by {
            assert(t[i] == s[i + 1]);
        }
        if k < s.len() {
            assert(t[k - 1] == s[k]);
        }
        lemma_lead_count(t, c, k - 1);
    }
}

proof fn lemma_trail_count(s: Seq<char>, c: char, k: int)
    requires
        0 <= k <= s.len(),
        forall|i: int| s.len() - k <= i < s.len() ==> s[i] == c,
        k == s.len() || s[s.len() - k - 1] != c,
    ensures
        trail_count(s, c) == k,
    decreases s.len(),
{
    if k > 0 {
        let t = s.drop_last();
        assert forall|i: int| t.len() - (k - 1) <= i < t.len() implies t[i] == c by {
            assert(t[i] == s[i]);
        }
        if k < s.len() {
            assert(t[t.len() - (k - 1) - 1] == s[s.len() - k - 1]);
        }
        lemma_trail_count(t, c, k - 1);
    }
}

/// A context name derived from a server's host.
pub fn derive_name(server: &str) -> (r: String)
    ensures
        r@ == derive_name_spec(server@),
{
    proof {
        reveal_strlit("://");
        reveal_strlit("default");
    }
    let rest = match split_once_str(server, "://") {
        Some((_, r)) => r,
        None => owned(server),
    };
    let host = before_char_str(before_char_str(rest.as_str(), '/').as_str(), ':');
    let hv = chars_of(host.as_str());
    let mut mapped: Vec<char> = Vec::new();
    let mut i: usize = 0;
    while i < hv.len()
        invariant
            i <= hv.len(),
            mapped@ == hv@.subrange(0, i as int).map_values(|c: char| name_char(c)),
        decreases hv.len() - i,
    {
        let c = hv[i];
        let m = if ('0' <= c && c <= '9') || ('a' <= c && c <= 'z') || ('A' <= c && c <= 'Z') || c == '-' {
            c
        } else {
            '-'
        };
        mapped.push(m);
        i = i + 1;
        assert(mapped@ =~= hv@.subrange(0, i as int).map_values(|c: char| name_char(c)));
    }
    assert(hv@.subrange(0, hv@.len() as int) =~= hv@);
    let cleaned = trim_char_exec(&mapped, '-');
    if cleaned.len() == 0 {
        owned("default")
    } else {
        string_of(&cleaned)
    }
}

/// The `n`-th candidate name for `base`: `base-n`.
pub open spec fn candidate(base: Seq<char>, n: nat) -> Seq<char> {
    base + seq!['-'] + dec(n)
}

/// A context name based on `base` that `contexts` does not hold yet: `base`
/// itself when free, else `base-n` for the least `n >= 2` that is free.
pub open spec fn unique_name_ok(contexts: Entries, base: Seq<char>, r: Seq<char>) -> bool {
    if !has_key(contexts, base) {
        r == base
    } else {
        exists|n: nat| #![trigger candidate(base, n)]
            n >= 2 && r == candidate(base, n) && !has_key(contexts, candidate(base, n))
                && forall|m: nat| 2 <= m < n ==> has_key(contexts, #[trigger] candidate(base, m))
    }
}

/// Different numbers give different decimal strings.
pub proof fn lemma_dec_injective(a: nat, b: nat)
    requires
        dec(a) == dec(b),
    ensures
        a == b,
    decreases a,
{
    lemma_dec_len_bound(a);
    lemma_dec_len_bound(b);
    if a < 10 && b < 10 {
        assert(dec(a)[0] == digit_char(a));
        assert(dec(b)[0] == digit_char(b));
    } else if a >= 10 && b >= 10 {
        lemma_dec_len_bound(a / 10);
        lemma_dec_len_bound(b / 10);
        assert(dec(a).last() == digit_char(a % 10));
        assert(dec(b).last() == digit_char(b % 10));
        assert(dec(a).drop_last() =~= dec(a / 10));
        assert(dec(b).drop_last() =~= dec(b / 10));
        lemma_dec_injective(a / 10, b / 10);
    } else {
        lemma_dec_len_ge2(if a >= 10 { a } else { b });
    }
}

proof fn lemma_dec_len_ge2(n: nat)
    requires
        n >= 10,
    ensures
        dec(n).len() >= 2,
{
    lemma_dec_len_bound(n / 10);
}

/// Different numbers give different candidates.
pub proof fn lemma_candidate_injective(base: Seq<char>, a: nat, b: nat)
    requires
        candidate(base, a) == candidate(base, b),
    ensures
        a == b,
{
    let p = base + seq!['-'];
    assert(candidate(base, a).subrange(p.len() as int, candidate(base, a).len() as int) =~= dec(a));
    assert(candidate(base, b).subrange(p.len() as int, candidate(base, b).len() as int) =~= dec(b));
    lemma_dec_injective(a, b);
}

/// A list holding a distinct candidate name for each number of `ms` has at
/// least `ms.len()` entries.
proof fn lemma_taken_bound(s: Entries, base: Seq<char>, ms: Set<int>)
    requires
        ms.finite(),
        forall|m: int| #[trigger] ms.contains(m) ==> m >= 0 && has_key(s, candidate(base, m as nat)),
    ensures
        ms.len() <= s.len(),
    decreases s.len(),
{
    if s.len() == 0 {
        assert(ms =~= Set::<int>::empty());
    } else {
        let t = s.drop_first();
        let k = s[0].0;
        if exists|m: int| #[trigger] ms.contains(m) && candidate(base, m as nat) == k {
            let m0 = choose|m: int| #[trigger] ms.contains(m) && candidate(base, m as nat) == k;
            let rest = ms.remove(m0);
            assert forall|m: int| #[trigger] rest.contains(m) implies m >= 0 && has_key(t, candidate(base, m as nat)) by {
                if candidate(base, m as nat) == k {
                    lemma_candidate_injective(base, m as nat, m0 as nat);
                }
            }
            lemma_taken_bound(t, base, rest);
        } else {
            assert forall|m: int| #[trigger] ms.contains(m) implies m >= 0 && has_key(t, candidate(base, m as nat)) by {
            }
            lemma_taken_bound(t, base, ms);
        }
    }
}

/// The first free name among `base`, `base-2`, `base-3`, ...
pub fn unique_context_name(cfg: &Config, base: &str) -> (r: String)
    ensures
        unique_name_ok(cfg@.contexts, base@, r@),
        !has_key(cfg@.contexts, r@),
{
    if !cfg.contexts.contains_key(base) {
        return owned(base);
    }
    let prefix = concat2(base, "-");
    proof {
        reveal_strlit("-");
        assert("-"@ =~= seq!['-']);
    }
    let total = cfg.contexts.len();
    let mut n: u128 = 2;
    loop
        invariant
            total == cfg@.contexts.len(),
            2 <= n <= cfg@.contexts.len() + 2,
            prefix@ == base@ + seq!['-'],
            has_key(cfg@.contexts, base@),
            forall|m: nat| 2 <= m < n ==> has_key(cfg@.contexts, #[trigger] candidate(base@, m)),
        decreases cfg@.contexts.len() + 2 - n,
    {
        let candidate_name = concat2(prefix.as_str(), dec_str(n).as_str());
        if !cfg.contexts.contains_key(candidate_name.as_str()) {
            assert(candidate_name@ =~= candidate(base@, n as nat));
            return candidate_name;
        }
        proof {
            assert(candidate_name@ =~= candidate(base@, n as nat));
            let ms = set_int_range(2, n + 1);
            lemma_int_range(2, n + 1);
            assert forall|m: int| #[trigger] ms.contains(m) implies m >= 0 && has_key(
                cfg@.contexts,
                candidate(base@, m as nat),
            ) by {
                if m < n {
                    assert(has_key(cfg@.contexts, candidate(base@, m as nat)));
                }
            }
            lemma_taken_bound(cfg@.contexts, base@, ms);
        }
        n = n + 1;
    }
}


// ---------------------------------------------------------------------------
// Logging in
// ---------------------------------------------------------------------------

/// What `helyos login` was asked to do.
pub struct LoginArgs<'a> {
    pub server: &'a str,
    pub name: Option<&'a str>,
    pub token: Option<&'a str>,
    pub token_stdin: bool,
    pub ca_file: Option<&'a str>,
    pub ca_fingerprint: Option<&'a str>,
    pub insecure: bool,
    pub project: Option<&'a str>,
    pub no_set_current: bool,
}

/// Where the CA to pin comes from.
#[derive(Debug, PartialEq, Eq)]
pub enum CaSource {
    /// Nothing is pinned: TLS checks are off, or the server speaks plain HTTP.
    Skip,
    /// Read the PEM from this file.
    File(String),
    /// Fetch the daemon's self-signed CA and check its fingerprint.
    Fetch,
}

/// Where the CA comes from: none with `--insecure-skip-tls-verify` or a
/// plain-HTTP server, else the `--ca-file` when given, else the daemon.
pub fn ca_source(insecure: bool, server: &str, ca_file: Option<&str>) -> (r: CaSource)
    ensures
        insecure ==> r == CaSource::Skip,
        !insecure && !starts_with(server@, "https://"@) ==> r == CaSource::Skip,
        !insecure && starts_with(server@, "https://"@) ==> match ca_file {
            Some(f) => (r matches CaSource::File(g) && g@ == f@),
            None => r == CaSource::Fetch,
        },
{
    if insecure {
        CaSource::Skip
    } else if starts_with_str(server, "https://") {
        match ca_file {
            Some(f) => CaSource::File(owned(f)),
            None => CaSource::Fetch,
        }
    } else {
        CaSource::Skip
    }
}

/// Where the API token comes from.
#[derive(Debug, PartialEq, Eq)]
pub enum TokenSource {
    /// Given on the command line or taken from `HELYOS_API_TOKEN`.
    Given(String),
    /// Read one line from standard input (and trim it).
    Stdin,
    /// Ask for it on the terminal.
    Prompt,
    /// No way to get one.
    Missing,
}

/// Where the token comes from, in order of preference: `--token`,
/// `--token-stdin`, a non-empty `HELYOS_API_TOKEN` (`env`), a prompt when
/// standard input is a terminal.
pub fn token_source(flag: Option<&str>, stdin_flag: bool, env: Option<&str>, tty: bool) -> (r: TokenSource)
    ensures
        flag is Some ==> (r matches TokenSource::Given(t) && t@ == flag->0@),
        flag is None && stdin_flag ==> r == TokenSource::Stdin,
        flag is None && !stdin_flag && env is Some && env->0@.len() > 0 ==> (r matches TokenSource::Given(t) && t@
            == env->0@),
        flag is None && !stdin_flag && !(env is Some && env->0@.len() > 0) ==> r == (if tty {
            TokenSource::Prompt
        } else {
            TokenSource::Missing
        }),
{
    if let Some(t) = flag {
        return TokenSource::Given(owned(t));
    }
    if stdin_flag {
        return TokenSource::Stdin;
    }
    if let Some(t) = env {
        if t.unicode_len() > 0 {
            return TokenSource::Given(owned(t));
        }
    }
    if tty {
        TokenSource::Prompt
    } else {
        TokenSource::Missing
    }
}

/// What a fetched CA's fingerprint calls for.
#[derive(Debug, PartialEq, Eq)]
pub enum PinCheck {
    /// It matches the expected fingerprint.
    Pinned,
    /// It does not: abort with this message.
    Mismatch(String),
    /// No fingerprint was given: ask the user to trust it.
    Ask,
}

/// Check a fetched CA's fingerprint `got` against `--ca-fingerprint`.
pub fn check_pin(expected: Option<&str>, got: &str) -> (r: PinCheck)
    ensures
        match expected {
            Some(e) => if fingerprint_norm(e@) == fingerprint_norm(got@) {
                r == PinCheck::Pinned
            } else {
                (r matches PinCheck::Mismatch(m) && m@ == "CA fingerprint mismatch — aborting (possible MITM)\n  expected: "@
                    + e@ + "\n  got:      "@ + got@)
            },
            None => r == PinCheck::Ask,
        },
{
    match expected {
        Some(e) => {
            if fingerprints_match(e, got) {
                PinCheck::Pinned
            } else {
                let mut m = concat2("CA fingerprint mismatch — aborting (possible MITM)\n  expected: ", e);
                m.append("\n  got:      ");
                m.append(got);
                PinCheck::Mismatch(m)
            }
        },
        None => PinCheck::Ask,
    }
}

/// The digit of the standard base64 alphabet for a six-bit value: `A`-`Z`,
/// `a`-`z`, `0`-`9`, `+`, `/`.
pub open spec fn base64_digit(v: int) -> char {
    if v < 26 {
        (65 + v) as char
    } else if v < 52 {
        (97 + v - 26) as char
    } else if v < 62 {
        (48 + v - 52) as char
    } else if v == 62 {
        '+'
    } else {
        '/'
    }
}

/// The standard, padded base64 encoding of some bytes
/// (`base64::engine::general_purpose::STANDARD`): every three bytes, read as
/// 24 bits high bit first, become four digits of six bits each; a last group
/// of one or two bytes is filled out with zero bits and ends in `==` or `=`.
pub open spec fn base64_standard(b: Seq<u8>) -> Seq<char>
    decreases b.len(),
{
    if b.len() == 0 {
        seq![]
    } else if b.len() == 1 {
        let n = b[0] as int * 65536;
        seq![base64_digit(n / 262144), base64_digit(n / 4096 % 64), '=', '=']
    } else if b.len() == 2 {
        let n = b[0] as int * 65536 + b[1] as int * 256;
        seq![base64_digit(n / 262144), base64_digit(n / 4096 % 64), base64_digit(n / 64 % 64), '=']
    } else {
        let n = b[0] as int * 65536 + b[1] as int * 256 + b[2] as int;
        seq![base64_digit(n / 262144), base64_digit(n / 4096 % 64), base64_digit(n / 64 % 64), base64_digit(n % 64)]
            + base64_standard(b.subrange(3, b.len() as int))
    }
}

/// `STANDARD.encode`: the padded base64 text of the bytes. The length of the
/// text must fit in `usize` (the encoder panics otherwise).
#[verifier::external_body]
fn encode_base64(bytes: &[u8]) -> (r: String)
    requires
        4 * ((bytes@.len() + 2) / 3) <= usize::MAX,
    ensures
        r@ == base64_standard(bytes@),
{
    base64::Engine::encode(&base64::engine::general_purpose::STANDARD, bytes)
}

/// `STANDARD.decode`: the bytes whose padded base64 text `text` is, or `None`
/// when it is no such text (the engine requires canonical padding and zero
/// trailing bits, so it takes exactly the texts that `encode` gives).
#[verifier::external_body]
pub(crate) fn decode_base64(text: &str) -> (r: Option<Vec<u8>>)
    ensures
        match r {
            Some(b) => base64_standard(b@) == text@,
            None => true,
        },
        forall|b: Seq<u8>|
            #[trigger] base64_standard(b) == text@ ==> match r {
                Some(v) => v@ == b,
                None => false,
            },
{
    base64::Engine::decode(&base64::engine::general_purpose::STANDARD, text).ok()
}

/// The context that a login stores: the server, the token, the pinned CA
/// (base64 of its PEM) and its fingerprint, the default project, whether TLS
/// checks are off, and the token's name as the daemon knows it.
pub fn login_context(
    server: &str,
    token: &str,
    ca_pem: Option<&[u8]>,
    ca_fingerprint: Option<&str>,
    project: Option<&str>,
    insecure: bool,
    token_name: Option<&str>,
) -> (c: crate::config::Context)
    requires
        ca_pem is Some ==> 4 * ((ca_pem->0@.len() + 2) / 3) <= usize::MAX,
    ensures
        c@ == (ContextView {
            server: server@,
            token: Some(token@),
            ca: match ca_pem {
                Some(p) => Some(base64_standard(p@)),
                None => None,
            },
            ca_sha256: match ca_fingerprint {
                Some(f) => Some(f@),
                None => None,
            },
            project: match project {
                Some(p) => Some(p@),
                None => None,
            },
            insecure,
            token_name: match token_name {
                Some(n) => Some(n@),
                None => None,
            },
        }),
{
    crate::config::Context {
        server: owned(server),
        token: Some(owned(token)),
        ca: match ca_pem {
            Some(p) => Some(encode_base64(p)),
            None => None,
        },
        ca_sha256: crate::config::opt_owned(ca_fingerprint),
        project: crate::config::opt_owned(project),
        insecure,
        token_name: crate::config::opt_owned(token_name),
    }
}

/// The config after a login stored `ctx` under `name`, made current unless
/// asked not to.
pub open spec fn after_login(c: ConfigView, name: Seq<char>, ctx: ContextView, make_current: bool) -> ConfigView {
    if make_current {
        c.with_context(name, ctx).with_current(name)
    } else {
        c.with_context(name, ctx)
    }
}

/// Store the context of a login: under `name` when given, else under a fresh
/// name derived from the server; made current unless `make_current` is off.
/// Returns the context's name.
pub fn record_login(cfg: &mut Config, name: Option<&str>, server: &str, ctx: crate::config::Context, make_current: bool) -> (r: String)
    ensures
        match name {
            Some(n) => r@ == n@,
            None => unique_name_ok(old(cfg)@.contexts, derive_name_spec(server@), r@) && !has_key(old(cfg)@.contexts, r@),
        },
        final(cfg)@ == after_login(old(cfg)@, r@, ctx@, make_current),
{
    let ctx_name = match name {
        Some(n) => owned(n),
        None => {
            let base = derive_name(server);
            unique_context_name(cfg, base.as_str())
        },
    };
    let ghost c = ctx@;
    cfg.upsert(ctx_name.as_str(), ctx);
    if make_current {
        proof {
            crate::ctxmap::lemma_upsert(old(cfg)@.contexts, ctx_name@, c);
        }
        let _ = cfg.set_current(ctx_name.as_str());
    }
    ctx_name
}

/// The message after a login.
pub fn login_message(server: &str, who: Option<&str>, ctx_name: &str) -> (r: String)
    ensures
        r@ == "Logged in to "@ + server@ + " as '"@ + match who {
            Some(w) => w@,
            None => "token"@,
        } + "'. Context '"@ + ctx_name@ + "' is now active."@,
{
    let w = match who {
        Some(w) => w,
        None => "token",
    };
    let mut r = concat3("Logged in to ", server, " as '");
    r.append(w);
    r.append("'. Context '");
    r.append(ctx_name);
    r.append("' is now active.");
    r
}


// ---------------------------------------------------------------------------
// CA fingerprints of PEM files
// ---------------------------------------------------------------------------

/// The SHA-256 digest of some bytes.
pub uninterp spec fn sha256_digest(bytes: Seq<u8>) -> Seq<u8>;

/// `sha2::Sha256::digest`: the 32-byte SHA-256 digest of the bytes.
#[verifier::external_body]
fn sha256(bytes: &[u8]) -> (r: Vec<u8>)
    ensures
        r@ == sha256_digest(bytes@),
        r@.len() == 32,
{
    <sha2::Sha256 as sha2::Digest>::digest(bytes).to_vec()
}

/// An upper-case hexadecimal digit.
pub open spec fn hex_digit(d: nat) -> char {
    if d < 10 {
        digit_char(d)
    } else if d == 10 {
        'A'
    } else if d == 11 {
        'B'
    } else if d == 12 {
        'C'
    } else if d == 13 {
        'D'
    } else if d == 14 {
        'E'
    } else {
        'F'
    }
}

/// Bytes as upper-case hexadecimal pairs separated by colons (`AB:CD:…`).
pub open spec fn colon_hex(bytes: Seq<u8>) -> Seq<char>
    decreases bytes.len(),
{
    if bytes.len() == 0 {
        seq![]
    } else {
        let b = bytes.last();
        let pair = seq![hex_digit((b / 16) as nat), hex_digit((b % 16) as nat)];
        if bytes.len() == 1 {
            pair
        } else {
            colon_hex(bytes.drop_last()) + seq![':'] + pair
        }
    }
}

fn hex_digit_exec(d: u8) -> (c: char)
    requires
        d < 16,
    ensures
        c == hex_digit(d as nat),
{
    if d < 10 {
        crate::text::digit(d as u128)
    } else if d == 10 {
        'A'
    } else if d == 11 {
        'B'
    } else if d == 12 {
        'C'
    } else if d == 13 {
        'D'
    } else if d == 14 {
        'E'
    } else {
        'F'
    }
}

/// The SHA-256 fingerprint of a CA's PEM, as colon-separated hex pairs.
pub fn fingerprint_sha256(pem: &[u8]) -> (r: String)
    ensures
        r@ == colon_hex(sha256_digest(pem@)),
{
    let digest = sha256(pem);
    let mut r = String::new();
    let mut i: usize = 0;
    while i < digest.len()
        invariant
            i <= digest.len(),
            r@ == colon_hex(digest@.take(i as int)),
        decreases digest.len() - i,
    {
        let b = digest[i];
        proof {
            crate::panel::lemma_lines_take(digest@, i as int);
        }
        if i > 0 {
            crate::text::push_char(&mut r, ':');
        }
        crate::text::push_char(&mut r, hex_digit_exec(b / 16));
        crate::text::push_char(&mut r, hex_digit_exec(b % 16));
        assert(r@ =~= colon_hex(digest@.take(i + 1)));
        i += 1;
    }
    assert(digest@.take(digest.len() as int) =~= digest@);
    r
}

} // verus!
