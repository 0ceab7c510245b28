//! Small, fully specified string helpers shared by the rest of the library.
//!
//! Strings are modelled by their `Seq<char>` view. Helpers that mirror a std
//! method of a few lines (`trim`, `lines`, `split_once`, ...) are written here
//! and proved against a spec function; `to_lowercase`/`to_uppercase`, whose
//! behaviour is defined by the Unicode tables, are called behind wrappers.
use vstd::prelude::*;

verus! {

// ---------------------------------------------------------------------------
// Spec vocabulary
// ---------------------------------------------------------------------------

/// Rust's `char::is_whitespace`: the Unicode `White_Space` property.
pub open spec fn is_ws(c: char) -> bool {
    ||| c == ' ' || c == '\t' || c == '\n' || c == '\r'
    ||| c == '\u{0b}' || c == '\u{0c}'
    ||| c == '\u{85}' || c == '\u{a0}' || c == '\u{1680}'
    ||| ('\u{2000}' <= c && c <= '\u{200a}')
    ||| c == '\u{2028}' || c == '\u{2029}' || c == '\u{202f}' || c == '\u{205f}'
    ||| c == '\u{3000}'
}

/// Length of the leading run of whitespace.
pub open spec fn lead_ws(s: Seq<char>) -> nat
    decreases s.len(),
{
    if s.len() > 0 && is_ws(s[0]) {
        1 + lead_ws(s.drop_first())
    } else {
        0
    }
}

/// Length of the trailing run of whitespace.
pub open spec fn trail_ws(s: Seq<char>) -> nat
    decreases s.len(),
{
    if s.len() > 0 && is_ws(s.last()) {
        1 + trail_ws(s.drop_last())
    } else {
        0
    }
}

/// `str::trim_start`.
pub open spec fn trim_start(s: Seq<char>) -> Seq<char> {
    s.subrange(lead_ws(s) as int, s.len() as int)
}

/// `str::trim_end`.
pub open spec fn trim_end(s: Seq<char>) -> Seq<char> {
    s.subrange(0, s.len() - trail_ws(s))
}

/// `str::trim`.
pub open spec fn trim(s: Seq<char>) -> Seq<char> {
    trim_end(trim_start(s))
}

pub open spec fn starts_with(s: Seq<char>, p: Seq<char>) -> bool {
    p.len() <= s.len() && s.subrange(0, p.len() as int) == p
}

/// `s` holds `pat` starting at index `i`.
pub open spec fn occurs_at(s: Seq<char>, pat: Seq<char>, i: int) -> bool {
    0 <= i && i + pat.len() <= s.len() && s.subrange(i, i + pat.len()) == pat
}

/// `str::contains` for a string pattern.
pub open spec fn contains(s: Seq<char>, pat: Seq<char>) -> bool {
    exists|i: int| occurs_at(s, pat, i)
}

/// `str::find`: the first index at which `pat` occurs.
#[verifier::opaque]
pub open spec fn find(s: Seq<char>, pat: Seq<char>) -> Option<int> {
    if contains(s, pat) {
        Some(choose|i: int| occurs_at(s, pat, i) && forall|j: int| 0 <= j < i ==> !occurs_at(s, pat, j))
    } else {
        None
    }
}

/// `str::split_once` on a string pattern.
pub open spec fn split_once(s: Seq<char>, pat: Seq<char>) -> Option<(Seq<char>, Seq<char>)> {
    match find(s, pat) {
        Some(i) => Some((s.subrange(0, i), s.subrange(i + pat.len(), s.len() as int))),
        None => None,
    }
}

/// The index of the first occurrence of `c`, if any.
pub open spec fn index_of(s: Seq<char>, c: char) -> Option<int> {
    find(s, seq![c])
}

/// Everything before the first `c` (the first item of `str::split(c)`).
pub open spec fn before_char(s: Seq<char>, c: char) -> Seq<char> {
    match index_of(s, c) {
        Some(i) => s.subrange(0, i),
        None => s,
    }
}

/// Everything from the first `c` on (empty when there is none).
pub open spec fn from_char(s: Seq<char>, c: char) -> Seq<char> {
    s.subrange(before_char(s, c).len() as int, s.len() as int)
}

/// `n` copies of `s`.
pub open spec fn repeat(s: Seq<char>, n: nat) -> Seq<char>
    decreases n,
{
    if n == 0 {
        seq![]
    } else {
        repeat(s, (n - 1) as nat) + s
    }
}

/// `n` spaces.
pub open spec fn spaces(n: nat) -> Seq<char> {
    repeat(seq![' '], n)
}

/// `format!("{:<w$}", s)`: left-aligned, padded with spaces to `w` chars.
pub open spec fn pad_right(s: Seq<char>, w: nat) -> Seq<char> {
    if s.len() >= w {
        s
    } else {
        s + spaces((w - s.len()) as nat)
    }
}

/// `format!("{:>w$}", s)`: right-aligned, padded with spaces to `w` chars.
pub open spec fn pad_left(s: Seq<char>, w: nat) -> Seq<char> {
    if s.len() >= w {
        s
    } else {
        spaces((w - s.len()) as nat) + s
    }
}

/// The ASCII digit for `d < 10`.
pub open spec fn digit_char(d: nat) -> char {
    if d == 0 { '0' }
    else if d == 1 { '1' }
    else if d == 2 { '2' }
    else if d == 3 { '3' }
    else if d == 4 { '4' }
    else if d == 5 { '5' }
    else if d == 6 { '6' }
    else if d == 7 { '7' }
    else if d == 8 { '8' }
    else { '9' }
}

/// Decimal representation of a natural number (what `Display` prints).
pub open spec fn dec(n: nat) -> Seq<char>
    decreases n,
{
    if n < 10 {
        seq![digit_char(n)]
    } else {
        dec(n / 10).push(digit_char(n % 10))
    }
}

/// Number of UTF-8 bytes that encode `c`.
pub open spec fn char_width(c: char) -> nat {
    if (c as u32) < 0x80 {
        1
    } else if (c as u32) < 0x800 {
        2
    } else if (c as u32) < 0x10000 {
        3
    } else {
        4
    }
}

/// UTF-8 byte length of a string (what `str::len` returns).
pub open spec fn byte_len(s: Seq<char>) -> nat
    decreases s.len(),
{
    if s.len() == 0 {
        0
    } else {
        char_width(s[0]) + byte_len(s.drop_first())
    }
}

pub open spec fn is_ascii_alnum(c: char) -> bool {
    ('0' <= c && c <= '9') || ('a' <= c && c <= 'z') || ('A' <= c && c <= 'Z')
}

/// `char::to_ascii_lowercase`.
pub open spec fn ascii_lower(c: char) -> char {
    if 'A' <= c && c <= 'Z' {
        ((c as u32) + 32) as char
    } else {
        c
    }
}

/// `char::to_ascii_uppercase`.
pub open spec fn ascii_upper(c: char) -> char {
    if 'a' <= c && c <= 'z' {
        ((c as u32) - 32) as char
    } else {
        c
    }
}

/// Every character is ASCII.
pub open spec fn is_ascii_str(s: Seq<char>) -> bool {
    forall|i: int| 0 <= i < s.len() ==> (#[trigger] s[i] as u32) < 128
}

/// `s` with its ASCII capitals made small.
pub open spec fn ascii_lowered(s: Seq<char>) -> Seq<char> {
    s.map_values(|c: char| ascii_lower(c))
}

/// `s` with its ASCII small letters made capital.
pub open spec fn ascii_uppered(s: Seq<char>) -> Seq<char> {
    s.map_values(|c: char| ascii_upper(c))
}

/// `str::eq_ignore_ascii_case`.
pub open spec fn eq_ignore_ascii_case(a: Seq<char>, b: Seq<char>) -> bool {
    a.len() == b.len() && forall|i: int| 0 <= i < a.len() ==> ascii_lower(#[trigger] a[i]) == ascii_lower(b[i])
}

/// What `str::to_lowercase` returns for a string (the Unicode lowercase mapping).
pub uninterp spec fn unicode_lower(s: Seq<char>) -> Seq<char>;

/// What `str::to_uppercase` returns for a string (the Unicode uppercase mapping).
pub uninterp spec fn unicode_upper(s: Seq<char>) -> Seq<char>;

// ---------------------------------------------------------------------------
// Lemmas
// ---------------------------------------------------------------------------

/// Where `pat` occurs at all, it occurs a first time.
proof fn lemma_first_occurrence(s: Seq<char>, pat: Seq<char>, k: int)
    requires
        occurs_at(s, pat, k),
    ensures
        exists|i: int| occurs_at(s, pat, i) && forall|j: int| 0 <= j < i ==> !occurs_at(s, pat, j),
    decreases k,
{
    if exists|j: int| 0 <= j < k && occurs_at(s, pat, j) {
        let j = choose|j: int| 0 <= j < k && occurs_at(s, pat, j);
        lemma_first_occurrence(s, pat, j);
    } else {
        assert(occurs_at(s, pat, k) && forall|j: int| 0 <= j < k ==> !occurs_at(s, pat, j));
    }
}

/// `find` gives the first occurrence, and `None` only when there is none.
pub proof fn lemma_find_spec(s: Seq<char>, pat: Seq<char>)
    ensures
        match find(s, pat) {
            Some(i) => occurs_at(s, pat, i) && forall|j: int| 0 <= j < i ==> !occurs_at(s, pat, j),
            None => !contains(s, pat),
        },
{
    reveal(find);
    if contains(s, pat) {
        let k = choose|k: int| occurs_at(s, pat, k);
        lemma_first_occurrence(s, pat, k);
    }
}

/// The first occurrence of `pat` is what `find` gives.
pub proof fn lemma_find_first(s: Seq<char>, pat: Seq<char>, i: int)
    requires
        occurs_at(s, pat, i),
        forall|j: int| 0 <= j < i ==> !occurs_at(s, pat, j),
    ensures
        find(s, pat) == Some(i),
{
    reveal(find);
    assert(contains(s, pat));
    let c = choose|c: int| occurs_at(s, pat, c) && forall|j: int| 0 <= j < c ==> !occurs_at(s, pat, j);
    assert(c == i) by {
        if c < i {
            assert(!occurs_at(s, pat, c));
        }
        if c > i {
            assert(!occurs_at(s, pat, i));
        }
    }
}

/// A string is what comes before its first `c` followed by the rest, which
/// starts with that `c`; no `c` comes before it.
pub proof fn lemma_before_char_split(s: Seq<char>, c: char)
    ensures
        before_char(s, c).len() <= s.len(),
        before_char(s, c) + from_char(s, c) == s,
        forall|k: int| 0 <= k < before_char(s, c).len() ==> s[k] != c,
        from_char(s, c).len() > 0 ==> from_char(s, c)[0] == c,
{
    lemma_find_spec(s, seq![c]);
    match find(s, seq![c]) {
        Some(i) => {
            assert(s.subrange(i, i + 1)[0] == s[i]);
            assert forall|k: int| 0 <= k < i implies s[k] != c by {
                if s[k] == c {
                    assert(s.subrange(k, k + 1) =~= seq![c]);
                    assert(occurs_at(s, seq![c], k));
                }
            }
        },
        None => {
            assert forall|k: int| 0 <= k < s.len() implies s[k] != c by {
                if s[k] == c {
                    assert(s.subrange(k, k + 1) =~= seq![c]);
                    assert(occurs_at(s, seq![c], k));
                }
            }
        },
    }
    assert(before_char(s, c) + from_char(s, c) =~= s);
}

/// The first `c` of `s` stands at `i` (or there is none and `i` is the length).
pub proof fn lemma_before_char_at(s: Seq<char>, c: char, i: int)
    requires
        0 <= i <= s.len(),
        forall|k: int| 0 <= k < i ==> s[k] != c,
        i == s.len() || s[i] == c,
    ensures
        before_char(s, c) == s.subrange(0, i),
{
    lemma_find_spec(s, seq![c]);
    if i < s.len() {
        assert(s.subrange(i, i + 1) =~= seq![c]);
        assert(occurs_at(s, seq![c], i));
    }
    match find(s, seq![c]) {
        Some(j) => {
            assert(s.subrange(j, j + 1)[0] == s[j]);
            if j > i {
                assert(!occurs_at(s, seq![c], i));
            }
            assert(j == i);
        },
        None => {
            assert(i == s.len());
            assert(s.subrange(0, i) =~= s);
        },
    }
}

pub proof fn lemma_lead_ws_bound(s: Seq<char>)
    ensures
        lead_ws(s) <= s.len(),
        forall|i: int| 0 <= i < lead_ws(s) ==> is_ws(#[trigger] s[i]),
        lead_ws(s) < s.len() ==> !is_ws(s[lead_ws(s) as int]),
    decreases s.len(),
{
    if s.len() > 0 && is_ws(s[0]) {
        lemma_lead_ws_bound(s.drop_first());
        assert forall|i: int| 0 <= i < lead_ws(s) implies is_ws(#[trigger] s[i]) by {
            if i > 0 {
                assert(s[i] == s.drop_first()[i - 1]);
            }
        }
    }
}

pub proof fn lemma_trail_ws_bound(s: Seq<char>)
    ensures
        trail_ws(s) <= s.len(),
        forall|i: int| s.len() - trail_ws(s) <= i < s.len() ==> is_ws(#[trigger] s[i]),
        trail_ws(s) < s.len() ==> !is_ws(s[s.len() - trail_ws(s) - 1]),
    decreases s.len(),
{
    if s.len() > 0 && is_ws(s.last()) {
        lemma_trail_ws_bound(s.drop_last());
        assert forall|i: int| s.len() - trail_ws(s) <= i < s.len() implies is_ws(#[trigger] s[i]) by {
            if i < s.len() - 1 {
                assert(s[i] == s.drop_last()[i]);
            }
        }
    }
}

/// A run of leading whitespace of length `k` followed by a non-space is `lead_ws`.
pub proof fn lemma_lead_ws_char(s: Seq<char>, k: int)
    requires
        0 <= k <= s.len(),
        forall|i: int| 0 <= i < k ==> is_ws(#[trigger] s[i]),
        k == s.len() || !is_ws(s[k]),
    ensures
        lead_ws(s) == k,
    decreases s.len(),
{
    if k > 0 {
        assert(is_ws(s[0]));
        let t = s.drop_first();
        assert forall|i: int| 0 <= i < k - 1 implies is_ws(#[trigger] t[i]) by {
            assert(t[i] == s[i + 1]);
        }
        if k < s.len() {
            assert(t[k - 1] == s[k]);
        }
        lemma_lead_ws_char(t, k - 1);
    }
}

/// A run of trailing whitespace of length `k` preceded by a non-space is `trail_ws`.
pub proof fn lemma_trail_ws_char(s: Seq<char>, k: int)
    requires
        0 <= k <= s.len(),
        forall|i: int| s.len() - k <= i < s.len() ==> is_ws(#[trigger] s[i]),
        k == s.len() || !is_ws(s[s.len() - k - 1]),
    ensures
        trail_ws(s) == k,
    decreases s.len(),
{
    if k > 0 {
        assert(is_ws(s[s.len() - 1]));
        let t = s.drop_last();
        assert forall|i: int| t.len() - (k - 1) <= i < t.len() implies is_ws(#[trigger] t[i]) by {
            assert(t[i] == s[i]);
        }
        if k < s.len() {
            assert(t[t.len() - (k - 1) - 1] == s[s.len() - k - 1]);
        }
        lemma_trail_ws_char(t, k - 1);
    }
}

pub proof fn lemma_byte_len_push(s: Seq<char>, c: char)
    ensures
        byte_len(s.push(c)) == byte_len(s) + char_width(c),
    decreases s.len(),
{
    if s.len() == 0 {
        assert(s.push(c).drop_first() =~= seq![]);
        assert(s.push(c)[0] == c);
        assert(byte_len(seq![]) == 0);
    } else {
        assert(s.push(c).drop_first() =~= s.drop_first().push(c));
        assert(s.push(c)[0] == s[0]);
        lemma_byte_len_push(s.drop_first(), c);
    }
}

pub proof fn lemma_byte_len_concat(a: Seq<char>, b: Seq<char>)
    ensures
        byte_len(a + b) == byte_len(a) + byte_len(b),
    decreases a.len(),
{
    if a.len() == 0 {
        assert(a + b =~= b);
    } else {
        assert((a + b).drop_first() =~= a.drop_first() + b);
        lemma_byte_len_concat(a.drop_first(), b);
    }
}

pub proof fn lemma_byte_len_ge_len(s: Seq<char>)
    ensures
        byte_len(s) >= s.len(),
    decreases s.len(),
{
    if s.len() > 0 {
        lemma_byte_len_ge_len(s.drop_first());
    }
}

pub proof fn lemma_repeat_len(s: Seq<char>, n: nat)
    ensures
        repeat(s, n).len() == s.len() * n,
    decreases n,
{
    if n > 0 {
        lemma_repeat_len(s, (n - 1) as nat);
        assert(repeat(s, n) == repeat(s, (n - 1) as nat) + s);
        let m = s.len();
        assert(m * n == m * ((n - 1) as nat) + m) by (nonlinear_arith)
            requires n > 0;
    } else {
        let m = s.len();
        assert(m * n == 0) by (nonlinear_arith)
            requires n == 0;
    }
}

pub proof fn lemma_repeat_index(s: Seq<char>, n: nat, i: int)
    requires
        s.len() == 1,
        0 <= i < n,
    ensures
        repeat(s, n).len() == n,
        repeat(s, n)[i] == s[0],
    decreases n,
{
    lemma_repeat_len(s, n);
    if i < n - 1 {
        lemma_repeat_index(s, (n - 1) as nat, i);
    }
}

pub proof fn lemma_dec_len_bound(n: nat)
    ensures
        dec(n).len() >= 1,
        n < 10 ==> dec(n).len() == 1,
        10 <= n < 100 ==> dec(n).len() == 2,
        100 <= n < 1000 ==> dec(n).len() == 3,
    decreases n,
{
    if n >= 10 {
        lemma_dec_len_bound(n / 10);
    }
}

// ---------------------------------------------------------------------------
// Executable helpers
// ---------------------------------------------------------------------------

/// Appends one character to a `String` (`String::push`).
#[verifier::external_body]
pub fn push_char(s: &mut String, c: char)
    ensures
        final(s)@ == old(s)@.push(c),
{
    s.push(c);
}

/// `str::to_lowercase`: the Unicode lowercase mapping, which on ASCII text
/// makes the capitals `A`..`Z` small and keeps every other character.
#[verifier::external_body]
pub fn to_lowercase(s: &str) -> (r: String)
    ensures
        r@ == unicode_lower(s@),
        is_ascii_str(s@) ==> r@ == ascii_lowered(s@),
{
    s.to_lowercase()
}

/// `str::to_uppercase`: the Unicode uppercase mapping, which on ASCII text
/// makes the small letters `a`..`z` capital and keeps every other character.
#[verifier::external_body]
pub fn to_uppercase(s: &str) -> (r: String)
    ensures
        r@ == unicode_upper(s@),
        is_ascii_str(s@) ==> r@ == ascii_uppered(s@),
{
    s.to_uppercase()
}

/// The characters of a string.
pub fn chars_of(s: &str) -> (v: Vec<char>)
    ensures
        v@ == s@,
{
    let n = s.unicode_len();
    let mut v: Vec<char> = Vec::new();
    let mut i: usize = 0;
    while i < n
        invariant
            n == s@.len(),
            i <= n,
            v@ == s@.subrange(0, i as int),
        decreases n - i,
    {
        let c = s.get_char(i);
        v.push(c);
        i = i + 1;
        assert(v@ =~= s@.subrange(0, i as int));
    }
    assert(v@ =~= s@);
    v
}

/// A `String` holding the characters `v[from..to]`.
pub fn string_of_range(v: &Vec<char>, from: usize, to: usize) -> (s: String)
    requires
        from <= to <= v.len(),
    ensures
        s@ == v@.subrange(from as int, to as int),
{
    let mut s = String::new();
    let mut i = from;
    while i < to
        invariant
            from <= i <= to <= v.len(),
            s@ == v@.subrange(from as int, i as int),
        decreases to - i,
    {
        push_char(&mut s, v[i]);
        i = i + 1;
        assert(s@ =~= v@.subrange(from as int, i as int));
    }
    s
}

/// A `String` holding exactly the characters of `v`.
pub fn string_of(v: &Vec<char>) -> (s: String)
    ensures
        s@ == v@,
{
    let s = string_of_range(v, 0, v.len());
    assert(v@.subrange(0, v@.len() as int) =~= v@);
    s
}

/// An owned copy of `s`.
pub fn owned(s: &str) -> (r: String)
    ensures
        r@ == s@,
{
    s.to_owned()
}

/// `a + b`.
pub fn concat2(a: &str, b: &str) -> (r: String)
    ensures
        r@ == a@ + b@,
{
    let mut r = a.to_owned();
    r.append(b);
    r
}

/// `a + b + c`.
pub fn concat3(a: &str, b: &str, c: &str) -> (r: String)
    ensures
        r@ == a@ + b@ + c@,
{
    let mut r = a.to_owned();
    r.append(b);
    r.append(c);
    r
}

/// `n` copies of `s` (`str::repeat`).
pub fn repeat_str(s: &str, n: usize) -> (r: String)
    ensures
        r@ == repeat(s@, n as nat),
{
    let mut r = String::new();
    let mut i: usize = 0;
    while i < n
        invariant
            i <= n,
            r@ == repeat(s@, i as nat),
        decreases n - i,
    {
        r.append(s);
        i = i + 1;
    }
    r
}

/// `n` spaces.
pub fn spaces_str(n: usize) -> (r: String)
    ensures
        r@ == spaces(n as nat),
{
    proof {
        reveal_strlit(" ");
        assert(" "@ =~= seq![' ']);
    }
    repeat_str(" ", n)
}

/// Whether a character is whitespace (`char::is_whitespace`).
pub fn is_whitespace(c: char) -> (b: bool)
    ensures
        b == is_ws(c),
{
    c == ' ' || c == '\t' || c == '\n' || c == '\r' || c == '\u{0b}' || c == '\u{0c}' || c == '\u{85}'
        || c == '\u{a0}' || c == '\u{1680}' || ('\u{2000}' <= c && c <= '\u{200a}') || c == '\u{2028}'
        || c == '\u{2029}' || c == '\u{202f}' || c == '\u{205f}' || c == '\u{3000}'
}

/// The bounds `[start, end)` of `trim(v)` inside `v`.
pub fn trim_bounds(v: &Vec<char>) -> (r: (usize, usize))
    ensures
        r.0 <= r.1 <= v.len(),
        v@.subrange(r.0 as int, r.1 as int) == trim(v@),
{
    let n = v.len();
    let mut a: usize = 0;
    while a < n && is_whitespace(v[a])
        invariant
            a <= n == v.len(),
            forall|i: int| 0 <= i < a ==> is_ws(#[trigger] v@[i]),
        decreases n - a,
    {
        a = a + 1;
    }
    proof {
        lemma_lead_ws_char(v@, a as int);
    }
    let mut b: usize = n;
    while b > a && is_whitespace(v[b - 1])
        invariant
            a <= b <= n == v.len(),
            forall|i: int| b <= i < n ==> is_ws(#[trigger] v@[i]),
        decreases b - a,
    {
        b = b - 1;
    }
    proof {
        let t = trim_start(v@);
        assert(t =~= v@.subrange(a as int, n as int));
        let k = n - b;
        assert forall|i: int| t.len() - k <= i < t.len() implies is_ws(#[trigger] t[i]) by {
            assert(t[i] == v@[i + a]);
        }
        if k < t.len() {
            assert(t[t.len() - k - 1] == v@[b - 1]);
        }
        lemma_trail_ws_char(t, k);
        assert(trim(v@) =~= v@.subrange(a as int, b as int));
    }
    (a, b)
}

/// `str::trim`, returning an owned string.
pub fn trim_str(s: &str) -> (r: String)
    ensures
        r@ == trim(s@),
{
    let v = chars_of(s);
    let (a, b) = trim_bounds(&v);
    string_of_range(&v, a, b)
}

/// Whether `v[i..]` starts with `p`.
pub fn has_at(v: &Vec<char>, i: usize, p: &Vec<char>) -> (b: bool)
    requires
        i <= v.len(),
    ensures
        b == occurs_at(v@, p@, i as int),
{
    if p.len() > v.len() - i {
        return false;
    }
    let mut k: usize = 0;
    while k < p.len()
        invariant
            i + p.len() <= v.len(),
            k <= p.len(),
            forall|j: int| 0 <= j < k ==> v@[i + j] == p@[j],
        decreases p.len() - k,
    {
        if v[i + k] != p[k] {
            assert(v@.subrange(i as int, i + p@.len())[k as int] != p@[k as int]);
            return false;
        }
        k = k + 1;
    }
    assert(v@.subrange(i as int, i + p@.len()) =~= p@);
    true
}

/// `str::starts_with` for a string pattern.
pub fn starts_with_str(s: &str, p: &str) -> (b: bool)
    ensures
        b == starts_with(s@, p@),
{
    let v = chars_of(s);
    let pv = chars_of(p);
    has_at(&v, 0, &pv)
}

/// The first index at which `p` occurs in `v`, scanning from the start.
pub fn find_in(v: &Vec<char>, p: &Vec<char>) -> (r: Option<usize>)
    ensures
        match r {
            Some(i) => find(v@, p@) == Some(i as int) && occurs_at(v@, p@, i as int),
            None => find(v@, p@) is None,
        },
        r is Some <==> contains(v@, p@),
{
    let mut i: usize = 0;
    let mut done = false;
    while !done
        invariant
            i <= v.len(),
            done ==> i == v.len() && !occurs_at(v@, p@, i as int),
            forall|j: int| 0 <= j < i ==> !occurs_at(v@, p@, j),
        decreases v.len() - i + (if done { 0int } else { 1int }),
    {
        if has_at(v, i, p) {
            proof {
                reveal(find);
                assert(contains(v@, p@));
                let c = choose|c: int| occurs_at(v@, p@, c) && forall|j: int| 0 <= j < c ==> !occurs_at(v@, p@, j);
                assert(occurs_at(v@, p@, i as int) && forall|j: int| 0 <= j < i ==> !occurs_at(v@, p@, j));
                assert(c == i) by {
                    if c < i {
                        assert(!occurs_at(v@, p@, c));
                    }
                    if c > i {
                        assert(!occurs_at(v@, p@, i as int));
                    }
                }
            }
            return Some(i);
        }
        if i < v.len() {
            i = i + 1;
        } else {
            done = true;
        }
    }
    proof {
        reveal(find);
        assert forall|j: int| !occurs_at(v@, p@, j) by {
            if 0 <= j && j + p@.len() <= v@.len() && j >= i {
                assert(j == i);
            }
        }
    }
    None
}

/// `str::contains` for a string pattern.
pub fn contains_str(s: &str, p: &str) -> (b: bool)
    ensures
        b == contains(s@, p@),
{
    let v = chars_of(s);
    let pv = chars_of(p);
    match find_in(&v, &pv) {
        Some(_) => true,
        None => false,
    }
}

/// `str::split_once` for a string pattern.
pub fn split_once_str(s: &str, p: &str) -> (r: Option<(String, String)>)
    ensures
        match r {
            Some((a, b)) => split_once(s@, p@) == Some((a@, b@)),
            None => split_once(s@, p@) is None,
        },
{
    let v = chars_of(s);
    let pv = chars_of(p);
    match find_in(&v, &pv) {
        Some(i) => {
            assert(occurs_at(v@, pv@, i as int));
            assert(i + pv@.len() <= v@.len());
            let a = string_of_range(&v, 0, i);
            let plen = pv.len();
            let vlen = v.len();
            assert(i + plen <= vlen);
            let b = string_of_range(&v, i + plen, vlen);
            Some((a, b))
        },
        None => None,
    }
}

/// Everything before the first `c` in `s` (all of `s` if there is none).
pub fn before_char_str(s: &str, c: char) -> (r: String)
    ensures
        r@ == before_char(s@, c),
{
    let v = chars_of(s);
    let mut pv: Vec<char> = Vec::new();
    pv.push(c);
    assert(pv@ =~= seq![c]);
    match find_in(&v, &pv) {
        Some(i) => string_of_range(&v, 0, i),
        None => string_of(&v),
    }
}

/// `s` cut before its first `c`: what comes before it, and the rest from it on.
pub fn split_at_char(s: &str, c: char) -> (r: (String, String))
    ensures
        r.0@ == before_char(s@, c),
        r.1@ == from_char(s@, c),
{
    let v = chars_of(s);
    let mut pv: Vec<char> = Vec::new();
    pv.push(c);
    assert(pv@ =~= seq![c]);
    let n = v.len();
    match find_in(&v, &pv) {
        Some(i) => (string_of_range(&v, 0, i), string_of_range(&v, i, n)),
        None => {
            assert(v@.subrange(n as int, n as int) =~= Seq::<char>::empty());
            (string_of(&v), String::new())
        },
    }
}

/// Decimal representation of `n`.
pub fn dec_str(n: u128) -> (r: String)
    ensures
        r@ == dec(n as nat),
    decreases n,
{
    if n < 10 {
        let mut r = String::new();
        push_char(&mut r, digit(n));
        assert(r@ =~= seq![digit_char(n as nat)]);
        r
    } else {
        let mut r = dec_str(n / 10);
        push_char(&mut r, digit(n % 10));
        r
    }
}

/// The ASCII digit for `d < 10`.
pub fn digit(d: u128) -> (c: char)
    requires
        d < 10,
    ensures
        c == digit_char(d as nat),
{
    if d == 0 { '0' }
    else if d == 1 { '1' }
    else if d == 2 { '2' }
    else if d == 3 { '3' }
    else if d == 4 { '4' }
    else if d == 5 { '5' }
    else if d == 6 { '6' }
    else if d == 7 { '7' }
    else if d == 8 { '8' }
    else { '9' }
}

/// The length of a string in bytes (`str::len`): its UTF-8 encoding is
/// `byte_len` bytes long, and no allocation exceeds `isize::MAX` bytes.
#[verifier::external_body]
pub fn str_len(s: &str) -> (n: usize)
    ensures
        n == byte_len(s@),
        n <= isize::MAX,
{
    s.len()
}

/// `format!("{:<w$}", s)`.
pub fn pad_right_str(s: &str, w: usize) -> (r: String)
    ensures
        r@ == pad_right(s@, w as nat),
{
    let n = s.unicode_len();
    if n >= w {
        owned(s)
    } else {
        concat2(s, spaces_str(w - n).as_str())
    }
}

/// `format!("{:>w$}", s)`.
pub fn pad_left_str(s: &str, w: usize) -> (r: String)
    ensures
        r@ == pad_left(s@, w as nat),
{
    let n = s.unicode_len();
    if n >= w {
        owned(s)
    } else {
        concat2(spaces_str(w - n).as_str(), s)
    }
}

/// `str::eq_ignore_ascii_case`.
pub fn eq_ignore_ascii_case_str(a: &str, b: &str) -> (r: bool)
    ensures
        r == eq_ignore_ascii_case(a@, b@),
{
    let av = chars_of(a);
    let bv = chars_of(b);
    if av.len() != bv.len() {
        return false;
    }
    let mut i: usize = 0;
    while i < av.len()
        invariant
            av@ == a@,
            bv@ == b@,
            av.len() == bv.len(),
            i <= av.len(),
            forall|j: int| 0 <= j < i ==> ascii_lower(#[trigger] av@[j]) == ascii_lower(bv@[j]),
        decreases av.len() - i,
    {
        if ascii_lower_char(av[i]) != ascii_lower_char(bv[i]) {
            return false;
        }
        i = i + 1;
    }
    true
}

/// `char::to_ascii_lowercase`.
pub fn ascii_lower_char(c: char) -> (r: char)
    ensures
        r == ascii_lower(c),
{
    if 'A' <= c && c <= 'Z' {
        let u: u8 = (c as u8) + 32;
        u as char
    } else {
        c
    }
}


// ---------------------------------------------------------------------------
// Ordering of strings
// ---------------------------------------------------------------------------

/// Lexicographic order on strings by code point: the order of `String`'s `Ord`
/// (UTF-8 byte order and code point order agree).
pub open spec fn lex_lt(a: Seq<char>, b: Seq<char>) -> bool
    decreases a.len(),
{
    if a.len() == 0 {
        b.len() > 0
    } else if b.len() == 0 {
        false
    } else if a[0] == b[0] {
        lex_lt(a.drop_first(), b.drop_first())
    } else {
        a[0] < b[0]
    }
}

pub proof fn lemma_lex_irreflexive(a: Seq<char>)
    ensures
        !lex_lt(a, a),
    decreases a.len(),
{
    if a.len() > 0 {
        lemma_lex_irreflexive(a.drop_first());
    }
}

pub proof fn lemma_lex_asym(a: Seq<char>, b: Seq<char>)
    ensures
        !(lex_lt(a, b) && lex_lt(b, a)),
    decreases a.len(),
{
    if a.len() > 0 && b.len() > 0 && a[0] == b[0] {
        lemma_lex_asym(a.drop_first(), b.drop_first());
    }
}

pub proof fn lemma_lex_trans(a: Seq<char>, b: Seq<char>, c: Seq<char>)
    requires
        lex_lt(a, b),
        lex_lt(b, c),
    ensures
        lex_lt(a, c),
    decreases a.len(),
{
    if a.len() > 0 && b.len() > 0 && c.len() > 0 {
        if a[0] == b[0] && b[0] == c[0] {
            lemma_lex_trans(a.drop_first(), b.drop_first(), c.drop_first());
        }
    }
}

pub proof fn lemma_lex_total(a: Seq<char>, b: Seq<char>)
    ensures
        a != b ==> lex_lt(a, b) || lex_lt(b, a),
    decreases a.len(),
{
    if a.len() > 0 && b.len() > 0 {
        if a[0] == b[0] {
            lemma_lex_total(a.drop_first(), b.drop_first());
            if a.drop_first() == b.drop_first() {
                assert(a =~= seq![a[0]] + a.drop_first());
                assert(b =~= seq![b[0]] + b.drop_first());
            }
        }
    } else if a.len() == 0 && b.len() == 0 {
        assert(a =~= b);
    }
}

/// Three-way comparison in `lex_lt` order: negative, zero or positive.
pub fn lex_order(a: &Vec<char>, b: &Vec<char>) -> (r: i8)
    ensures
        r < 0 <==> lex_lt(a@, b@),
        r == 0 <==> a@ == b@,
        r > 0 <==> lex_lt(b@, a@),
{
    let mut i: usize = 0;
    while i < a.len() && i < b.len() && a[i] == b[i]
        invariant
            i <= a.len(),
            i <= b.len(),
            a@.subrange(0, i as int) == b@.subrange(0, i as int),
        decreases a.len() - i,
    {
        proof {
            assert(a@.subrange(0, i + 1) =~= a@.subrange(0, i as int).push(a@[i as int]));
            assert(b@.subrange(0, i + 1) =~= b@.subrange(0, i as int).push(b@[i as int]));
        }
        i = i + 1;
    }
    proof {
        lemma_lex_prefix(a@, b@, i as int);
        lemma_lex_irreflexive(a@);
        lemma_lex_asym(a@, b@);
        lemma_lex_total(a@, b@);
    }
    if i < a.len() && i < b.len() {
        proof {
            assert(a@[i as int] != b@[i as int]);
            assert(a@ != b@);
        }
        if a[i] < b[i] {
            -1
        } else {
            1
        }
    } else if i < a.len() {
        proof { assert(a@.len() != b@.len()); }
        1
    } else if i < b.len() {
        proof { assert(a@.len() != b@.len()); }
        -1
    } else {
        proof {
            assert(a@ =~= a@.subrange(0, i as int));
            assert(b@ =~= b@.subrange(0, i as int));
        }
        0
    }
}

/// Comparison after a common prefix of length `i` reduces to the rest.
pub proof fn lemma_lex_prefix(a: Seq<char>, b: Seq<char>, i: int)
    requires
        0 <= i <= a.len(),
        i <= b.len(),
        a.subrange(0, i) == b.subrange(0, i),
    ensures
        lex_lt(a, b) == lex_lt(a.subrange(i, a.len() as int), b.subrange(i, b.len() as int)),
    decreases i,
{
    if i > 0 {
        assert(a[0] == a.subrange(0, i)[0]);
        assert(b[0] == b.subrange(0, i)[0]);
        let a1 = a.drop_first();
        let b1 = b.drop_first();
        assert(a1.subrange(0, i - 1) =~= a.subrange(1, i));
        assert(b1.subrange(0, i - 1) =~= b.subrange(1, i));
        assert(a.subrange(1, i) =~= a.subrange(0, i).drop_first());
        assert(b.subrange(1, i) =~= b.subrange(0, i).drop_first());
        lemma_lex_prefix(a1, b1, i - 1);
        assert(a1.subrange(i - 1, a1.len() as int) =~= a.subrange(i, a.len() as int));
        assert(b1.subrange(i - 1, b1.len() as int) =~= b.subrange(i, b.len() as int));
    } else {
        assert(a.subrange(0, a.len() as int) =~= a);
        assert(b.subrange(0, b.len() as int) =~= b);
    }
}


// ---------------------------------------------------------------------------
// Lines
// ---------------------------------------------------------------------------

/// A line without its `\r` terminator, if it has one.
pub open spec fn strip_cr(l: Seq<char>) -> Seq<char> {
    if l.len() > 0 && l.last() == '\r' {
        l.drop_last()
    } else {
        l
    }
}

/// `str::lines`: split after each `\n`, dropping the `\n` (and a `\r` just
/// before it); a final line ending adds no empty line.
pub open spec fn lines(s: Seq<char>) -> Seq<Seq<char>>
    decreases s.len(),
{
    if s.len() == 0 {
        seq![]
    } else {
        match index_of(s, '\n') {
            None => seq![s],
            Some(i) => {
                if 0 <= i < s.len() {
                    seq![strip_cr(s.subrange(0, i))] + lines(s.subrange(i + 1, s.len() as int))
                } else {
                    seq![]
                }
            },
        }
    }
}

/// The first line of a string with a line feed at `i`.
pub proof fn lemma_lines_unfold(s: Seq<char>, i: int)
    requires
        0 <= i < s.len(),
        s[i] == '\n',
        forall|k: int| 0 <= k < i ==> s[k] != '\n',
    ensures
        lines(s) == seq![strip_cr(s.subrange(0, i))] + lines(s.subrange(i + 1, s.len() as int)),
{
    reveal(find);
    let p = seq!['\n'];
    assert forall|k: int| 0 <= k < i implies !occurs_at(s, p, k) by {
        assert(s.subrange(k, k + 1)[0] == s[k]);
    }
    assert(s.subrange(i, i + 1) =~= p);
    assert(occurs_at(s, p, i));
    let c = choose|c: int| occurs_at(s, p, c) && forall|m: int| 0 <= m < c ==> !occurs_at(s, p, m);
    assert(c == i) by {
        if c < i {
            assert(!occurs_at(s, p, c));
        }
        if c > i {
            assert(!occurs_at(s, p, i));
        }
    }
    assert(index_of(s, '\n') == Some(i));
}

/// A non-empty string without line feeds is one line.
pub proof fn lemma_lines_last(s: Seq<char>)
    requires
        s.len() > 0,
        forall|k: int| 0 <= k < s.len() ==> s[k] != '\n',
    ensures
        lines(s) == seq![s],
{
    reveal(find);
    let p = seq!['\n'];
    assert forall|k: int| !occurs_at(s, p, k) by {
        if 0 <= k < s.len() {
            assert(s.subrange(k, k + 1)[0] == s[k]);
        }
    }
    assert(index_of(s, '\n') is None);
}

/// `str::lines`.
pub fn lines_of(s: &str) -> (r: Vec<String>)
    ensures
        r@.map_values(|l: String| l@) == lines(s@),
{
    let v = chars_of(s);
    let mut r: Vec<String> = Vec::new();
    let mut start: usize = 0;
    assert(v@.subrange(0, v@.len() as int) =~= s@);
    assert(r@.map_values(|l: String| l@) =~= Seq::<Seq<char>>::empty());
    while start < v.len()
        invariant
            start <= v.len(),
            v@ == s@,
            r@.map_values(|l: String| l@) + lines(v@.subrange(start as int, v@.len() as int)) == lines(s@),
        decreases v.len() - start,
    {
        let ghost rest = v@.subrange(start as int, v@.len() as int);
        let mut j: usize = start;
        while j < v.len() && v[j] != '\n'
            invariant
                start <= j <= v.len(),
                forall|k: int| start <= k < j ==> v@[k] != '\n',
            decreases v.len() - j,
        {
            j = j + 1;
        }
        let ghost old_r = r@.map_values(|l: String| l@);
        if j < v.len() {
            let mut end = j;
            if end > start && v[end - 1] == '\r' {
                end = end - 1;
            }
            let line = string_of_range(&v, start, end);
            proof {
                let i = (j - start) as int;
                assert forall|k: int| 0 <= k < i implies rest[k] != '\n' by {
                    assert(rest[k] == v@[start + k]);
                }
                lemma_lines_unfold(rest, i);
                assert(rest.subrange(0, i) =~= v@.subrange(start as int, j as int));
                assert(strip_cr(rest.subrange(0, i)) =~= v@.subrange(start as int, end as int));
                assert(rest.subrange(i + 1, rest.len() as int) =~= v@.subrange(j + 1, v@.len() as int));
            }
            r.push(line);
            proof {
                assert(r@.map_values(|l: String| l@) =~= old_r.push(line@));
                assert(old_r.push(line@) + lines(v@.subrange(j + 1, v@.len() as int)) =~= old_r + (seq![line@]
                    + lines(v@.subrange(j + 1, v@.len() as int))));
            }
            start = j + 1;
        } else {
            let line = string_of_range(&v, start, v.len());
            proof {
                assert forall|k: int| 0 <= k < rest.len() implies rest[k] != '\n' by {
                    assert(rest[k] == v@[start + k]);
                }
                lemma_lines_last(rest);
                assert(v@.subrange(v@.len() as int, v@.len() as int) =~= Seq::<char>::empty());
                assert(lines(Seq::<char>::empty()) =~= Seq::<Seq<char>>::empty());
            }
            r.push(line);
            proof {
                assert(r@.map_values(|l: String| l@) =~= old_r.push(line@));
                assert(old_r.push(line@) + Seq::<Seq<char>>::empty() =~= old_r + seq![rest]);
            }
            start = v.len();
        }
    }
    proof {
        assert(v@.subrange(start as int, v@.len() as int) =~= Seq::<char>::empty());
        assert(lines(Seq::<char>::empty()) =~= Seq::<Seq<char>>::empty());
        assert(r@.map_values(|l: String| l@) + Seq::<Seq<char>>::empty() =~= r@.map_values(|l: String| l@));
    }
    r
}

/// String equality.
pub fn eq_str(a: &str, b: &str) -> (r: bool)
    ensures
        r == (a@ == b@),
{
    let av = chars_of(a);
    let bv = chars_of(b);
    lex_order(&av, &bv) == 0
}

} // verus!
