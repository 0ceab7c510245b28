//! An ordered map from context name to [`Context`], kept as a strictly sorted
//! association list: the names are unique and iterate in increasing order, as
//! in a `BTreeMap<String, Context>`.
use vstd::prelude::*;
use crate::text::{chars_of, lemma_lex_asym, lemma_lex_irreflexive, lemma_lex_total, lemma_lex_trans, lex_lt, lex_order};
use crate::config::{Context, ContextView};

verus! {

/// The model of a context map: `(name, context)` pairs.
pub type Entries = Seq<(Seq<char>, ContextView)>;

/// Names strictly increase along the list (so each name occurs once).
pub open spec fn sorted(s: Entries) -> bool {
    forall|i: int, j: int| 0 <= i < j < s.len() ==> lex_lt(#[trigger] s[i].0, #[trigger] s[j].0)
}

/// The context stored under `k`.
pub open spec fn lookup(s: Entries, k: Seq<char>) -> Option<ContextView>
    decreases s.len(),
{
    if s.len() == 0 {
        None
    } else if s[0].0 == k {
        Some(s[0].1)
    } else {
        lookup(s.drop_first(), k)
    }
}

/// Whether a context named `k` exists.
pub open spec fn has_key(s: Entries, k: Seq<char>) -> bool {
    lookup(s, k) is Some
}

/// The names, in order.
pub open spec fn keys(s: Entries) -> Seq<Seq<char>> {
    s.map_values(|e: (Seq<char>, ContextView)| e.0)
}

/// Store `v` under `k`, replacing any previous value, keeping names sorted.
pub open spec fn upsert(s: Entries, k: Seq<char>, v: ContextView) -> Entries
    decreases s.len(),
{
    if s.len() == 0 {
        seq![(k, v)]
    } else if s[0].0 == k {
        seq![(k, v)] + s.drop_first()
    } else if lex_lt(k, s[0].0) {
        seq![(k, v)] + s
    } else {
        seq![s[0]] + upsert(s.drop_first(), k, v)
    }
}

/// Drop the entry named `k`, if any.
pub open spec fn remove_key(s: Entries, k: Seq<char>) -> Entries
    decreases s.len(),
{
    if s.len() == 0 {
        s
    } else if s[0].0 == k {
        s.drop_first()
    } else {
        seq![s[0]] + remove_key(s.drop_first(), k)
    }
}

/// `entry(k).or_default()`: make sure a context named `k` exists.
pub open spec fn ensure_key(s: Entries, k: Seq<char>) -> Entries {
    if has_key(s, k) {
        s
    } else {
        upsert(s, k, ContextView::empty())
    }
}

// ---------------------------------------------------------------------------
// Lemmas
// ---------------------------------------------------------------------------

pub proof fn lemma_sorted_tail(s: Entries)
    requires
        sorted(s),
        s.len() > 0,
    ensures
        sorted(s.drop_first()),
        forall|j: int| 0 <= j < s.drop_first().len() ==> lex_lt(s[0].0, #[trigger] s.drop_first()[j].0),
{
    assert forall|i: int, j: int| 0 <= i < j < s.drop_first().len() implies lex_lt(
        #[trigger] s.drop_first()[i].0,
        #[trigger] s.drop_first()[j].0,
    ) by {
        assert(s.drop_first()[i] == s[i + 1]);
        assert(s.drop_first()[j] == s[j + 1]);
    }
    assert forall|j: int| 0 <= j < s.drop_first().len() implies lex_lt(s[0].0, #[trigger] s.drop_first()[j].0) by {
        assert(s.drop_first()[j] == s[j + 1]);
    }
}

/// In a sorted list, the lookup is the entry whose name matches, if any.
pub proof fn lemma_lookup_index(s: Entries, k: Seq<char>, i: int)
    requires
        sorted(s),
        0 <= i < s.len(),
        s[i].0 == k,
    ensures
        lookup(s, k) == Some(s[i].1),
    decreases s.len(),
{
    if s[0].0 != k {
        lemma_sorted_tail(s);
        assert(i > 0);
        assert(s.drop_first()[i - 1] == s[i]);
        lemma_lookup_index(s.drop_first(), k, i - 1);
    } else if i > 0 {
        lemma_lex_irreflexive(k);
    }
}

/// The first entry is found under its own name.
pub proof fn lemma_lookup_first(s: Entries)
    requires
        s.len() > 0,
    ensures
        lookup(s, s[0].0) == Some(s[0].1),
{
}

/// A name absent from the list has no lookup.
pub proof fn lemma_lookup_none(s: Entries, k: Seq<char>)
    requires
        forall|i: int| 0 <= i < s.len() ==> (#[trigger] s[i]).0 != k,
    ensures
        lookup(s, k) is None,
    decreases s.len(),
{
    if s.len() > 0 {
        assert(s[0].0 != k);
        assert forall|i: int| 0 <= i < s.drop_first().len() implies (#[trigger] s.drop_first()[i]).0 != k by {
            assert(s.drop_first()[i] == s[i + 1]);
        }
        lemma_lookup_none(s.drop_first(), k);
    }
}

/// A lookup that succeeds comes from some entry.
pub proof fn lemma_lookup_some(s: Entries, k: Seq<char>)
    requires
        lookup(s, k) is Some,
    ensures
        exists|i: int| 0 <= i < s.len() && (#[trigger] s[i]).0 == k && lookup(s, k) == Some(s[i].1),
    decreases s.len(),
{
    if s[0].0 != k {
        lemma_lookup_some(s.drop_first(), k);
        let i = choose|i: int| 0 <= i < s.drop_first().len() && (#[trigger] s.drop_first()[i]).0 == k
            && lookup(s.drop_first(), k) == Some(s.drop_first()[i].1);
        assert(s[i + 1] == s.drop_first()[i]);
    } else {
        assert(s[0].0 == k);
    }
}

/// `upsert` at the first position whose name is not below `k`.
pub proof fn lemma_upsert_split(s: Entries, k: Seq<char>, v: ContextView, i: int)
    requires
        sorted(s),
        0 <= i <= s.len(),
        forall|j: int| 0 <= j < i ==> lex_lt((#[trigger] s[j]).0, k),
        i == s.len() || !lex_lt(s[i].0, k),
    ensures
        i < s.len() && s[i].0 == k ==> upsert(s, k, v) == s.take(i) + seq![(k, v)] + s.skip(i + 1),
        !(i < s.len() && s[i].0 == k) ==> upsert(s, k, v) == s.take(i) + seq![(k, v)] + s.skip(i),
    decreases s.len(),
{
    if s.len() == 0 {
        assert(s.take(i) + seq![(k, v)] + s.skip(i) =~= seq![(k, v)]);
    } else if i == 0 {
        lemma_lex_total(k, s[0].0);
        if s[0].0 == k {
            assert(s.take(0) + seq![(k, v)] + s.skip(1) =~= seq![(k, v)] + s.drop_first());
        } else {
            assert(lex_lt(k, s[0].0));
            assert(s.take(0) + seq![(k, v)] + s.skip(0) =~= seq![(k, v)] + s);
        }
    } else {
        assert(lex_lt(s[0].0, k));
        lemma_lex_irreflexive(k);
        lemma_lex_asym(k, s[0].0);
        let t = s.drop_first();
        lemma_sorted_tail(s);
        assert forall|j: int| 0 <= j < i - 1 implies lex_lt((#[trigger] t[j]).0, k) by {
            assert(t[j] == s[j + 1]);
        }
        if i < s.len() {
            assert(t[i - 1] == s[i]);
        }
        lemma_upsert_split(t, k, v, i - 1);
        if i < s.len() && s[i].0 == k {
            assert(seq![s[0]] + (t.take(i - 1) + seq![(k, v)] + t.skip(i)) =~= s.take(i) + seq![(k, v)]
                + s.skip(i + 1));
        } else {
            assert(seq![s[0]] + (t.take(i - 1) + seq![(k, v)] + t.skip(i - 1)) =~= s.take(i) + seq![(k, v)]
                + s.skip(i));
        }
    }
}

/// `upsert` keeps the list sorted, and a lookup sees the new value only under `k`.
pub proof fn lemma_upsert(s: Entries, k: Seq<char>, v: ContextView)
    requires
        sorted(s),
    ensures
        sorted(upsert(s, k, v)),
        lookup(upsert(s, k, v), k) == Some(v),
        forall|j: Seq<char>| j != k ==> lookup(upsert(s, k, v), j) == #[trigger] lookup(s, j),
        has_key(s, k) ==> upsert(s, k, v).len() == s.len(),
        !has_key(s, k) ==> upsert(s, k, v).len() == s.len() + 1,
    decreases s.len(),
{
    let u = upsert(s, k, v);
    if s.len() == 0 {
        assert(u =~= seq![(k, v)]);
        assert(u.drop_first() =~= s);
        assert forall|j: Seq<char>| j != k implies lookup(u, j) == #[trigger] lookup(s, j) by {
            assert(lookup(u, j) == lookup(u.drop_first(), j));
        }
    } else if s[0].0 == k {
        lemma_sorted_tail(s);
        assert(u.drop_first() =~= s.drop_first());
        assert forall|a: int, b: int| 0 <= a < b < u.len() implies lex_lt(#[trigger] u[a].0, #[trigger] u[b].0) by {
            assert(u[b] == s[b]);
            if a > 0 {
                assert(u[a] == s[a]);
            }
        }
        assert forall|j: Seq<char>| j != k implies lookup(u, j) == #[trigger] lookup(s, j) by {
            assert(lookup(u, j) == lookup(u.drop_first(), j));
            assert(lookup(s, j) == lookup(s.drop_first(), j));
        }
    } else if lex_lt(k, s[0].0) {
        assert(u.drop_first() =~= s);
        assert forall|a: int, b: int| 0 <= a < b < u.len() implies lex_lt(#[trigger] u[a].0, #[trigger] u[b].0) by {
            assert(u[b] == s[b - 1]);
            if a > 0 {
                assert(u[a] == s[a - 1]);
            } else if b - 1 > 0 {
                lemma_lex_trans(k, s[0].0, s[b - 1].0);
            }
        }
        lemma_lookup_none_below(s, k);
        assert forall|j: Seq<char>| j != k implies lookup(u, j) == #[trigger] lookup(s, j) by {
            assert(lookup(u, j) == lookup(u.drop_first(), j));
        }
    } else {
        let t = s.drop_first();
        lemma_sorted_tail(s);
        lemma_upsert(t, k, v);
        lemma_lex_total(k, s[0].0);
        assert(u.drop_first() =~= upsert(t, k, v));
        assert(u[0] == s[0]);
        assert forall|a: int| 0 <= a < upsert(t, k, v).len() implies lex_lt(s[0].0, #[trigger] upsert(t, k, v)[a].0) by {
            lemma_upsert_names(t, k, v, a);
            if upsert(t, k, v)[a].0 != k {
                let b = choose|b: int| 0 <= b < t.len() && t[b].0 == upsert(t, k, v)[a].0;
                assert(lex_lt(s[0].0, t[b].0));
            }
        }
        assert forall|a: int, b: int| 0 <= a < b < u.len() implies lex_lt(#[trigger] u[a].0, #[trigger] u[b].0) by {
            assert(u[b] == upsert(t, k, v)[b - 1]);
            if a > 0 {
                assert(u[a] == upsert(t, k, v)[a - 1]);
            }
        }
        assert(lookup(u, k) == lookup(upsert(t, k, v), k));
        assert forall|j: Seq<char>| j != k implies lookup(u, j) == #[trigger] lookup(s, j) by {
            if s[0].0 != j {
                assert(lookup(u, j) == lookup(upsert(t, k, v), j));
                assert(lookup(s, j) == lookup(t, j));
            }
        }
        assert(has_key(s, k) == has_key(t, k));
    }
}

/// Every name in `upsert(s, k, v)` is `k` or a name of `s`.
pub proof fn lemma_upsert_names(s: Entries, k: Seq<char>, v: ContextView, a: int)
    requires
        0 <= a < upsert(s, k, v).len(),
    ensures
        upsert(s, k, v)[a].0 == k || exists|b: int| 0 <= b < s.len() && s[b].0 == upsert(s, k, v)[a].0,
    decreases s.len(),
{
    if s.len() == 0 {
    } else if s[0].0 == k {
        if a > 0 {
            assert(upsert(s, k, v)[a] == s[a]);
        }
    } else if lex_lt(k, s[0].0) {
        if a > 0 {
            assert(upsert(s, k, v)[a] == s[a - 1]);
        }
    } else {
        if a == 0 {
            assert(s[0].0 == upsert(s, k, v)[a].0);
        } else {
            let t = s.drop_first();
            assert(upsert(s, k, v)[a] == upsert(t, k, v)[a - 1]);
            lemma_upsert_names(t, k, v, a - 1);
            if upsert(t, k, v)[a - 1].0 != k {
                let b = choose|b: int| 0 <= b < t.len() && t[b].0 == upsert(t, k, v)[a - 1].0;
                assert(s[b + 1] == t[b]);
            }
        }
    }
}

/// A name below every name of a sorted list is absent from it.
pub proof fn lemma_lookup_none_below(s: Entries, k: Seq<char>)
    requires
        sorted(s),
        s.len() > 0,
        lex_lt(k, s[0].0),
    ensures
        lookup(s, k) is None,
{
    assert forall|i: int| 0 <= i < s.len() implies (#[trigger] s[i]).0 != k by {
        lemma_lex_irreflexive(k);
        if i > 0 {
            if s[i].0 == k {
                lemma_lex_asym(k, s[0].0);
            }
        }
    }
    lemma_lookup_none(s, k);
}

/// `remove_key` at the position of `k`.
pub proof fn lemma_remove_split(s: Entries, k: Seq<char>, i: int)
    requires
        sorted(s),
        0 <= i < s.len(),
        s[i].0 == k,
    ensures
        remove_key(s, k) == s.take(i) + s.skip(i + 1),
    decreases s.len(),
{
    if i == 0 {
        assert(s.take(0) + s.skip(1) =~= s.drop_first());
    } else {
        let t = s.drop_first();
        lemma_sorted_tail(s);
        assert(s[0].0 != k) by {
            lemma_lex_irreflexive(k);
        }
        assert(t[i - 1] == s[i]);
        lemma_remove_split(t, k, i - 1);
        assert(seq![s[0]] + (t.take(i - 1) + t.skip(i)) =~= s.take(i) + s.skip(i + 1));
    }
}

/// Removing an absent name changes nothing.
pub proof fn lemma_remove_absent(s: Entries, k: Seq<char>)
    requires
        lookup(s, k) is None,
    ensures
        remove_key(s, k) == s,
    decreases s.len(),
{
    if s.len() > 0 {
        lemma_remove_absent(s.drop_first(), k);
        assert(seq![s[0]] + s.drop_first() =~= s);
    }
}

/// `remove_key` keeps the list sorted and hides only `k`.
pub proof fn lemma_remove(s: Entries, k: Seq<char>)
    requires
        sorted(s),
    ensures
        sorted(remove_key(s, k)),
        lookup(remove_key(s, k), k) is None,
        forall|j: Seq<char>| j != k ==> lookup(remove_key(s, k), j) == #[trigger] lookup(s, j),
        has_key(s, k) ==> remove_key(s, k).len() + 1 == s.len(),
        !has_key(s, k) ==> remove_key(s, k) == s,
    decreases s.len(),
{
    if s.len() == 0 {
    } else if s[0].0 == k {
        lemma_sorted_tail(s);
        let t = s.drop_first();
        assert forall|i: int| 0 <= i < t.len() implies (#[trigger] t[i]).0 != k by {
            lemma_lex_irreflexive(k);
        }
        lemma_lookup_none(t, k);
        assert forall|j: Seq<char>| j != k implies lookup(remove_key(s, k), j) == #[trigger] lookup(s, j) by {
            assert(lookup(s, j) == lookup(t, j));
        }
    } else {
        let t = s.drop_first();
        lemma_sorted_tail(s);
        lemma_remove(t, k);
        let r = remove_key(s, k);
        assert(r[0] == s[0]);
        assert(r.drop_first() =~= remove_key(t, k));
        assert forall|j: Seq<char>| j != k implies lookup(r, j) == #[trigger] lookup(s, j) by {
            if s[0].0 != j {
                assert(lookup(r, j) == lookup(r.drop_first(), j));
                assert(lookup(s, j) == lookup(t, j));
            }
        }
        assert(lookup(r, k) == lookup(r.drop_first(), k));
        assert(has_key(s, k) == has_key(t, k));
        assert(r.drop_first() =~= remove_key(t, k));
        assert forall|a: int, b: int| 0 <= a < b < r.len() implies lex_lt(#[trigger] r[a].0, #[trigger] r[b].0) by {
            assert(r[b] == remove_key(t, k)[b - 1]);
            lemma_remove_names(t, k, b - 1);
            let c = choose|c: int| 0 <= c < t.len() && t[c].0 == remove_key(t, k)[b - 1].0;
            if a > 0 {
                assert(r[a] == remove_key(t, k)[a - 1]);
            } else {
                assert(lex_lt(s[0].0, t[c].0));
            }
        }
        if !has_key(s, k) {
            assert(r =~= s);
        }
    }
}

/// Every name in `remove_key(s, k)` is a name of `s`.
pub proof fn lemma_remove_names(s: Entries, k: Seq<char>, a: int)
    requires
        0 <= a < remove_key(s, k).len(),
    ensures
        exists|b: int| 0 <= b < s.len() && s[b].0 == remove_key(s, k)[a].0,
    decreases s.len(),
{
    if s[0].0 == k {
        assert(remove_key(s, k)[a] == s[a + 1]);
    } else if a == 0 {
        assert(s[0].0 == remove_key(s, k)[a].0);
    } else {
        let t = s.drop_first();
        assert(remove_key(s, k)[a] == remove_key(t, k)[a - 1]);
        lemma_remove_names(t, k, a - 1);
        let b = choose|b: int| 0 <= b < t.len() && t[b].0 == remove_key(t, k)[a - 1].0;
        assert(s[b + 1] == t[b]);
    }
}

// ---------------------------------------------------------------------------
// The executable map
// ---------------------------------------------------------------------------

/// Named contexts, ordered by name.
#[derive(Debug)]
pub struct ContextMap {
    entries: Vec<(String, Context)>,
}

impl View for ContextMap {
    type V = Entries;

    closed spec fn view(&self) -> Entries {
        self.entries@.map_values(|e: (String, Context)| (e.0@, e.1@))
    }
}

impl ContextMap {
    /// The names are always in strictly increasing order.
    #[verifier::type_invariant]
    pub closed spec fn names_sorted(self) -> bool {
        sorted(self@)
    }

    /// An empty map.
    pub fn new() -> (m: ContextMap)
        ensures
            m@ == Seq::<(Seq<char>, ContextView)>::empty(),
    {
        let m = ContextMap { entries: Vec::new() };
        assert(m@ =~= Seq::<(Seq<char>, ContextView)>::empty());
        m
    }

    /// The names of every map are in strictly increasing order: callers
    /// learn this of a map they hold, so that what is stated of sorted
    /// entries applies to it.
    pub fn names_in_order(&self)
        ensures
            sorted(self@),
    {
        proof {
            use_type_invariant(self);
        }
    }

    /// Number of contexts.
    pub fn len(&self) -> (n: usize)
        ensures
            n == self@.len(),
    {
        self.entries.len()
    }

    /// Whether there are no contexts.
    pub fn is_empty(&self) -> (b: bool)
        ensures
            b == (self@.len() == 0),
    {
        self.entries.len() == 0
    }

    /// The name of the `i`-th context in order.
    pub fn key_at(&self, i: usize) -> (k: &String)
        requires
            i < self@.len(),
        ensures
            k@ == self@[i as int].0,
    {
        &self.entries[i].0
    }

    /// The `i`-th context in order.
    pub fn value_at(&self, i: usize) -> (c: &Context)
        requires
            i < self@.len(),
        ensures
            c@ == self@[i as int].1,
    {
        &self.entries[i].1
    }

    /// The names, in order.
    pub fn keys(&self) -> (r: Vec<String>)
        ensures
            r@.map_values(|s: String| s@) == keys(self@),
    {
        let mut r: Vec<String> = Vec::new();
        let mut i: usize = 0;
        while i < self.entries.len()
            invariant
                i <= self.entries.len(),
                r@.map_values(|s: String| s@) == keys(self@).take(i as int),
            decreases self.entries.len() - i,
        {
            let ghost before = r@;
            let ghost mapped = r@.map_values(|s: String| s@);
            r.push(self.entries[i].0.clone());
            proof {
                assert(r@ == before.push(self.entries@[i as int].0));
                assert(keys(self@)[i as int] == self@[i as int].0);
                assert(self@[i as int].0 == self.entries@[i as int].0@);
                assert(r@.map_values(|s: String| s@) =~= mapped.push(self.entries@[i as int].0@));
                assert(keys(self@).take(i + 1) =~= keys(self@).take(i as int).push(keys(self@)[i as int]));
            }
            i = i + 1;
        }
        assert(keys(self@).take(i as int) =~= keys(self@));
        r
    }

    /// The first position whose name is not below `k`; whether that name is `k`.
    fn position(&self, k: &Vec<char>) -> (r: (usize, bool))
        ensures
            r.0 <= self@.len(),
            forall|j: int| 0 <= j < r.0 ==> lex_lt((#[trigger] self@[j]).0, k@),
            r.0 == self@.len() || !lex_lt(self@[r.0 as int].0, k@),
            r.1 == (r.0 < self@.len() && self@[r.0 as int].0 == k@),
    {
        let mut i: usize = 0;
        while i < self.entries.len()
            invariant
                i <= self.entries.len(),
                forall|j: int| 0 <= j < i ==> lex_lt((#[trigger] self@[j]).0, k@),
            decreases self.entries.len() - i,
        {
            let name = chars_of(self.entries[i].0.as_str());
            let c = lex_order(&name, k);
            if c >= 0 {
                return (i, c == 0);
            }
            i = i + 1;
        }
        (i, false)
    }

    /// A copy of this map.
    pub fn copy(&self) -> (m: ContextMap)
        ensures
            m@ == self@,
    {
        proof {
            use_type_invariant(self);
        }
        let mut entries: Vec<(String, Context)> = Vec::new();
        let mut i: usize = 0;
        while i < self.entries.len()
            invariant
                i <= self.entries.len(),
                entries@.map_values(|e: (String, Context)| (e.0@, e.1@)) == self@.take(i as int),
            decreases self.entries.len() - i,
        {
            let k = self.entries[i].0.clone();
            let c = self.entries[i].1.copy();
            let ghost before = entries@;
            let ghost mapped = entries@.map_values(|e: (String, Context)| (e.0@, e.1@));
            entries.push((k, c));
            proof {
                assert(entries@ == before.push((k, c)));
                assert(self@[i as int] == (self.entries@[i as int].0@, self.entries@[i as int].1@));
                assert(entries@.map_values(|e: (String, Context)| (e.0@, e.1@)) =~= mapped.push((k@, c@)));
                assert(self@.take(i + 1) =~= self@.take(i as int).push(self@[i as int]));
            }
            i = i + 1;
        }
        assert(self@.take(i as int) =~= self@);
        ContextMap { entries }
    }

    /// The context named `k`.
    pub fn get(&self, k: &str) -> (r: Option<&Context>)
        ensures
            match r {
                Some(c) => lookup(self@, k@) == Some(c@),
                None => lookup(self@, k@) is None,
            },
    {
        proof {
            use_type_invariant(self);
        }
        let kv = chars_of(k);
        let (i, found) = self.position(&kv);
        if found {
            proof {
                lemma_lookup_index(self@, k@, i as int);
            }
            Some(&self.entries[i].1)
        } else {
            proof {
                assert forall|j: int| 0 <= j < self@.len() implies (#[trigger] self@[j]).0 != k@ by {
                    lemma_lex_irreflexive(k@);
                    if j > i {
                        if self@[j].0 == k@ {
                            lemma_lex_total(self@[i as int].0, k@);
                            lemma_lex_asym(k@, self@[i as int].0);
                        }
                    }
                }
                lemma_lookup_none(self@, k@);
            }
            None
        }
    }

    /// Whether a context named `k` exists.
    pub fn contains_key(&self, k: &str) -> (b: bool)
        ensures
            b == has_key(self@, k@),
    {
        match self.get(k) {
            Some(_) => true,
            None => false,
        }
    }

    /// Store `v` under `k`, replacing any previous context of that name.
    pub fn insert(&mut self, k: String, v: Context)
        ensures
            final(self)@ == upsert(old(self)@, k@, v@),
            sorted(old(self)@),
            sorted(final(self)@),
    {
        proof {
            use_type_invariant(&*self);
        }
        let kv = chars_of(k.as_str());
        let (i, found) = self.position(&kv);
        proof {
            lemma_upsert_split(self@, k@, v@, i as int);
            lemma_upsert(self@, k@, v@);
        }
        let ghost target = upsert(self@, k@, v@);
        let mut entries: Vec<(String, Context)> = Vec::new();
        core::mem::swap(&mut entries, &mut self.entries);
        let ghost before = entries@;
        if found {
            entries.set(i, (k, v));
        } else {
            entries.insert(i, (k, v));
        }
        proof {
            let f = |e: (String, Context)| (e.0@, e.1@);
            assert(entries@.map_values(f) =~= target);
        }
        self.entries = entries;
    }

    /// Remove the context named `k`, returning it.
    pub fn remove(&mut self, k: &str) -> (r: Option<Context>)
        ensures
            final(self)@ == remove_key(old(self)@, k@),
            match r {
                Some(c) => lookup(old(self)@, k@) == Some(c@),
                None => lookup(old(self)@, k@) is None,
            },
    {
        proof {
            use_type_invariant(&*self);
            lemma_remove(self@, k@);
        }
        let kv = chars_of(k);
        let (i, found) = self.position(&kv);
        if found {
            proof {
                lemma_remove_split(self@, k@, i as int);
                lemma_lookup_index(self@, k@, i as int);
            }
            let ghost target = remove_key(self@, k@);
            let mut entries: Vec<(String, Context)> = Vec::new();
        core::mem::swap(&mut entries, &mut self.entries);
            let e = entries.remove(i);
            proof {
                let f = |e: (String, Context)| (e.0@, e.1@);
                assert(entries@.map_values(f) =~= target);
            }
            self.entries = entries;
            Some(e.1)
        } else {
            proof {
                assert forall|j: int| 0 <= j < self@.len() implies (#[trigger] self@[j]).0 != k@ by {
                    lemma_lex_irreflexive(k@);
                    if j > i {
                        if self@[j].0 == k@ {
                            lemma_lex_total(self@[i as int].0, k@);
                            lemma_lex_asym(k@, self@[i as int].0);
                        }
                    }
                }
                lemma_lookup_none(self@, k@);
                lemma_remove_absent(self@, k@);
            }
            None
        }
    }
}

} // verus!
