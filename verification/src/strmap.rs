//! A map keyed by strings that keeps its entries sorted by key, so that walking
//! it visits the keys in one fixed order.

use vstd::prelude::*;
use crate::text::{chars_of, chars_order, lex_lt, lemma_lex_asymmetric, lemma_lex_irreflexive,
    lemma_lex_total, lemma_lex_transitive, KeyOrder};

verus! {

/// The entries of a map as contracts see them: keys and values, in key order.
pub type Entries<V> = Seq<(Seq<char>, V)>;

/// The keys rise strictly along the sequence.
pub open spec fn keys_sorted<V>(s: Entries<V>) -> bool {
    forall|i: int, j: int| #![trigger s[i], s[j]] 0 <= i < j < s.len() ==> lex_lt(s[i].0, s[j].0)
}

/// Some entry of `s` has the key `k`.
pub open spec fn has_key<V>(s: Entries<V>, k: Seq<char>) -> bool {
    exists|i: int| 0 <= i < s.len() && (#[trigger] s[i]).0 == k
}

/// A place at which `s` holds the key `k`, where it holds it at all.
pub open spec fn key_index<V>(s: Entries<V>, k: Seq<char>) -> int {
    choose|i: int| 0 <= i < s.len() && (#[trigger] s[i]).0 == k
}

/// The place of the key `k` in `s`, if it is there.
pub open spec fn index_of<V>(s: Entries<V>, k: Seq<char>) -> Option<int> {
    if has_key(s, k) {
        Some(key_index(s, k))
    } else {
        None
    }
}

/// The value stored under `k`, if any.
pub open spec fn lookup<V>(s: Entries<V>, k: Seq<char>) -> Option<V> {
    match index_of(s, k) {
        Some(i) => Some(s[i].1),
        None => None,
    }
}

/// How many leading entries of `s` have a key before `k`.
pub open spec fn rank<V>(s: Entries<V>, k: Seq<char>) -> int
    decreases s.len(),
{
    if s.len() > 0 && lex_lt(s[0].0, k) {
        1 + rank(s.skip(1), k)
    } else {
        0
    }
}

/// `s` with `v` stored under `k`: in place of the old value where the key is
/// present, at the key's sorted place where it is not.
pub open spec fn put<V>(s: Entries<V>, k: Seq<char>, v: V) -> Entries<V> {
    let r = rank(s, k);
    if r < s.len() && s[r].0 == k {
        s.update(r, (k, v))
    } else {
        s.insert(r, (k, v))
    }
}

/// A rank is a place in the sequence, or the place after its end.
pub proof fn lemma_rank_bound<V>(s: Entries<V>, k: Seq<char>)
    ensures
        0 <= rank(s, k) <= s.len(),
    decreases s.len(),
{
    if s.len() > 0 && lex_lt(s[0].0, k) {
        lemma_rank_bound(s.skip(1), k);
    }
}

/// `rank` splits a sorted sequence into the keys before `k` and the rest.
pub proof fn lemma_rank<V>(s: Entries<V>, k: Seq<char>)
    requires
        keys_sorted(s),
    ensures
        0 <= rank(s, k) <= s.len(),
        forall|j: int| 0 <= j < rank(s, k) ==> lex_lt((#[trigger] s[j]).0, k),
        forall|j: int| rank(s, k) <= j < s.len() ==> !lex_lt((#[trigger] s[j]).0, k),
    decreases s.len(),
{
    if s.len() > 0 && lex_lt(s[0].0, k) {
        let t = s.skip(1);
        assert(keys_sorted(t)) by {
            assert forall|i: int, j: int| 0 <= i < j < t.len() implies lex_lt(
                (#[trigger] t[i]).0,
                (#[trigger] t[j]).0,
            ) by {
                assert(t[i] == s[i + 1] && t[j] == s[j + 1]);
            }
        }
        lemma_rank(t, k);
        assert forall|j: int| 0 <= j < rank(s, k) implies lex_lt((#[trigger] s[j]).0, k) by {
            if j > 0 {
                assert(s[j] == t[j - 1]);
            }
        }
        assert forall|j: int| rank(s, k) <= j < s.len() implies !lex_lt(
            (#[trigger] s[j]).0,
            k,
        ) by {
            assert(s[j] == t[j - 1]);
        }
    } else {
        assert forall|j: int| 0 <= j < s.len() implies !lex_lt((#[trigger] s[j]).0, k) by {
            if j > 0 && lex_lt(s[j].0, k) {
                assert(lex_lt(s[0].0, s[j].0));
                lemma_lex_transitive(s[0].0, s[j].0, k);
            }
        }
    }
}

/// In a sorted sequence a key stands at one place only.
pub proof fn lemma_key_unique<V>(s: Entries<V>, i: int, j: int)
    requires
        keys_sorted(s),
        0 <= i < s.len(),
        0 <= j < s.len(),
        s[i].0 == s[j].0,
    ensures
        i == j,
{
    if i < j {
        lemma_lex_asymmetric(s[i].0, s[j].0);
    } else if j < i {
        lemma_lex_asymmetric(s[j].0, s[i].0);
    }
}

/// Looking up the key of the entry at `i` finds that entry.
pub proof fn lemma_lookup_at<V>(s: Entries<V>, i: int)
    requires
        keys_sorted(s),
        0 <= i < s.len(),
    ensures
        has_key(s, s[i].0),
        index_of(s, s[i].0) == Some(i),
        lookup(s, s[i].0) == Some(s[i].1),
{
    let k = s[i].0;
    assert(has_key(s, k));
    let j = key_index(s, k);
    lemma_key_unique(s, i, j);
}

/// `put` keeps the sequence sorted.
pub proof fn lemma_put_sorted<V>(s: Entries<V>, k: Seq<char>, v: V)
    requires
        keys_sorted(s),
    ensures
        keys_sorted(put(s, k, v)),
{
    lemma_rank(s, k);
    let r = rank(s, k);
    let t = put(s, k, v);
    assert forall|i: int, j: int| 0 <= i < j < t.len() implies lex_lt(
        (#[trigger] t[i]).0,
        (#[trigger] t[j]).0,
    ) by {
        if r < s.len() && s[r].0 == k {
            assert(t[i].0 == s[i].0 && t[j].0 == s[j].0);
        } else {
            // the new entry stands at r, the old ones keep their order around it
            let oi = if i < r { i } else { i - 1 };
            let oj = if j < r { j } else { j - 1 };
            if i != r {
                assert(t[i] == s[oi]);
            }
            if j != r {
                assert(t[j] == s[oj]);
            }
            if j == r {
                assert(lex_lt(s[oi].0, k));
            } else if i == r {
                assert(!lex_lt(s[oj].0, k));
                if oj == r {
                    lemma_lex_total(s[oj].0, k);
                } else {
                    assert(!lex_lt(s[r].0, k));
                    lemma_lex_total(s[r].0, k);
                    lemma_lex_transitive(k, s[r].0, s[oj].0);
                }
            }
        }
    }
}

/// Where `put` leaves the entry that stood at `i`, if its key is not the
/// one stored.
pub open spec fn place_after_put<V>(s: Entries<V>, k: Seq<char>, i: int) -> int {
    let r = rank(s, k);
    if i < r || (r < s.len() && s[r].0 == k) {
        i
    } else {
        i + 1
    }
}

/// Where the entry that `put` leaves at `j` stood before, if its key is not
/// the one stored.
pub open spec fn place_before_put<V>(s: Entries<V>, k: Seq<char>, j: int) -> int {
    let r = rank(s, k);
    if j < r || (r < s.len() && s[r].0 == k) {
        j
    } else {
        j - 1
    }
}

/// `put` stores the new entry at the key's rank, and leaves every entry
/// under another key in the sequence.
pub proof fn lemma_put_places<V>(s: Entries<V>, k: Seq<char>, v: V)
    requires
        keys_sorted(s),
    ensures
        0 <= rank(s, k) < put(s, k, v).len(),
        put(s, k, v)[rank(s, k)] == (k, v),
        forall|i: int|
            0 <= i < s.len() && (#[trigger] s[i]).0 != k ==> 0 <= place_after_put(s, k, i) < put(
                s,
                k,
                v,
            ).len() && put(s, k, v)[place_after_put(s, k, i)] == s[i],
        forall|j: int|
            0 <= j < put(s, k, v).len() && j != rank(s, k) ==> 0 <= place_before_put(s, k, j)
                < s.len() && s[place_before_put(s, k, j)] == #[trigger] put(s, k, v)[j],
{
    lemma_rank(s, k);
}

/// After `put`, the key holds the new value and every other key what it held.
#[verifier::rlimit(40)]
pub proof fn lemma_put_lookup<V>(s: Entries<V>, k: Seq<char>, v: V, q: Seq<char>)
    requires
        keys_sorted(s),
    ensures
        lookup(put(s, k, v), q) == (if q == k {
            Some(v)
        } else {
            lookup(s, q)
        }),
        has_key(put(s, k, v), q) == (q == k || has_key(s, q)),
{
    lemma_put_places(s, k, v);
    lemma_put_sorted(s, k, v);
    let r = rank(s, k);
    let t = put(s, k, v);
    if q == k {
        lemma_lookup_at(t, r);
    } else if has_key(s, q) {
        let i = key_index(s, q);
        lemma_lookup_at(s, i);
        let ti = place_after_put(s, k, i);
        assert(t[ti] == s[i]);
        lemma_lookup_at(t, ti);
    } else if has_key(t, q) {
        let ti = key_index(t, q);
        assert(ti != r);
        let i = place_before_put(s, k, ti);
        assert(s[i] == t[ti]);
        assert(s[i].0 == q);
    }
}

/// Two sorted sequences that answer every lookup alike are the same sequence.
#[verifier::rlimit(30)]
pub proof fn lemma_sorted_ext<V>(a: Entries<V>, b: Entries<V>)
    requires
        keys_sorted(a),
        keys_sorted(b),
        forall|k: Seq<char>| lookup(a, k) == lookup(b, k),
        forall|k: Seq<char>| has_key(a, k) == has_key(b, k),
    ensures
        a == b,
    decreases a.len(),
{
    if a.len() == 0 {
        if b.len() > 0 {
            lemma_lookup_at(b, 0);
            assert(has_key(a, b[0].0));
        }
        assert(a =~= b);
    } else {
        lemma_lookup_at(a, 0);
        assert(has_key(b, a[0].0));
        let j = key_index(b, a[0].0);
        lemma_lookup_at(b, j);
        if j > 0 {
            lemma_lookup_at(b, 0);
            assert(has_key(a, b[0].0));
            let i = key_index(a, b[0].0);
            assert(lex_lt(b[0].0, b[j].0));
            if i > 0 {
                assert(lex_lt(a[0].0, a[i].0));
                lemma_lex_asymmetric(a[0].0, a[i].0);
            } else {
                lemma_lex_asymmetric(b[0].0, b[j].0);
            }
        }
        assert(a[0] == b[0]);
        let ta = a.skip(1);
        let tb = b.skip(1);
        assert(keys_sorted(ta)) by {
            assert forall|i: int, j: int| 0 <= i < j < ta.len() implies lex_lt(
                (#[trigger] ta[i]).0,
                (#[trigger] ta[j]).0,
            ) by {
                assert(ta[i] == a[i + 1] && ta[j] == a[j + 1]);
            }
        }
        assert(keys_sorted(tb)) by {
            assert forall|i: int, j: int| 0 <= i < j < tb.len() implies lex_lt(
                (#[trigger] tb[i]).0,
                (#[trigger] tb[j]).0,
            ) by {
                assert(tb[i] == b[i + 1] && tb[j] == b[j + 1]);
            }
        }
        assert forall|k: Seq<char>| has_key(ta, k) == has_key(tb, k) && lookup(ta, k) == lookup(
            tb,
            k,
        ) by {
            lemma_tail_lookup(a, k);
            lemma_tail_lookup(b, k);
        }
        lemma_sorted_ext(ta, tb);
        assert(a =~= seq![a[0]] + ta);
        assert(b =~= seq![b[0]] + tb);
    }
}

/// What the tail of a sorted sequence answers: the same as the whole, but for
/// the first key.
pub proof fn lemma_tail_lookup<V>(s: Entries<V>, k: Seq<char>)
    requires
        keys_sorted(s),
        s.len() > 0,
    ensures
        has_key(s.skip(1), k) == (has_key(s, k) && k != s[0].0),
        lookup(s.skip(1), k) == (if k == s[0].0 {
            None
        } else {
            lookup(s, k)
        }),
{
    let t = s.skip(1);
    assert(keys_sorted(t)) by {
        assert forall|i: int, j: int| 0 <= i < j < t.len() implies lex_lt(
            (#[trigger] t[i]).0,
            (#[trigger] t[j]).0,
        ) by {
            assert(t[i] == s[i + 1] && t[j] == s[j + 1]);
        }
    }
    if has_key(t, k) {
        let i = key_index(t, k);
        assert(t[i] == s[i + 1]);
        lemma_lookup_at(t, i);
        lemma_lookup_at(s, i + 1);
        assert(lex_lt(s[0].0, s[i + 1].0));
        lemma_lex_asymmetric(s[0].0, s[i + 1].0);
    } else if has_key(s, k) {
        let i = key_index(s, k);
        if i > 0 {
            assert(t[i - 1] == s[i]);
            assert(has_key(t, k));
        }
    }
}

/// What is found under a key among deep views is the deep view of what is
/// found under it.
pub proof fn lemma_deep_lookup<V: DeepView>(s: Entries<V>, k: Seq<char>)
    requires
        keys_sorted(s),
    ensures
        lookup(deep_entries(s), k) == match lookup(s, k) {
            Some(v) => Some(v.deep_view()),
            None => None,
        },
{
    let d = deep_entries(s);
    lemma_deep_keys(s);
    if has_key(s, k) {
        let i = key_index(s, k);
        assert(d[i].0 == k);
        lemma_lookup_at(s, i);
        lemma_lookup_at(d, i);
    }
}

/// A map from strings to `V`, held as a vector of entries sorted by key.
#[derive(Debug, PartialEq, Eq)]
pub struct StrMap<V> {
    entries: Vec<(String, V)>,
}

/// The entries of a vector as contracts see them: each key by its characters.
pub open spec fn entries_of<V>(v: Seq<(String, V)>) -> Entries<V> {
    Seq::new(v.len(), |i: int| (v[i].0@, v[i].1))
}

impl<V> View for StrMap<V> {
    type V = Entries<V>;

    closed spec fn view(&self) -> Entries<V> {
        entries_of(self.entries@)
    }
}

/// Entries with each value replaced by its deep view.
pub open spec fn deep_entries<V: DeepView>(s: Entries<V>) -> Entries<V::V> {
    Seq::new(s.len(), |i: int| (s[i].0, s[i].1.deep_view()))
}

impl<V: DeepView> DeepView for StrMap<V> {
    type V = Entries<V::V>;

    open spec fn deep_view(&self) -> Entries<V::V> {
        deep_entries(self@)
    }
}

/// A key's place among the keys does not depend on the values.
pub proof fn lemma_deep_rank<V: DeepView>(s: Entries<V>, k: Seq<char>)
    ensures
        rank(deep_entries(s), k) == rank(s, k),
    decreases s.len(),
{
    if s.len() > 0 {
        assert(deep_entries(s).skip(1) =~= deep_entries(s.skip(1)));
        lemma_deep_rank(s.skip(1), k);
    }
}

/// Storing a value and taking deep views is storing the value's deep view
/// among the deep views; and deep views keep the keys sorted.
pub proof fn lemma_deep_put<V: DeepView>(s: Entries<V>, k: Seq<char>, v: V)
    ensures
        deep_entries(put(s, k, v)) == put(deep_entries(s), k, v.deep_view()),
{
    lemma_deep_rank(s, k);
    lemma_rank_bound(s, k);
    let r = rank(s, k);
    let d = deep_entries(s);
    if r < s.len() {
        assert(d[r].0 == s[r].0);
    }
    assert(deep_entries(put(s, k, v)) =~= put(d, k, v.deep_view()));
}

/// Deep views keep the keys, hence their order and what is found under them.
pub proof fn lemma_deep_keys<V: DeepView>(s: Entries<V>)
    ensures
        keys_sorted(s) ==> keys_sorted(deep_entries(s)),
        forall|k: Seq<char>| has_key(deep_entries(s), k) == has_key(s, k),
{
    let d = deep_entries(s);
    if keys_sorted(s) {
        assert forall|i: int, j: int| 0 <= i < j < d.len() implies lex_lt(
            (#[trigger] d[i]).0,
            (#[trigger] d[j]).0,
        ) by {
            assert(lex_lt(s[i].0, s[j].0));
        }
    }
    assert forall|k: Seq<char>| has_key(d, k) == has_key(s, k) by {
        if has_key(d, k) {
            let i = key_index(d, k);
            assert(s[i].0 == k);
        }
        if has_key(s, k) {
            let i = key_index(s, k);
            assert(d[i].0 == k);
        }
    }
}

impl<V: Clone> Clone for StrMap<V> {
    /// A map with the same keys, each with a clone of its value.
    fn clone(&self) -> (r: Self)
        ensures
            r@.len() == self@.len(),
            forall|i: int| 0 <= i < self@.len() ==> (#[trigger] r@[i]).0 == self@[i].0,
    {
        proof {
            use_type_invariant(self);
        }
        let mut entries: Vec<(String, V)> = Vec::new();
        let mut i: usize = 0;
        while i < self.entries.len()
            invariant
                i <= self.entries.len(),
                entries@.len() == i,
                forall|j: int| 0 <= j < i ==> (#[trigger] entries@[j]).0@ == self.entries@[j].0@,
            decreases self.entries.len() - i,
        {
            entries.push((self.entries[i].0.clone(), self.entries[i].1.clone()));
            i += 1;
        }
        proof {
            let a = entries_of(entries@);
            assert forall|i: int, j: int| 0 <= i < j < a.len() implies lex_lt(
                (#[trigger] a[i]).0,
                (#[trigger] a[j]).0,
            ) by {
                assert(lex_lt(self@[i].0, self@[j].0));
            }
        }
        StrMap { entries }
    }
}

impl<V> StrMap<V> {
    /// Every map has its keys sorted, hence no key twice.
    #[verifier::type_invariant]
    pub open spec fn wf(&self) -> bool {
        keys_sorted(self@)
    }

    /// The empty map.
    pub fn new() -> (m: Self)
        ensures
            m@ == Seq::<(Seq<char>, V)>::empty(),
    {
        let m = StrMap { entries: Vec::new() };
        assert(m@ =~= Seq::<(Seq<char>, V)>::empty());
        m
    }

    /// The number of entries.
    pub fn len(&self) -> (n: usize)
        ensures
            n == self@.len(),
            keys_sorted(self@),
    {
        proof {
            use_type_invariant(self);
        }
        self.entries.len()
    }

    /// The key of the entry at `i`, counting in key order.
    pub fn key_at(&self, i: usize) -> (k: &String)
        requires
            i < self@.len(),
        ensures
            k@ == self@[i as int].0,
    {
        &self.entries[i].0
    }

    /// The value of the entry at `i`, counting in key order.
    pub fn value_at(&self, i: usize) -> (v: &V)
        requires
            i < self@.len(),
        ensures
            *v == self@[i as int].1,
    {
        &self.entries[i].1
    }

    /// Where `key` should stand: the number of keys before it, and whether the
    /// entry at that place has this key.
    pub fn locate(&self, key: &str) -> (r: (usize, bool))
        ensures
            r.0 == rank(self@, key@),
            r.0 <= self@.len(),
            r.1 == (r.0 < self@.len() && self@[r.0 as int].0 == key@),
            r.1 == has_key(self@, key@),
            keys_sorted(self@),
    {
        proof {
            use_type_invariant(self);
            lemma_rank(self@, key@);
        }
        let wanted = chars_of(key);
        let mut i: usize = 0;
        let mut found = false;
        while i < self.entries.len()
            invariant_except_break
                !found,
            invariant
                i <= self.entries.len(),
                self.entries@.len() == self@.len(),
                wanted@ == key@,
                forall|j: int| 0 <= j < i ==> lex_lt((#[trigger] self@[j]).0, key@),
            ensures
                i <= self.entries.len(),
                forall|j: int| 0 <= j < i ==> lex_lt((#[trigger] self@[j]).0, key@),
                i < self.entries.len() ==> !lex_lt(self@[i as int].0, key@),
                found == (i < self.entries.len() && self@[i as int].0 == key@),
            decreases self.entries.len() - i,
        {
            let here = chars_of(self.entries[i].0.as_str());
            assert(here@ == self@[i as int].0);
            match chars_order(&here, &wanted) {
                KeyOrder::Before => {
                    i += 1;
                },
                KeyOrder::Same => {
                    found = true;
                    proof {
                        lemma_lex_irreflexive(key@);
                    }
                    break ;
                },
                KeyOrder::After => {
                    proof {
                        lemma_lex_asymmetric(key@, here@);
                    }
                    break ;
                },
            }
        }
        proof {
            let r = rank(self@, key@);
            if (i as int) < r {
                assert(lex_lt(self@[i as int].0, key@));
            }
            if r < i as int {
                assert(lex_lt(self@[r].0, key@));
            }
            if has_key(self@, key@) {
                let j = key_index(self@, key@);
                lemma_lex_irreflexive(key@);
                if j > i {
                    assert(lex_lt(self@[i as int].0, self@[j].0));
                }
            }
            if found {
                assert(has_key(self@, key@));
            }
        }
        (i, found)
    }

    /// Adds an entry whose key comes after every key of the map.
    pub fn push_last(&mut self, key: String, value: V)
        requires
            old(self)@.len() > 0 ==> lex_lt(old(self)@.last().0, key@),
        ensures
            final(self)@ == old(self)@.push((key@, value)),
    {
        proof {
            use_type_invariant(&*self);
        }
        let ghost before = self@;
        let mut entries: Vec<(String, V)> = Vec::new();
        core::mem::swap(&mut self.entries, &mut entries);
        entries.push((key, value));
        proof {
            let after = entries_of(entries@);
            assert(after =~= before.push((key@, value)));
            assert forall|i: int, j: int| 0 <= i < j < after.len() implies lex_lt(
                (#[trigger] after[i]).0,
                (#[trigger] after[j]).0,
            ) by {
                if j == before.len() && i < j - 1 {
                    assert(lex_lt(before[i].0, before[j - 1].0));
                    lemma_lex_transitive(before[i].0, before.last().0, key@);
                }
            }
        }
        core::mem::swap(&mut self.entries, &mut entries);
    }

    /// Puts `value` in place of the value at `i`, counting in key order, and
    /// returns the value that was there.
    pub fn swap_value_at(&mut self, i: usize, value: V) -> (prev: V)
        requires
            i < old(self)@.len(),
        ensures
            prev == old(self)@[i as int].1,
            final(self)@ == old(self)@.update(i as int, (old(self)@[i as int].0, value)),
            keys_sorted(final(self)@),
    {
        proof {
            use_type_invariant(&*self);
        }
        let ghost before = self@;
        let mut entries: Vec<(String, V)> = Vec::new();
        core::mem::swap(&mut self.entries, &mut entries);
        let mut held = value;
        core::mem::swap(&mut entries[i].1, &mut held);
        proof {
            let after = entries_of(entries@);
            assert(after =~= before.update(i as int, (before[i as int].0, value)));
            assert forall|a: int, b: int| 0 <= a < b < after.len() implies lex_lt(
                (#[trigger] after[a]).0,
                (#[trigger] after[b]).0,
            ) by {
                assert(lex_lt(before[a].0, before[b].0));
            }
        }
        core::mem::swap(&mut self.entries, &mut entries);
        held
    }

    /// Whether the map has an entry for `key`.
    pub fn contains_key(&self, key: &str) -> (b: bool)
        ensures
            b == has_key(self@, key@),
    {
        self.locate(key).1
    }

    /// The value stored under `key`, if any.
    pub fn get(&self, key: &str) -> (r: Option<&V>)
        ensures
            match r {
                Some(v) => lookup(self@, key@) == Some(*v),
                None => lookup(self@, key@) is None,
            },
            r is Some == has_key(self@, key@),
            keys_sorted(self@),
    {
        let (i, found) = self.locate(key);
        if found {
            proof {
                lemma_lookup_at(self@, i as int);
            }
            Some(&self.entries[i].1)
        } else {
            None
        }
    }

    /// Stores `value` under `key` and returns what the key held before.
    pub fn insert(&mut self, key: String, value: V) -> (prev: Option<V>)
        ensures
            final(self)@ == put(old(self)@, key@, value),
            prev == lookup(old(self)@, key@),
            keys_sorted(final(self)@),
    {
        let (i, found) = self.locate(key.as_str());
        proof {
            lemma_put_sorted(self@, key@, value);
        }
        let ghost before = self@;
        let mut entries: Vec<(String, V)> = Vec::new();
        core::mem::swap(&mut self.entries, &mut entries);
        let prev = if found {
            proof {
                lemma_lookup_at(before, i as int);
            }
            let old_entry = entries.remove(i);
            Some(old_entry.1)
        } else {
            None
        };
        entries.insert(i, (key, value));
        assert(entries_of(entries@) =~= put(before, key@, value));
        core::mem::swap(&mut self.entries, &mut entries);
        prev
    }
}

} // verus!
