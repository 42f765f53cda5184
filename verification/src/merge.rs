//! Laying explicit configuration over defaults: maps merge key by key, lists
//! are joined, the default's entries first.

use vstd::prelude::*;
use crate::duplicate::Duplicate;
use crate::strmap::{has_key, keys_sorted, lemma_deep_put, lemma_lookup_at, lemma_put_lookup,
    lemma_put_sorted, lemma_sorted_ext, lookup, put, Entries, StrMap};

verus! {

/// `top` laid over `base`: every entry of `top`, and the entries of `base`
/// whose key `top` does not hold.
pub open spec fn overlay<V>(base: Entries<V>, top: Entries<V>) -> Entries<V>
    decreases top.len(),
{
    if top.len() == 0 {
        base
    } else {
        put(overlay(base, top.drop_last()), top.last().0, top.last().1)
    }
}

/// The two ways in which collections of configuration merge.
pub trait Merge: Duplicate {
    /// `top` merged onto `base`.
    spec fn merged(base: <Self as DeepView>::V, top: <Self as DeepView>::V) -> <Self as DeepView>::V;

    /// Merges `top` onto `self`.
    fn merge_from(&mut self, top: &Self)
        ensures
            final(self).deep_view() == Self::merged(old(self).deep_view(), top.deep_view()),
    ;
}

/// What an optional collection becomes when the explicit one, `cfg`, is laid
/// over it: the merge of both where both are there, else the one that is.
pub open spec fn expanded<T: Merge>(
    node: Option<<T as DeepView>::V>,
    cfg: Option<<T as DeepView>::V>,
) -> Option<<T as DeepView>::V> {
    match cfg {
        None => node,
        Some(top) => match node {
            Some(base) => Some(T::merged(base, top)),
            None => Some(top),
        },
    }
}

/// Lays the explicit collection `cfg` over `node`.
pub fn expand<T: Merge>(node: &mut Option<T>, cfg: &Option<T>)
    ensures
        final(node).deep_view() == expanded::<T>(old(node).deep_view(), cfg.deep_view()),
{
    match cfg {
        None => {},
        Some(entry) => {
            let mut current: Option<T> = None;
            core::mem::swap(node, &mut current);
            match current {
                Some(mut base) => {
                    base.merge_from(entry);
                    *node = Some(base);
                },
                None => {
                    *node = Some(entry.duplicate());
                },
            }
        },
    }
}

/// An overlay of sorted maps is sorted, and answers a lookup from `top` where
/// `top` holds the key, else from `base`.
pub proof fn lemma_overlay<V>(base: Entries<V>, top: Entries<V>, q: Seq<char>)
    requires
        keys_sorted(base),
        keys_sorted(top),
    ensures
        keys_sorted(overlay(base, top)),
        has_key(overlay(base, top), q) == (has_key(top, q) || has_key(base, q)),
        lookup(overlay(base, top), q) == (if has_key(top, q) {
            lookup(top, q)
        } else {
            lookup(base, q)
        }),
    decreases top.len(),
{
    if top.len() > 0 {
        let rest = top.drop_last();
        let last = top.last();
        assert(keys_sorted(rest)) by {
            assert forall|i: int, j: int| 0 <= i < j < rest.len() implies crate::text::lex_lt(
                (#[trigger] rest[i]).0,
                (#[trigger] rest[j]).0,
            ) by {
                assert(rest[i] == top[i] && rest[j] == top[j]);
            }
        }
        lemma_overlay(base, rest, q);
        let under = overlay(base, rest);
        lemma_put_sorted(under, last.0, last.1);
        lemma_put_lookup(under, last.0, last.1, q);
        lemma_lookup_at(top, top.len() - 1);
        if has_key(rest, q) {
            let i = crate::strmap::key_index(rest, q);
            assert(rest[i] == top[i]);
            lemma_lookup_at(rest, i);
            lemma_lookup_at(top, i);
            if q == last.0 {
                crate::strmap::lemma_key_unique(top, i, top.len() - 1);
            }
        } else if has_key(top, q) {
            let i = crate::strmap::key_index(top, q);
            if i < top.len() - 1 {
                assert(rest[i] == top[i]);
                assert(has_key(rest, q));
            }
        }
    }
}

/// Laying a map over the defaults a second time changes nothing.
pub proof fn lemma_overlay_idempotent<V>(base: Entries<V>, top: Entries<V>)
    requires
        keys_sorted(base),
        keys_sorted(top),
    ensures
        overlay(base, overlay(base, top)) == overlay(base, top),
{
    let once = overlay(base, top);
    let twice = overlay(base, once);
    assert forall|q: Seq<char>| lookup(twice, q) == lookup(once, q) && has_key(twice, q) == has_key(
        once,
        q,
    ) by {
        lemma_overlay(base, top, q);
        lemma_overlay(base, once, q);
    }
    lemma_overlay(base, top, Seq::empty());
    lemma_overlay(base, once, Seq::empty());
    lemma_sorted_ext(twice, once);
}

/// Laying a map over itself changes nothing.
pub proof fn lemma_overlay_self<V>(base: Entries<V>)
    requires
        keys_sorted(base),
    ensures
        overlay(base, base) == base,
{
    let once = overlay(base, base);
    assert forall|q: Seq<char>| lookup(once, q) == lookup(base, q) && has_key(once, q) == has_key(
        base,
        q,
    ) by {
        lemma_overlay(base, base, q);
    }
    lemma_overlay(base, base, Seq::empty());
    lemma_sorted_ext(once, base);
}

impl<V: Duplicate> Merge for StrMap<V> {
    open spec fn merged(base: Entries<V::V>, top: Entries<V::V>) -> Entries<V::V> {
        overlay(base, top)
    }

    fn merge_from(&mut self, top: &Self) {
        let n = top.len();
        let ghost start = self.deep_view();
        let mut i: usize = 0;
        assert(top.deep_view().take(0) =~= Seq::<(Seq<char>, V::V)>::empty());
        while i < n
            invariant
                i <= n,
                n == top@.len(),
                self.deep_view() == overlay(start, top.deep_view().take(i as int)),
            decreases n - i,
        {
            let ghost before = self@;
            let value = top.value_at(i).duplicate();
            self.insert(top.key_at(i).clone(), value);
            proof {
                let k = top@[i as int].0;
                lemma_deep_put(before, k, value);
                let upto = top.deep_view().take(i + 1);
                assert(upto.drop_last() =~= top.deep_view().take(i as int));
                assert(upto.last() == (k, value.deep_view()));
            }
            i += 1;
        }
        assert(top.deep_view().take(i as int) =~= top.deep_view());
    }
}

impl<T: Duplicate> Merge for Vec<T> {
    open spec fn merged(base: Seq<T::V>, top: Seq<T::V>) -> Seq<T::V> {
        base + top
    }

    fn merge_from(&mut self, top: &Self) {
        let ghost start = self.deep_view();
        let mut i: usize = 0;
        assert(self.deep_view() =~= start + top.deep_view().take(0));
        while i < top.len()
            invariant
                i <= top.len(),
                self.deep_view() == start + top.deep_view().take(i as int),
            decreases top.len() - i,
        {
            let ghost before = self.deep_view();
            let item = top[i].duplicate();
            self.push(item);
            assert(self.deep_view() =~= before.push(item.deep_view()));
            assert(self.deep_view() =~= start + top.deep_view().take(i + 1));
            i += 1;
        }
        assert(top.deep_view().take(i as int) =~= top.deep_view());
    }
}

/// Laying an optional map over the defaults a second time changes nothing,
/// and a map that equals its defaults stays as it is.
pub proof fn lemma_expanded_map_idempotent<V: Duplicate>(
    default: Option<Entries<V::V>>,
    explicit: Option<Entries<V::V>>,
)
    requires
        default matches Some(d) ==> keys_sorted(d),
        explicit matches Some(e) ==> keys_sorted(e),
    ensures
        expanded::<StrMap<V>>(default, expanded::<StrMap<V>>(default, explicit)) == expanded::<
            StrMap<V>,
        >(default, explicit),
        expanded::<StrMap<V>>(default, default) == default,
{
    match (default, explicit) {
        (Some(d), Some(e)) => {
            lemma_overlay_idempotent(d, e);
            lemma_overlay_self(d);
        },
        (Some(d), None) => {
            lemma_overlay_self(d);
        },
        (None, _) => {},
    }
}

/// Lists are joined, so a list laid over its defaults twice holds the
/// defaults twice: the second time changes nothing exactly where the defaults
/// hold no entry.
pub proof fn lemma_expanded_list_idempotent<T: Duplicate>(
    default: Option<Seq<T::V>>,
    explicit: Option<Seq<T::V>>,
)
    requires
        default matches Some(d) ==> d.len() == 0,
    ensures
        expanded::<Vec<T>>(default, expanded::<Vec<T>>(default, explicit)) == expanded::<Vec<T>>(
            default,
            explicit,
        ),
        expanded::<Vec<T>>(default, default) == default,
{
    match (default, explicit) {
        (Some(d), Some(e)) => {
            assert(d + e =~= e);
            assert(d + d =~= d);
        },
        (Some(d), None) => {
            assert(d + d =~= d);
        },
        (None, _) => {},
    }
}

} // verus!
