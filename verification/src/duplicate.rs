//! Copies whose contents are known: `duplicate` returns a value with the same
//! deep view as the one it was called on.

use vstd::prelude::*;
use crate::strmap::{keys_sorted, StrMap};
use crate::datum::Datum;

verus! {

/// A type whose values can be copied, the copy having the same deep view.
pub trait Duplicate: DeepView + Sized {
    fn duplicate(&self) -> (r: Self)
        ensures
            r.deep_view() == self.deep_view(),
    ;
}

impl Duplicate for String {
    fn duplicate(&self) -> (r: Self) {
        self.clone()
    }
}

impl Duplicate for u8 {
    fn duplicate(&self) -> (r: Self) {
        *self
    }
}

impl Duplicate for u64 {
    fn duplicate(&self) -> (r: Self) {
        *self
    }
}

impl Duplicate for Datum {
    fn duplicate(&self) -> (r: Self) {
        Datum::duplicate(self)
    }
}

impl<T: Duplicate> Duplicate for Option<T> {
    fn duplicate(&self) -> (r: Self) {
        match self {
            Some(t) => Some(t.duplicate()),
            None => None,
        }
    }
}

impl<T: Duplicate> Duplicate for Vec<T> {
    fn duplicate(&self) -> (r: Self) {
        let mut out: Vec<T> = Vec::new();
        let mut i: usize = 0;
        while i < self.len()
            invariant
                i <= self.len(),
                out@.len() == i,
                forall|j: int| 0 <= j < i ==> (#[trigger] out@[j]).deep_view() == self@[j].deep_view(),
            decreases self.len() - i,
        {
            out.push(self[i].duplicate());
            i += 1;
        }
        assert(out.deep_view() =~= self.deep_view());
        out
    }
}

impl<V: Duplicate> Duplicate for StrMap<V> {
    fn duplicate(&self) -> (r: Self) {
        let mut out: StrMap<V> = StrMap::new();
        let n = self.len();
        let mut i: usize = 0;
        while i < n
            invariant
                i <= n,
                n == self@.len(),
                keys_sorted(self@),
                out@.len() == i,
                forall|j: int| 0 <= j < i ==> (#[trigger] out@[j]).0 == self@[j].0,
                forall|j: int|
                    0 <= j < i ==> (#[trigger] out@[j]).1.deep_view() == self@[j].1.deep_view(),
            decreases n - i,
        {
            out.push_last(self.key_at(i).clone(), self.value_at(i).duplicate());
            i += 1;
        }
        assert(out.deep_view() =~= self.deep_view());
        out
    }
}

} // verus!
