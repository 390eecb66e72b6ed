//! Equality of values, as the language's `=` and Rust's `==` see it.

use vstd::prelude::*;
use vstd::std_specs::cmp::PartialEqSpecImpl;
use crate::data::{AtomType, AtomVal, values_of};
use crate::model::{same_value, same_items, Value};

verus! {

/// Whether the first `count` values of two lists are pairwise the same.
fn same_prefix(xs: &Vec<AtomVal>, ys: &Vec<AtomVal>, count: usize) -> (r: bool)
    requires
        count <= xs.len(),
        count <= ys.len(),
    ensures
        r == same_items(values_of(xs@), values_of(ys@), count as nat),
    decreases xs, 1nat,
{
    let mut k: usize = 0;
    while k < count
        invariant
            k <= count,
            count <= xs.len(),
            count <= ys.len(),
            same_items(values_of(xs@), values_of(ys@), k as nat),
        decreases count - k,
    {
        let x: &AtomType = &*xs[k];
        let y: &AtomType = &*ys[k];
        if !x.same(y) {
            proof {
                lemma_same_items_fails(values_of(xs@), values_of(ys@), k as nat, count as nat);
            }
            return false;
        }
        k = k + 1;
    }
    true
}

/// Once one pair differs, no longer prefix is pairwise the same.
proof fn lemma_same_items_fails(xs: Seq<Value>, ys: Seq<Value>, at: nat, count: nat)
    requires
        at < count,
        at < xs.len(),
        at < ys.len(),
        !same_value(xs[at as int], ys[at as int]),
    ensures
        !same_items(xs, ys, count),
    decreases count,
{
    if count > xs.len() || count > ys.len() {
    } else if count - 1 == at {
    } else {
        lemma_same_items_fails(xs, ys, at, (count - 1) as nat);
    }
}

impl AtomType {
    /// Structural equality, except that a native function equals nothing.
    pub fn same(&self, other: &AtomType) -> (r: bool)
        ensures
            r == same_value(self@, other@),
        decreases self, 0nat,
    {
        match self {
            AtomType::Nil => match other {
                AtomType::Nil => true,
                _ => false,
            },
            AtomType::Int(x) => match other {
                AtomType::Int(y) => *x == *y,
                _ => false,
            },
            AtomType::Symbol(s) => match other {
                AtomType::Symbol(t) => s.as_str().eq(t.as_str()),
                _ => false,
            },
            AtomType::List(xs) => match other {
                AtomType::List(ys) => {
                    let r = xs.len() == ys.len() && same_prefix(xs, ys, xs.len());
                    assert(values_of(xs@).len() == xs.len());
                    assert(values_of(ys@).len() == ys.len());
                    r
                },
                _ => false,
            },
            AtomType::Func(_) => false,
            AtomType::AFunc(a) => match other {
                AtomType::AFunc(b) => {
                    let e1: &AtomType = &*a.exp;
                    let e2: &AtomType = &*b.exp;
                    let p1: &AtomType = &*a.params;
                    let p2: &AtomType = &*b.params;
                    e1.same(e2) && a.env == b.env && p1.same(p2) && a.is_macro == b.is_macro
                },
                _ => false,
            },
        }
    }
}

impl PartialEq for AtomType {
    fn eq(&self, other: &AtomType) -> (r: bool) {
        self.same(other)
    }
}

impl PartialEqSpecImpl for AtomType {
    open spec fn obeys_eq_spec() -> bool {
        true
    }

    open spec fn eq_spec(&self, other: &AtomType) -> bool {
        same_value(self@, other@)
    }
}

} // verus!
