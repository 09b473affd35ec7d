//! A stable sort by keys.

use crate::num::{Double, Single};
use crate::text::{before, text_lt, text_order};
use vstd::prelude::*;

verus! {

/// What to sort by: a key for each item, and whether the largest comes first.
pub struct Keys {
    pub values: KeyList,
    pub descending: bool,
}

/// The keys of the items, in their order.
pub enum KeyList {
    Numbers(Vec<Double>),
    Singles(Vec<Single>),
    Texts(Vec<Vec<char>>),
}

impl Keys {
    /// The number of items.
    pub open spec fn count(&self) -> nat {
        match self.values {
            KeyList::Numbers(v) => v@.len(),
            KeyList::Singles(v) => v@.len(),
            KeyList::Texts(v) => v@.len(),
        }
    }

    /// Whether the key of item `i` is less than that of item `j`.
    pub open spec fn less_spec(&self, i: int, j: int) -> bool {
        match self.values {
            KeyList::Numbers(v) => v@[i].lt(v@[j]),
            KeyList::Singles(v) => v@[i].lt(v@[j]),
            KeyList::Texts(v) => text_lt(v@[i]@, v@[j]@),
        }
    }

    /// Whether item `i` has to come before item `j` by its key.
    pub open spec fn first_spec(&self, i: int, j: int) -> bool {
        if self.descending {
            self.less_spec(j, i)
        } else {
            self.less_spec(i, j)
        }
    }

    /// Whether item `i` comes before item `j` in a stable sort.
    pub open spec fn in_order(&self, i: int, j: int) -> bool {
        self.first_spec(i, j) || (!self.first_spec(j, i) && i < j)
    }

    /// Whether any two keys can be compared: none is not-a-number.
    pub open spec fn comparable(&self) -> bool {
        match self.values {
            KeyList::Numbers(v) => forall|i: int|
                0 <= i < v@.len() ==> !(#[trigger] v@[i]).is_nan(),
            KeyList::Singles(v) => forall|i: int|
                0 <= i < v@.len() ==> !(#[trigger] v@[i]).is_nan(),
            KeyList::Texts(v) => true,
        }
    }

    fn first(&self, i: usize, j: usize) -> (r: bool)
        requires
            i < self.count(),
            j < self.count(),
        ensures
            r == self.first_spec(i as int, j as int),
    {
        let (a, b): (usize, usize) = if self.descending {
            (j, i)
        } else {
            (i, j)
        };
        match &self.values {
            KeyList::Numbers(v) => v[a].lt(v[b]),
            KeyList::Singles(v) => v[a].lt(v[b]),
            KeyList::Texts(v) => before(&v[a], &v[b]),
        }
    }

    proof fn order_facts(&self, i: int, j: int, k: int)
        requires
            self.comparable(),
            0 <= i < self.count(),
            0 <= j < self.count(),
            0 <= k < self.count(),
        ensures
            self.in_order(i, j) && self.in_order(j, k) ==> self.in_order(i, k),
            i < j && !self.first_spec(j, i) ==> self.in_order(i, j),
    {
        match self.values {
            KeyList::Numbers(v) => {
                assert(!v@[i].is_nan() && !v@[j].is_nan() && !v@[k].is_nan());
            },
            KeyList::Singles(v) => {
                assert(!v@[i].is_nan() && !v@[j].is_nan() && !v@[k].is_nan());
            },
            KeyList::Texts(v) => {
                let (a, b, c) = (v@[i]@, v@[j]@, v@[k]@);
                text_order(a, b, c);
                text_order(b, c, a);
                text_order(c, a, b);
                text_order(c, b, a);
                text_order(b, a, c);
                text_order(a, c, b);
            },
        }
    }
}

/// Whether `p` names each of the items `lo..hi` once.
pub open spec fn arrangement(p: Seq<usize>, lo: int, hi: int) -> bool {
    &&& p.len() == hi - lo
    &&& forall|i: int| 0 <= i < p.len() ==> lo <= #[trigger] p[i] < hi
    &&& p.no_duplicates()
}

/// Whether the items that `p` names stand in order.
pub open spec fn sorted(keys: Keys, p: Seq<usize>) -> bool {
    forall|i: int, j: int|
        0 <= i < j < p.len() ==> keys.in_order(#[trigger] p[i] as int, #[trigger] p[j] as int)
}

/// Two sorted halves as one.
fn merge(keys: &Keys, a: Vec<usize>, b: Vec<usize>, lo: usize, mid: usize, hi: usize) -> (r: Vec<
    usize,
>)
    requires
        lo <= mid <= hi <= keys.count(),
        arrangement(a@, lo as int, mid as int),
        arrangement(b@, mid as int, hi as int),
        keys.comparable() ==> sorted(*keys, a@) && sorted(*keys, b@),
    ensures
        arrangement(r@, lo as int, hi as int),
        keys.comparable() ==> sorted(*keys, r@),
{
    let mut out: Vec<usize> = Vec::new();
    let mut i: usize = 0;
    let mut j: usize = 0;
    while i < a.len() || j < b.len()
        invariant
            lo <= mid <= hi <= keys.count(),
            arrangement(a@, lo as int, mid as int),
            arrangement(b@, mid as int, hi as int),
            keys.comparable() ==> sorted(*keys, a@) && sorted(*keys, b@),
            i <= a@.len(),
            j <= b@.len(),
            out@.len() == i + j,
            out@.no_duplicates(),
            forall|k: int|
                0 <= k < out@.len() ==> ((exists|x: int| 0 <= x < i && out@[k] == a@[x]) || (exists|
                    y: int,
                | 0 <= y < j && #[trigger] out@[k] == b@[y])),
            keys.comparable() ==> sorted(*keys, out@),
            keys.comparable() ==> forall|k: int, x: int|
                0 <= k < out@.len() && i <= x < a@.len() ==> keys.in_order(
                    #[trigger] out@[k] as int,
                    #[trigger] a@[x] as int,
                ),
            keys.comparable() ==> forall|k: int, y: int|
                0 <= k < out@.len() && j <= y < b@.len() ==> keys.in_order(
                    #[trigger] out@[k] as int,
                    #[trigger] b@[y] as int,
                ),
        decreases a@.len() + b@.len() - i - j,
    {
        let ghost before_push = out@;
        let left: bool = if i >= a.len() {
            false
        } else if j >= b.len() {
            true
        } else {
            !keys.first(b[j], a[i])
        };
        if left {
            out.push(a[i]);
            proof {
                assert forall|k: int| 0 <= k < before_push.len() implies before_push[k] != a@[i as int] by {}
                if keys.comparable() {
                    assert forall|y: int| j <= y < b@.len() implies keys.in_order(
                        a@[i as int] as int,
                        #[trigger] b@[y] as int,
                    ) by {
                        keys.order_facts(
                            a@[i as int] as int,
                            b@[j as int] as int,
                            b@[y] as int,
                        );
                    }
                }
                assert forall|k: int| 0 <= k < out@.len() implies ((exists|x: int|
                    0 <= x < i + 1 && out@[k] == a@[x]) || (exists|y: int|
                    0 <= y < j && #[trigger] out@[k] == b@[y])) by {
                    if k < before_push.len() {
                        assert(out@[k] == before_push[k]);
                    } else {
                        assert(out@[k] == a@[i as int]);
                    }
                }
            }
            i += 1;
        } else {
            out.push(b[j]);
            proof {
                assert forall|k: int| 0 <= k < before_push.len() implies before_push[k] != b@[j as int] by {}
                if keys.comparable() {
                    assert forall|x: int| i <= x < a@.len() implies keys.in_order(
                        b@[j as int] as int,
                        #[trigger] a@[x] as int,
                    ) by {
                        keys.order_facts(
                            b@[j as int] as int,
                            a@[i as int] as int,
                            a@[x] as int,
                        );
                    }
                }
                assert forall|k: int| 0 <= k < out@.len() implies ((exists|x: int|
                    0 <= x < i && out@[k] == a@[x]) || (exists|y: int|
                    0 <= y < j + 1 && #[trigger] out@[k] == b@[y])) by {
                    if k < before_push.len() {
                        assert(out@[k] == before_push[k]);
                    } else {
                        assert(out@[k] == b@[j as int]);
                    }
                }
            }
            j += 1;
        }
    }
    assert forall|k: int| 0 <= k < out@.len() implies lo <= #[trigger] out@[k] < hi by {}
    out
}

/// The items `lo..hi` in order.
fn sort_range(keys: &Keys, lo: usize, hi: usize) -> (r: Vec<usize>)
    requires
        lo <= hi <= keys.count(),
    ensures
        arrangement(r@, lo as int, hi as int),
        keys.comparable() ==> sorted(*keys, r@),
    decreases hi - lo,
{
    if hi - lo <= 1 {
        let mut r: Vec<usize> = Vec::new();
        if lo < hi {
            r.push(lo);
        }
        return r;
    }
    let mid: usize = lo + (hi - lo) / 2;
    let a = sort_range(keys, lo, mid);
    let b = sort_range(keys, mid, hi);
    merge(keys, a, b, lo, mid, hi)
}

/// The places of the items in the order of a stable sort by the keys. Where some
/// keys cannot be compared, the order is open, but each item still comes once.
pub fn stable_order(keys: &Keys) -> (r: Vec<usize>)
    ensures
        arrangement(r@, 0, keys.count() as int),
        keys.comparable() ==> sorted(*keys, r@),
{
    let n: usize = match &keys.values {
        KeyList::Numbers(v) => v.len(),
        KeyList::Singles(v) => v.len(),
        KeyList::Texts(v) => v.len(),
    };
    sort_range(keys, 0, n)
}

/// Whether `p` arranges the numbers of `v` from the least to the greatest, equal ones in
/// the order in which they stand.
pub open spec fn ascending(v: Seq<Single>, p: Seq<usize>) -> bool {
    &&& arrangement(p, 0, v.len() as int)
    &&& forall|i: int, j: int|
        0 <= i < j < p.len() ==> ({
            let (a, b) = (v[#[trigger] p[i] as int], v[#[trigger] p[j] as int]);
            a.lt(b) || (!b.lt(a) && p[i] < p[j])
        })
}

/// Whether `x` has the rank `k` among the numbers of `v`, counted from the least.
pub open spec fn ranked(v: Seq<Single>, k: int, x: Single) -> bool {
    exists|p: Seq<usize>| #[trigger] ascending(v, p) && x == v[p[k] as int]
}

/// The places of the numbers of `v` from the least to the greatest.
pub fn ascending_order(v: Vec<Single>) -> (r: Vec<usize>)
    requires
        forall|i: int| 0 <= i < v@.len() ==> !(#[trigger] v@[i]).is_nan(),
    ensures
        ascending(v@, r@),
{
    let ghost w = v@;
    let keys = Keys { values: KeyList::Singles(v), descending: false };
    assert(keys.comparable());
    let p = stable_order(&keys);
    assert forall|i: int, j: int| 0 <= i < j < p@.len() implies ({
        let (a, b) = (w[#[trigger] p@[i] as int], w[#[trigger] p@[j] as int]);
        a.lt(b) || (!b.lt(a) && p@[i] < p@[j])
    }) by {
        assert(keys.in_order(p@[i] as int, p@[j] as int));
    }
    p
}

} // verus!
