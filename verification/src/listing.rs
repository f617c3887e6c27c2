//! Lists: what the rules of this library say of them, and the small loops that
//! compute it.
use vstd::prelude::*;

use crate::scalar::Scalar;

verus! {

/// The lists `f(0)`, `f(1)`, up to `f(n - 1)`, one after the other.
pub open spec fn flat<A>(n: nat, f: spec_fn(int) -> Seq<A>) -> Seq<A>
    decreases n,
{
    if n == 0 {
        Seq::empty()
    } else {
        flat((n - 1) as nat, f) + f(n - 1)
    }
}

/// The first `Some` among `f(i)`, up to `f(n - 1)`.
pub open spec fn first_from<E>(i: int, n: int, f: spec_fn(int) -> Option<E>) -> Option<E>
    decreases n - i,
{
    if i >= n {
        None
    } else if f(i) is Some {
        f(i)
    } else {
        first_from(i + 1, n, f)
    }
}

/// The first index from `i` on, below `n`, that `p` holds of.
pub open spec fn first_where(i: int, n: int, p: spec_fn(int) -> bool) -> Option<int>
    decreases n - i,
{
    if i >= n {
        None
    } else if p(i) {
        Some(i)
    } else {
        first_where(i + 1, n, p)
    }
}

/// The last index below `n` that `p` holds of.
pub open spec fn last_where(n: nat, p: spec_fn(int) -> bool) -> Option<int>
    decreases n,
{
    if n == 0 {
        None
    } else if p(n - 1) {
        Some(n - 1)
    } else {
        last_where((n - 1) as nat, p)
    }
}

/// `start` taken through the first `n` steps.
pub open spec fn folded<S>(n: nat, start: S, step: spec_fn(S, int) -> S) -> S
    decreases n,
{
    if n == 0 {
        start
    } else {
        step(folded((n - 1) as nat, start, step), n - 1)
    }
}

/// The sum, from the left and starting at zero, of what `f` gives for the
/// indices below `n`; an index with `None` takes no part.
pub open spec fn sum_to<N: Scalar>(n: nat, f: spec_fn(int) -> Option<N>) -> N
    decreases n,
{
    if n == 0 {
        N::of_whole(0)
    } else {
        let before = sum_to((n - 1) as nat, f);
        match f(n - 1) {
            Some(value) => before.plus(value),
            None => before,
        }
    }
}

/// How many indices below `n` satisfy `p`.
pub open spec fn count_to(n: nat, p: spec_fn(int) -> bool) -> nat
    decreases n,
{
    if n == 0 {
        0
    } else {
        count_to((n - 1) as nat, p) + if p(n - 1) {
            1nat
        } else {
            0nat
        }
    }
}

/// The indices below `n` that satisfy `p`, in order.
pub open spec fn indices_to(n: nat, p: spec_fn(int) -> bool) -> Seq<usize>
    decreases n,
{
    if n == 0 {
        Seq::empty()
    } else if p(n - 1) {
        indices_to((n - 1) as nat, p).push((n - 1) as usize)
    } else {
        indices_to((n - 1) as nat, p)
    }
}

/// A count of indices below `n` is at most `n`.
pub proof fn count_within(n: nat, p: spec_fn(int) -> bool)
    ensures
        count_to(n, p) <= n,
    decreases n,
{
    if n > 0 {
        count_within((n - 1) as nat, p);
    }
}

/// What [`first_where`] finds is in range, satisfies `p`, and nothing before it does.
pub proof fn first_where_finds(i: int, n: int, p: spec_fn(int) -> bool)
    ensures
        first_where(i, n, p) matches Some(k) ==> i <= k < n && p(k) && forall|j: int| i <= j < k ==> !#[trigger] p(j),
        first_where(i, n, p) is None ==> forall|j: int| i <= j < n ==> !#[trigger] p(j),
    decreases n - i,
{
    if i < n && !p(i) {
        first_where_finds(i + 1, n, p);
    }
}

/// The chosen indices are in range, rise strictly, and are those that `p` holds of.
pub proof fn indices_rise(n: nat, p: spec_fn(int) -> bool)
    requires
        n <= usize::MAX,
    ensures
        indices_to(n, p).len() == count_to(n, p),
        forall|a: int|
            0 <= a < indices_to(n, p).len() ==> (#[trigger] indices_to(n, p)[a]) < n && p(indices_to(n, p)[a] as int),
        forall|a: int, b: int|
            0 <= a < b < indices_to(n, p).len() ==> #[trigger] indices_to(n, p)[a] < #[trigger] indices_to(n, p)[b],
        forall|k: int| 0 <= k < n && p(k) ==> #[trigger] indices_to(n, p).contains(k as usize),
    decreases n,
{
    if n > 0 {
        let m = (n - 1) as nat;
        indices_rise(m, p);
        let before = indices_to(m, p);
        assert forall|k: int| 0 <= k < n && p(k) implies #[trigger] indices_to(n, p).contains(k as usize) by {
            if k < m {
                assert(before.contains(k as usize));
                let a = choose|a: int| 0 <= a < before.len() && before[a] == k as usize;
                assert(indices_to(n, p)[a] == k as usize);
            } else {
                assert(indices_to(n, p)[before.len() as int] == k as usize);
            }
        }
    }
}

/// An entry of a list that is known by a number of its own.
pub trait Keyed {
    spec fn key_of(&self) -> u32;

    fn key(&self) -> (r: u32)
        ensures
            r == self.key_of(),
    ;
}

/// No two entries share a key.
pub open spec fn unique_keys<T: Keyed>(entries: Seq<T>) -> bool {
    forall|i: int, j: int|
        0 <= i < j < entries.len() ==> (#[trigger] entries[i]).key_of() != (#[trigger] entries[j]).key_of()
}

/// Some entry has the key.
pub open spec fn has_key<T: Keyed>(entries: Seq<T>, key: u32) -> bool {
    exists|i: int| 0 <= i < entries.len() && (#[trigger] entries[i]).key_of() == key
}

/// The index of the first entry from `i` on with the key.
pub open spec fn keyed_from<T: Keyed>(entries: Seq<T>, key: u32, i: int) -> Option<int>
    decreases entries.len() - i,
{
    if i >= entries.len() {
        None
    } else if entries[i].key_of() == key {
        Some(i)
    } else {
        keyed_from(entries, key, i + 1)
    }
}

/// The index of the first entry with the key.
pub open spec fn keyed<T: Keyed>(entries: Seq<T>, key: u32) -> Option<int> {
    keyed_from(entries, key, 0)
}

/// The first entry with a key is found exactly where one exists.
pub proof fn keyed_finds<T: Keyed>(entries: Seq<T>, key: u32, i: int)
    requires
        0 <= i,
    ensures
        keyed_from(entries, key, i) matches Some(k) ==> i <= k < entries.len() && entries[k].key_of() == key,
        keyed_from(entries, key, i) is Some <==> exists|k: int|
            i <= k < entries.len() && (#[trigger] entries[k]).key_of() == key,
    decreases entries.len() - i,
{
    if i < entries.len() && entries[i].key_of() != key {
        keyed_finds(entries, key, i + 1);
        if exists|k: int| i <= k < entries.len() && (#[trigger] entries[k]).key_of() == key {
            let k = choose|k: int| i <= k < entries.len() && (#[trigger] entries[k]).key_of() == key;
            assert(i + 1 <= k < entries.len() && entries[k].key_of() == key);
        }
    }
}

/// Whether no two entries share a key.
pub fn unique<T: Keyed>(values: &Vec<T>) -> (r: bool)
    ensures
        r == unique_keys(values@),
{
    for i in 0..values.len()
        invariant
            forall|a: int, b: int|
                0 <= a < i && a < b < values@.len() ==> (#[trigger] values@[a]).key_of() != (
                #[trigger] values@[b]).key_of(),
    {
        for j in i + 1..values.len()
            invariant
                i < values@.len(),
                forall|b: int| i < b < j ==> values@[i as int].key_of() != (#[trigger] values@[b]).key_of(),
        {
            if values[i].key() == values[j].key() {
                assert(values@[i as int].key_of() == values@[j as int].key_of());
                return false;
            }
        }
    }
    true
}

/// Finds the first entry with the key.
pub fn find_key<T: Keyed>(values: &Vec<T>, key: u32) -> (r: Option<usize>)
    ensures
        r matches Some(k) ==> keyed(values@, key) == Some(k as int) && k < values@.len(),
        r is None <==> keyed(values@, key) is None,
{
    for i in 0..values.len()
        invariant
            keyed(values@, key) == keyed_from(values@, key, i as int),
    {
        if values[i].key() == key {
            return Some(i);
        }
    }
    None
}

/// The index of the last entry with the key.
pub open spec fn last_keyed<T: Keyed>(entries: Seq<T>, key: u32) -> Option<int> {
    last_where(entries.len(), key_is(entries, key))
}

pub open spec fn key_is<T: Keyed>(entries: Seq<T>, key: u32) -> spec_fn(int) -> bool {
    |i: int| entries[i].key_of() == key
}

/// Finds the last entry with the key.
pub fn find_last_key<T: Keyed>(values: &Vec<T>, key: u32) -> (r: Option<usize>)
    ensures
        r matches Some(k) ==> last_keyed(values@, key) == Some(k as int) && k < values@.len(),
        r is None <==> last_keyed(values@, key) is None,
{
    let ghost same = key_is(values@, key);
    let mut at: usize = values.len();
    while at > 0
        invariant
            at <= values@.len(),
            same == key_is(values@, key),
            last_where(values@.len(), same) == last_where(at as nat, same),
        decreases at,
    {
        at = at - 1;
        if values[at].key() == key {
            assert(same(at as int));
            return Some(at);
        }
    }
    None
}

/// Whether some entry has the key.
pub fn contains_key<T: Keyed>(values: &Vec<T>, key: u32) -> (r: bool)
    ensures
        r == has_key(values@, key),
{
    proof {
        keyed_finds(values@, key, 0);
    }
    find_key(values, key).is_some()
}

/// A copy of a list of plain values.
pub fn copied<T: Copy>(values: &Vec<T>) -> (r: Vec<T>)
    ensures
        r@ == values@,
{
    let mut out: Vec<T> = Vec::new();
    for i in 0..values.len()
        invariant
            out@ == values@.take(i as int),
    {
        out.push(values[i]);
        assert(values@.take(i + 1) == values@.take(i as int).push(values@[i as int]));
    }
    assert(values@.take(values@.len() as int) == values@);
    out
}

/// What `p` says of an index.
pub open spec fn said(p: spec_fn(int) -> bool, i: usize) -> bool {
    p(i as int)
}

/// What `p` says of two indices.
pub open spec fn said_of_two(p: spec_fn(int, int) -> bool, i: usize, j: usize) -> bool {
    p(i as int, j as int)
}

/// Where index `i` goes in `order`: behind every index that it does not come before.
pub open spec fn slot_from(order: Seq<usize>, i: usize, before: spec_fn(int, int) -> bool, p: int) -> int
    decreases order.len() - p,
{
    if p >= order.len() || before(i as int, order[p] as int) {
        p
    } else {
        slot_from(order, i, before, p + 1)
    }
}

/// The chosen indices below `n` sorted by `before`, equals kept in place.
pub open spec fn arranged(n: nat, chosen: spec_fn(int) -> bool, before: spec_fn(int, int) -> bool) -> Seq<usize>
    decreases n,
{
    if n == 0 {
        Seq::empty()
    } else {
        let earlier = arranged((n - 1) as nat, chosen, before);
        let i = (n - 1) as usize;
        if chosen(n - 1) {
            earlier.insert(slot_from(earlier, i, before, 0), i)
        } else {
            earlier
        }
    }
}

/// `before` orders the chosen indices below `n` strictly, ties allowed.
pub open spec fn strict_order(n: nat, chosen: spec_fn(int) -> bool, before: spec_fn(int, int) -> bool) -> bool {
    &&& forall|a: int, b: int|
        0 <= a < n && 0 <= b < n && chosen(a) && chosen(b) && #[trigger] before(a, b) ==> !before(b, a)
    &&& forall|a: int, b: int, c: int|
        0 <= a < n && 0 <= b < n && 0 <= c < n && chosen(a) && chosen(b) && chosen(c) && #[trigger] before(a, b)
            && !#[trigger] before(c, b) ==> before(a, c)
}

proof fn slot_splits(order: Seq<usize>, i: usize, before: spec_fn(int, int) -> bool, p: int)
    requires
        0 <= p <= order.len(),
    ensures
        p <= slot_from(order, i, before, p) <= order.len(),
        forall|q: int| p <= q < slot_from(order, i, before, p) ==> !before(i as int, #[trigger] order[q] as int),
        slot_from(order, i, before, p) < order.len() ==> before(
            i as int,
            order[slot_from(order, i, before, p)] as int,
        ),
    decreases order.len() - p,
{
    if p < order.len() && !before(i as int, order[p] as int) {
        slot_splits(order, i, before, p + 1);
    }
}

/// An arrangement holds exactly the chosen indices, each once, and by a strict
/// order no index stands behind one that it comes before.
pub proof fn arrangement_holds(n: nat, chosen: spec_fn(int) -> bool, before: spec_fn(int, int) -> bool)
    requires
        n <= usize::MAX,
    ensures
        arranged(n, chosen, before).len() <= n,
        arranged(n, chosen, before).no_duplicates(),
        forall|k: usize| #[trigger] arranged(n, chosen, before).contains(k) <==> k < n && chosen(k as int),
        forall|q: int|
            0 <= q < arranged(n, chosen, before).len() ==> (#[trigger] arranged(n, chosen, before)[q]) < n && chosen(
                arranged(n, chosen, before)[q] as int,
            ),
        strict_order(n, chosen, before) ==> forall|a: int, b: int|
            0 <= a < b < arranged(n, chosen, before).len() ==> !before(
                #[trigger] arranged(n, chosen, before)[b] as int,
                #[trigger] arranged(n, chosen, before)[a] as int,
            ),
    decreases n,
{
    if n > 0 {
        let m = (n - 1) as nat;
        arrangement_holds(m, chosen, before);
        let was = arranged(m, chosen, before);
        let now = arranged(n, chosen, before);
        let i = m as usize;
        if chosen(m as int) {
            let at = slot_from(was, i, before, 0);
            slot_splits(was, i, before, 0);
            assert forall|k: usize| #[trigger] now.contains(k) <==> k < n && chosen(k as int) by {
                if k < m && chosen(k as int) {
                    assert(was.contains(k));
                    let q = choose|q: int| 0 <= q < was.len() && was[q] == k;
                    assert(now[if q < at {
                        q
                    } else {
                        q + 1
                    }] == k);
                }
                if k == i {
                    assert(now[at] == k);
                }
                if now.contains(k) {
                    let q = choose|q: int| 0 <= q < now.len() && now[q] == k;
                    if q != at {
                        assert(was.contains(was[if q < at {
                            q
                        } else {
                            q - 1
                        }]));
                    }
                }
            }
            assert forall|q: int| 0 <= q < now.len() implies (#[trigger] now[q]) < n && chosen(now[q] as int) by {
                assert(now.contains(now[q]));
            }
            if strict_order(n, chosen, before) {
                assert(strict_order(m, chosen, before));
                assert forall|a: int, b: int| 0 <= a < b < now.len() implies !before(
                    #[trigger] now[b] as int,
                    #[trigger] now[a] as int,
                ) by {
                    let a0 = if a <= at {
                        a
                    } else {
                        a - 1
                    };
                    let b0 = if b <= at {
                        b
                    } else {
                        b - 1
                    };
                    if a == at {
                        let head = was[at] as int;
                        let last = was[b0] as int;
                        assert(before(i as int, head));
                        if at < b0 {
                            assert(!before(last, head));
                        }
                        if last != head {
                            assert(before(i as int, last));
                        }
                    } else if b != at {
                        assert(!before(was[b0] as int, was[a0] as int));
                    }
                }
            }
        } else {
            assert forall|k: usize| #[trigger] now.contains(k) <==> k < n && chosen(k as int) by {
                assert(was.contains(k) <==> k < m && chosen(k as int));
            }
        }
    }
}

/// Sorts the chosen indices below `n`, equals kept in place.
pub fn arrange<C: Fn(usize) -> bool, B: Fn(usize, usize) -> bool>(
    n: usize,
    choose_index: C,
    comes_before: B,
    chosen: Ghost<spec_fn(int) -> bool>,
    before: Ghost<spec_fn(int, int) -> bool>,
) -> (r: Vec<usize>)
    requires
        forall|i: usize| i < n ==> #[trigger] choose_index.requires((i,)),
        forall|i: usize, b: bool| i < n && #[trigger] choose_index.ensures((i,), b) ==> b == chosen@(i as int),
        forall|i: usize, j: usize| i < n && j < n ==> #[trigger] comes_before.requires((i, j)),
        forall|i: usize, j: usize, b: bool|
            i < n && j < n && #[trigger] comes_before.ensures((i, j), b) ==> b == before@(i as int, j as int),
    ensures
        r@ == arranged(n as nat, chosen@, before@),
        forall|q: int| 0 <= q < r@.len() ==> (#[trigger] r@[q]) < n && chosen@(r@[q] as int),
{
    let mut order: Vec<usize> = Vec::new();
    for i in 0..n
        invariant
            forall|i: usize| i < n ==> #[trigger] choose_index.requires((i,)),
            forall|i: usize, b: bool| i < n && #[trigger] choose_index.ensures((i,), b) ==> b == chosen@(i as int),
            forall|i: usize, j: usize| i < n && j < n ==> #[trigger] comes_before.requires((i, j)),
            forall|i: usize, j: usize, b: bool|
                i < n && j < n && #[trigger] comes_before.ensures((i, j), b) ==> b == before@(i as int, j as int),
            order@ == arranged(i as nat, chosen@, before@),
            forall|q: int| 0 <= q < order@.len() ==> (#[trigger] order@[q]) < i && chosen@(order@[q] as int),
    {
        if choose_index(i) {
            let mut at: usize = 0;
            let mut go: bool = true;
            while go && at < order.len()
                invariant
                    i < n,
                    forall|i: usize, j: usize| i < n && j < n ==> #[trigger] comes_before.requires((i, j)),
                    forall|i: usize, j: usize, b: bool|
                        i < n && j < n && #[trigger] comes_before.ensures((i, j), b) ==> b == before@(
                            i as int,
                            j as int,
                        ),
                    forall|q: int| 0 <= q < order@.len() ==> (#[trigger] order@[q]) < i,
                    at <= order@.len(),
                    go ==> slot_from(order@, i, before@, 0) == slot_from(order@, i, before@, at as int),
                    !go ==> slot_from(order@, i, before@, 0) == at,
                decreases order@.len() - at, go as int,
            {
                if comes_before(i, order[at]) {
                    go = false;
                } else {
                    at = at + 1;
                }
            }
            order.insert(at, i);
        }
    }
    order
}

} // verus!
