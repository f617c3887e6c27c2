//! Values by key, kept in the order of the keys.
use vstd::prelude::*;

use crate::scalar::Scalar;

verus! {

/// A key, in a strict total order.
pub trait Key: Copy + Sized {
    spec fn before(self, other: Self) -> bool;

    fn is_before(self, other: Self) -> (r: bool)
        ensures
            r == self.before(other),
    ;

    fn is_key(self, other: Self) -> (r: bool)
        ensures
            r == (self == other),
    ;

    proof fn key_laws(a: Self, b: Self, c: Self)
        ensures
            !a.before(a),
            a.before(b) && b.before(c) ==> a.before(c),
            a == b || a.before(b) || b.before(a),
    ;
}

impl Key for u64 {
    open spec fn before(self, other: Self) -> bool {
        self < other
    }

    fn is_before(self, other: Self) -> (r: bool) {
        self < other
    }

    fn is_key(self, other: Self) -> (r: bool) {
        self == other
    }

    proof fn key_laws(a: Self, b: Self, c: Self) {
    }
}

impl Key for usize {
    open spec fn before(self, other: Self) -> bool {
        self < other
    }

    fn is_before(self, other: Self) -> (r: bool) {
        self < other
    }

    fn is_key(self, other: Self) -> (r: bool) {
        self == other
    }

    proof fn key_laws(a: Self, b: Self, c: Self) {
    }
}

/// Two keys as one.
#[derive(Clone, Copy, Debug)]
pub struct Pair<A, B>(pub A, pub B);

/// Pairs go by the first part and then the second.
impl<A: Key, B: Key> Key for Pair<A, B> {
    open spec fn before(self, other: Self) -> bool {
        self.0.before(other.0) || (self.0 == other.0 && self.1.before(other.1))
    }

    fn is_before(self, other: Self) -> (r: bool) {
        self.0.is_before(other.0) || (self.0.is_key(other.0) && self.1.is_before(other.1))
    }

    fn is_key(self, other: Self) -> (r: bool) {
        self.0.is_key(other.0) && self.1.is_key(other.1)
    }

    proof fn key_laws(a: Self, b: Self, c: Self) {
        A::key_laws(a.0, b.0, c.0);
        A::key_laws(b.0, a.0, c.0);
        B::key_laws(a.1, b.1, c.1);
    }
}

/// The first index from `i` on whose key is not before `key`.
pub open spec fn rank_from<K: Key, V>(entries: Seq<(K, V)>, key: K, i: int) -> int
    decreases entries.len() - i,
{
    if i >= entries.len() || !entries[i].0.before(key) {
        i
    } else {
        rank_from(entries, key, i + 1)
    }
}

/// The place of a key.
pub open spec fn rank<K: Key, V>(entries: Seq<(K, V)>, key: K) -> int {
    rank_from(entries, key, 0)
}

/// What is held under a key.
pub open spec fn held_under<K: Key, V>(entries: Seq<(K, V)>, key: K) -> Option<V> {
    let at = rank(entries, key);
    if at < entries.len() && entries[at].0 == key {
        Some(entries[at].1)
    } else {
        None
    }
}

/// The entries with `value` held under `key`.
pub open spec fn put_under<K: Key, V>(entries: Seq<(K, V)>, key: K, value: V) -> Seq<(K, V)> {
    let at = rank(entries, key);
    if at < entries.len() && entries[at].0 == key {
        entries.update(at, (key, value))
    } else {
        entries.insert(at, (key, value))
    }
}

/// The entries with nothing held under `key`.
pub open spec fn removed_under<K: Key, V>(entries: Seq<(K, V)>, key: K) -> Seq<(K, V)> {
    let at = rank(entries, key);
    if at < entries.len() && entries[at].0 == key {
        entries.remove(at)
    } else {
        entries
    }
}

/// What is held under a key, zero where nothing is.
pub open spec fn amount<K: Key, N: Scalar>(entries: Seq<(K, N)>, key: K) -> N {
    match held_under(entries, key) {
        Some(value) => value,
        None => N::of_whole(0),
    }
}

/// The entries with `more` added under `key`.
pub open spec fn raised_by<K: Key, N: Scalar>(entries: Seq<(K, N)>, key: K, more: N) -> Seq<(K, N)> {
    put_under(entries, key, amount(entries, key).plus(more))
}

/// The entries with `less` taken away under `key`.
pub open spec fn lowered_by<K: Key, N: Scalar>(entries: Seq<(K, N)>, key: K, less: N) -> Seq<(K, N)> {
    put_under(entries, key, amount(entries, key).minus(less))
}

/// The keys rise, so each is held once.
pub open spec fn rising<K: Key, V>(entries: Seq<(K, V)>) -> bool {
    forall|i: int, j: int| 0 <= i < j < entries.len() ==> (#[trigger] entries[i]).0.before((#[trigger] entries[j]).0)
}

pub(crate) proof fn rank_splits<K: Key, V>(entries: Seq<(K, V)>, key: K, i: int)
    requires
        0 <= i <= entries.len(),
    ensures
        i <= rank_from(entries, key, i) <= entries.len(),
        forall|j: int| i <= j < rank_from(entries, key, i) ==> (#[trigger] entries[j]).0.before(key),
        rank_from(entries, key, i) < entries.len() ==> !entries[rank_from(entries, key, i)].0.before(key),
    decreases entries.len() - i,
{
    if i < entries.len() && entries[i].0.before(key) {
        rank_splits(entries, key, i + 1);
    }
}

proof fn rank_is<K: Key, V>(entries: Seq<(K, V)>, key: K, at: int, i: int)
    requires
        0 <= i <= at <= entries.len(),
        forall|j: int| i <= j < at ==> (#[trigger] entries[j]).0.before(key),
        at < entries.len() ==> !entries[at].0.before(key),
    ensures
        rank_from(entries, key, i) == at,
    decreases at - i,
{
    if i < at {
        rank_is(entries, key, at, i + 1);
    }
}

/// What is put under a key is read back under it, every other key reads as
/// before, and the keys still rise.
pub proof fn put_reads_back<K: Key, V>(entries: Seq<(K, V)>, key: K, value: V, other: K)
    requires
        rising(entries),
    ensures
        rising(put_under(entries, key, value)),
        held_under(put_under(entries, key, value), key) == Some(value),
        other != key ==> held_under(put_under(entries, key, value), other) == held_under(entries, other),
{
    let at = rank(entries, key);
    let after = put_under(entries, key, value);
    let held = at < entries.len() && entries[at].0 == key;
    rank_splits(entries, key, 0);
    assert forall|i: int, j: int| 0 <= i < j < after.len() implies (#[trigger] after[i]).0.before(
        (#[trigger] after[j]).0,
    ) by {
        if held {
            assert(entries[i].0.before(entries[j].0));
        } else {
            let i0 = if i <= at {
                i
            } else {
                i - 1
            };
            let j0 = if j <= at {
                j
            } else {
                j - 1
            };
            if i == at {
                K::key_laws(entries[at].0, key, key);
                if at < j0 {
                    assert(entries[at].0.before(entries[j0].0));
                    K::key_laws(key, entries[at].0, entries[j0].0);
                }
            } else if j == at {
            } else {
                assert(entries[i0].0.before(entries[j0].0));
            }
        }
    }
    assert forall|j: int| 0 <= j < at implies (#[trigger] after[j]).0.before(key) by {
        assert(entries[j].0.before(key));
    }
    K::key_laws(key, key, key);
    rank_is(after, key, at, 0);
    if other != key {
        let was = rank(entries, other);
        rank_splits(entries, other, 0);
        if held {
            assert forall|j: int| 0 <= j < was implies (#[trigger] after[j]).0.before(other) by {
                assert(entries[j].0.before(other));
            }
            rank_is(after, other, was, 0);
        } else {
            K::key_laws(key, other, key);
            let now = if key.before(other) {
                was + 1
            } else {
                was
            };
            if key.before(other) {
                assert(at <= was) by {
                    if was < at {
                        assert(entries[was].0.before(key));
                        K::key_laws(entries[was].0, key, other);
                    }
                }
            } else {
                assert(was <= at) by {
                    if at < was {
                        assert(entries[at].0.before(other));
                        K::key_laws(entries[at].0, other, key);
                    }
                }
            }
            assert forall|j: int| 0 <= j < now implies (#[trigger] after[j]).0.before(other) by {
                if j < at {
                    assert(entries[j].0.before(key));
                    K::key_laws(entries[j].0, key, other);
                    if j < was {
                        assert(entries[j].0.before(other));
                    }
                } else if j > at {
                    assert(entries[j - 1].0.before(other));
                }
            }
            if now < after.len() {
                assert(!after[now].0.before(other)) by {
                    if now == at {
                        K::key_laws(key, other, key);
                    }
                }
            }
            rank_is(after, other, now, 0);
        }
    }
}

/// Where the keys rise, what is held under a key is the entry with that key.
pub proof fn held_is_entry<K: Key, V>(entries: Seq<(K, V)>, key: K)
    requires
        rising(entries),
    ensures
        forall|i: int|
            0 <= i < entries.len() && (#[trigger] entries[i]).0 == key ==> held_under(entries, key) == Some(
                entries[i].1,
            ),
        held_under(entries, key) is Some ==> exists|i: int| 0 <= i < entries.len() && (#[trigger] entries[i]).0 == key,
{
    rank_splits(entries, key, 0);
    let at = rank(entries, key);
    assert forall|i: int| 0 <= i < entries.len() && (#[trigger] entries[i]).0 == key implies held_under(
        entries,
        key,
    ) == Some(entries[i].1) by {
        K::key_laws(key, key, key);
        if i < at {
            assert(entries[i].0.before(key));
        }
        if at < i {
            assert(entries[at].0.before(entries[i].0));
        }
    }
    if held_under(entries, key) is Some {
        assert(entries[at].0 == key);
    }
}

/// What is removed under a key is no longer held, every other key reads as
/// before, and the keys still rise.
pub proof fn remove_reads_back<K: Key, V>(entries: Seq<(K, V)>, key: K, other: K)
    requires
        rising(entries),
    ensures
        rising(removed_under(entries, key)),
        held_under(removed_under(entries, key), key) is None,
        other != key ==> held_under(removed_under(entries, key), other) == held_under(entries, other),
{
    let after = removed_under(entries, key);
    let at = rank(entries, key);
    rank_splits(entries, key, 0);
    held_is_entry(entries, key);
    if at < entries.len() && entries[at].0 == key {
        assert forall|i: int, j: int| 0 <= i < j < after.len() implies (#[trigger] after[i]).0.before(
            (#[trigger] after[j]).0,
        ) by {
            let a = if i < at { i } else { i + 1 };
            let b = if j < at { j } else { j + 1 };
            assert(after[i] == entries[a] && after[j] == entries[b]);
        }
        held_is_entry(after, key);
        K::key_laws(key, key, key);
        assert forall|i: int| 0 <= i < after.len() implies (#[trigger] after[i]).0 != key by {
            let a = if i < at { i } else { i + 1 };
            assert(after[i] == entries[a]);
            if a < at {
                assert(entries[a].0.before(entries[at].0));
            } else {
                assert(entries[at].0.before(entries[a].0));
            }
        }
    }
    held_is_entry(after, other);
    held_is_entry(entries, other);
    if other != key && at < entries.len() && entries[at].0 == key {
        if held_under(entries, other) is Some {
            let i = choose|i: int| 0 <= i < entries.len() && (#[trigger] entries[i]).0 == other;
            let b = if i < at { i } else { i - 1 };
            assert(after[b] == entries[i]);
            assert(after[b].0 == other);
        }
        if held_under(after, other) is Some {
            let i = choose|i: int| 0 <= i < after.len() && (#[trigger] after[i]).0 == other;
            let a = if i < at { i } else { i + 1 };
            assert(after[i] == entries[a]);
            assert(entries[a].0 == other);
        }
    }
}

/// Putting a value under a key adds no key but that one.
pub proof fn put_adds_key<K: Key, V>(entries: Seq<(K, V)>, key: K, value: V, i: int)
    requires
        0 <= i < put_under(entries, key, value).len(),
    ensures
        put_under(entries, key, value)[i].0 == key || exists|j: int|
            0 <= j < entries.len() && (#[trigger] entries[j]).0 == put_under(entries, key, value)[i].0,
{
    let at = rank(entries, key);
    rank_splits(entries, key, 0);
    let after = put_under(entries, key, value);
    if !(at < entries.len() && entries[at].0 == key) {
        if i < at {
            assert(entries[i].0 == after[i].0);
        } else if i > at {
            assert(entries[i - 1].0 == after[i].0);
        }
    } else if i != at {
        assert(entries[i].0 == after[i].0);
    }
}

/// Values by key.
#[derive(Clone, Debug)]
pub struct Ledger<K, V> {
    pub entries: Vec<(K, V)>,
}

impl<K, V> View for Ledger<K, V> {
    type V = Seq<(K, V)>;

    open spec fn view(&self) -> Seq<(K, V)> {
        self.entries@
    }
}

/// Two small numbers as one key, ordered by the first and then the second.
pub open spec fn paired(first: u32, second: u32) -> u64 {
    (first as u64 * 0x1_0000_0000 + second as u64) as u64
}

/// Packs two numbers into one key.
pub fn pair_key(first: u32, second: u32) -> (r: u64)
    ensures
        r == paired(first, second),
{
    first as u64 * 0x1_0000_0000 + second as u64
}

impl<K: Key, V> Ledger<K, V> {
    /// A ledger with nothing in it.
    pub fn new() -> (r: Self)
        ensures
            r@ == Seq::<(K, V)>::empty(),
    {
        Ledger { entries: Vec::new() }
    }

    fn place(&self, key: K) -> (r: usize)
        ensures
            r == rank(self@, key),
            r <= self@.len(),
    {
        let mut at: usize = 0;
        while at < self.entries.len() && self.entries[at].0.is_before(key)
            invariant
                at <= self@.len(),
                rank(self@, key) == rank_from(self@, key, at as int),
            decreases self@.len() - at,
        {
            at = at + 1;
        }
        at
    }

    /// What is held under a key.
    pub fn find(&self, key: K) -> (r: Option<&V>)
        ensures
            match r {
                Some(value) => held_under(self@, key) == Some(*value),
                None => held_under(self@, key) is None,
            },
    {
        let at: usize = self.place(key);
        if at < self.entries.len() && self.entries[at].0.is_key(key) {
            Some(&self.entries[at].1)
        } else {
            None
        }
    }

    /// Holds `value` under `key`.
    pub fn put(&mut self, key: K, value: V)
        ensures
            final(self)@ == put_under(old(self)@, key, value),
    {
        let at: usize = self.place(key);
        if at < self.entries.len() && self.entries[at].0.is_key(key) {
            self.entries.set(at, (key, value));
        } else {
            self.entries.insert(at, (key, value));
        }
    }
}

impl<K: Key, V: Copy> Ledger<K, V> {
    /// Holds nothing under `key`.
    pub fn remove(&mut self, key: K)
        ensures
            final(self)@ == removed_under(old(self)@, key),
    {
        let at: usize = self.place(key);
        if at < self.entries.len() && self.entries[at].0.is_key(key) {
            self.entries.remove(at);
        }
    }

    /// A copy.
    pub fn copy(&self) -> (r: Self)
        ensures
            r@ == self@,
    {
        Ledger { entries: crate::listing::copied(&self.entries) }
    }
}

impl<K: Key, N: Scalar> Ledger<K, N> {
    /// What is held under a key.
    pub fn get(&self, key: K) -> (r: Option<N>)
        ensures
            r == held_under(self@, key),
    {
        match self.find(key) {
            Some(value) => Some(*value),
            None => None,
        }
    }

    /// What is held under a key, zero where nothing is.
    pub fn amount(&self, key: K) -> (r: N)
        ensures
            r == amount(self@, key),
    {
        match self.get(key) {
            Some(value) => value,
            None => N::whole(0),
        }
    }

    /// Adds to what is held under `key`.
    pub fn raise(&mut self, key: K, more: N)
        ensures
            final(self)@ == raised_by(old(self)@, key, more),
    {
        let now = self.amount(key).add(more);
        self.put(key, now);
    }

    /// Takes from what is held under `key`.
    pub fn lower(&mut self, key: K, less: N)
        ensures
            final(self)@ == lowered_by(old(self)@, key, less),
    {
        let now = self.amount(key).sub(less);
        self.put(key, now);
    }
}

} // verus!
