//! How work is shared out among periods, told of the hours and tonnes alone.
use vstd::prelude::*;

use crate::ledger::{amount, held_is_entry, held_under, put_reads_back, raised_by, rising, Key, Pair};
use crate::listing::{flat, folded, sum_to};
use crate::production::{
    count_step, ends_inside, falls_in, nonzero, period_start, periods_within, reached, received_part, totals,
    touches_last, within, Stretch,
};
use crate::scalar::{quotient, size, Fixed, Scalar, STEPS};
use crate::trucking::calendar::{CalendarPeriod, SCHEDULE_PERIOD_H};
use crate::trucking::rules::DestinationId;

verus! {

/// A day, in billionths of an hour.
pub const DAY: i64 = 24_000_000_000;

/// How much of the time from `start` to `end` is in period `p`.
pub open spec fn time_in(start: int, end: int, p: int) -> int {
    let first = if start < p * DAY {
        p * DAY
    } else {
        start
    };
    let last = if (p + 1) * DAY < end {
        (p + 1) * DAY
    } else {
        end
    };
    if first < last {
        last - first
    } else {
        0
    }
}

/// What the stretches give a key in a period, in billionths of a tonne.
pub open spec fn given<K: Key>(stretches: Seq<Stretch<K, Fixed>>, key: K, p: int) -> int {
    amount(totals(stretches), Pair(key, CalendarPeriod(p as u32))).0 as int
}

/// Work that takes time, in numbers whose products stay in range.
pub open spec fn in_range<K: Key>(stretch: Stretch<K, Fixed>) -> bool {
    let (start, end, tonnes) = (stretch.start_h.0 as int, stretch.end_h.0 as int, stretch.tonnes.0 as int);
    &&& 0 <= start < end < i64::MAX
    &&& i64::MIN < tonnes < i64::MAX
    &&& size(tonnes) * (end - start) < i64::MAX * STEPS
}

proof fn quotient_near(p: int, q: int)
    requires
        q > 0,
    ensures
        p >= 0 ==> 0 <= quotient(p, q) * q <= p < quotient(p, q) * q + q && 0 <= quotient(p, q),
        p <= 0 ==> p <= quotient(p, q) * q <= 0 && quotient(p, q) * q - q < p && quotient(p, q) <= 0,
{
    let (a, d) = (size(p), size(p) / q);
    vstd::arithmetic::div_mod::lemma_fundamental_div_mod(a, q);
    vstd::arithmetic::div_mod::lemma_mod_bound(a, q);
    assert(q * d == d * q) by (nonlinear_arith);
    assert((-d) * q == -(d * q)) by (nonlinear_arith);
    vstd::arithmetic::div_mod::lemma_div_pos_is_pos(a, q);
}

/// A share, in plain numbers: the tonnes times the time over the duration, each
/// operation rounded toward zero.
proof fn share_near(t: int, o: int, d: int) -> (y: int)
    requires
        0 <= o <= d,
        0 < d,
    ensures
        y == quotient(quotient(t * o, STEPS as int) * STEPS, d),
        t >= 0 ==> 0 <= y && 0 <= y * d <= t * o <= y * d + STEPS + d,
        t <= 0 ==> y <= 0 && t * o <= y * d <= 0 && y * d - STEPS - d <= t * o,
        size(quotient(t * o, STEPS as int)) * STEPS <= size(t) * d,
        size(y) <= size(t),
{
    let x = quotient(t * o, STEPS as int);
    let y = quotient(x * STEPS, d);
    quotient_near(t * o, STEPS as int);
    quotient_near(x * STEPS, d);
    if t >= 0 {
        assert(0 <= t * o <= t * d) by (nonlinear_arith)
            requires
                0 <= t,
                0 <= o <= d,
        ;
        assert(y <= t) by (nonlinear_arith)
            requires
                y * d <= t * d,
                0 < d,
        ;
    }
    if t <= 0 {
        assert(t * d <= t * o <= 0) by (nonlinear_arith)
            requires
                t <= 0,
                0 <= o <= d,
        ;
        assert(y >= t) by (nonlinear_arith)
            requires
                y * d >= t * d,
                0 < d,
        ;
        assert((-t) * d == -(t * d)) by (nonlinear_arith);
    }
    y
}

proof fn edge(p: u32)
    requires
        p * DAY <= i64::MAX,
    ensures
        period_start::<Fixed>(p).0 == p * DAY,
{
    let product = p * 1_000_000_000 * 24_000_000_000;
    assert(Fixed::of_whole(p as u64).0 == p * 1_000_000_000);
    assert(Fixed::of_whole(SCHEDULE_PERIOD_H).0 == 24_000_000_000);
    let hours = p * 24_000_000_000;
    assert(product == hours * 1_000_000_000);
    assert(product / 1_000_000_000 == hours);
    assert(quotient(product, STEPS as int) == hours);
}

/// An hour falls in the period that holds it.
pub proof fn first_period(hour: Fixed)
    requires
        0 <= hour.0,
    ensures
        falls_in(hour) == hour.0 as int / DAY as int,
{
    let h = hour.0 as int;
    assert(Fixed::of_whole(SCHEDULE_PERIOD_H).0 == 24_000_000_000);
    let part = quotient(h * STEPS, 24_000_000_000);
    assert(part == (h * 1_000_000_000) / 24_000_000_000);
    assert(part == h / 24);
    assert(part / 1_000_000_000 == h / 24_000_000_000);
}

proof fn last_period(hour: Fixed)
    requires
        0 < hour.0,
    ensures
        ({
            let last = touches_last(hour) as int;
            &&& last * DAY < hour.0
            &&& hour.0 <= (last + 1) * DAY + 23
        }),
        ({
            let count = reached(hour) as int;
            &&& count * DAY < hour.0 + DAY
            &&& hour.0 <= count * DAY + 23
        }),
{
    let h = hour.0 as int;
    assert(Fixed::of_whole(SCHEDULE_PERIOD_H).0 == 24_000_000_000);
    let part = quotient(h * STEPS, 24_000_000_000);
    assert(part == (h * 1_000_000_000) / 24_000_000_000);
    assert(part == h / 24);
}

impl<K: Key> Stretch<K, Fixed> {
    /// What this stretch gives its key in a period.
    spec fn part(self, p: int) -> int {
        if self.counts_nothing() {
            0
        } else if self.undivided() {
            if p == self.first() {
                self.tonnes.0 as int
            } else {
                0
            }
        } else if p == self.last() {
            self.tonnes.0 - self.assigned(self.earlier()).0
        } else if self.first() <= p < self.last() {
            self.share(p as u32).0 as int
        } else {
            0
        }
    }

    proof fn spans(self)
        requires
            in_range(self),
        ensures
            self.first() == self.start_h.0 as int / DAY as int,
            self.first() <= self.last(),
            self.last() * DAY < self.end_h.0 <= (self.last() + 1) * DAY + 23,
            self.duration().0 == self.end_h.0 - self.start_h.0,
            self.undivided() == (self.first() == self.last()),
    {
        first_period(self.start_h);
        last_period(self.end_h);
    }

    proof fn share_is(self, p: int)
        requires
            in_range(self),
            self.first() <= p < self.last(),
        ensures
            ({
                let (t, d) = (self.tonnes.0 as int, self.end_h.0 - self.start_h.0);
                let o = time_in(self.start_h.0 as int, self.end_h.0 as int, p);
                let y = self.share(p as u32).0 as int;
                &&& o == (p + 1) * DAY - (if p == self.first() {
                    self.start_h.0 as int
                } else {
                    p * DAY
                })
                &&& 0 <= o <= d
                &&& t >= 0 ==> 0 <= y && 0 <= y * d <= t * o <= y * d + STEPS + d
                &&& t <= 0 ==> y <= 0 && t * o <= y * d <= 0 && y * d - STEPS - d <= t * o
                &&& size(y) <= size(t)
            }),
    {
        self.spans();
        let (start, end) = (self.start_h.0 as int, self.end_h.0 as int);
        let period = p as u32;
        assert(p * DAY <= (p + 1) * DAY <= self.last() * DAY < end);
        edge(period);
        edge((period + 1) as u32);
        let o = time_in(start, end, p);
        let (t, d) = (self.tonnes.0 as int, end - start);
        assert(start < (self.first() + 1) * DAY <= (p + 1) * DAY);
        if p == self.first() {
            assert(p * DAY <= start);
        } else {
            assert((self.first() + 1) * DAY <= p * DAY);
        }
        let y = share_near(t, o, d);
        let x = quotient(t * o, STEPS as int);
        assert(size(x) < i64::MAX) by (nonlinear_arith)
            requires
                size(x) * STEPS <= size(t) * d,
                size(t) * d < i64::MAX * STEPS,
                STEPS == 1_000_000_000,
        ;
    }

    /// What the earlier periods are given, and the time they have.
    proof fn assigned_near(self, n: nat)
        requires
            in_range(self),
            n <= self.earlier(),
        ensures
            ({
                let (t, d) = (self.tonnes.0 as int, self.end_h.0 - self.start_h.0);
                let o = if n == 0 {
                    0
                } else {
                    (self.first() + n) * DAY - self.start_h.0
                };
                let a = self.assigned(n).0 as int;
                &&& 0 <= o <= d
                &&& t >= 0 ==> 0 <= a <= t && 0 <= a * d <= t * o <= a * d + n * (STEPS + d)
                &&& t <= 0 ==> t <= a <= 0 && t * o <= a * d <= 0 && a * d - n * (STEPS + d) <= t * o
            }),
        decreases n,
    {
        self.spans();
        let (t, d) = (self.tonnes.0 as int, self.end_h.0 - self.start_h.0);
        if n == 0 {
            assert(t * 0 == 0 && 0 * d == 0 && 0 * (STEPS + d) == 0) by (nonlinear_arith);
        } else {
            let m = (n - 1) as nat;
            let p = self.first() + m;
            self.assigned_near(m);
            self.share_is(p);
            let (a, y) = (self.assigned(m).0 as int, self.share(p as u32).0 as int);
            let before = if m == 0 {
                0
            } else {
                p * DAY - self.start_h.0
            };
            let o = time_in(self.start_h.0 as int, self.end_h.0 as int, p);
            let all = (self.first() + n) * DAY - self.start_h.0;
            assert(all == before + o);
            assert(all <= d);
            assert(t * all == t * before + t * o) by (nonlinear_arith)
                requires
                    all == before + o,
            ;
            assert((a + y) * d == a * d + y * d) by (nonlinear_arith);
            assert(n * (STEPS + d) == m * (STEPS + d) + (STEPS + d)) by (nonlinear_arith)
                requires
                    n == m + 1,
            ;
            if t >= 0 {
                assert(t * all <= t * d) by (nonlinear_arith)
                    requires
                        0 <= t,
                        all <= d,
                ;
                assert(a + y <= t) by (nonlinear_arith)
                    requires
                        (a + y) * d <= t * d,
                        0 < d,
                ;
            }
            if t <= 0 {
                assert(t * all >= t * d) by (nonlinear_arith)
                    requires
                        t <= 0,
                        all <= d,
                ;
                assert(a + y >= t) by (nonlinear_arith)
                    requires
                        (a + y) * d >= t * d,
                        0 < d,
                ;
            }
            assert(self.assigned(n) == self.assigned(m).plus(self.share(p as u32)));
        }
    }

    /// No part exceeds the whole.
    proof fn part_within(self, p: int)
        requires
            in_range(self),
        ensures
            size(self.part(p)) <= size(self.tonnes.0 as int),
    {
        self.spans();
        if self.first() <= p < self.last() {
            self.share_is(p);
        }
        self.assigned_near(self.earlier());
    }

    /// A part is the tonnes times the time in the period over the duration.
    proof fn part_near(self, p: int)
        requires
            in_range(self),
            !self.counts_nothing(),
            0 <= p,
        ensures
            ({
                let (start, end, t) = (self.start_h.0 as int, self.end_h.0 as int, self.tonnes.0 as int);
                let o = time_in(start, end, p);
                let rounding = (end / DAY as int - start / DAY as int) * (STEPS + (end - start)) + 23 * size(t);
                &&& -rounding <= self.part(p) * (end - start) - t * o <= rounding
                &&& o == 0 ==> self.part(p) == 0
            }),
    {
        self.spans();
        let (start, end, t) = (self.start_h.0 as int, self.end_h.0 as int, self.tonnes.0 as int);
        let d = end - start;
        let (first, last) = (self.first() as int, self.last() as int);
        let o = time_in(start, end, p);
        let n = self.earlier();
        let all = (end / DAY as int - start / DAY as int);
        assert(0 <= n <= all);
        assert(0 <= n * (STEPS + d) <= all * (STEPS + d)) by (nonlinear_arith)
            requires
                0 <= n <= all,
                0 < d,
                STEPS == 1_000_000_000,
        ;
        if n > 0 {
            assert(STEPS + d <= n * (STEPS + d)) by (nonlinear_arith)
                requires
                    1 <= n,
                    0 < d,
                    STEPS == 1_000_000_000,
            ;
        }
        assert(-23 * size(t) <= t * 0 <= 23 * size(t)) by (nonlinear_arith);
        if p == last {
            self.assigned_near(n);
            let a = self.assigned(n).0 as int;
            let before = if n == 0 {
                0
            } else {
                last * DAY - start
            };
            let left = d - before - o;
            if n > 0 {
                assert((first + 1) * DAY <= last * DAY);
            } else {
                assert(last * DAY <= start);
            }
            assert(start < (first + 1) * DAY <= (last + 1) * DAY);
            assert(0 <= left <= 23);
            assert(t * d == t * before + t * o + t * left) by (nonlinear_arith)
                requires
                    d == before + o + left,
            ;
            assert((t - a) * d == t * d - a * d) by (nonlinear_arith);
            assert(-23 * size(t) <= t * left <= 23 * size(t)) by (nonlinear_arith)
                requires
                    0 <= left <= 23,
            ;
            assert(0 * d == 0) by (nonlinear_arith);
            if n == 0 {
                assert(0 * (STEPS + d) == 0) by (nonlinear_arith);
                assert(self.part(p) == t);
                assert(t * 0 == 0) by (nonlinear_arith);
            } else {
                assert(self.part(p) == t - a);
            }
        } else if first <= p < last {
            self.share_is(p);
            assert(o > 0);
        } else {
            if p < first {
                assert((p + 1) * DAY <= first * DAY <= start);
                assert(o == 0);
            } else {
                assert((last + 1) * DAY <= p * DAY);
                assert(start < (first + 1) * DAY <= (last + 1) * DAY);
                assert(0 <= o <= 23);
            }
            assert(-23 * size(t) <= t * o <= 23 * size(t)) by (nonlinear_arith)
                requires
                    0 <= o <= 23,
            ;
            assert(0 * d == 0) by (nonlinear_arith);
        }
    }
}

// What is read of a ledger.

/// What is read after an amount is raised.
pub proof fn raised_amount<K: Key>(entries: Seq<(K, Fixed)>, at: K, more: Fixed, other: K)
    requires
        rising(entries),
    ensures
        rising(raised_by(entries, at, more)),
        amount(raised_by(entries, at, more), other) == (if other == at {
            amount(entries, at).plus(more)
        } else {
            amount(entries, other)
        }),
{
    put_reads_back(entries, at, amount(entries, at).plus(more), other);
}

proof fn kept_entries<K: Key>(entries: Seq<(Pair<K, CalendarPeriod>, Fixed)>, n: nat)
    requires
        n <= entries.len(),
        rising(entries),
    ensures
        ({
            let kept = flat(n, nonzero(entries));
            &&& rising(kept)
            &&& forall|k: int|
                0 <= k < kept.len() ==> exists|i: int|
                    0 <= i < n && #[trigger] entries[i] == (#[trigger] kept[k]) && entries[i].1.0 != 0
            &&& forall|i: int|
                0 <= i < n && (#[trigger] entries[i]).1.0 != 0 ==> exists|k: int|
                    0 <= k < kept.len() && #[trigger] kept[k] == entries[i]
        }),
    decreases n,
{
    if n > 0 {
        let m = (n - 1) as nat;
        kept_entries(entries, m);
        let (before, now) = (flat(m, nonzero(entries)), flat(n, nonzero(entries)));
        assert(now == before + nonzero(entries)(m as int));
        if entries[m as int].1.0 == 0 {
            assert(now =~= before);
        } else {
            assert(now =~= before.push(entries[m as int]));
            assert forall|i: int, j: int| 0 <= i < j < now.len() implies (#[trigger] now[i]).0.before(
                (#[trigger] now[j]).0,
            ) by {
                if j < before.len() {
                    assert(before[i].0.before(before[j].0));
                } else {
                    let x = choose|x: int| 0 <= x < m && #[trigger] entries[x] == before[i] && entries[x].1.0 != 0;
                    assert(entries[x].0.before(entries[m as int].0));
                }
            }
            assert forall|k: int| 0 <= k < now.len() implies exists|i: int|
                0 <= i < n && #[trigger] entries[i] == (#[trigger] now[k]) && entries[i].1.0 != 0 by {
                if k < before.len() {
                    assert(now[k] == before[k]);
                    let x = choose|x: int| 0 <= x < m && #[trigger] entries[x] == before[k] && entries[x].1.0 != 0;
                    assert(entries[x] == now[k]);
                } else {
                    assert(entries[m as int] == now[k]);
                }
            }
            assert forall|i: int| 0 <= i < n && (#[trigger] entries[i]).1.0 != 0 implies exists|k: int|
                0 <= k < now.len() && #[trigger] now[k] == entries[i] by {
                if i < m {
                    let k = choose|k: int| 0 <= k < before.len() && #[trigger] before[k] == entries[i];
                    assert(now[k] == entries[i]);
                } else {
                    assert(now[before.len() as int] == entries[i]);
                }
            }
        }
    }
}

/// Leaving zeros out changes no reading.
proof fn zeros_read_the_same<K: Key>(entries: Seq<(Pair<K, CalendarPeriod>, Fixed)>, key: Pair<K, CalendarPeriod>)
    requires
        rising(entries),
    ensures
        amount(flat(entries.len(), nonzero(entries)), key) == amount(entries, key),
        rising(flat(entries.len(), nonzero(entries))),
{
    let kept = flat(entries.len(), nonzero(entries));
    kept_entries(entries, entries.len());
    held_is_entry(entries, key);
    held_is_entry(kept, key);
    if held_under(kept, key) is Some {
        let k = choose|k: int| 0 <= k < kept.len() && (#[trigger] kept[k]).0 == key;
        let i = choose|i: int|
            0 <= i < entries.len() && #[trigger] entries[i] == kept[k] && entries[i].1.0 != 0;
        assert(entries[i].0 == key);
    } else if held_under(entries, key) is Some {
        let i = choose|i: int| 0 <= i < entries.len() && (#[trigger] entries[i]).0 == key;
        if entries[i].1.0 != 0 {
            let k = choose|k: int| 0 <= k < kept.len() && #[trigger] kept[k] == entries[i];
            assert(kept[k].0 == key);
        }
    }
}

impl<K: Key> Stretch<K, Fixed> {
    proof fn shares_read(self, entries: Seq<(Pair<K, CalendarPeriod>, Fixed)>, key: K, p: u32, n: nat)
        requires
            rising(entries),
            in_range(self),
            n <= self.earlier(),
            size(amount(entries, Pair(key, CalendarPeriod(p))).0 as int) + size(self.tonnes.0 as int) <= i64::MAX,
        ensures
            ({
                let now = folded(n, entries, self.share_step());
                &&& rising(now)
                &&& amount(now, Pair(key, CalendarPeriod(p))).0 == amount(entries, Pair(key, CalendarPeriod(p))).0 + (
                if key == self.key && self.first() <= p < self.first() + n {
                    self.share(p).0 as int
                } else {
                    0
                })
            }),
        decreases n,
    {
        if n > 0 {
            let m = (n - 1) as nat;
            self.shares_read(entries, key, p, m);
            self.spans();
            let at = (self.first() + m) as u32;
            let before = folded(m, entries, self.share_step());
            raised_amount(before, Pair(self.key, CalendarPeriod(at)), self.share(at), Pair(key, CalendarPeriod(p)));
            self.share_is(at as int);
        }
    }

    proof fn counted_reads(self, entries: Seq<(Pair<K, CalendarPeriod>, Fixed)>, key: K, p: u32)
        requires
            rising(entries),
            in_range(self),
            size(amount(entries, Pair(key, CalendarPeriod(p))).0 as int) + size(self.tonnes.0 as int) <= i64::MAX,
        ensures
            rising(self.counted(entries)),
            amount(self.counted(entries), Pair(key, CalendarPeriod(p))).0 == amount(
                entries,
                Pair(key, CalendarPeriod(p)),
            ).0 + (if key == self.key {
                self.part(p as int)
            } else {
                0
            }),
    {
        self.spans();
        let want = Pair(key, CalendarPeriod(p));
        if !self.counts_nothing() {
            if self.undivided() {
                raised_amount(entries, Pair(self.key, CalendarPeriod(self.first())), self.tonnes, want);
            } else {
                let n = self.earlier();
                self.shares_read(entries, key, p, n);
                self.assigned_near(n);
                let split = folded(n, entries, self.share_step());
                let rest = self.tonnes.minus(self.assigned(n));
                raised_amount(split, Pair(self.key, CalendarPeriod(self.last())), rest, want);
                assert(rest.0 == self.tonnes.0 - self.assigned(n).0);
            }
        }
    }
}

/// The tonnes of the first `n` stretches together, whatever their signs.
pub open spec fn gross<K: Key>(stretches: Seq<Stretch<K, Fixed>>, n: nat) -> int
    decreases n,
{
    if n == 0 {
        0
    } else {
        gross(stretches, (n - 1) as nat) + size(stretches[n - 1].tonnes.0 as int)
    }
}

spec fn parts<K: Key>(stretches: Seq<Stretch<K, Fixed>>, key: K, p: int, n: nat) -> int
    decreases n,
{
    if n == 0 {
        0
    } else {
        parts(stretches, key, p, (n - 1) as nat) + (if stretches[n - 1].key == key {
            stretches[n - 1].part(p)
        } else {
            0
        })
    }
}

proof fn gross_grows<K: Key>(stretches: Seq<Stretch<K, Fixed>>, n: nat, all: nat)
    requires
        n <= all,
    ensures
        0 <= gross(stretches, n) <= gross(stretches, all),
    decreases all,
{
    if n < all {
        gross_grows(stretches, n, (all - 1) as nat);
    } else if n > 0 {
        gross_grows(stretches, (n - 1) as nat, (n - 1) as nat);
    }
}

proof fn steps_read<K: Key>(stretches: Seq<Stretch<K, Fixed>>, key: K, p: u32, n: nat)
    requires
        n <= stretches.len(),
        forall|i: int| 0 <= i < stretches.len() ==> in_range(#[trigger] stretches[i]),
        gross(stretches, stretches.len()) <= i64::MAX,
    ensures
        ({
            let now = folded(n, Seq::empty(), count_step(stretches));
            &&& rising(now)
            &&& amount(now, Pair(key, CalendarPeriod(p))).0 == parts(stretches, key, p as int, n)
            &&& size(parts(stretches, key, p as int, n)) <= gross(stretches, n)
        }),
    decreases n,
{
    if n > 0 {
        let m = (n - 1) as nat;
        steps_read(stretches, key, p, m);
        gross_grows(stretches, n, stretches.len());
        let stretch = stretches[m as int];
        stretch.counted_reads(folded(m, Seq::empty(), count_step(stretches)), key, p);
        stretch.part_within(p as int);
    }
}

proof fn read_as_parts<K: Key>(stretches: Seq<Stretch<K, Fixed>>, key: K, p: u32)
    requires
        forall|i: int| 0 <= i < stretches.len() ==> in_range(#[trigger] stretches[i]),
        gross(stretches, stretches.len()) <= i64::MAX,
    ensures
        given(stretches, key, p as int) == parts(stretches, key, p as int, stretches.len()),
{
    steps_read(stretches, key, p, stretches.len());
    let all = folded(stretches.len(), Seq::empty(), count_step(stretches));
    zeros_read_the_same(all, Pair(key, CalendarPeriod(p)));
}

/// Work that takes time gives each period its tonnes times the time it spends
/// in that period over the time it takes, but for what rounding leaves: at most
/// a billionth or so for each period. A period that it spends no time in gets
/// nothing, and no other key gets anything.
pub proof fn periods_get_their_share<K: Key>(stretch: Stretch<K, Fixed>, key: K, p: u32)
    requires
        in_range(stretch),
    ensures
        ({
            let (start, end, tonnes) = (stretch.start_h.0 as int, stretch.end_h.0 as int, stretch.tonnes.0 as int);
            let time = time_in(start, end, p as int);
            let got = given(seq![stretch], key, p as int);
            let rounding = (end / DAY as int - start / DAY as int) * (STEPS + (end - start)) + 23 * size(tonnes);
            &&& key == stretch.key ==> -rounding <= got * (end - start) - tonnes * time <= rounding
            &&& key != stretch.key || time == 0 ==> got == 0
        }),
{
    let one = seq![stretch];
    assert(gross(one, 1) == gross(one, 0) + size(stretch.tonnes.0 as int));
    read_as_parts(one, key, p);
    assert(parts(one, key, p as int, 1) == parts(one, key, p as int, 0) + (if stretch.key == key {
        stretch.part(p as int)
    } else {
        0
    }));
    if stretch.counts_nothing() {
        let (start, end) = (stretch.start_h.0 as int, stretch.end_h.0 as int);
        let time = time_in(start, end, p as int);
        assert(stretch.tonnes.0 == 0);
        assert(0 * time == 0 && 0 * (end - start) == 0) by (nonlinear_arith);
        let n = end / DAY as int - start / DAY as int;
        assert(0 <= n);
        assert(0 <= n * (STEPS + (end - start))) by (nonlinear_arith)
            requires
                0 <= n,
                start < end,
                STEPS == 1_000_000_000,
        ;
    } else {
        stretch.part_near(p as int);
    }
}

/// What the single stretches of a key give it in a period.
pub open spec fn single_gifts<K: Key>(stretches: Seq<Stretch<K, Fixed>>, key: K, p: int, n: nat) -> int
    decreases n,
{
    if n == 0 {
        0
    } else {
        single_gifts(stretches, key, p, (n - 1) as nat) + given(seq![stretches[n - 1]], key, p)
    }
}

proof fn parts_are_gifts<K: Key>(stretches: Seq<Stretch<K, Fixed>>, key: K, p: u32, n: nat)
    requires
        n <= stretches.len(),
        forall|i: int| 0 <= i < stretches.len() ==> in_range(#[trigger] stretches[i]),
    ensures
        parts(stretches, key, p as int, n) == single_gifts(stretches, key, p as int, n),
    decreases n,
{
    if n > 0 {
        let m = (n - 1) as nat;
        parts_are_gifts(stretches, key, p, m);
        let stretch = stretches[m as int];
        let one = seq![stretch];
        assert(gross(one, 1) == gross(one, 0) + size(stretch.tonnes.0 as int));
        assert(parts(one, key, p as int, 1) == parts(one, key, p as int, 0) + (if stretch.key == key {
            stretch.part(p as int)
        } else {
            0
        }));
        read_as_parts(one, key, p);
    }
}

/// What many stretches give a key in a period is what each of them gives it,
/// added up.
pub proof fn gifts_add_up<K: Key>(stretches: Seq<Stretch<K, Fixed>>, key: K, p: u32)
    requires
        forall|i: int| 0 <= i < stretches.len() ==> in_range(#[trigger] stretches[i]),
        gross(stretches, stretches.len()) <= i64::MAX,
    ensures
        given(stretches, key, p as int) == single_gifts(stretches, key, p as int, stretches.len()),
{
    read_as_parts(stretches, key, p);
    parts_are_gifts(stretches, key, p, stretches.len());
}

/// Work that takes no time counts in the period that it starts in.
pub proof fn instant_work_counts_at_its_start<K: Key>(stretch: Stretch<K, Fixed>, key: K, p: u32)
    requires
        stretch.end_h.0 <= stretch.start_h.0,
        0 <= stretch.start_h.0,
        i64::MIN < stretch.tonnes.0 < i64::MAX,
    ensures
        given(seq![stretch], key, p as int) == (if key == stretch.key && p * DAY <= stretch.start_h.0 < (p + 1) * DAY {
            stretch.tonnes.0 as int
        } else {
            0
        }),
{
    first_period(stretch.start_h);
    let none = Seq::<(Pair<K, CalendarPeriod>, Fixed)>::empty();
    let want = Pair(key, CalendarPeriod(p));
    let one = seq![stretch];
    reveal_with_fuel(folded, 2);
    let all = folded(1, none, count_step(one));
    assert(all == stretch.counted(none));
    if !stretch.counts_nothing() {
        raised_amount(none, Pair(stretch.key, CalendarPeriod(stretch.first())), stretch.tonnes, want);
    }
    zeros_read_the_same(all, want);
}

// Coverage.

/// A period is covered where coverage ends after it starts, and in part where
/// coverage ends before it does.
pub proof fn coverage_is_by_hours(end_h: Fixed, p: u32)
    requires
        p * DAY + DAY <= i64::MAX,
    ensures
        within(end_h, CalendarPeriod(p)) == (p * DAY < end_h.0),
        ends_inside(end_h, CalendarPeriod(p)) == (p * DAY < end_h.0 < (p + 1) * DAY),
{
    edge(p);
    edge((p + 1) as u32);
}

/// So many periods are covered as there are that start before coverage ends,
/// but for one that is covered for less than a ten-millionth of a second.
pub proof fn covered_periods_are_counted(end_h: Fixed)
    ensures
        end_h.0 <= 0 ==> periods_within(end_h) == 0,
        end_h.0 > 0 ==> (periods_within(end_h) - 1) * DAY < end_h.0 <= periods_within(end_h) * DAY + 23,
{
    if end_h.0 > 0 {
        last_period(end_h);
    }
}

// Cumulative receipts.

/// What the first `n` entries say that a destination received up to a period.
spec fn up_to(entries: Seq<(Pair<DestinationId, CalendarPeriod>, Fixed)>, to: DestinationId, p: u32, n: nat) -> int
    decreases n,
{
    if n == 0 {
        0
    } else {
        up_to(entries, to, p, (n - 1) as nat) + (if entries[n - 1].0.0 == to && entries[n - 1].0.1.0 <= p {
            entries[n - 1].1.0 as int
        } else {
            0
        })
    }
}

/// The first `n` entries together, whatever their signs.
pub open spec fn entry_sizes(entries: Seq<(Pair<DestinationId, CalendarPeriod>, Fixed)>, n: nat) -> int
    decreases n,
{
    if n == 0 {
        0
    } else {
        entry_sizes(entries, (n - 1) as nat) + size(entries[n - 1].1.0 as int)
    }
}

proof fn summed_up(entries: Seq<(Pair<DestinationId, CalendarPeriod>, Fixed)>, to: DestinationId, p: u32, n: nat)
    requires
        n <= entries.len(),
        entry_sizes(entries, n) <= i64::MAX,
    ensures
        sum_to(n, received_part(entries, to, CalendarPeriod(p))).0 == up_to(entries, to, p, n),
        size(up_to(entries, to, p, n)) <= entry_sizes(entries, n),
    decreases n,
{
    if n > 0 {
        summed_up(entries, to, p, (n - 1) as nat);
    }
}

proof fn steps_up(entries: Seq<(Pair<DestinationId, CalendarPeriod>, Fixed)>, to: DestinationId, p: u32, n: nat)
    requires
        rising(entries),
        n <= entries.len(),
        0 < p,
    ensures
        up_to(entries, to, p, n) - up_to(entries, to, (p - 1) as u32, n) == (if exists|i: int|
            0 <= i < n && (#[trigger] entries[i]).0 == Pair(to, CalendarPeriod(p)) {
            amount(entries, Pair(to, CalendarPeriod(p))).0 as int
        } else {
            0
        }),
    decreases n,
{
    let key = Pair(to, CalendarPeriod(p));
    if n > 0 {
        let m = (n - 1) as nat;
        steps_up(entries, to, p, m);
        held_is_entry(entries, key);
        if entries[m as int].0 == key {
            assert forall|i: int| 0 <= i < m implies (#[trigger] entries[i]).0 != key by {
                assert(entries[i].0.before(entries[m as int].0));
                Pair::<DestinationId, CalendarPeriod>::key_laws(entries[i].0, entries[m as int].0, entries[i].0);
            }
            assert(0 <= m < n && entries[m as int].0 == key);
        } else if exists|i: int| 0 <= i < n && (#[trigger] entries[i]).0 == key {
            let i = choose|i: int| 0 <= i < n && (#[trigger] entries[i]).0 == key;
            assert(0 <= i < m && entries[i].0 == key);
        }
    }
}

/// What a destination received up to a period is what it received up to the
/// period before and in the period itself.
pub proof fn receipts_accumulate(entries: Seq<(Pair<DestinationId, CalendarPeriod>, Fixed)>, to: DestinationId, p: u32)
    requires
        rising(entries),
        entry_sizes(entries, entries.len()) <= i64::MAX,
        0 < p,
    ensures
        sum_to(entries.len(), received_part(entries, to, CalendarPeriod(p))).0 == sum_to(
            entries.len(),
            received_part(entries, to, CalendarPeriod((p - 1) as u32)),
        ).0 + amount(entries, Pair(to, CalendarPeriod(p))).0,
{
    let n = entries.len();
    let key = Pair(to, CalendarPeriod(p));
    summed_up(entries, to, p, n);
    summed_up(entries, to, (p - 1) as u32, n);
    steps_up(entries, to, p, n);
    held_is_entry(entries, key);
    if exists|i: int| 0 <= i < n && (#[trigger] entries[i]).0 == key {
    } else {
        assert(held_under(entries, key) is None);
    }
}

} // verus!
