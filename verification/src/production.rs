//! Production by period, read off what a schedule says was done.
//!
//! Work that spans periods is split by duration, and what the split leaves goes
//! to the last period it touched, so that the total survives.
use vstd::prelude::*;

use crate::ledger::{amount, raised_by, Key, Ledger, Pair};
use crate::listing::{flat, folded, sum_to};
use crate::scalar::{Fixed, Scalar};
use crate::trucking::calendar::{CalendarPeriod, SCHEDULE_PERIOD_H};
use crate::trucking::rules::{DestinationId, LoaderAgentId};

verus! {

/// Tonnes moved from one hour to another, by a loader or to a destination.
#[derive(Clone, Copy, Debug)]
pub struct Stretch<K, N> {
    pub key: K,
    pub start_h: N,
    pub end_h: N,
    pub tonnes: N,
}

/// The hour that a period starts at.
pub open spec fn period_start<N: Scalar>(period: u32) -> N {
    N::of_whole(period as u64).times(N::of_whole(SCHEDULE_PERIOD_H))
}

fn find_period_start<N: Scalar>(period: u32) -> (r: N)
    ensures
        r == period_start::<N>(period),
{
    N::whole(period as u64).mul(N::whole(SCHEDULE_PERIOD_H))
}

/// The period after, held to the range.
pub open spec fn period_after(period: u32) -> u32 {
    if period == u32::MAX {
        u32::MAX
    } else {
        (period + 1) as u32
    }
}

fn find_period_after(period: u32) -> (r: u32)
    ensures
        r == period_after(period),
{
    if period == u32::MAX {
        u32::MAX
    } else {
        period + 1
    }
}

/// The period that an hour falls in. Periods are open at their end.
pub open spec fn falls_in<N: Scalar>(hour: N) -> u32 {
    hour.over(N::of_whole(SCHEDULE_PERIOD_H)).floored()
}

/// The period that an hour falls in.
pub fn period_at<N: Scalar>(hour: N) -> (r: CalendarPeriod)
    ensures
        r == CalendarPeriod(falls_in(hour)),
{
    CalendarPeriod(hour.div(N::whole(SCHEDULE_PERIOD_H)).floor())
}

/// How many periods an hour reaches into, held to the range.
pub open spec fn reached<N: Scalar>(hour: N) -> u32 {
    let count = hour.over(N::of_whole(SCHEDULE_PERIOD_H)).raised();
    if count > u32::MAX {
        u32::MAX
    } else {
        count as u32
    }
}

fn find_reached<N: Scalar>(hour: N) -> (r: u32)
    ensures
        r == reached(hour),
{
    let count: u64 = hour.div(N::whole(SCHEDULE_PERIOD_H)).ceil();
    if count > u32::MAX as u64 {
        u32::MAX
    } else {
        count as u32
    }
}

/// The last period that what ends at an hour touches.
pub open spec fn touches_last<N: Scalar>(end_h: N) -> u32 {
    if reached(end_h) == 0 {
        0
    } else {
        (reached(end_h) - 1) as u32
    }
}

/// The last period that what ends at an hour touches.
pub fn last_period_before<N: Scalar>(end_h: N) -> (r: CalendarPeriod)
    ensures
        r == CalendarPeriod(touches_last(end_h)),
{
    let count: u32 = find_reached(end_h);
    if count == 0 {
        CalendarPeriod(0)
    } else {
        CalendarPeriod(count - 1)
    }
}

impl<K: Key, N: Scalar> Stretch<K, N> {
    pub open spec fn first(self) -> u32 {
        falls_in(self.start_h)
    }

    pub open spec fn last(self) -> u32 {
        let last = touches_last(self.end_h);
        if last < self.first() {
            self.first()
        } else {
            last
        }
    }

    pub open spec fn duration(self) -> N {
        self.end_h.minus(self.start_h)
    }

    /// Nothing to count.
    pub open spec fn counts_nothing(self) -> bool {
        self.tonnes.same(N::of_whole(0)) || !self.tonnes.finite()
    }

    /// All in one period.
    pub open spec fn undivided(self) -> bool {
        self.duration().at_most(N::of_whole(0)) || self.first() == self.last()
    }

    /// The part that falls into a period: what the time in it is of the whole.
    pub open spec fn share(self, period: u32) -> N {
        let start = period_start::<N>(period);
        let end = period_start::<N>(period_after(period));
        let overlap = end.lower(self.end_h).minus(start.upper(self.start_h));
        self.tonnes.times(overlap).over(self.duration())
    }

    pub open spec fn share_part(self) -> spec_fn(int) -> Option<N> {
        |k: int| Some(self.share((self.first() + k) as u32))
    }

    /// What the first `n` periods are given.
    pub open spec fn assigned(self, n: nat) -> N {
        sum_to(n, self.share_part())
    }

    pub open spec fn share_step(self) -> spec_fn(Seq<(Pair<K, CalendarPeriod>, N)>, int) -> Seq<
        (Pair<K, CalendarPeriod>, N),
    > {
        |entries: Seq<(Pair<K, CalendarPeriod>, N)>, k: int|
            raised_by(
                entries,
                Pair(self.key, CalendarPeriod((self.first() + k) as u32)),
                self.share((self.first() + k) as u32),
            )
    }

    /// How many periods come before the last.
    pub open spec fn earlier(self) -> nat {
        (self.last() - self.first()) as nat
    }

    /// The entries with this stretch counted.
    pub open spec fn counted(self, entries: Seq<(Pair<K, CalendarPeriod>, N)>) -> Seq<(Pair<K, CalendarPeriod>, N)> {
        if self.counts_nothing() {
            entries
        } else if self.undivided() {
            raised_by(entries, Pair(self.key, CalendarPeriod(self.first())), self.tonnes)
        } else {
            raised_by(
                folded(self.earlier(), entries, self.share_step()),
                Pair(self.key, CalendarPeriod(self.last())),
                self.tonnes.minus(self.assigned(self.earlier())),
            )
        }
    }

    fn count(&self, entries: &mut Ledger<Pair<K, CalendarPeriod>, N>)
        ensures
            final(entries)@ == self.counted(old(entries)@),
    {
        if self.tonnes.is_same(N::whole(0)) || !self.tonnes.is_finite() {
            return;
        }
        let duration = self.end_h.sub(self.start_h);
        let first: u32 = period_at(self.start_h).0;
        let mut last: u32 = last_period_before(self.end_h).0;
        if last < first {
            last = first;
        }
        if duration.is_at_most(N::whole(0)) || first == last {
            entries.raise(Pair(self.key, CalendarPeriod(first)), self.tonnes);
            return;
        }
        let mut assigned = N::whole(0);
        let ghost start = entries@;
        let ghost step = self.share_step();
        for period in first..last
            invariant
                first == self.first(),
                last == self.last(),
                first <= last,
                duration == self.duration(),
                step == self.share_step(),
                entries@ == folded((period - first) as nat, start, step),
                assigned == self.assigned((period - first) as nat),
        {
            let begin = find_period_start::<N>(period);
            let end = find_period_start::<N>(find_period_after(period));
            let overlap = end.smaller(self.end_h).sub(begin.larger(self.start_h));
            let share = self.tonnes.mul(overlap).div(duration);
            assert((self.first() + (period - first)) as u32 == period);
            assigned = assigned.add(share);
            entries.raise(Pair(self.key, CalendarPeriod(period)), share);
        }
        entries.raise(Pair(self.key, CalendarPeriod(last)), self.tonnes.sub(assigned));
    }
}

pub open spec fn count_step<K: Key, N: Scalar>(stretches: Seq<Stretch<K, N>>) -> spec_fn(
    Seq<(Pair<K, CalendarPeriod>, N)>,
    int,
) -> Seq<(Pair<K, CalendarPeriod>, N)> {
    |entries: Seq<(Pair<K, CalendarPeriod>, N)>, i: int| stretches[i].counted(entries)
}

pub open spec fn nonzero<K: Key, N: Scalar>(entries: Seq<(Pair<K, CalendarPeriod>, N)>) -> spec_fn(int) -> Seq<
    (Pair<K, CalendarPeriod>, N),
> {
    |i: int|
        if entries[i].1.same(N::of_whole(0)) {
            Seq::empty()
        } else {
            seq![entries[i]]
        }
}

/// What all stretches come to, without the zeros.
pub open spec fn totals<K: Key, N: Scalar>(stretches: Seq<Stretch<K, N>>) -> Seq<(Pair<K, CalendarPeriod>, N)> {
    let all = folded(stretches.len(), Seq::empty(), count_step(stretches));
    flat(all.len(), nonzero(all))
}

fn find_totals<K: Key, N: Scalar>(stretches: &Vec<Stretch<K, N>>) -> (r: Ledger<Pair<K, CalendarPeriod>, N>)
    ensures
        r@ == totals(stretches@),
{
    let mut all: Ledger<Pair<K, CalendarPeriod>, N> = Ledger::new();
    let ghost step = count_step(stretches@);
    for i in 0..stretches.len()
        invariant
            step == count_step(stretches@),
            all@ == folded(i as nat, Seq::empty(), step),
    {
        stretches[i].count(&mut all);
    }
    let mut kept: Vec<(Pair<K, CalendarPeriod>, N)> = Vec::new();
    let ghost f = nonzero(all@);
    for i in 0..all.entries.len()
        invariant
            f == nonzero(all@),
            kept@ == flat(i as nat, f),
    {
        let entry = all.entries[i];
        if !entry.1.is_same(N::whole(0)) {
            kept.push(entry);
        }
        assert(kept@ =~= flat(i as nat, f) + f(i as int));
    }
    Ledger { entries: kept }
}

/// The hour that coverage ends at: finite and not below zero.
pub open spec fn coverage<N: Scalar>(end_h: N) -> N {
    if end_h.finite() {
        end_h.upper(N::of_whole(0))
    } else {
        N::of_whole(0)
    }
}

fn find_coverage<N: Scalar>(end_h: N) -> (r: N)
    ensures
        r == coverage(end_h),
{
    if end_h.is_finite() {
        end_h.larger(N::whole(0))
    } else {
        N::whole(0)
    }
}

/// A period starts before coverage ends.
pub open spec fn within<N: Scalar>(end_h: N, period: CalendarPeriod) -> bool {
    N::of_whole(0).below(end_h) && period_start::<N>(period.0).below(end_h)
}

fn is_within<N: Scalar>(end_h: N, period: CalendarPeriod) -> (r: bool)
    ensures
        r == within(end_h, period),
{
    N::whole(0).is_below(end_h) && find_period_start::<N>(period.0).is_below(end_h)
}

/// How many periods coverage reaches into.
pub open spec fn periods_within<N: Scalar>(end_h: N) -> u32 {
    if end_h.at_most(N::of_whole(0)) {
        0
    } else {
        reached(end_h)
    }
}

fn count_within<N: Scalar>(end_h: N) -> (r: u32)
    ensures
        r == periods_within(end_h),
{
    if end_h.is_at_most(N::whole(0)) {
        0
    } else {
        find_reached(end_h)
    }
}

/// Coverage ends inside a period.
pub open spec fn ends_inside<N: Scalar>(end_h: N, period: CalendarPeriod) -> bool {
    within(end_h, period) && end_h.below(period_start::<N>(period_after(period.0)))
}

fn does_end_inside<N: Scalar>(end_h: N, period: CalendarPeriod) -> (r: bool)
    ensures
        r == ends_inside(end_h, period),
{
    is_within(end_h, period) && end_h.is_below(find_period_start::<N>(find_period_after(period.0)))
}

/// What a schedule produces, by loader and period. A covered period without an
/// entry produced nothing; a period that is not covered is not spoken of.
#[derive(Clone, Debug)]
pub struct PeriodProduction<N> {
    pub coverage_end_h: N,
    pub tonnes: Ledger<Pair<LoaderAgentId, CalendarPeriod>, N>,
}

impl<N: Scalar> PeriodProduction<N> {
    /// Adds up what loaders did.
    pub fn aggregate(execution: &Vec<Stretch<LoaderAgentId, N>>, coverage_end_h: N) -> (r: Self)
        ensures
            r.coverage_end_h == coverage(coverage_end_h),
            r.tonnes@ == totals(execution@),
    {
        PeriodProduction { coverage_end_h: find_coverage(coverage_end_h), tonnes: find_totals(execution) }
    }

    pub fn coverage_end_h(&self) -> (r: N)
        ensures
            r == self.coverage_end_h,
    {
        self.coverage_end_h
    }

    /// How many periods are covered, whole or in part.
    pub fn covered_periods(&self) -> (r: u32)
        ensures
            r == periods_within(self.coverage_end_h),
    {
        count_within(self.coverage_end_h)
    }

    /// Whether a period is covered.
    pub fn covers(&self, period: CalendarPeriod) -> (r: bool)
        ensures
            r == within(self.coverage_end_h, period),
    {
        is_within(self.coverage_end_h, period)
    }

    /// Whether a period is covered in part only.
    pub fn is_partial(&self, period: CalendarPeriod) -> (r: bool)
        ensures
            r == ends_inside(self.coverage_end_h, period),
    {
        does_end_inside(self.coverage_end_h, period)
    }

    /// A loader's tonnes in a period; nothing where the period is not covered.
    pub fn tonnes(&self, agent: LoaderAgentId, period: CalendarPeriod) -> (r: Option<N>)
        ensures
            r == (if within(self.coverage_end_h, period) {
                Some(amount(self.tonnes@, Pair(agent, period)))
            } else {
                None
            }),
    {
        if self.covers(period) {
            Some(self.tonnes.amount(Pair(agent, period)))
        } else {
            None
        }
    }
}

/// What a schedule delivers, by destination and period.
#[derive(Clone, Debug)]
pub struct DestinationProduction<N> {
    pub coverage_end_h: N,
    pub received: Ledger<Pair<DestinationId, CalendarPeriod>, N>,
}

pub open spec fn received_part<N: Scalar>(
    entries: Seq<(Pair<DestinationId, CalendarPeriod>, N)>,
    destination: DestinationId,
    period: CalendarPeriod,
) -> spec_fn(int) -> Option<N> {
    |i: int|
        if entries[i].0.0 == destination && entries[i].0.1.0 <= period.0 {
            Some(entries[i].1)
        } else {
            None
        }
}

impl<N: Scalar> DestinationProduction<N> {
    /// Adds up what was delivered.
    pub fn aggregate(movements: &Vec<Stretch<DestinationId, N>>, coverage_end_h: N) -> (r: Self)
        ensures
            r.coverage_end_h == coverage(coverage_end_h),
            r.received@ == totals(movements@),
    {
        DestinationProduction { coverage_end_h: find_coverage(coverage_end_h), received: find_totals(movements) }
    }

    pub fn coverage_end_h(&self) -> (r: N)
        ensures
            r == self.coverage_end_h,
    {
        self.coverage_end_h
    }

    /// How many periods are covered, whole or in part.
    pub fn covered_periods(&self) -> (r: u32)
        ensures
            r == periods_within(self.coverage_end_h),
    {
        count_within(self.coverage_end_h)
    }

    /// Whether a period is covered.
    pub fn covers(&self, period: CalendarPeriod) -> (r: bool)
        ensures
            r == within(self.coverage_end_h, period),
    {
        is_within(self.coverage_end_h, period)
    }

    /// Whether a period is covered in part only.
    pub fn is_partial(&self, period: CalendarPeriod) -> (r: bool)
        ensures
            r == ends_inside(self.coverage_end_h, period),
    {
        does_end_inside(self.coverage_end_h, period)
    }

    /// What a destination received in a period; nothing where the period is not
    /// covered.
    pub fn received(&self, destination: DestinationId, period: CalendarPeriod) -> (r: Option<N>)
        ensures
            r == (if within(self.coverage_end_h, period) {
                Some(amount(self.received@, Pair(destination, period)))
            } else {
                None
            }),
    {
        if self.covers(period) {
            Some(self.received.amount(Pair(destination, period)))
        } else {
            None
        }
    }

    /// What a destination received up to the end of a period.
    pub fn cumulative(&self, destination: DestinationId, period: CalendarPeriod) -> (r: Option<N>)
        ensures
            r == (if within(self.coverage_end_h, period) {
                Some(sum_to(self.received@.len(), received_part(self.received@, destination, period)))
            } else {
                None
            }),
    {
        if !self.covers(period) {
            return None;
        }
        let mut total = N::whole(0);
        let ghost f = received_part(self.received@, destination, period);
        for i in 0..self.received.entries.len()
            invariant
                f == received_part(self.received@, destination, period),
                total == sum_to(i as nat, f),
        {
            let entry = self.received.entries[i];
            if entry.0.0 == destination && entry.0.1.0 <= period.0 {
                total = total.add(entry.1);
            }
        }
        Some(total)
    }
}

/// A stretch that is split comes to its whole again: what the earlier periods
/// are given and what is left for the last make the tonnes, as long as the
/// numbers stay in range.
pub proof fn split_keeps_total<K: Key>(stretch: Stretch<K, Fixed>)
    requires
        !stretch.undivided(),
        i64::MIN < stretch.tonnes.0 - stretch.assigned(stretch.earlier()).0 < i64::MAX,
    ensures
        stretch.assigned(stretch.earlier()).plus(stretch.tonnes.minus(stretch.assigned(stretch.earlier())))
            == stretch.tonnes,
{
}

/// What a key has in all periods together, in billionths.
pub open spec fn under<K: Key>(entries: Seq<(Pair<K, CalendarPeriod>, Fixed)>, key: K, n: nat) -> int
    decreases n,
{
    if n == 0 {
        0
    } else {
        under(entries, key, (n - 1) as nat) + (if entries[n - 1].0.0 == key {
            entries[n - 1].1.0 as int
        } else {
            0
        })
    }
}

/// What the stretches of a key come to, in billionths.
pub open spec fn moved_by<K: Key>(stretches: Seq<Stretch<K, Fixed>>, key: K, n: nat) -> int
    decreases n,
{
    if n == 0 {
        0
    } else {
        moved_by(stretches, key, (n - 1) as nat) + (if stretches[n - 1].key == key && !stretches[n - 1].counts_nothing() {
            stretches[n - 1].tonnes.0 as int
        } else {
            0
        })
    }
}

/// A sum stays in range.
pub open spec fn sums(a: Fixed, b: Fixed) -> bool {
    i64::MIN <= a.0 + b.0 <= i64::MAX
}

impl<K: Key> Stretch<K, Fixed> {
    pub open spec fn period_key(self, k: int) -> Pair<K, CalendarPeriod> {
        Pair(self.key, CalendarPeriod((self.first() + k) as u32))
    }

    /// Every sum that counting this stretch takes stays in range.
    pub open spec fn countable(self, entries: Seq<(Pair<K, CalendarPeriod>, Fixed)>) -> bool {
        let split = folded(self.earlier(), entries, self.share_step());
        let rest = self.tonnes.minus(self.assigned(self.earlier()));
        if self.undivided() {
            sums(amount(entries, Pair(self.key, CalendarPeriod(self.first()))), self.tonnes)
        } else {
            &&& forall|k: int|
                #![trigger self.period_key(k)]
                0 <= k < self.earlier() ==> sums(
                    amount(folded(k as nat, entries, self.share_step()), self.period_key(k)),
                    self.share((self.first() + k) as u32),
                ) && sums(self.assigned(k as nat), self.share((self.first() + k) as u32))
            &&& i64::MIN <= self.tonnes.0 - self.assigned(self.earlier()).0 <= i64::MAX
            &&& sums(amount(split, Pair(self.key, CalendarPeriod(self.last()))), rest)
        }
    }

    proof fn shares_counted(self, entries: Seq<(Pair<K, CalendarPeriod>, Fixed)>, key: K, n: nat)
        requires
            !self.undivided(),
            self.countable(entries),
            n <= self.earlier(),
        ensures
            ({
                let now = folded(n, entries, self.share_step());
                under(now, key, now.len()) == under(entries, key, entries.len()) + (if self.key == key {
                    self.assigned(n).0 as int
                } else {
                    0
                })
            }),
        decreases n,
    {
        if n > 0 {
            let m = (n - 1) as nat;
            self.shares_counted(entries, key, m);
            let before = folded(m, entries, self.share_step());
            let share = self.share((self.first() + m) as u32);
            assert(sums(amount(before, self.period_key(m as int)), share));
            assert(sums(self.assigned(m), share));
            raised_counts(before, self.period_key(m as int), share, key);
            assert(self.assigned(n) == self.assigned(m).plus(share));
        }
    }

    proof fn stretch_counted(self, entries: Seq<(Pair<K, CalendarPeriod>, Fixed)>, key: K)
        requires
            self.counts_nothing() || self.countable(entries),
        ensures
            under(self.counted(entries), key, self.counted(entries).len()) == under(entries, key, entries.len()) + (
            if self.key == key && !self.counts_nothing() {
                self.tonnes.0 as int
            } else {
                0
            }),
    {
        if !self.counts_nothing() {
            if self.undivided() {
                raised_counts(entries, Pair(self.key, CalendarPeriod(self.first())), self.tonnes, key);
            } else {
                let n = self.earlier();
                self.shares_counted(entries, key, n);
                let split = folded(n, entries, self.share_step());
                let rest = self.tonnes.minus(self.assigned(n));
                raised_counts(split, Pair(self.key, CalendarPeriod(self.last())), rest, key);
            }
        }
    }
}

proof fn update_counts<K: Key>(
    entries: Seq<(Pair<K, CalendarPeriod>, Fixed)>,
    at: int,
    entry: (Pair<K, CalendarPeriod>, Fixed),
    key: K,
    n: nat,
)
    requires
        0 <= at < entries.len(),
        entries[at].0 == entry.0,
        n <= entries.len(),
    ensures
        under(entries.update(at, entry), key, n) == under(entries, key, n) + (if at < n && entry.0.0 == key {
            entry.1.0 - entries[at].1.0
        } else {
            0
        }),
    decreases n,
{
    if n > 0 {
        update_counts(entries, at, entry, key, (n - 1) as nat);
    }
}

proof fn insert_counts<K: Key>(
    entries: Seq<(Pair<K, CalendarPeriod>, Fixed)>,
    at: int,
    entry: (Pair<K, CalendarPeriod>, Fixed),
    key: K,
    n: nat,
)
    requires
        0 <= at <= entries.len(),
        n <= entries.len() + 1,
    ensures
        n <= at ==> under(entries.insert(at, entry), key, n) == under(entries, key, n),
        n > at ==> under(entries.insert(at, entry), key, n) == under(entries, key, (n - 1) as nat) + (if entry.0.0 == key {
            entry.1.0 as int
        } else {
            0
        }),
    decreases n,
{
    if n > 0 {
        insert_counts(entries, at, entry, key, (n - 1) as nat);
        let after = entries.insert(at, entry);
        if n - 1 < at {
            assert(after[n - 1] == entries[n - 1]);
        } else if n - 1 == at {
            assert(after[n - 1] == entry);
        } else {
            assert(after[n - 1] == entries[n - 2]);
        }
    }
}

proof fn raised_counts<K: Key>(
    entries: Seq<(Pair<K, CalendarPeriod>, Fixed)>,
    at: Pair<K, CalendarPeriod>,
    more: Fixed,
    key: K,
)
    requires
        sums(amount(entries, at), more),
    ensures
        under(raised_by(entries, at, more), key, raised_by(entries, at, more).len()) == under(
            entries,
            key,
            entries.len(),
        ) + (if at.0 == key {
            more.0 as int
        } else {
            0
        }),
{
    let value = amount(entries, at).plus(more);
    assert(value.0 == amount(entries, at).0 + more.0);
    let k = crate::ledger::rank(entries, at);
    crate::ledger::rank_splits(entries, at, 0);
    if k < entries.len() && entries[k].0 == at {
        update_counts(entries, k, (at, value), key, entries.len());
    } else {
        insert_counts(entries, k, (at, value), key, (entries.len() + 1) as nat);
    }
}

proof fn nonzero_counts<K: Key>(entries: Seq<(Pair<K, CalendarPeriod>, Fixed)>, key: K, n: nat)
    requires
        n <= entries.len(),
    ensures
        under(flat(n, nonzero(entries)), key, flat(n, nonzero(entries)).len()) == under(entries, key, n),
    decreases n,
{
    if n > 0 {
        let m = (n - 1) as nat;
        nonzero_counts(entries, key, m);
        let (before, now) = (flat(m, nonzero(entries)), flat(n, nonzero(entries)));
        assert(now == before + nonzero(entries)(n - 1));
        if entries[n - 1].1.same(Fixed::of_whole(0)) {
            assert(now =~= before);
        } else {
            assert(now =~= before.push(entries[n - 1]));
            insert_counts(before, before.len() as int, entries[n - 1], key, now.len());
            assert(before.insert(before.len() as int, entries[n - 1]) =~= now);
        }
    }
}

proof fn steps_counted<K: Key>(stretches: Seq<Stretch<K, Fixed>>, key: K, n: nat)
    requires
        n <= stretches.len(),
        forall|i: int|
            0 <= i < stretches.len() ==> (#[trigger] stretches[i]).counts_nothing() || stretches[i].countable(
                folded(i as nat, Seq::empty(), count_step(stretches)),
            ),
    ensures
        ({
            let now = folded(n, Seq::empty(), count_step(stretches));
            under(now, key, now.len()) == moved_by(stretches, key, n)
        }),
    decreases n,
{
    if n > 0 {
        let m = (n - 1) as nat;
        steps_counted(stretches, key, m);
        stretches[m as int].stretch_counted(folded(m, Seq::empty(), count_step(stretches)), key);
    }
}

/// Over all periods, what a key is given is what its stretches come to, as long
/// as no sum leaves the range.
pub proof fn totals_add_up<K: Key>(stretches: Seq<Stretch<K, Fixed>>, key: K)
    requires
        forall|i: int|
            0 <= i < stretches.len() ==> (#[trigger] stretches[i]).counts_nothing() || stretches[i].countable(
                folded(i as nat, Seq::empty(), count_step(stretches)),
            ),
    ensures
        under(totals(stretches), key, totals(stretches).len()) == moved_by(stretches, key, stretches.len()),
{
    steps_counted(stretches, key, stretches.len());
    let all = folded(stretches.len(), Seq::empty(), count_step(stretches));
    nonzero_counts(all, key, all.len());
}

} // verus!
