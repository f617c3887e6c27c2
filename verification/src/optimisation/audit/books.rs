//! What the books of an audit say, told of the rows that came before.
use vstd::prelude::*;

use crate::ledger::{amount, held_under, paired, put_reads_back, rising, Pair};
use crate::listing::{arrangement_holds, keyed, keyed_finds, strict_order};
use crate::optimisation::audit::totals::Audit;
use crate::optimisation::audit::walk::{arrive, draw, opening_piles, untouched, WalkState};
use crate::optimisation::ids::{DestinationKind, GroundId, SourceId, StockpileId};
use crate::optimisation::input::opening_total;
use crate::optimisation::points::{summed, summed_same};
use crate::optimisation::result::{HeldUnit, InventoryUnit, ReceiptParcel, ReclaimRecord};
use crate::periods::raised_amount;
use crate::scalar::{size, Fixed, Scalar};

verus! {

/// Values that differ in one place have sums that differ by as much.
proof fn changed_at(n: nat, f: spec_fn(int) -> int, g: spec_fn(int) -> int, at: int)
    requires
        0 <= at < n,
        forall|k: int| 0 <= k < n && k != at ==> #[trigger] f(k) == g(k),
    ensures
        summed(n, g) == summed(n, f) + g(at) - f(at),
    decreases n,
{
    if at < n - 1 {
        changed_at((n - 1) as nat, f, g, at);
        assert(f(n - 1) == g(n - 1));
    } else {
        summed_same((n - 1) as nat, f, g);
    }
}

/// A sum is within what the sizes of its values sum up to.
proof fn sum_within(n: nat, f: spec_fn(int) -> int, most: spec_fn(int) -> int)
    requires
        forall|k: int| 0 <= k < n ==> size(#[trigger] f(k)) <= most(k),
    ensures
        size(summed(n, f)) <= summed(n, most),
    decreases n,
{
    if n > 0 {
        sum_within((n - 1) as nat, f, most);
        assert(size(f(n - 1)) <= most(n - 1));
    }
}

proof fn pairs_differ(a: u32, b: u32, c: u32, d: u32)
    ensures
        paired(a, b) == paired(c, d) <==> a == c && b == d,
{
}

impl<'a> Audit<'a, Fixed> {
    /// A row of this interval and segment comes before segment `s` of interval
    /// `i`.
    pub open spec fn comes_before(self, interval: usize, segment: usize, i: int, s: int) -> bool {
        ||| interval < i && segment < self.segment_count(interval as int)
        ||| interval == i && segment < s
    }

    /// So far into a segment, or before it.
    spec fn comes_so_far(self, interval: usize, segment: usize, k: int, i: int, s: int, n: nat) -> bool {
        self.comes_before(interval, segment, i, s) || (interval == i && segment == s && k < n)
    }

    // What each row gives to a book.

    /// What each activity digs of a block before a segment.
    pub open spec fn dug_before(self, ground: GroundId, i: int, s: int) -> spec_fn(int) -> int {
        |k: int|
            {
                let row = self.result.activities@[k];
                if row.activity is Dig && row.source == SourceId::Ground(ground) && self.comes_before(
                    row.interval,
                    row.segment,
                    i,
                    s,
                ) {
                    row.tonnes_t.0 as int
                } else {
                    0
                }
            }
    }

    spec fn dug_so_far(self, ground: GroundId, i: int, s: int, n: nat) -> spec_fn(int) -> int {
        |k: int|
            {
                let row = self.result.activities@[k];
                if row.activity is Dig && row.source == SourceId::Ground(ground) && self.comes_so_far(
                    row.interval,
                    row.segment,
                    k,
                    i,
                    s,
                    n,
                ) {
                    row.tonnes_t.0 as int
                } else {
                    0
                }
            }
    }

    /// A movement ends at a crusher in an interval that starts on a day.
    pub open spec fn is_crushed(self, m: int, crusher: u32, day: u32) -> bool {
        let row = self.result.movements@[m];
        &&& row.destination.0 == crusher
        &&& keyed(self.input.destinations@, crusher) matches Some(d) && self.input.destinations@[d].kind is Crusher
        &&& self.input.intervals@[row.interval as int].start_h.over(Fixed::of_whole(24)).floored() == day
    }

    /// A movement ends at a dump.
    pub open spec fn is_dumped(self, m: int, dump: u32) -> bool {
        &&& self.result.movements@[m].destination.0 == dump
        &&& keyed(self.input.destinations@, dump) matches Some(d) && self.input.destinations@[d].kind is Dump
    }

    /// A movement ends on a pile.
    pub open spec fn is_piled(self, m: int, pile: u32) -> bool {
        keyed(self.input.destinations@, self.result.movements@[m].destination.0) matches Some(d)
            && self.input.destinations@[d].kind == DestinationKind::Stockpile(StockpileId(pile))
    }

    /// What each movement brings before a segment, of those that are chosen.
    pub open spec fn brought_before(self, chosen: spec_fn(int) -> bool, i: int, s: int) -> spec_fn(int) -> int {
        |m: int|
            {
                let row = self.result.movements@[m];
                if chosen(m) && self.comes_before(row.interval, row.segment, i, s) {
                    row.tonnes_t.0 as int
                } else {
                    0
                }
            }
    }

    spec fn brought_so_far(self, chosen: spec_fn(int) -> bool, i: int, s: int, n: nat) -> spec_fn(int) -> int {
        |m: int|
            {
                let row = self.result.movements@[m];
                if chosen(m) && self.comes_so_far(row.interval, row.segment, m, i, s, n) {
                    row.tonnes_t.0 as int
                } else {
                    0
                }
            }
    }

    /// What each reclaim takes from a pile before a segment.
    pub open spec fn taken_before(self, pile: u32, i: int, s: int) -> spec_fn(int) -> int {
        |k: int|
            {
                let row = self.result.reclaims@[k];
                if row.stockpile.0 == pile && self.comes_before(row.interval, row.segment, i, s) {
                    row.tonnes_t.0 as int
                } else {
                    0
                }
            }
    }

    spec fn taken_so_far(self, pile: u32, i: int, s: int, n: nat) -> spec_fn(int) -> int {
        |k: int|
            {
                let row = self.result.reclaims@[k];
                if row.stockpile.0 == pile && self.comes_so_far(row.interval, row.segment, k, i, s, n) {
                    row.tonnes_t.0 as int
                } else {
                    0
                }
            }
    }

    pub open spec fn crushed(self, crusher: u32, day: u32) -> spec_fn(int) -> bool {
        |m: int| self.is_crushed(m, crusher, day)
    }

    pub open spec fn dumped(self, dump: u32) -> spec_fn(int) -> bool {
        |m: int| self.is_dumped(m, dump)
    }

    pub open spec fn piled(self, pile: u32) -> spec_fn(int) -> bool {
        |m: int| self.is_piled(m, pile)
    }

    // Sizes.

    pub open spec fn activity_size(self) -> spec_fn(int) -> int {
        |k: int| size(self.result.activities@[k].tonnes_t.0 as int)
    }

    pub open spec fn movement_size(self) -> spec_fn(int) -> int {
        |m: int| size(self.result.movements@[m].tonnes_t.0 as int)
    }

    pub open spec fn reclaim_size(self) -> spec_fn(int) -> int {
        |k: int| size(self.result.reclaims@[k].tonnes_t.0 as int)
    }

    /// Intervals are numbered in order, and all that is dug, moved, reclaimed and
    /// held at the start stays in range.
    pub open spec fn countable(self, pile: u32) -> bool {
        &&& forall|i: int| 0 <= i < self.input.intervals@.len() ==> (#[trigger] self.input.intervals@[i]).index == i
        &&& summed(self.result.activities@.len(), self.activity_size()) <= i64::MAX
        &&& size(amount(opening_piles(self.input.stockpiles@, self.input.stockpiles@.len()), pile as u64).0 as int)
            + summed(self.result.movements@.len(), self.movement_size()) + summed(
            self.result.reclaims@.len(),
            self.reclaim_size(),
        ) <= i64::MAX
    }

    spec fn base(self, pile: u32) -> int {
        amount(opening_piles(self.input.stockpiles@, self.input.stockpiles@.len()), pile as u64).0 as int
    }

    proof fn sums_in_range(self, block: GroundId, chosen: spec_fn(int) -> bool, pile: u32, i: int, s: int, n: nat)
        ensures
            size(summed(self.result.activities@.len(), self.dug_so_far(block, i, s, n))) <= summed(
                self.result.activities@.len(),
                self.activity_size(),
            ),
            size(summed(self.result.movements@.len(), self.brought_so_far(chosen, i, s, n))) <= summed(
                self.result.movements@.len(),
                self.movement_size(),
            ),
            size(summed(self.result.reclaims@.len(), self.taken_so_far(pile, i, s, n))) <= summed(
                self.result.reclaims@.len(),
                self.reclaim_size(),
            ),
    {
        sum_within(self.result.activities@.len(), self.dug_so_far(block, i, s, n), self.activity_size());
        sum_within(self.result.movements@.len(), self.brought_so_far(chosen, i, s, n), self.movement_size());
        sum_within(self.result.reclaims@.len(), self.taken_so_far(pile, i, s, n), self.reclaim_size());
    }

    // One segment.

    proof fn digging(self, ground: Seq<(u64, Fixed)>, block: GroundId, i: int, s: int, n: nat)
        requires
            n <= self.result.activities@.len(),
            0 <= i < self.input.intervals@.len(),
            self.input.intervals@[i].index == i,
            summed(self.result.activities@.len(), self.activity_size()) <= i64::MAX,
            rising(ground),
            held_under(ground, block.0 as u64) is Some,
            amount(ground, block.0 as u64).0 == summed(self.result.activities@.len(), self.dug_so_far(block, i, s, 0)),
        ensures
            ({
                let now = self.dug_to(ground, i, s, n);
                &&& rising(now)
                &&& held_under(now, block.0 as u64) is Some
                &&& amount(now, block.0 as u64).0 == summed(
                    self.result.activities@.len(),
                    self.dug_so_far(block, i, s, n),
                )
            }),
        decreases n,
    {
        if n > 0 {
            let m = (n - 1) as nat;
            self.digging(ground, block, i, s, m);
            let before = self.dug_to(ground, i, s, m);
            let row = self.result.activities@[m as int];
            let (f, g) = (self.dug_so_far(block, i, s, m), self.dug_so_far(block, i, s, n));
            changed_at(self.result.activities@.len(), f, g, m as int);
            self.sums_in_range(block, |x: int| true, 0, i, s, n);
            if row.interval == i && row.segment == s && row.activity is Dig {
                if let SourceId::Ground(id) = row.source {
                    if let Some(held) = held_under(before, id.0 as u64) {
                        put_reads_back(before, id.0 as u64, held.plus(row.tonnes_t), block.0 as u64);
                    }
                }
            }
        }
    }

    proof fn receiving(
        self,
        state: WalkState<Fixed>,
        crusher: u32,
        day: u32,
        dump: u32,
        pile: u32,
        i: int,
        s: int,
        n: nat,
    )
        requires
            n <= self.result.movements@.len(),
            0 <= i < self.input.intervals@.len(),
            self.countable(pile),
            rising(state.crusher),
            rising(state.dump),
            rising(state.piles),
            amount(state.crusher, paired(crusher, day)).0 == summed(
                self.result.movements@.len(),
                self.brought_so_far(self.crushed(crusher, day), i, s, 0),
            ),
            amount(state.dump, dump as u64).0 == summed(
                self.result.movements@.len(),
                self.brought_so_far(self.dumped(dump), i, s, 0),
            ),
            amount(state.piles, pile as u64).0 == self.base(pile) + summed(
                self.result.movements@.len(),
                self.brought_so_far(self.piled(pile), i, s, 0),
            ) - summed(self.result.reclaims@.len(), self.taken_so_far(pile, i, s, 0)),
        ensures
            ({
                let now = self.received_to(state, i, s, n);
                &&& now.ground == state.ground
                &&& now.released == state.released
                &&& now.units == state.units
                &&& rising(now.crusher)
                &&& rising(now.dump)
                &&& rising(now.piles)
                &&& amount(now.crusher, paired(crusher, day)).0 == summed(
                    self.result.movements@.len(),
                    self.brought_so_far(self.crushed(crusher, day), i, s, n),
                )
                &&& amount(now.dump, dump as u64).0 == summed(
                    self.result.movements@.len(),
                    self.brought_so_far(self.dumped(dump), i, s, n),
                )
                &&& amount(now.piles, pile as u64).0 == self.base(pile) + summed(
                    self.result.movements@.len(),
                    self.brought_so_far(self.piled(pile), i, s, n),
                ) - summed(self.result.reclaims@.len(), self.taken_so_far(pile, i, s, 0))
            }),
        decreases n,
    {
        if n > 0 {
            let m = (n - 1) as nat;
            self.receiving(state, crusher, day, dump, pile, i, s, m);
            let before = self.received_to(state, i, s, m);
            let all = self.result.movements@.len();
            let row = self.result.movements@[m as int];
            let (to_crusher, to_dump, to_pile) = (self.crushed(crusher, day), self.dumped(dump), self.piled(pile));
            changed_at(
                all,
                self.brought_so_far(to_crusher, i, s, m),
                self.brought_so_far(to_crusher, i, s, n),
                m as int,
            );
            changed_at(all, self.brought_so_far(to_dump, i, s, m), self.brought_so_far(to_dump, i, s, n), m as int);
            changed_at(all, self.brought_so_far(to_pile, i, s, m), self.brought_so_far(to_pile, i, s, n), m as int);
            self.sums_in_range(GroundId(0), to_crusher, pile, i, s, n);
            self.sums_in_range(GroundId(0), to_dump, pile, i, s, n);
            self.sums_in_range(GroundId(0), to_pile, pile, i, s, n);
            self.sums_in_range(GroundId(0), to_pile, pile, i, s, 0);
            assert(self.input.intervals@[i].index == i);
            if row.interval == i && row.segment == s {
                keyed_finds(self.input.destinations@, row.destination.0, 0);
                if let Some(d) = keyed(self.input.destinations@, row.destination.0) {
                    let destination = self.input.destinations@[d];
                    let today = self.input.intervals@[i].calendar_day();
                    assert(destination.id.0 == row.destination.0);
                    pairs_differ(destination.id.0, today, crusher, day);
                    match destination.kind {
                        DestinationKind::Crusher => raised_amount(
                            before.crusher,
                            paired(destination.id.0, today),
                            row.tonnes_t,
                            paired(crusher, day),
                        ),
                        DestinationKind::Dump => raised_amount(
                            before.dump,
                            destination.id.0 as u64,
                            row.tonnes_t,
                            dump as u64,
                        ),
                        DestinationKind::Stockpile(other) => raised_amount(
                            before.piles,
                            other.0 as u64,
                            row.tonnes_t,
                            pile as u64,
                        ),
                    }
                }
            }
        }
    }

    proof fn reclaiming(self, piles: Seq<(u64, Fixed)>, pile: u32, brought: int, i: int, s: int, n: nat)
        requires
            n <= self.result.reclaims@.len(),
            0 <= i < self.input.intervals@.len(),
            self.countable(pile),
            size(brought) <= summed(self.result.movements@.len(), self.movement_size()),
            rising(piles),
            amount(piles, pile as u64).0 == self.base(pile) + brought - summed(
                self.result.reclaims@.len(),
                self.taken_so_far(pile, i, s, 0),
            ),
        ensures
            ({
                let now = self.reclaimed_to(piles, i, s, n);
                &&& rising(now)
                &&& amount(now, pile as u64).0 == self.base(pile) + brought - summed(
                    self.result.reclaims@.len(),
                    self.taken_so_far(pile, i, s, n),
                )
            }),
        decreases n,
    {
        if n > 0 {
            let m = (n - 1) as nat;
            self.reclaiming(piles, pile, brought, i, s, m);
            let before = self.reclaimed_to(piles, i, s, m);
            let row = self.result.reclaims@[m as int];
            let key = row.stockpile.0 as u64;
            changed_at(
                self.result.reclaims@.len(),
                self.taken_so_far(pile, i, s, m),
                self.taken_so_far(pile, i, s, n),
                m as int,
            );
            self.sums_in_range(GroundId(0), |x: int| true, pile, i, s, n);
            assert(self.input.intervals@[i].index == i);
            put_reads_back(before, key, amount(before, key).minus(row.tonnes_t), pile as u64);
        }
    }

    proof fn arrivals_keep(self, state: WalkState<Fixed>, i: int, j: int, n: nat)
        ensures
            ({
                let now = self.arrived(state, i, j, n);
                now.ground == state.ground && now.crusher == state.crusher && now.dump == state.dump && now.piles
                    == state.piles
            }),
        decreases n,
    {
        if n > 0 {
            self.arrivals_keep(state, i, j, (n - 1) as nat);
        }
    }

    proof fn releases_keep(self, state: WalkState<Fixed>, i: int, n: nat)
        ensures
            ({
                let now = self.released_to(state, i, n);
                now.ground == state.ground && now.crusher == state.crusher && now.dump == state.dump && now.piles
                    == state.piles
            }),
        decreases n,
    {
        if n > 0 {
            self.releases_keep(state, i, (n - 1) as nat);
            self.arrivals_keep(
                self.released_to(state, i, (n - 1) as nat),
                i,
                n - 1,
                self.arrivals(i, n - 1).len(),
            );
        }
    }

    // The walk.

    spec fn kept_up(self, state: WalkState<Fixed>, g: int, crusher: u32, day: u32, dump: u32, pile: u32, i: int, s: int) -> bool {
        let block = self.input.ground@[g].id;
        &&& rising(state.ground)
        &&& rising(state.crusher)
        &&& rising(state.dump)
        &&& rising(state.piles)
        &&& held_under(state.ground, block.0 as u64) is Some
        &&& amount(state.ground, block.0 as u64).0 == summed(
            self.result.activities@.len(),
            self.dug_so_far(block, i, s, 0),
        )
        &&& amount(state.crusher, paired(crusher, day)).0 == summed(
            self.result.movements@.len(),
            self.brought_so_far(self.crushed(crusher, day), i, s, 0),
        )
        &&& amount(state.dump, dump as u64).0 == summed(
            self.result.movements@.len(),
            self.brought_so_far(self.dumped(dump), i, s, 0),
        )
        &&& amount(state.piles, pile as u64).0 == self.base(pile) + summed(
            self.result.movements@.len(),
            self.brought_so_far(self.piled(pile), i, s, 0),
        ) - summed(self.result.reclaims@.len(), self.taken_so_far(pile, i, s, 0))
    }

    proof fn untouched_holds(self, g: int, n: nat)
        requires
            n <= self.input.ground@.len(),
        ensures
            rising(untouched(self.input.ground@, n)),
            0 <= g < n ==> held_under(untouched(self.input.ground@, n), self.input.ground@[g].id.0 as u64) == Some(
                Fixed(0),
            ),
        decreases n,
    {
        if n > 0 {
            let m = (n - 1) as nat;
            self.untouched_holds(g, m);
            put_reads_back(
                untouched(self.input.ground@, m),
                self.input.ground@[m as int].id.0 as u64,
                Fixed::of_whole(0),
                self.input.ground@[g].id.0 as u64,
            );
        }
    }

    proof fn openings_rise(self, n: nat)
        requires
            n <= self.input.stockpiles@.len(),
        ensures
            rising(opening_piles(self.input.stockpiles@, n)),
        decreases n,
    {
        if n > 0 {
            let m = (n - 1) as nat;
            self.openings_rise(m);
            let pile = self.input.stockpiles@[m as int];
            put_reads_back(
                opening_piles(self.input.stockpiles@, m),
                pile.id.0 as u64,
                opening_total(pile.opening@),
                0u64,
            );
        }
    }

    proof fn segment_kept_up(
        self,
        state: WalkState<Fixed>,
        g: int,
        crusher: u32,
        day: u32,
        dump: u32,
        pile: u32,
        i: int,
        s: int,
    )
        requires
            self.countable(pile),
            0 <= g < self.input.ground@.len(),
            0 <= i < self.input.intervals@.len(),
            0 <= s,
            self.kept_up(state, g, crusher, day, dump, pile, i, s),
        ensures
            self.kept_up(self.after_segment(state, i, s), g, crusher, day, dump, pile, i, s + 1),
    {
        let block = self.input.ground@[g].id;
        assert(self.input.intervals@[i].index == i);
        let (a, m, r) = (
            self.result.activities@.len(),
            self.result.movements@.len(),
            self.result.reclaims@.len(),
        );
        let drawn = WalkState {
            units: self.drawn_to(state.units, i, s, self.input.stockpiles@.len()),
            ground: self.dug_to(state.ground, i, s, a),
            ..state
        };
        self.digging(state.ground, block, i, s, a);
        self.receiving(drawn, crusher, day, dump, pile, i, s, m);
        let received = self.received_to(drawn, i, s, m);
        let brought = summed(m, self.brought_so_far(self.piled(pile), i, s, m));
        self.sums_in_range(block, self.piled(pile), pile, i, s, m);
        self.reclaiming(received.piles, pile, brought, i, s, r);
        summed_same(a, self.dug_so_far(block, i, s, a), self.dug_so_far(block, i, s + 1, 0));
        summed_same(
            m,
            self.brought_so_far(self.crushed(crusher, day), i, s, m),
            self.brought_so_far(self.crushed(crusher, day), i, s + 1, 0),
        );
        summed_same(
            m,
            self.brought_so_far(self.dumped(dump), i, s, m),
            self.brought_so_far(self.dumped(dump), i, s + 1, 0),
        );
        summed_same(
            m,
            self.brought_so_far(self.piled(pile), i, s, m),
            self.brought_so_far(self.piled(pile), i, s + 1, 0),
        );
        summed_same(r, self.taken_so_far(pile, i, s, r), self.taken_so_far(pile, i, s + 1, 0));
    }

    proof fn books_kept_up(self, g: int, crusher: u32, day: u32, dump: u32, pile: u32, i: int, s: int)
        requires
            self.countable(pile),
            0 <= g < self.input.ground@.len(),
            0 <= i < self.input.intervals@.len(),
            0 <= s,
        ensures
            self.kept_up(self.books_at(i, s), g, crusher, day, dump, pile, i, s),
        decreases i, s,
    {
        let block = self.input.ground@[g].id;
        let (a, m, r) = (
            self.result.activities@.len(),
            self.result.movements@.len(),
            self.result.reclaims@.len(),
        );
        if s > 0 {
            self.books_kept_up(g, crusher, day, dump, pile, i, s - 1);
            self.segment_kept_up(self.books_at(i, s - 1), g, crusher, day, dump, pile, i, s - 1);
        } else {
            self.releases_keep(self.walk_at(i as nat), i, self.input.stockpiles@.len());
            if i > 0 {
                let last = self.segment_count(i - 1) as int;
                assert(self.input.intervals@[i - 1].index == i - 1);
                self.books_kept_up(g, crusher, day, dump, pile, i - 1, last);
                assert(self.walk_at(i as nat) == self.books_at(i - 1, last));
                summed_same(a, self.dug_so_far(block, i - 1, last, 0), self.dug_so_far(block, i, 0, 0));
                summed_same(
                    m,
                    self.brought_so_far(self.crushed(crusher, day), i - 1, last, 0),
                    self.brought_so_far(self.crushed(crusher, day), i, 0, 0),
                );
                summed_same(
                    m,
                    self.brought_so_far(self.dumped(dump), i - 1, last, 0),
                    self.brought_so_far(self.dumped(dump), i, 0, 0),
                );
                summed_same(
                    m,
                    self.brought_so_far(self.piled(pile), i - 1, last, 0),
                    self.brought_so_far(self.piled(pile), i, 0, 0),
                );
                summed_same(r, self.taken_so_far(pile, i - 1, last, 0), self.taken_so_far(pile, i, 0, 0));
            } else {
                let none = |k: int| 0int;
                self.untouched_holds(g, self.input.ground@.len());
                self.openings_rise(self.input.stockpiles@.len());
                sum_within(a, self.dug_so_far(block, 0, 0, 0), none);
                sum_within(m, self.brought_so_far(self.crushed(crusher, day), 0, 0, 0), none);
                sum_within(m, self.brought_so_far(self.dumped(dump), 0, 0, 0), none);
                sum_within(m, self.brought_so_far(self.piled(pile), 0, 0, 0), none);
                sum_within(r, self.taken_so_far(pile, 0, 0, 0), none);
                no_sum(a, none);
                no_sum(m, none);
                no_sum(r, none);
            }
        }
    }

    /// The books before a segment say what the rows before it add up to: of a
    /// block, what was dug of it; of a crusher and a day, what was brought there
    /// in intervals that start on the day; of a dump, what was brought there; and
    /// of a pile, what it held at the start, with what was brought there and
    /// without what was reclaimed.
    pub proof fn books_add_up(self, g: int, crusher: u32, day: u32, dump: u32, pile: u32, i: int, s: int)
        requires
            self.countable(pile),
            0 <= g < self.input.ground@.len(),
            0 <= i < self.input.intervals@.len(),
            0 <= s,
        ensures
            ({
                let state = self.books_at(i, s);
                let (a, m, r) = (
                    self.result.activities@.len(),
                    self.result.movements@.len(),
                    self.result.reclaims@.len(),
                );
                let opening = amount(opening_piles(self.input.stockpiles@, self.input.stockpiles@.len()), pile as u64).0;
                &&& amount(state.ground, self.input.ground@[g].id.0 as u64).0 == summed(
                    a,
                    self.dug_before(self.input.ground@[g].id, i, s),
                )
                &&& amount(state.crusher, paired(crusher, day)).0 == summed(
                    m,
                    self.brought_before(self.crushed(crusher, day), i, s),
                )
                &&& amount(state.dump, dump as u64).0 == summed(m, self.brought_before(self.dumped(dump), i, s))
                &&& amount(state.piles, pile as u64).0 == opening + summed(
                    m,
                    self.brought_before(self.piled(pile), i, s),
                ) - summed(r, self.taken_before(pile, i, s))
            }),
    {
        let block = self.input.ground@[g].id;
        let (a, m, r) = (
            self.result.activities@.len(),
            self.result.movements@.len(),
            self.result.reclaims@.len(),
        );
        self.books_kept_up(g, crusher, day, dump, pile, i, s);
        summed_same(a, self.dug_so_far(block, i, s, 0), self.dug_before(block, i, s));
        let (to_crusher, to_dump, to_pile) = (self.crushed(crusher, day), self.dumped(dump), self.piled(pile));
        summed_same(m, self.brought_so_far(to_crusher, i, s, 0), self.brought_before(to_crusher, i, s));
        summed_same(m, self.brought_so_far(to_dump, i, s, 0), self.brought_before(to_dump, i, s));
        summed_same(m, self.brought_so_far(to_pile, i, s, 0), self.brought_before(to_pile, i, s));
        summed_same(r, self.taken_so_far(pile, i, s, 0), self.taken_before(pile, i, s));
    }
}

proof fn no_sum(n: nat, none: spec_fn(int) -> int)
    requires
        forall|k: int| 0 <= k < n ==> #[trigger] none(k) == 0,
    ensures
        summed(n, none) == 0,
    decreases n,
{
    if n > 0 {
        no_sum((n - 1) as nat, none);
        assert(none(n - 1) == 0);
    }
}

// Units.

/// The unit that a parcel becomes.
pub open spec fn unit_of_parcel<N>(parcel: ReceiptParcel<N>) -> InventoryUnit {
    InventoryUnit::Receipt {
        interval: parcel.receipt_interval,
        segment: parcel.segment,
        position: parcel.position,
    }
}

/// A parcel that arrives is released, once and behind all that is there, adds its
/// tonnes to its unit, and changes nothing else.
pub proof fn arrivals_are_entered<N: Scalar>(
    state: WalkState<N>,
    pile: StockpileId,
    parcel: ReceiptParcel<N>,
    other: HeldUnit,
)
    requires
        rising(state.units),
    ensures
        ({
            let now = arrive(state, pile, parcel);
            let unit = unit_of_parcel(parcel);
            &&& rising(now.units)
            &&& held_under(now.units, Pair(pile, unit)) == Some(amount(state.units, Pair(pile, unit)).plus(parcel.tonnes_t))
            &&& other != Pair(pile, unit) ==> held_under(now.units, other) == held_under(state.units, other)
            &&& now.released.contains((pile, unit))
            &&& now.released == state.released || now.released == state.released.push((pile, unit))
            &&& state.released.contains((pile, unit)) ==> now.released == state.released
            &&& now.ground == state.ground && now.crusher == state.crusher && now.dump == state.dump && now.piles
                == state.piles
        }),
{
    let unit = unit_of_parcel(parcel);
    let value = amount(state.units, Pair(pile, unit)).plus(parcel.tonnes_t);
    put_reads_back(state.units, Pair(pile, unit), value, other);
    put_reads_back(state.units, Pair(pile, unit), value, Pair(pile, unit));
    let now = arrive(state, pile, parcel);
    if !state.released.contains((pile, unit)) {
        assert(now.released[state.released.len() as int] == (pile, unit));
    }
}

/// A reclaim takes its tonnes from its unit, where that is held, and changes
/// nothing else.
pub proof fn draws_are_entered<N: Scalar>(units: Seq<(HeldUnit, N)>, row: ReclaimRecord<N>, other: HeldUnit)
    requires
        rising(units),
    ensures
        rising(draw(units, row)),
        match held_under(units, Pair(row.stockpile, row.unit)) {
            Some(balance) => held_under(draw(units, row), Pair(row.stockpile, row.unit)) == Some(
                balance.minus(row.tonnes_t),
            ),
            None => draw(units, row) == units,
        },
        other != Pair(row.stockpile, row.unit) ==> held_under(draw(units, row), other) == held_under(units, other),
{
    if let Some(balance) = held_under(units, Pair(row.stockpile, row.unit)) {
        let key = Pair(row.stockpile, row.unit);
        put_reads_back(units, key, balance.minus(row.tonnes_t), other);
        put_reads_back(units, key, balance.minus(row.tonnes_t), key);
    }
}

impl<'a, N: Scalar> Audit<'a, N> {
    /// What a pile releases in an interval is every parcel of it that is to be
    /// released then, each once, by segment and then by position.
    pub proof fn arrivals_are_in_order(self, i: int, j: int)
        requires
            self.result.parcels@.len() <= usize::MAX,
            0 <= j < self.input.stockpiles@.len(),
        ensures
            self.arrivals(i, j).no_duplicates(),
            forall|k: usize| #[trigger]
                self.arrivals(i, j).contains(k) <==> k < self.result.parcels@.len()
                    && self.result.parcels@[k as int].stockpile == self.input.stockpiles@[j].id
                    && self.result.parcels@[k as int].release_interval == self.input.intervals@[i].index,
            forall|a: int, b: int|
                0 <= a < b < self.arrivals(i, j).len() ==> {
                    let (x, y) = (
                        self.result.parcels@[(#[trigger] self.arrivals(i, j)[a]) as int],
                        self.result.parcels@[(#[trigger] self.arrivals(i, j)[b]) as int],
                    );
                    x.segment < y.segment || x.segment == y.segment && x.position <= y.position
                },
    {
        let n = self.result.parcels@.len();
        let (chosen, before) = (self.arriving(i, j), self.received_before());
        arrangement_holds(n, chosen, before);
        let order = self.arrivals(i, j);
        assert forall|k: usize| #[trigger] order.contains(k) <==> k < n && self.result.parcels@[k as int].stockpile
            == self.input.stockpiles@[j].id && self.result.parcels@[k as int].release_interval
            == self.input.intervals@[i].index by {
            assert(order.contains(k) <==> k < n && chosen(k as int));
        }
        assert(strict_order(n, chosen, before));
        assert forall|a: int, b: int| 0 <= a < b < order.len() implies {
            let (x, y) = (self.result.parcels@[(#[trigger] order[a]) as int], self.result.parcels@[(#[trigger] order[b]) as int]);
            x.segment < y.segment || x.segment == y.segment && x.position <= y.position
        } by {
            assert(!before(order[b] as int, order[a] as int));
        }
    }
}

} // verus!
