//! The parcels that piles receive, and what is reclaimed of them.
use vstd::prelude::*;

use crate::ledger::{put_under, Ledger};
use crate::listing::{find_key, flat, folded, keyed};
use crate::optimisation::ids::{Activity, DestinationKind, MaterialId, SourceId, StockpileId};
use crate::optimisation::input::{OpeningLot, TaskKind};
use crate::optimisation::parcel::base::Parcels;
use crate::optimisation::parcel::columns::{
    Group, MoveVariable, ParcelColumn, ParcelVariable, ReclaimVariable, StreamKey, UnitKey,
};
use crate::optimisation::parcel::lists::{in_group, is_in_group, Lists};
use crate::scalar::Scalar;

verus! {

impl<'a, N: Scalar> Parcels<'a, N> {
    // Parcels.

    pub open spec fn stream_parcels(self, group: Group) -> spec_fn(int) -> Seq<ParcelVariable> {
        |y: int|
            {
                let stream = self.streams()[y].0;
                if in_group(stream, group) {
                    Seq::new(group.positions as nat, |p: int| ParcelVariable { stream, position: p as usize })
                } else {
                    Seq::empty()
                }
            }
    }

    pub open spec fn group_parcels(self) -> spec_fn(int) -> Seq<ParcelVariable> {
        |x: int| flat(self.streams().len(), self.stream_parcels(self.groups()[x]))
    }

    /// Every position that a stream may fill.
    pub open spec fn parcels(self) -> Seq<ParcelVariable> {
        flat(self.groups().len(), self.group_parcels())
    }

    fn list_parcels(&self, streams: &Ledger<StreamKey, N>, groups: &Vec<Group>) -> (parcels: Vec<ParcelVariable>)
        requires
            streams@ == self.streams(),
            groups@ == self.groups(),
        ensures
            parcels@ == self.parcels(),
    {
        let mut parcels: Vec<ParcelVariable> = Vec::new();
        let ghost each = self.group_parcels();
        for x in 0..groups.len()
            invariant
                streams@ == self.streams(),
                groups@ == self.groups(),
                each == self.group_parcels(),
                parcels@ == flat(x as nat, each),
        {
            let group = groups[x];
            let ghost inner = parcels@;
            let ghost f = self.stream_parcels(group);
            assert(inner + flat(0, f) =~= inner);
            for y in 0..streams.entries.len()
                invariant
                    streams@ == self.streams(),
                    f == self.stream_parcels(group),
                    parcels@ == inner + flat(y as nat, f),
            {
                let stream = streams.entries[y].0;
                assert(stream == self.streams()[y as int].0);
                if is_in_group(stream, group) {
                    let ghost before = parcels@;
                    let ghost all = Seq::new(
                        group.positions as nat,
                        |p: int| ParcelVariable { stream, position: p as usize },
                    );
                    for p in 0..group.positions
                        invariant
                            all == Seq::new(
                                group.positions as nat,
                                |p: int| ParcelVariable { stream, position: p as usize },
                            ),
                            parcels@ =~= before + all.take(p as int),
                    {
                        parcels.push(ParcelVariable { stream, position: p });
                    }
                    assert(all.take(group.positions as int) =~= all);
                }
                assert(parcels@ =~= inner + (flat(y as nat, f) + f(y as int)));
            }
            assert(parcels@ =~= flat(x as nat, each) + each(x as int));
        }
        parcels
    }

    // Reclaiming.

    /// How fast a task's loader reclaims in an interval.
    pub open spec fn task_reclaim_rate(self, t: int, i: int) -> N {
        match self.loader_of(t) {
            Some(l) => self.reclaim_rate(l, i),
            None => N::of_whole(0),
        }
    }

    pub fn find_task_reclaim_rate(&self, t: usize, i: usize) -> (r: N)
        requires
            t < self.input.tasks@.len(),
        ensures
            r == self.task_reclaim_rate(t as int, i as int),
    {
        match find_key(&self.input.loaders, self.input.tasks[t].loader.0) {
            Some(l) => self.find_reclaim_rate(l, i),
            None => N::whole(0),
        }
    }

    pub open spec fn approved(self, t: int) -> Seq<StockpileId> {
        match self.task(t).kind {
            TaskKind::Reclaim { approved_sources, .. } => approved_sources@,
            TaskKind::Dig { .. } => Seq::empty(),
        }
    }

    pub open spec fn lot_share(self, t: int, i: int, s: int, k: int, o: int, lot: OpeningLot<N>) -> spec_fn(int) -> Seq<
        ReclaimVariable<N>,
    > {
        |j: int|
            seq![
                ReclaimVariable {
                    interval: i as usize,
                    segment: s as usize,
                    task: t as usize,
                    source: self.approved(t)[k],
                    unit: UnitKey::Opening { pile: self.approved(t)[k], opening: o as usize },
                    material: lot.material@[j].material,
                    share: j as usize,
                    fraction: lot.material@[j].fraction,
                    column: ParcelColumn::ReclaimLot {
                        task: t as usize,
                        interval: i as usize,
                        segment: s as usize,
                        source: k as usize,
                        opening: o as usize,
                    },
                },
            ]
    }

    /// Reclaiming the opening lots of a pile.
    pub open spec fn lot_reclaims(self, t: int, i: int, s: int, k: int, lots: Seq<OpeningLot<N>>) -> spec_fn(int) -> Seq<
        ReclaimVariable<N>,
    > {
        |o: int|
            if self.operable(self.task(t).loader, SourceId::Stockpile(self.approved(t)[k]), lots[o].material@, i) {
                flat(lots[o].material@.len(), self.lot_share(t, i, s, k, o, lots[o]))
            } else {
                Seq::empty()
            }
    }

    pub open spec fn material_step(self, group: Group) -> spec_fn(Seq<(MaterialId, ())>, int) -> Seq<(MaterialId, ())> {
        |found: Seq<(MaterialId, ())>, y: int|
            if in_group(self.streams()[y].0, group) {
                put_under(found, self.streams()[y].0.material, ())
            } else {
                found
            }
    }

    /// The materials that a cell of a pile can receive, in order.
    pub open spec fn group_materials(self, group: Group) -> Seq<(MaterialId, ())> {
        folded(self.streams().len(), Seq::empty(), self.material_step(group))
    }

    pub open spec fn receipt_unit(self, group: Group, position: int) -> UnitKey {
        UnitKey::Receipt {
            pile: group.pile,
            receipt_interval: group.interval,
            segment: group.segment,
            position: position as usize,
        }
    }

    pub open spec fn receipt_material(self, t: int, i: int, s: int, k: int, group: Group, position: int) -> spec_fn(
        int,
    ) -> Seq<ReclaimVariable<N>> {
        |m: int|
            {
                let material = self.group_materials(group)[m].0;
                let unit = self.receipt_unit(group, position);
                if self.has_route(
                    self.task(t).loader,
                    Activity::Reclaim,
                    SourceId::Stockpile(self.approved(t)[k]),
                    material,
                    i,
                ) {
                    seq![
                        ReclaimVariable {
                            interval: i as usize,
                            segment: s as usize,
                            task: t as usize,
                            source: self.approved(t)[k],
                            unit,
                            material,
                            share: 0,
                            fraction: N::of_whole(1),
                            column: ParcelColumn::ReclaimReceipt {
                                task: t as usize,
                                interval: i as usize,
                                segment: s as usize,
                                source: k as usize,
                                unit,
                                material,
                            },
                        },
                    ]
                } else {
                    Seq::empty()
                }
            }
    }

    pub open spec fn receipt_position(self, t: int, i: int, s: int, k: int, group: Group) -> spec_fn(int) -> Seq<
        ReclaimVariable<N>,
    > {
        |position: int|
            flat(self.group_materials(group).len(), self.receipt_material(t, i, s, k, group, position))
    }

    /// Reclaiming what a pile received in earlier intervals.
    pub open spec fn receipt_reclaims(self, t: int, i: int, s: int, k: int) -> spec_fn(int) -> Seq<ReclaimVariable<N>> {
        |x: int|
            {
                let group = self.groups()[x];
                if group.pile == self.approved(t)[k] && group.interval < i {
                    flat(group.positions as nat, self.receipt_position(t, i, s, k, group))
                } else {
                    Seq::empty()
                }
            }
    }

    pub open spec fn source_reclaims(self, t: int, i: int, s: int) -> spec_fn(int) -> Seq<ReclaimVariable<N>> {
        |k: int|
            match keyed(self.input.stockpiles@, self.approved(t)[k].0) {
                Some(p) => {
                    let lots = self.input.stockpiles@[p].opening@;
                    flat(lots.len(), self.lot_reclaims(t, i, s, k, lots)) + flat(
                        self.groups().len(),
                        self.receipt_reclaims(t, i, s, k),
                    )
                },
                None => Seq::empty(),
            }
    }

    pub open spec fn segment_reclaims(self, t: int, i: int) -> spec_fn(int) -> Seq<ReclaimVariable<N>> {
        |s: int| flat(self.approved(t).len(), self.source_reclaims(t, i, s))
    }

    pub open spec fn interval_reclaims(self, t: int) -> spec_fn(int) -> Seq<ReclaimVariable<N>> {
        |i: int|
            if self.active(t, i) && !self.task_reclaim_rate(t, i).at_most(N::of_whole(0)) {
                flat(self.segments(i), self.segment_reclaims(t, i))
            } else {
                Seq::empty()
            }
    }

    pub open spec fn task_reclaims(self) -> spec_fn(int) -> Seq<ReclaimVariable<N>> {
        |t: int|
            match self.task(t).kind {
                TaskKind::Reclaim { .. } => flat(self.horizon(), self.interval_reclaims(t)),
                TaskKind::Dig { .. } => Seq::empty(),
            }
    }

    /// All reclaiming.
    pub open spec fn reclaims(self) -> Seq<ReclaimVariable<N>> {
        flat(self.input.tasks@.len(), self.task_reclaims())
    }

    pub open spec fn reclaim_stands(self, reclaim: ReclaimVariable<N>) -> bool {
        reclaim.task < self.input.tasks@.len() && reclaim.interval < self.horizon()
    }

    pub fn find_group_materials(&self, streams: &Ledger<StreamKey, N>, group: Group) -> (r: Ledger<MaterialId, ()>)
        requires
            streams@ == self.streams(),
        ensures
            r@ == self.group_materials(group),
    {
        let mut found: Ledger<MaterialId, ()> = Ledger::new();
        let ghost step = self.material_step(group);
        for y in 0..streams.entries.len()
            invariant
                streams@ == self.streams(),
                step == self.material_step(group),
                found@ == folded(y as nat, Seq::empty(), step),
        {
            let stream = streams.entries[y].0;
            assert(stream == self.streams()[y as int].0);
            if is_in_group(stream, group) {
                found.put(stream.material, ());
            }
        }
        found
    }

    fn list_lots(&self, out: &mut Vec<ReclaimVariable<N>>, t: usize, i: usize, s: usize, k: usize, p: usize)
        requires
            t < self.input.tasks@.len(),
            i < self.horizon(),
            k < self.approved(t as int).len(),
            p < self.input.stockpiles@.len(),
            forall|x: int| 0 <= x < old(out)@.len() ==> self.reclaim_stands(#[trigger] old(out)@[x]),
        ensures
            final(out)@ == old(out)@ + flat(
                self.input.stockpiles@[p as int].opening@.len(),
                self.lot_reclaims(t as int, i as int, s as int, k as int, self.input.stockpiles@[p as int].opening@),
            ),
            forall|x: int| 0 <= x < final(out)@.len() ==> self.reclaim_stands(#[trigger] final(out)@[x]),
    {
        let lots = &self.input.stockpiles[p].opening;
        let pile = self.find_approved(t, k);
        let loader = self.input.tasks[t].loader;
        let ghost base = out@;
        let ghost each = self.lot_reclaims(t as int, i as int, s as int, k as int, lots@);
        assert(base + flat(0, each) =~= base);
        for o in 0..lots.len()
            invariant
                t < self.input.tasks@.len(),
                i < self.horizon(),
                k < self.approved(t as int).len(),
                pile == self.approved(t as int)[k as int],
                loader == self.task(t as int).loader,
                each == self.lot_reclaims(t as int, i as int, s as int, k as int, lots@),
                out@ == base + flat(o as nat, each),
                forall|x: int| 0 <= x < out@.len() ==> self.reclaim_stands(#[trigger] out@[x]),
        {
            let lot = &lots[o];
            if self.source_operable(loader, SourceId::Stockpile(pile), &lot.material, i) {
                let ghost inner = out@;
                let ghost f = self.lot_share(t as int, i as int, s as int, k as int, o as int, *lot);
                assert(inner + flat(0, f) =~= inner);
                for j in 0..lot.material.len()
                    invariant
                        t < self.input.tasks@.len(),
                        i < self.horizon(),
                        k < self.approved(t as int).len(),
                        pile == self.approved(t as int)[k as int],
                        f == self.lot_share(t as int, i as int, s as int, k as int, o as int, *lot),
                        out@ == inner + flat(j as nat, f),
                        forall|x: int| 0 <= x < out@.len() ==> self.reclaim_stands(#[trigger] out@[x]),
                {
                    out.push(
                        ReclaimVariable {
                            interval: i,
                            segment: s,
                            task: t,
                            source: pile,
                            unit: UnitKey::Opening { pile, opening: o },
                            material: lot.material[j].material,
                            share: j,
                            fraction: lot.material[j].fraction,
                            column: ParcelColumn::ReclaimLot { task: t, interval: i, segment: s, source: k, opening: o },
                        },
                    );
                    assert(out@ =~= inner + (flat(j as nat, f) + f(j as int)));
                }
            }
            assert(out@ =~= base + (flat(o as nat, each) + each(o as int)));
        }
    }

    pub fn find_approved(&self, t: usize, k: usize) -> (r: StockpileId)
        requires
            t < self.input.tasks@.len(),
            k < self.approved(t as int).len(),
        ensures
            r == self.approved(t as int)[k as int],
    {
        match &self.input.tasks[t].kind {
            TaskKind::Reclaim { approved_sources, maximum_t: _ } => approved_sources[k],
            TaskKind::Dig { .. } => StockpileId(0),
        }
    }

    fn list_receipt_position(
        &self,
        out: &mut Vec<ReclaimVariable<N>>,
        t: usize,
        i: usize,
        s: usize,
        k: usize,
        group: Group,
        position: usize,
        materials: &Ledger<MaterialId, ()>,
    )
        requires
            t < self.input.tasks@.len(),
            i < self.horizon(),
            k < self.approved(t as int).len(),
            materials@ == self.group_materials(group),
            forall|x: int| 0 <= x < old(out)@.len() ==> self.reclaim_stands(#[trigger] old(out)@[x]),
        ensures
            final(out)@ == old(out)@ + self.receipt_position(t as int, i as int, s as int, k as int, group)(position as int),
            forall|x: int| 0 <= x < final(out)@.len() ==> self.reclaim_stands(#[trigger] final(out)@[x]),
    {
        let pile = self.find_approved(t, k);
        let loader = self.input.tasks[t].loader;
        let unit = UnitKey::Receipt {
            pile: group.pile,
            receipt_interval: group.interval,
            segment: group.segment,
            position,
        };
        let ghost base = out@;
        let ghost f = self.receipt_material(t as int, i as int, s as int, k as int, group, position as int);
        assert(base + flat(0, f) =~= base);
        for m in 0..materials.entries.len()
            invariant
                t < self.input.tasks@.len(),
                i < self.horizon(),
                k < self.approved(t as int).len(),
                materials@ == self.group_materials(group),
                pile == self.approved(t as int)[k as int],
                loader == self.task(t as int).loader,
                unit == self.receipt_unit(group, position as int),
                f == self.receipt_material(t as int, i as int, s as int, k as int, group, position as int),
                out@ == base + flat(m as nat, f),
                forall|x: int| 0 <= x < out@.len() ==> self.reclaim_stands(#[trigger] out@[x]),
        {
            let material = materials.entries[m].0;
            assert(material == self.group_materials(group)[m as int].0);
            if self.find_route(loader, Activity::Reclaim, SourceId::Stockpile(pile), material, i) {
                out.push(
                    ReclaimVariable {
                        interval: i,
                        segment: s,
                        task: t,
                        source: pile,
                        unit,
                        material,
                        share: 0,
                        fraction: N::whole(1),
                        column: ParcelColumn::ReclaimReceipt {
                            task: t,
                            interval: i,
                            segment: s,
                            source: k,
                            unit,
                            material,
                        },
                    },
                );
            }
            assert(out@ =~= base + (flat(m as nat, f) + f(m as int)));
        }
    }

    fn list_receipts(
        &self,
        out: &mut Vec<ReclaimVariable<N>>,
        t: usize,
        i: usize,
        s: usize,
        k: usize,
        streams: &Ledger<StreamKey, N>,
        groups: &Vec<Group>,
    )
        requires
            t < self.input.tasks@.len(),
            i < self.horizon(),
            k < self.approved(t as int).len(),
            streams@ == self.streams(),
            groups@ == self.groups(),
            forall|x: int| 0 <= x < old(out)@.len() ==> self.reclaim_stands(#[trigger] old(out)@[x]),
        ensures
            final(out)@ == old(out)@ + flat(
                self.groups().len(),
                self.receipt_reclaims(t as int, i as int, s as int, k as int),
            ),
            forall|x: int| 0 <= x < final(out)@.len() ==> self.reclaim_stands(#[trigger] final(out)@[x]),
    {
        let pile = self.find_approved(t, k);
        let ghost base = out@;
        let ghost each = self.receipt_reclaims(t as int, i as int, s as int, k as int);
        assert(base + flat(0, each) =~= base);
        for x in 0..groups.len()
            invariant
                t < self.input.tasks@.len(),
                i < self.horizon(),
                k < self.approved(t as int).len(),
                streams@ == self.streams(),
                groups@ == self.groups(),
                pile == self.approved(t as int)[k as int],
                each == self.receipt_reclaims(t as int, i as int, s as int, k as int),
                out@ == base + flat(x as nat, each),
                forall|x: int| 0 <= x < out@.len() ==> self.reclaim_stands(#[trigger] out@[x]),
        {
            let group = groups[x];
            if group.pile == pile && group.interval < i {
                let materials = self.find_group_materials(streams, group);
                let ghost inner = out@;
                let ghost f = self.receipt_position(t as int, i as int, s as int, k as int, group);
                assert(inner + flat(0, f) =~= inner);
                for position in 0..group.positions
                    invariant
                        t < self.input.tasks@.len(),
                        i < self.horizon(),
                        k < self.approved(t as int).len(),
                        materials@ == self.group_materials(group),
                        f == self.receipt_position(t as int, i as int, s as int, k as int, group),
                        out@ == inner + flat(position as nat, f),
                        forall|x: int| 0 <= x < out@.len() ==> self.reclaim_stands(#[trigger] out@[x]),
                {
                    self.list_receipt_position(out, t, i, s, k, group, position, &materials);
                    assert(out@ =~= inner + (flat(position as nat, f) + f(position as int)));
                }
            }
            assert(out@ =~= base + (flat(x as nat, each) + each(x as int)));
        }
    }

    pub fn find_approved_count(&self, t: usize) -> (r: usize)
        requires
            t < self.input.tasks@.len(),
        ensures
            r == self.approved(t as int).len(),
    {
        match &self.input.tasks[t].kind {
            TaskKind::Reclaim { approved_sources, maximum_t: _ } => approved_sources.len(),
            TaskKind::Dig { .. } => 0,
        }
    }

    fn list_segment(
        &self,
        out: &mut Vec<ReclaimVariable<N>>,
        t: usize,
        i: usize,
        s: usize,
        streams: &Ledger<StreamKey, N>,
        groups: &Vec<Group>,
    )
        requires
            t < self.input.tasks@.len(),
            i < self.horizon(),
            streams@ == self.streams(),
            groups@ == self.groups(),
            forall|x: int| 0 <= x < old(out)@.len() ==> self.reclaim_stands(#[trigger] old(out)@[x]),
        ensures
            final(out)@ == old(out)@ + self.segment_reclaims(t as int, i as int)(s as int),
            forall|x: int| 0 <= x < final(out)@.len() ==> self.reclaim_stands(#[trigger] final(out)@[x]),
    {
        let count: usize = self.find_approved_count(t);
        let ghost base = out@;
        let ghost each = self.source_reclaims(t as int, i as int, s as int);
        assert(base + flat(0, each) =~= base);
        for k in 0..count
            invariant
                t < self.input.tasks@.len(),
                i < self.horizon(),
                count == self.approved(t as int).len(),
                streams@ == self.streams(),
                groups@ == self.groups(),
                each == self.source_reclaims(t as int, i as int, s as int),
                out@ == base + flat(k as nat, each),
                forall|x: int| 0 <= x < out@.len() ==> self.reclaim_stands(#[trigger] out@[x]),
        {
            let pile = self.find_approved(t, k);
            if let Some(p) = find_key(&self.input.stockpiles, pile.0) {
                self.list_lots(out, t, i, s, k, p);
                self.list_receipts(out, t, i, s, k, streams, groups);
            }
            assert(out@ =~= base + (flat(k as nat, each) + each(k as int)));
        }
    }

    fn list_task(
        &self,
        out: &mut Vec<ReclaimVariable<N>>,
        t: usize,
        streams: &Ledger<StreamKey, N>,
        groups: &Vec<Group>,
    )
        requires
            self.ready(),
            t < self.input.tasks@.len(),
            streams@ == self.streams(),
            groups@ == self.groups(),
            forall|x: int| 0 <= x < old(out)@.len() ==> self.reclaim_stands(#[trigger] old(out)@[x]),
        ensures
            final(out)@ == old(out)@ + flat(self.horizon(), self.interval_reclaims(t as int)),
            forall|x: int| 0 <= x < final(out)@.len() ==> self.reclaim_stands(#[trigger] final(out)@[x]),
    {
        let ghost base = out@;
        let ghost each = self.interval_reclaims(t as int);
        assert(base + flat(0, each) =~= base);
        for i in 0..self.input.intervals.len()
            invariant
                self.ready(),
                t < self.input.tasks@.len(),
                streams@ == self.streams(),
                groups@ == self.groups(),
                each == self.interval_reclaims(t as int),
                out@ == base + flat(i as nat, each),
                forall|x: int| 0 <= x < out@.len() ==> self.reclaim_stands(#[trigger] out@[x]),
        {
            if self.is_active(t, i) && !self.find_task_reclaim_rate(t, i).is_at_most(N::whole(0)) {
                let segments: usize = self.budgets[i];
                let ghost inner = out@;
                let ghost f = self.segment_reclaims(t as int, i as int);
                assert(inner + flat(0, f) =~= inner);
                for s in 0..segments
                    invariant
                        t < self.input.tasks@.len(),
                        i < self.horizon(),
                        streams@ == self.streams(),
                        groups@ == self.groups(),
                        f == self.segment_reclaims(t as int, i as int),
                        out@ == inner + flat(s as nat, f),
                        forall|x: int| 0 <= x < out@.len() ==> self.reclaim_stands(#[trigger] out@[x]),
                {
                    self.list_segment(out, t, i, s, streams, groups);
                    assert(out@ =~= inner + (flat(s as nat, f) + f(s as int)));
                }
            }
            assert(out@ =~= base + (flat(i as nat, each) + each(i as int)));
        }
    }

    fn list_reclaims(&self, streams: &Ledger<StreamKey, N>, groups: &Vec<Group>) -> (out: Vec<ReclaimVariable<N>>)
        requires
            self.ready(),
            streams@ == self.streams(),
            groups@ == self.groups(),
        ensures
            out@ == self.reclaims(),
            forall|x: int| 0 <= x < out@.len() ==> self.reclaim_stands(#[trigger] out@[x]),
    {
        let mut out: Vec<ReclaimVariable<N>> = Vec::new();
        let ghost each = self.task_reclaims();
        for t in 0..self.input.tasks.len()
            invariant
                self.ready(),
                streams@ == self.streams(),
                groups@ == self.groups(),
                each == self.task_reclaims(),
                out@ == flat(t as nat, each),
                forall|x: int| 0 <= x < out@.len() ==> self.reclaim_stands(#[trigger] out@[x]),
        {
            if let TaskKind::Reclaim { .. } = &self.input.tasks[t].kind {
                self.list_task(&mut out, t, streams, groups);
            }
            assert(out@ =~= flat(t as nat, each) + each(t as int));
        }
        out
    }

    // Routes of what is reclaimed.

    /// A candidate goes somewhere other than a pile.
    pub open spec fn leaves(self, c: int) -> bool {
        match keyed(self.input.destinations@, self.candidate(c).destination.0) {
            Some(d) => !(self.input.destinations@[d].kind is Stockpile),
            None => false,
        }
    }

    pub open spec fn way_out(self, reclaim: ReclaimVariable<N>) -> spec_fn(int) -> Seq<usize> {
        |c: int|
            if self.routed(
                c,
                self.task(reclaim.task as int).loader,
                Activity::Reclaim,
                SourceId::Stockpile(reclaim.source),
                reclaim.material,
                reclaim.interval as int,
            ) && self.leaves(c) {
                seq![c as usize]
            } else {
                Seq::empty()
            }
    }

    /// The routes that a reclaim can take.
    pub open spec fn ways_out(self, reclaim: ReclaimVariable<N>) -> Seq<usize> {
        flat(self.input.movements@.len(), self.way_out(reclaim))
    }

    /// The only route of all that is reclaimed is the reclaim itself.
    pub open spec fn is_shared(self, reclaim: ReclaimVariable<N>) -> bool {
        self.ways_out(reclaim).len() == 1 && reclaim.fraction.same(N::of_whole(1))
    }

    pub open spec fn reclaim_move(self) -> spec_fn(int) -> Seq<MoveVariable> {
        |x: int|
            {
                let reclaim = self.reclaims()[x];
                let ways = self.ways_out(reclaim);
                Seq::new(
                    ways.len(),
                    |y: int|
                        MoveVariable {
                            interval: reclaim.interval,
                            segment: reclaim.segment,
                            task: reclaim.task,
                            candidate: ways[y],
                            source: SourceId::Stockpile(reclaim.source),
                            material: reclaim.material,
                            unit: Some(reclaim.unit),
                            column: if self.is_shared(reclaim) {
                                reclaim.column
                            } else {
                                ParcelColumn::ReclaimMove { reclaim: x as usize, candidate: ways[y] }
                            },
                        },
                )
            }
    }

    /// The routes of everything that is reclaimed.
    pub open spec fn reclaim_moves(self) -> Seq<MoveVariable> {
        flat(self.reclaims().len(), self.reclaim_move())
    }

    /// Every route: of what is dug, then of what is reclaimed.
    pub open spec fn moves(self) -> Seq<MoveVariable> {
        self.dig_moves() + self.reclaim_moves()
    }

    fn does_leave(&self, c: usize) -> (r: bool)
        requires
            c < self.input.movements@.len(),
        ensures
            r == self.leaves(c as int),
    {
        match find_key(&self.input.destinations, self.input.movements[c].destination.0) {
            Some(d) => match self.input.destinations[d].kind {
                DestinationKind::Stockpile(_) => false,
                _ => true,
            },
            None => false,
        }
    }

    pub fn find_ways_out(&self, reclaim: ReclaimVariable<N>) -> (r: Vec<usize>)
        requires
            self.reclaim_stands(reclaim),
        ensures
            r@ == self.ways_out(reclaim),
            forall|q: int| 0 <= q < r@.len() ==> (#[trigger] r@[q]) < self.input.movements@.len(),
    {
        let loader = self.input.tasks[reclaim.task].loader;
        let mut out: Vec<usize> = Vec::new();
        let ghost f = self.way_out(reclaim);
        for c in 0..self.input.movements.len()
            invariant
                self.reclaim_stands(reclaim),
                loader == self.task(reclaim.task as int).loader,
                f == self.way_out(reclaim),
                out@ == flat(c as nat, f),
                forall|q: int| 0 <= q < out@.len() ==> (#[trigger] out@[q]) < self.input.movements@.len(),
        {
            if self.is_routed(
                c,
                loader,
                Activity::Reclaim,
                SourceId::Stockpile(reclaim.source),
                reclaim.material,
                reclaim.interval,
            ) && self.does_leave(c) {
                out.push(c);
            }
            assert(out@ =~= flat(c as nat, f) + f(c as int));
        }
        out
    }

    fn list_reclaim_moves(&self, moves: &mut Vec<MoveVariable>, reclaims: &Vec<ReclaimVariable<N>>)
        requires
            reclaims@ == self.reclaims(),
            forall|x: int| 0 <= x < reclaims@.len() ==> self.reclaim_stands(#[trigger] reclaims@[x]),
            forall|x: int| 0 <= x < old(moves)@.len() ==> self.move_stands(#[trigger] old(moves)@[x]),
        ensures
            final(moves)@ == old(moves)@ + self.reclaim_moves(),
            forall|x: int| 0 <= x < final(moves)@.len() ==> self.move_stands(#[trigger] final(moves)@[x]),
    {
        let ghost base = moves@;
        let ghost each = self.reclaim_move();
        assert(base + flat(0, each) =~= base);
        for x in 0..reclaims.len()
            invariant
                reclaims@ == self.reclaims(),
                forall|x: int| 0 <= x < reclaims@.len() ==> self.reclaim_stands(#[trigger] reclaims@[x]),
                each == self.reclaim_move(),
                moves@ == base + flat(x as nat, each),
                forall|x: int| 0 <= x < moves@.len() ==> self.move_stands(#[trigger] moves@[x]),
        {
            let reclaim = reclaims[x];
            let ways = self.find_ways_out(reclaim);
            let shared: bool = ways.len() == 1 && reclaim.fraction.is_same(N::whole(1));
            let ghost inner = moves@;
            let ghost all = each(x as int);
            for y in 0..ways.len()
                invariant
                    reclaims@ == self.reclaims(),
                    x < reclaims@.len(),
                    reclaim == reclaims@[x as int],
                    self.reclaim_stands(reclaim),
                    ways@ == self.ways_out(reclaim),
                    forall|q: int| 0 <= q < ways@.len() ==> (#[trigger] ways@[q]) < self.input.movements@.len(),
                    shared == self.is_shared(reclaim),
                    each == self.reclaim_move(),
                    all == each(x as int),
                    moves@ =~= inner + all.take(y as int),
                    forall|x: int| 0 <= x < moves@.len() ==> self.move_stands(#[trigger] moves@[x]),
            {
                let column = if shared {
                    reclaim.column
                } else {
                    ParcelColumn::ReclaimMove { reclaim: x, candidate: ways[y] }
                };
                moves.push(
                    MoveVariable {
                        interval: reclaim.interval,
                        segment: reclaim.segment,
                        task: reclaim.task,
                        candidate: ways[y],
                        source: SourceId::Stockpile(reclaim.source),
                        material: reclaim.material,
                        unit: Some(reclaim.unit),
                        column,
                    },
                );
            }
            assert(all.take(ways@.len() as int) =~= all);
            assert(moves@ =~= base + (flat(x as nat, each) + each(x as int)));
        }
    }

    /// Everything is listed, and belongs to the input.
    pub open spec fn listed(self, lists: Lists<N>) -> bool {
        &&& lists.digs@ == self.digs()
        &&& lists.moves@ == self.moves()
        &&& lists.streams@ == self.streams()
        &&& lists.groups@ == self.groups()
        &&& lists.parcels@ == self.parcels()
        &&& lists.reclaims@ == self.reclaims()
        &&& forall|x: int| 0 <= x < lists.digs@.len() ==> self.dig_stands(#[trigger] lists.digs@[x])
        &&& forall|x: int| 0 <= x < lists.moves@.len() ==> self.move_stands(#[trigger] lists.moves@[x])
        &&& forall|x: int| 0 <= x < lists.groups@.len() ==> (#[trigger] lists.groups@[x]).interval < self.horizon()
        &&& forall|x: int| 0 <= x < lists.reclaims@.len() ==> self.reclaim_stands(#[trigger] lists.reclaims@[x])
    }

    /// Lists what can be dug, moved, received and reclaimed.
    pub fn list(&self) -> (r: Lists<N>)
        requires
            self.ready(),
        ensures
            self.listed(r),
    {
        let digs = self.list_digs();
        let mut moves = self.list_dig_moves(&digs);
        let streams = self.list_streams(&moves);
        let groups = self.list_groups(&streams);
        let parcels = self.list_parcels(&streams, &groups);
        let reclaims = self.list_reclaims(&streams, &groups);
        self.list_reclaim_moves(&mut moves, &reclaims);
        Lists { digs, moves, streams, groups, parcels, reclaims }
    }

    // Units.

    pub open spec fn received_units(self, pile: StockpileId) -> spec_fn(int) -> Seq<UnitKey> {
        |x: int|
            {
                let group = self.groups()[x];
                if group.pile == pile {
                    Seq::new(group.positions as nat, |p: int| self.receipt_unit(group, p))
                } else {
                    Seq::empty()
                }
            }
    }

    /// The units of a pile, oldest first.
    pub open spec fn units(self, p: int) -> Seq<UnitKey> {
        let pile = self.input.stockpiles@[p];
        Seq::new(
            pile.opening@.len(),
            |o: int| UnitKey::Opening { pile: pile.id, opening: o as usize },
        ) + flat(self.groups().len(), self.received_units(pile.id))
    }

    /// Something is reclaimed from a pile.
    pub open spec fn reclaimable(self, pile: StockpileId) -> bool {
        exists|x: int| 0 <= x < self.reclaims().len() && (#[trigger] self.reclaims()[x]).source == pile
    }

    /// A unit can be reclaimed in an interval: a receipt only after its own.
    pub open spec fn released(self, unit: UnitKey, i: int) -> bool {
        match unit {
            UnitKey::Opening { .. } => true,
            UnitKey::Receipt { receipt_interval, .. } => i > receipt_interval,
        }
    }

    /// The most that a unit of a pile can hold.
    pub open spec fn unit_bound(self, p: int, unit: UnitKey) -> N {
        let pile = self.input.stockpiles@[p];
        (match unit {
            UnitKey::Opening { opening, .. } => pile.opening@[opening as int].tonnes_t,
            UnitKey::Receipt { .. } => self.target(),
        }).lower(pile.capacity_t)
    }

    /// A unit is one of a pile.
    pub open spec fn unit_stands(self, p: int, unit: UnitKey) -> bool {
        match unit {
            UnitKey::Opening { opening, .. } => opening < self.input.stockpiles@[p].opening@.len(),
            UnitKey::Receipt { receipt_interval, .. } => receipt_interval < self.horizon(),
        }
    }

    pub fn is_reclaimable(&self, reclaims: &Vec<ReclaimVariable<N>>, pile: StockpileId) -> (r: bool)
        requires
            reclaims@ == self.reclaims(),
        ensures
            r == self.reclaimable(pile),
    {
        for x in 0..reclaims.len()
            invariant
                reclaims@ == self.reclaims(),
                forall|q: int| 0 <= q < x ==> (#[trigger] self.reclaims()[q]).source != pile,
        {
            if reclaims[x].source == pile {
                assert(self.reclaims()[x as int].source == pile);
                return true;
            }
        }
        false
    }

    pub fn is_released(&self, unit: UnitKey, i: usize) -> (r: bool)
        ensures
            r == self.released(unit, i as int),
    {
        match unit {
            UnitKey::Opening { .. } => true,
            UnitKey::Receipt { pile: _, receipt_interval, segment: _, position: _ } => i > receipt_interval,
        }
    }

    pub fn find_unit_bound(&self, p: usize, unit: UnitKey) -> (r: N)
        requires
            p < self.input.stockpiles@.len(),
            self.unit_stands(p as int, unit),
        ensures
            r == self.unit_bound(p as int, unit),
    {
        let pile = &self.input.stockpiles[p];
        let most = match unit {
            UnitKey::Opening { pile: _, opening } => pile.opening[opening].tonnes_t,
            UnitKey::Receipt { .. } => self.input.horizon.parcel_target_t,
        };
        most.smaller(pile.capacity_t)
    }

    pub fn find_units(&self, groups: &Vec<Group>, p: usize) -> (r: Vec<UnitKey>)
        requires
            p < self.input.stockpiles@.len(),
            groups@ == self.groups(),
            forall|x: int| 0 <= x < groups@.len() ==> (#[trigger] groups@[x]).interval < self.horizon(),
        ensures
            r@ == self.units(p as int),
            forall|x: int| 0 <= x < r@.len() ==> self.unit_stands(p as int, #[trigger] r@[x]),
    {
        let pile = &self.input.stockpiles[p];
        let mut units: Vec<UnitKey> = Vec::new();
        let ghost lots = Seq::new(
            pile.opening@.len(),
            |o: int| UnitKey::Opening { pile: pile.id, opening: o as usize },
        );
        for o in 0..pile.opening.len()
            invariant
                p < self.input.stockpiles@.len(),
                pile == self.input.stockpiles@[p as int],
                lots == Seq::new(
                    pile.opening@.len(),
                    |o: int| UnitKey::Opening { pile: pile.id, opening: o as usize },
                ),
                units@ =~= lots.take(o as int),
                forall|x: int| 0 <= x < units@.len() ==> self.unit_stands(p as int, #[trigger] units@[x]),
        {
            units.push(UnitKey::Opening { pile: pile.id, opening: o });
        }
        assert(lots.take(pile.opening@.len() as int) =~= lots);
        let ghost base = units@;
        let ghost each = self.received_units(pile.id);
        assert(base + flat(0, each) =~= base);
        for x in 0..groups.len()
            invariant
                p < self.input.stockpiles@.len(),
                pile == self.input.stockpiles@[p as int],
                groups@ == self.groups(),
                forall|x: int| 0 <= x < groups@.len() ==> (#[trigger] groups@[x]).interval < self.horizon(),
                each == self.received_units(pile.id),
                units@ == base + flat(x as nat, each),
                forall|x: int| 0 <= x < units@.len() ==> self.unit_stands(p as int, #[trigger] units@[x]),
        {
            let group = groups[x];
            if group.pile == pile.id {
                let ghost inner = units@;
                let ghost all = Seq::new(group.positions as nat, |p: int| self.receipt_unit(group, p));
                for position in 0..group.positions
                    invariant
                        all == Seq::new(group.positions as nat, |p: int| self.receipt_unit(group, p)),
                        group.interval < self.horizon(),
                        units@ =~= inner + all.take(position as int),
                        forall|x: int| 0 <= x < units@.len() ==> self.unit_stands(p as int, #[trigger] units@[x]),
                {
                    units.push(
                        UnitKey::Receipt {
                            pile: group.pile,
                            receipt_interval: group.interval,
                            segment: group.segment,
                            position,
                        },
                    );
                }
                assert(all.take(group.positions as int) =~= all);
            }
            assert(units@ =~= base + (flat(x as nat, each) + each(x as int)));
        }
        units
    }
}

} // verus!
