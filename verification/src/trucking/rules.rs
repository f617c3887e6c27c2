//! Which classes may serve which movements.
use vstd::prelude::*;

use crate::ledger::Key;
use crate::listing::flat;

verus! {

#[derive(Clone, Copy, Debug, PartialEq, Eq, Structural, PartialOrd, Ord, Hash)]
pub struct TruckClassId(pub u64);

#[derive(Clone, Copy, Debug, PartialEq, Eq, Structural, PartialOrd, Ord, Hash)]
pub struct TruckingRuleId(pub u64);

#[derive(Clone, Copy, Debug, PartialEq, Eq, Structural, PartialOrd, Ord, Hash)]
pub struct LoaderAgentId(pub u64);

#[derive(Clone, Copy, Debug, PartialEq, Eq, Structural, PartialOrd, Ord, Hash)]
pub struct DestinationId(pub u64);

impl Key for LoaderAgentId {
    open spec fn before(self, other: Self) -> bool {
        self.0 < other.0
    }

    fn is_before(self, other: Self) -> (r: bool) {
        self.0 < other.0
    }

    fn is_key(self, other: Self) -> (r: bool) {
        self.0 == other.0
    }

    proof fn key_laws(a: Self, b: Self, c: Self) {
    }
}

impl Key for DestinationId {
    open spec fn before(self, other: Self) -> bool {
        self.0 < other.0
    }

    fn is_before(self, other: Self) -> (r: bool) {
        self.0 < other.0
    }

    fn is_key(self, other: Self) -> (r: bool) {
        self.0 == other.0
    }

    proof fn key_laws(a: Self, b: Self, c: Self) {
    }
}

/// A part of the ground, known by a number. Whether the part makes sense is a
/// question for whoever knows the ground.
#[derive(Clone, Copy, Debug, PartialEq, Eq, Structural, PartialOrd, Ord, Hash)]
pub struct GroundScope {
    pub key: u64,
    pub valid: bool,
}

/// Where a rule takes movements from.
#[derive(Clone, Copy, Debug, PartialEq, Eq, Structural, PartialOrd, Ord, Hash)]
pub enum MovementSourceScope {
    Ground(GroundScope),
    Stockpile(DestinationId),
}

#[derive(Clone, Debug)]
pub enum LoaderSelection {
    All,
    Only(Vec<LoaderAgentId>),
}

#[derive(Clone, Debug)]
pub enum MovementSourceSelection {
    All,
    Only(Vec<MovementSourceScope>),
}

#[derive(Clone, Debug)]
pub enum DestinationSelection {
    All,
    Only(Vec<DestinationId>),
}

/// Everything, or what is listed.
pub enum Selected<T> {
    All,
    Only(Seq<T>),
}

impl<T> Selected<T> {
    /// A selection of nothing.
    pub open spec fn nothing(self) -> bool {
        self matches Selected::Only(listed) && listed.len() == 0
    }
}

impl View for LoaderSelection {
    type V = Selected<LoaderAgentId>;

    open spec fn view(&self) -> Selected<LoaderAgentId> {
        match self {
            LoaderSelection::All => Selected::All,
            LoaderSelection::Only(agents) => Selected::Only(agents@),
        }
    }
}

impl View for MovementSourceSelection {
    type V = Selected<MovementSourceScope>;

    open spec fn view(&self) -> Selected<MovementSourceScope> {
        match self {
            MovementSourceSelection::All => Selected::All,
            MovementSourceSelection::Only(scopes) => Selected::Only(scopes@),
        }
    }
}

impl View for DestinationSelection {
    type V = Selected<DestinationId>;

    open spec fn view(&self) -> Selected<DestinationId> {
        match self {
            DestinationSelection::All => Selected::All,
            DestinationSelection::Only(ids) => Selected::Only(ids@),
        }
    }
}

impl LoaderSelection {
    /// A copy.
    pub fn copy(&self) -> (r: Self)
        ensures
            r@ == self@,
    {
        match self {
            LoaderSelection::All => LoaderSelection::All,
            LoaderSelection::Only(agents) => LoaderSelection::Only(crate::listing::copied(agents)),
        }
    }
}

impl MovementSourceSelection {
    /// A copy.
    pub fn copy(&self) -> (r: Self)
        ensures
            r@ == self@,
    {
        match self {
            MovementSourceSelection::All => MovementSourceSelection::All,
            MovementSourceSelection::Only(scopes) => MovementSourceSelection::Only(crate::listing::copied(scopes)),
        }
    }
}

impl DestinationSelection {
    /// A copy.
    pub fn copy(&self) -> (r: Self)
        ensures
            r@ == self@,
    {
        match self {
            DestinationSelection::All => DestinationSelection::All,
            DestinationSelection::Only(ids) => DestinationSelection::Only(crate::listing::copied(ids)),
        }
    }
}

/// Where a movement starts.
#[derive(Clone, Debug)]
pub enum RouteSource {
    /// On ground that the parts with these numbers cover.
    Ground { covering: Vec<u64> },
    Stockpile(DestinationId),
}

/// Where a movement runs from and to.
#[derive(Clone, Debug)]
pub struct RouteContext {
    pub loader: LoaderAgentId,
    pub source: RouteSource,
    pub destination: DestinationId,
}

/// A scope holds a movement's start.
pub open spec fn covered(scope: MovementSourceScope, source: RouteSource) -> bool {
    match (scope, source) {
        (MovementSourceScope::Ground(ground), RouteSource::Ground { covering }) => covering@.contains(ground.key),
        (MovementSourceScope::Stockpile(held), RouteSource::Stockpile(from)) => held == from,
        _ => false,
    }
}

/// Whether a scope holds a movement's start.
pub fn scope_covers(scope: MovementSourceScope, source: &RouteSource) -> (r: bool)
    ensures
        r == covered(scope, *source),
{
    match (scope, source) {
        (MovementSourceScope::Ground(ground), RouteSource::Ground { covering }) => {
            for i in 0..covering.len()
                invariant
                    scope == MovementSourceScope::Ground(ground),
                    source matches RouteSource::Ground { covering: all } && all == *covering,
                    forall|j: int| 0 <= j < i ==> covering@[j] != ground.key,
            {
                if covering[i] == ground.key {
                    assert(covering@.contains(ground.key));
                    return true;
                }
            }
            false
        },
        (MovementSourceScope::Stockpile(held), RouteSource::Stockpile(from)) => held == *from,
        _ => false,
    }
}

/// One rule: which movements it speaks of, and which classes may serve them.
#[derive(Clone, Debug)]
pub struct TruckingRule {
    pub id: TruckingRuleId,
    pub enabled: bool,
    pub name: String,
    pub loaders: LoaderSelection,
    pub sources: MovementSourceSelection,
    pub destinations: DestinationSelection,
    pub classes: Vec<TruckClassId>,
}

/// What a [`TruckingRule`] holds.
pub struct RuleView {
    pub id: TruckingRuleId,
    pub enabled: bool,
    pub name: String,
    pub loaders: Selected<LoaderAgentId>,
    pub sources: Selected<MovementSourceScope>,
    pub destinations: Selected<DestinationId>,
    pub classes: Seq<TruckClassId>,
}

impl View for TruckingRule {
    type V = RuleView;

    open spec fn view(&self) -> RuleView {
        RuleView {
            id: self.id,
            enabled: self.enabled,
            name: self.name,
            loaders: self.loaders@,
            sources: self.sources@,
            destinations: self.destinations@,
            classes: self.classes@,
        }
    }
}

/// One thing that goes into a fingerprint.
#[derive(Clone, Debug)]
pub enum HashItem {
    Byte(u8),
    Count(u32),
    Number(u64),
    Flag(bool),
    Text(String),
    Numbers(Vec<u64>),
    /// A part of the ground.
    Scope(u64),
    MaybeCount(Option<u32>),
    MaybeNumber(Option<u64>),
}

/// What a [`HashItem`] holds.
pub enum Hashed {
    Byte(u8),
    Count(u32),
    Number(u64),
    Flag(bool),
    Text(String),
    Numbers(Seq<u64>),
    Scope(u64),
    MaybeCount(Option<u32>),
    MaybeNumber(Option<u64>),
}

impl View for HashItem {
    type V = Hashed;

    open spec fn view(&self) -> Hashed {
        match *self {
            HashItem::Byte(value) => Hashed::Byte(value),
            HashItem::Count(value) => Hashed::Count(value),
            HashItem::Number(value) => Hashed::Number(value),
            HashItem::Flag(value) => Hashed::Flag(value),
            HashItem::Text(value) => Hashed::Text(value),
            HashItem::Numbers(value) => Hashed::Numbers(value@),
            HashItem::Scope(value) => Hashed::Scope(value),
            HashItem::MaybeCount(value) => Hashed::MaybeCount(value),
            HashItem::MaybeNumber(value) => Hashed::MaybeNumber(value),
        }
    }
}

/// What a list of items holds.
pub open spec fn items_of(items: Seq<HashItem>) -> Seq<Hashed> {
    Seq::new(items.len(), |i: int| items[i]@)
}

pub open spec fn scope_items(scopes: Seq<MovementSourceScope>) -> spec_fn(int) -> Seq<Hashed> {
    |i: int|
        match scopes[i] {
            MovementSourceScope::Ground(ground) => seq![Hashed::Byte(0), Hashed::Scope(ground.key)],
            MovementSourceScope::Stockpile(id) => seq![Hashed::Byte(1), Hashed::Number(id.0)],
        }
}

impl RuleView {
    pub open spec fn loader_fits(self, route: RouteContext) -> bool {
        match self.loaders {
            Selected::All => true,
            Selected::Only(agents) => agents.contains(route.loader),
        }
    }

    pub open spec fn source_fits(self, route: RouteContext) -> bool {
        match self.sources {
            Selected::All => true,
            Selected::Only(scopes) => exists|i: int|
                0 <= i < scopes.len() && #[trigger] covered(scopes[i], route.source),
        }
    }

    pub open spec fn destination_fits(self, route: RouteContext) -> bool {
        match self.destinations {
            Selected::All => true,
            Selected::Only(ids) => ids.contains(route.destination),
        }
    }

    /// The rule speaks of a movement: any of the listed in each selection, and
    /// all selections at once.
    pub open spec fn fits(self, route: RouteContext) -> bool {
        self.enabled && self.loader_fits(route) && self.source_fits(route) && self.destination_fits(route)
    }

    pub open spec fn loader_items(self) -> Seq<Hashed> {
        match self.loaders {
            Selected::All => seq![Hashed::Byte(0)],
            Selected::Only(agents) => seq![
                Hashed::Byte(1),
                Hashed::Numbers(Seq::new(agents.len(), |i: int| agents[i].0)),
            ],
        }
    }

    pub open spec fn source_items(self) -> Seq<Hashed> {
        match self.sources {
            Selected::All => seq![Hashed::Byte(0)],
            Selected::Only(scopes) => seq![Hashed::Byte(1)] + flat(scopes.len(), scope_items(scopes)),
        }
    }

    pub open spec fn destination_items(self) -> Seq<Hashed> {
        match self.destinations {
            Selected::All => seq![Hashed::Byte(0)],
            Selected::Only(ids) => seq![Hashed::Byte(1), Hashed::Numbers(Seq::new(ids.len(), |i: int| ids[i].0))],
        }
    }

    /// What goes into the fingerprint of a rule.
    pub open spec fn items(self) -> Seq<Hashed> {
        seq![Hashed::Number(self.id.0), Hashed::Flag(self.enabled), Hashed::Text(self.name)] + self.loader_items()
            + self.source_items() + self.destination_items() + seq![
            Hashed::Numbers(Seq::new(self.classes.len(), |i: int| self.classes[i].0)),
        ]
    }
}

/// Adds one item.
pub fn push_item(items: &mut Vec<HashItem>, item: HashItem)
    ensures
        items_of(final(items)@) == items_of(old(items)@).push(item@),
{
    items.push(item);
    assert(items_of(items@) =~= items_of(old(items)@).push(item@));
}

impl TruckingRule {
    /// A copy under another id and name.
    pub fn copy_as(&self, id: TruckingRuleId, name: String) -> (r: Self)
        ensures
            r@ == (RuleView { id, name, ..self@ }),
    {
        TruckingRule {
            id,
            enabled: self.enabled,
            name,
            loaders: self.loaders.copy(),
            sources: self.sources.copy(),
            destinations: self.destinations.copy(),
            classes: crate::listing::copied(&self.classes),
        }
    }

    fn does_loader_fit(&self, route: &RouteContext) -> (r: bool)
        ensures
            r == self@.loader_fits(*route),
    {
        match &self.loaders {
            LoaderSelection::All => true,
            LoaderSelection::Only(agents) => {
                for i in 0..agents.len()
                    invariant
                        self@.loaders == Selected::Only(agents@),
                        forall|j: int| 0 <= j < i ==> !((#[trigger] agents@[j]) == route.loader),
                {
                    if agents[i] == route.loader {
                        assert(agents@[i as int] == route.loader);
                        return true;
                    }
                }
                false
            },
        }
    }

    fn does_source_fit(&self, route: &RouteContext) -> (r: bool)
        ensures
            r == self@.source_fits(*route),
    {
        match &self.sources {
            MovementSourceSelection::All => true,
            MovementSourceSelection::Only(scopes) => {
                for i in 0..scopes.len()
                    invariant
                        self@.sources == Selected::Only(scopes@),
                        forall|j: int| 0 <= j < i ==> !#[trigger] covered(scopes@[j], route.source),
                {
                    if scope_covers(scopes[i], &route.source) {
                        assert(scopes@[i as int] == scopes[i as int]);
                        assert(covered(scopes@[i as int], route.source));
                        assert(exists|j: int| 0 <= j < scopes@.len() && #[trigger] covered(scopes@[j], route.source));
                        assert(self@.sources->Only_0 == scopes@);
                        assert(self@.source_fits(*route));
                        return true;
                    }
                }
                false
            },
        }
    }

    fn does_destination_fit(&self, route: &RouteContext) -> (r: bool)
        ensures
            r == self@.destination_fits(*route),
    {
        match &self.destinations {
            DestinationSelection::All => true,
            DestinationSelection::Only(ids) => {
                for i in 0..ids.len()
                    invariant
                        self@.destinations == Selected::Only(ids@),
                        forall|j: int| 0 <= j < i ==> !((#[trigger] ids@[j]) == route.destination),
                {
                    if ids[i] == route.destination {
                        assert(ids@[i as int] == route.destination);
                        return true;
                    }
                }
                false
            },
        }
    }

    /// Whether this rule speaks of a movement.
    pub fn matches(&self, route: &RouteContext) -> (r: bool)
        ensures
            r == self@.fits(*route),
    {
        self.enabled && self.does_loader_fit(route) && self.does_source_fit(route) && self.does_destination_fit(route)
    }

    /// What goes into the fingerprint of this rule.
    pub fn hash_content_public(&self) -> (r: Vec<HashItem>)
        ensures
            items_of(r@) == self@.items(),
    {
        let mut items: Vec<HashItem> = Vec::new();
        self.hash_content(&mut items);
        assert(items_of(items@) =~= self@.items());
        items
    }

    /// Adds what goes into the fingerprint of this rule.
    #[verifier::rlimit(50)]
    #[verifier::spinoff_prover]
    pub fn hash_content(&self, items: &mut Vec<HashItem>)
        ensures
            items_of(final(items)@) == items_of(old(items)@) + self@.items(),
    {
        let ghost base = items_of(items@);
        push_item(items, HashItem::Number(self.id.0));
        push_item(items, HashItem::Flag(self.enabled));
        push_item(items, HashItem::Text(self.name.clone()));
        let ghost head = seq![
            Hashed::Number(self@.id.0),
            Hashed::Flag(self@.enabled),
            Hashed::Text(self@.name),
        ];
        assert(items_of(items@) =~= base + head);
        match &self.loaders {
            LoaderSelection::All => {
                push_item(items, HashItem::Byte(0));
            },
            LoaderSelection::Only(agents) => {
                push_item(items, HashItem::Byte(1));
                let mut numbers: Vec<u64> = Vec::new();
                for i in 0..agents.len()
                    invariant
                        numbers@ =~= Seq::new(i as nat, |j: int| agents@[j].0),
                {
                    numbers.push(agents[i].0);
                }
                assert(numbers@ =~= Seq::new(agents@.len(), |j: int| agents@[j].0));
                push_item(items, HashItem::Numbers(numbers));
            },
        }
        let ghost so_far = head + self@.loader_items();
        assert(items_of(items@) =~= base + so_far);
        match &self.sources {
            MovementSourceSelection::All => {
                push_item(items, HashItem::Byte(0));
            },
            MovementSourceSelection::Only(scopes) => {
                push_item(items, HashItem::Byte(1));
                let ghost f = scope_items(scopes@);
                let ghost start = base + so_far + seq![Hashed::Byte(1)];
                assert(start + flat(0, f) =~= start);
                assert(items_of(items@) =~= start);
                for i in 0..scopes.len()
                    invariant
                        f == scope_items(scopes@),
                        items_of(items@) == start + flat(i as nat, f),
                {
                    match scopes[i] {
                        MovementSourceScope::Ground(ground) => {
                            push_item(items, HashItem::Byte(0));
                            push_item(items, HashItem::Scope(ground.key));
                        },
                        MovementSourceScope::Stockpile(id) => {
                            push_item(items, HashItem::Byte(1));
                            push_item(items, HashItem::Number(id.0));
                        },
                    }
                    assert(items_of(items@) =~= start + (flat(i as nat, f) + f(i as int)));
                }
            },
        }
        assert(items_of(items@) =~= base + (so_far + self@.source_items()));
        let ghost so_far = so_far + self@.source_items();
        match &self.destinations {
            DestinationSelection::All => {
                push_item(items, HashItem::Byte(0));
            },
            DestinationSelection::Only(ids) => {
                push_item(items, HashItem::Byte(1));
                let mut numbers: Vec<u64> = Vec::new();
                for i in 0..ids.len()
                    invariant
                        numbers@ =~= Seq::new(i as nat, |j: int| ids@[j].0),
                {
                    numbers.push(ids[i].0);
                }
                assert(numbers@ =~= Seq::new(ids@.len(), |j: int| ids@[j].0));
                push_item(items, HashItem::Numbers(numbers));
            },
        }
        assert(items_of(items@) =~= base + (so_far + self@.destination_items()));
        let ghost so_far = so_far + self@.destination_items();
        let mut numbers: Vec<u64> = Vec::new();
        for i in 0..self.classes.len()
            invariant
                numbers@ =~= Seq::new(i as nat, |j: int| self.classes@[j].0),
        {
            numbers.push(self.classes[i].0);
        }
        assert(numbers@ =~= Seq::new(self@.classes.len(), |j: int| self@.classes[j].0));
        push_item(items, HashItem::Numbers(numbers));
        assert(items_of(items@) =~= base + self@.items());
    }
}

/// A setting that is on unless it is turned off.
pub fn yes() -> (r: bool)
    ensures
        r,
{
    true
}

} // verus!
