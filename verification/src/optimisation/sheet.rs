//! A model for a solver: columns, rows and the sheet they are written on.
//! Columns are known by what they stand for.
use vstd::prelude::*;

use crate::listing::{count_to, count_within, flat};
use crate::optimisation::ids::StockpileId;
use crate::scalar::Scalar;

verus! {

/// Something written on the sheet.
#[derive(Clone, Debug)]
pub enum Entry<C, N> {
    /// A column from zero to `upper`, worth `value` a unit.
    Continuous { column: C, upper: N, value: N },
    /// A column that is zero or one.
    Binary { column: C },
    /// A weighted sum held between bounds.
    Row { terms: Vec<(C, N)>, lower: Option<N>, upper: Option<N> },
    /// What is taken of a grade has the share of what is held of it:
    /// `recl_q * open_t == recl_t * open_q`.
    Mix { pile: StockpileId, key: usize, grade: usize, recl_q: C, open_t: C, recl_t: C, open_q: C },
}

/// An entry with its terms as a sequence.
pub enum Line<C, N> {
    Continuous { column: C, upper: N, value: N },
    Binary { column: C },
    Row { terms: Seq<(C, N)>, lower: Option<N>, upper: Option<N> },
    Mix { pile: StockpileId, key: usize, grade: usize, recl_q: C, open_t: C, recl_t: C, open_q: C },
}

impl<C, N> View for Entry<C, N> {
    type V = Line<C, N>;

    open spec fn view(&self) -> Line<C, N> {
        match self {
            Entry::Continuous { column, upper, value } => Line::Continuous {
                column: *column,
                upper: *upper,
                value: *value,
            },
            Entry::Binary { column } => Line::Binary { column: *column },
            Entry::Row { terms, lower, upper } => Line::Row { terms: terms@, lower: *lower, upper: *upper },
            Entry::Mix { pile, key, grade, recl_q, open_t, recl_t, open_q } => Line::Mix {
                pile: *pile,
                key: *key,
                grade: *grade,
                recl_q: *recl_q,
                open_t: *open_t,
                recl_t: *recl_t,
                open_q: *open_q,
            },
        }
    }
}

pub open spec fn continuous<C, N: Scalar>(column: C, upper: N) -> Line<C, N> {
    Line::Continuous { column, upper, value: N::of_whole(0) }
}

pub open spec fn binary<C, N>(column: C) -> Line<C, N> {
    Line::Binary { column }
}

/// A sum that is no more than `bound`.
pub open spec fn at_most_row<C, N>(terms: Seq<(C, N)>, bound: N) -> Line<C, N> {
    Line::Row { terms, lower: None, upper: Some(bound) }
}

/// A sum that is no less than `bound`.
pub open spec fn at_least_row<C, N>(terms: Seq<(C, N)>, bound: N) -> Line<C, N> {
    Line::Row { terms, lower: Some(bound), upper: None }
}

/// A sum that is `value`.
pub open spec fn equal_row<C, N>(terms: Seq<(C, N)>, value: N) -> Line<C, N> {
    Line::Row { terms, lower: Some(value), upper: Some(value) }
}

pub open spec fn one<N: Scalar>() -> N {
    N::of_whole(1)
}

pub open spec fn nil<N: Scalar>() -> N {
    N::of_whole(0)
}

pub open spec fn less_one<N: Scalar>() -> N {
    N::of_whole(1).opposite()
}

/// What the model is written on, in order.
#[derive(Clone, Debug)]
pub struct Sheet<C, N> {
    pub entries: Vec<Entry<C, N>>,
}

impl<C, N> View for Sheet<C, N> {
    type V = Seq<Line<C, N>>;

    open spec fn view(&self) -> Seq<Line<C, N>> {
        Seq::new(self.entries@.len(), |i: int| self.entries@[i]@)
    }
}

impl<C: Copy, N: Scalar> Sheet<C, N> {
    /// An empty sheet.
    pub fn new() -> (r: Self)
        ensures
            r@ == Seq::<Line<C, N>>::empty(),
    {
        let sheet = Sheet { entries: Vec::new() };
        assert(sheet@ =~= Seq::<Line<C, N>>::empty());
        sheet
    }

    fn push(&mut self, entry: Entry<C, N>)
        ensures
            final(self)@ == old(self)@.push(entry@),
    {
        self.entries.push(entry);
        assert(self@ =~= old(self)@.push(entry@));
    }

    /// A column from zero to `upper`, worth `value` a unit.
    pub fn valued(&mut self, column: C, upper: N, value: N)
        ensures
            final(self)@ == old(self)@.push(Line::Continuous { column, upper, value }),
    {
        self.push(Entry::Continuous { column, upper, value });
    }

    /// A column from zero to `upper`.
    pub fn cont(&mut self, column: C, upper: N)
        ensures
            final(self)@ == old(self)@.push(continuous(column, upper)),
    {
        self.push(Entry::Continuous { column, upper, value: N::whole(0) });
    }

    /// A column that is zero or one.
    pub fn binary(&mut self, column: C)
        ensures
            final(self)@ == old(self)@.push(binary(column)),
    {
        self.push(Entry::Binary { column });
    }

    /// A sum held between bounds.
    pub fn row(&mut self, terms: Vec<(C, N)>, lower: Option<N>, upper: Option<N>)
        ensures
            final(self)@ == old(self)@.push(Line::Row { terms: terms@, lower, upper }),
    {
        self.push(Entry::Row { terms, lower, upper });
    }

    /// A sum that is `value`.
    pub fn eq(&mut self, terms: Vec<(C, N)>, value: N)
        ensures
            final(self)@ == old(self)@.push(equal_row(terms@, value)),
    {
        self.push(Entry::Row { terms, lower: Some(value), upper: Some(value) });
    }

    /// A sum that is no more than `bound`.
    pub fn leq(&mut self, terms: Vec<(C, N)>, bound: N)
        ensures
            final(self)@ == old(self)@.push(at_most_row(terms@, bound)),
    {
        self.push(Entry::Row { terms, lower: None, upper: Some(bound) });
    }

    /// A sum that is no less than `bound`.
    pub fn geq(&mut self, terms: Vec<(C, N)>, bound: N)
        ensures
            final(self)@ == old(self)@.push(at_least_row(terms@, bound)),
    {
        self.push(Entry::Row { terms, lower: Some(bound), upper: None });
    }

    /// What is taken of a grade has the share of what is held of it.
    pub fn mix(
        &mut self,
        pile: StockpileId,
        key: usize,
        grade: usize,
        recl_q: C,
        open_t: C,
        recl_t: C,
        open_q: C,
    )
        ensures
            final(self)@ == old(self)@.push(Line::Mix { pile, key, grade, recl_q, open_t, recl_t, open_q }),
    {
        self.push(Entry::Mix { pile, key, grade, recl_q, open_t, recl_t, open_q });
    }
}

/// How large a model is.
#[derive(Clone, Copy, Debug, PartialEq, Eq, Structural)]
pub struct BlendSizes {
    pub variables: usize,
    pub binaries: usize,
    pub linear_constraints: usize,
    pub nonlinear_constraints: usize,
}

pub open spec fn is_column<C, N>(lines: Seq<Line<C, N>>) -> spec_fn(int) -> bool {
    |i: int| lines[i] is Continuous || lines[i] is Binary
}

pub open spec fn is_binary<C, N>(lines: Seq<Line<C, N>>) -> spec_fn(int) -> bool {
    |i: int| lines[i] is Binary
}

/// A row without terms is no constraint.
pub open spec fn is_linear<C, N>(lines: Seq<Line<C, N>>) -> spec_fn(int) -> bool {
    |i: int| lines[i] is Row && lines[i]->terms.len() > 0
}

pub open spec fn is_mix<C, N>(lines: Seq<Line<C, N>>) -> spec_fn(int) -> bool {
    |i: int| lines[i] is Mix
}

impl<C: Copy, N: Scalar> Sheet<C, N> {
    /// How large the model is.
    pub fn sizes(&self) -> (r: BlendSizes)
        ensures
            r.variables == count_to(self@.len(), is_column(self@)),
            r.binaries == count_to(self@.len(), is_binary(self@)),
            r.linear_constraints == count_to(self@.len(), is_linear(self@)),
            r.nonlinear_constraints == count_to(self@.len(), is_mix(self@)),
    {
        let mut sizes = BlendSizes { variables: 0, binaries: 0, linear_constraints: 0, nonlinear_constraints: 0 };
        for i in 0..self.entries.len()
            invariant
                sizes.variables == count_to(i as nat, is_column(self@)),
                sizes.binaries == count_to(i as nat, is_binary(self@)),
                sizes.linear_constraints == count_to(i as nat, is_linear(self@)),
                sizes.nonlinear_constraints == count_to(i as nat, is_mix(self@)),
        {
            proof {
                count_within(i as nat, is_column(self@));
                count_within(i as nat, is_binary(self@));
                count_within(i as nat, is_linear(self@));
                count_within(i as nat, is_mix(self@));
                assert(self@[i as int] == self.entries@[i as int]@);
            }
            match &self.entries[i] {
                Entry::Continuous { .. } => {
                    sizes.variables = sizes.variables + 1;
                },
                Entry::Binary { .. } => {
                    sizes.variables = sizes.variables + 1;
                    sizes.binaries = sizes.binaries + 1;
                },
                Entry::Row { terms, .. } => {
                    if terms.len() > 0 {
                        sizes.linear_constraints = sizes.linear_constraints + 1;
                    }
                },
                Entry::Mix { .. } => {
                    sizes.nonlinear_constraints = sizes.nonlinear_constraints + 1;
                },
            }
        }
        sizes
    }
}

/// The column that a line declares.
pub open spec fn declared<C, N>(lines: Seq<Line<C, N>>) -> spec_fn(int) -> Seq<C> {
    |i: int|
        match lines[i] {
            Line::Continuous { column, .. } => seq![column],
            Line::Binary { column } => seq![column],
            _ => Seq::empty(),
        }
}

/// Which of the declared columns are zero or one.
pub open spec fn declared_binary<C, N>(lines: Seq<Line<C, N>>) -> spec_fn(int) -> Seq<bool> {
    |i: int|
        match lines[i] {
            Line::Continuous { .. } => seq![false],
            Line::Binary { .. } => seq![true],
            _ => Seq::empty(),
        }
}

impl<C: Copy, N: Scalar> Sheet<C, N> {
    /// The columns that are declared, in order.
    pub fn columns(&self) -> (r: Vec<C>)
        ensures
            r@ == flat(self@.len(), declared(self@)),
    {
        let mut out: Vec<C> = Vec::new();
        let ghost f = declared(self@);
        for i in 0..self.entries.len()
            invariant
                f == declared(self@),
                out@ == flat(i as nat, f),
        {
            assert(self@[i as int] == self.entries@[i as int]@);
            match &self.entries[i] {
                Entry::Continuous { column, .. } => {
                    out.push(*column);
                },
                Entry::Binary { column } => {
                    out.push(*column);
                },
                _ => {},
            }
            assert(out@ =~= flat(i as nat, f) + f(i as int));
        }
        out
    }

    /// Which of the declared columns are zero or one, in order.
    pub fn binaries(&self) -> (r: Vec<bool>)
        ensures
            r@ == flat(self@.len(), declared_binary(self@)),
    {
        let mut out: Vec<bool> = Vec::new();
        let ghost f = declared_binary(self@);
        for i in 0..self.entries.len()
            invariant
                f == declared_binary(self@),
                out@ == flat(i as nat, f),
        {
            assert(self@[i as int] == self.entries@[i as int]@);
            match &self.entries[i] {
                Entry::Continuous { .. } => {
                    out.push(false);
                },
                Entry::Binary { .. } => {
                    out.push(true);
                },
                _ => {},
            }
            assert(out@ =~= flat(i as nat, f) + f(i as int));
        }
        out
    }
}

/// One term.
pub fn term<C: Copy, N: Scalar>(column: C, weight: N) -> (r: Vec<(C, N)>)
    ensures
        r@ == seq![(column, weight)],
{
    let mut terms: Vec<(C, N)> = Vec::new();
    terms.push((column, weight));
    assert(terms@ =~= seq![(column, weight)]);
    terms
}

/// Two terms.
pub fn terms_of<C: Copy, N: Scalar>(first: C, a: N, second: C, b: N) -> (r: Vec<(C, N)>)
    ensures
        r@ == seq![(first, a), (second, b)],
{
    let mut terms: Vec<(C, N)> = Vec::new();
    terms.push((first, a));
    terms.push((second, b));
    assert(terms@ =~= seq![(first, a), (second, b)]);
    terms
}

/// Three terms.
pub fn terms_of_three<C: Copy, N: Scalar>(first: C, a: N, second: C, b: N, third: C, c: N) -> (r: Vec<(C, N)>)
    ensures
        r@ == seq![(first, a), (second, b), (third, c)],
{
    let mut terms: Vec<(C, N)> = Vec::new();
    terms.push((first, a));
    terms.push((second, b));
    terms.push((third, c));
    assert(terms@ =~= seq![(first, a), (second, b), (third, c)]);
    terms
}

} // verus!
