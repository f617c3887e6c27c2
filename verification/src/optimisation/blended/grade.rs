//! Grades: which reserve fields can be blended, and the grade of every material.
use vstd::prelude::*;

use crate::ledger::{held_under, Ledger};
use crate::listing::first_from;
use crate::optimisation::ids::MaterialId;
use crate::scalar::{Scalar, Shown};
use crate::text::{decimal_digits, decimal_text};

verus! {

#[derive(Clone, Copy, Debug, PartialEq, Eq, Structural, PartialOrd, Ord, Hash)]
pub struct ReserveFieldId(pub u64);

/// How a reserve field is put together from its parts.
#[derive(Clone, Copy, Debug, PartialEq, Eq, Structural)]
pub enum ReserveAggregation {
    Sum,
    WeightedAverage { weight_field: ReserveFieldId },
    Category,
}

#[derive(Clone, Debug)]
pub struct ReserveField {
    pub id: ReserveFieldId,
    pub name: String,
    pub aggregation: ReserveAggregation,
}

/// The unit a grade is given in.
#[derive(Clone, Copy, Debug, PartialEq, Eq, Structural)]
pub enum GradeBasis {
    Fraction,
    Percent,
}

impl GradeBasis {
    pub open spec fn fraction_of<N: Scalar>(self, value: N) -> N {
        match self {
            GradeBasis::Fraction => value,
            GradeBasis::Percent => value.over(N::of_whole(100)),
        }
    }

    /// A value in this unit as a fraction of one.
    pub fn to_fraction<N: Scalar>(self, value: N) -> (r: N)
        ensures
            r == self.fraction_of(value),
    {
        match self {
            GradeBasis::Fraction => value,
            GradeBasis::Percent => value.div(N::whole(100)),
        }
    }
}

/// Why a field or a value cannot be blended.
#[derive(Clone, Debug)]
pub enum GradeRejection<N> {
    UnknownField(ReserveFieldId),
    Categorical { field: String },
    Summed { field: String },
    ForeignWeight { field: String, weight: String, wanted: String },
    NoTonnageBasis,
    MissingValue { field: String, material: MaterialId },
    OutOfRange { field: String, material: MaterialId, value: N },
}

/// A rejection, with its names as characters.
pub enum Refusal<N> {
    UnknownField(ReserveFieldId),
    Categorical { field: Seq<char> },
    Summed { field: Seq<char> },
    ForeignWeight { field: Seq<char>, weight: Seq<char>, wanted: Seq<char> },
    NoTonnageBasis,
    MissingValue { field: Seq<char>, material: MaterialId },
    OutOfRange { field: Seq<char>, material: MaterialId, value: N },
}

impl<N> View for GradeRejection<N> {
    type V = Refusal<N>;

    open spec fn view(&self) -> Refusal<N> {
        match self {
            GradeRejection::UnknownField(id) => Refusal::UnknownField(*id),
            GradeRejection::Categorical { field } => Refusal::Categorical { field: field@ },
            GradeRejection::Summed { field } => Refusal::Summed { field: field@ },
            GradeRejection::ForeignWeight { field, weight, wanted } => Refusal::ForeignWeight {
                field: field@,
                weight: weight@,
                wanted: wanted@,
            },
            GradeRejection::NoTonnageBasis => Refusal::NoTonnageBasis,
            GradeRejection::MissingValue { field, material } => Refusal::MissingValue {
                field: field@,
                material: *material,
            },
            GradeRejection::OutOfRange { field, material, value } => Refusal::OutOfRange {
                field: field@,
                material: *material,
                value: *value,
            },
        }
    }
}

impl<N> Refusal<N> {
    /// The rejection in words, where a value out of range reads as `shown`.
    pub open spec fn words_with(self, shown: Seq<char>) -> Seq<char> {
        match self {
            Refusal::UnknownField(id) => "reserve field "@ + decimal_digits(id.0 as nat)
                + " is not defined on this project"@,
            Refusal::Categorical { field } => "'"@ + field
                + "' is a category field, not a grade; a blended stockpile needs a numeric tonnes-weighted grade"@,
            Refusal::Summed { field } => "'"@ + field
                + "' is a summed quantity, not a grade; blending it would average a total. Use the weighted-average field it is a total of"@,
            Refusal::ForeignWeight { field, weight, wanted } => "'"@ + field + "' is weighted by '"@ + weight
                + "', but the schedule's tonnage basis is '"@ + wanted
                + "', so grade x tonnes is not its contained quantity"@,
            Refusal::NoTonnageBasis =>
                "the schedule plan has no tonnage field configured, so no grade's weighting can be verified"@,
            Refusal::MissingValue { field, material } => "material "@ + decimal_digits(material.0 as nat) + " has no '"@
                + field + "' value; a missing grade cannot be treated as zero in a blend"@,
            Refusal::OutOfRange { field, material, value: _ } => "material "@ + decimal_digits(material.0 as nat)
                + "'s '"@ + field + "' value "@ + shown + " is outside the range its declared unit allows"@,
        }
    }
}

impl<N: Shown> Refusal<N> {
    /// The rejection in words.
    pub open spec fn words(self) -> Seq<char> {
        match self {
            Refusal::OutOfRange { field: _, material: _, value } => self.words_with(value.shown()),
            _ => self.words_with(""@),
        }
    }
}

impl<N: Shown> GradeRejection<N> {
    /// Says why.
    pub fn message(&self) -> (r: String)
        ensures
            r@ == self@.words(),
    {
        match self {
            GradeRejection::OutOfRange { field: _, material: _, value } => self.message_with(value.text().as_str()),
            _ => self.message_with(""),
        }
    }
}

impl<N> GradeRejection<N> {
    /// Says why, where a value out of range reads as `shown`.
    pub fn message_with(&self, shown: &str) -> (r: String)
        ensures
            r@ == self@.words_with(shown@),
    {
        match self {
            GradeRejection::UnknownField(id) => String::from_str("reserve field ").concat(
                decimal_text(id.0).as_str(),
            ).concat(" is not defined on this project"),
            GradeRejection::Categorical { field } => String::from_str("'").concat(field.as_str()).concat(
                "' is a category field, not a grade; a blended stockpile needs a numeric tonnes-weighted grade",
            ),
            GradeRejection::Summed { field } => String::from_str("'").concat(field.as_str()).concat(
                "' is a summed quantity, not a grade; blending it would average a total. Use the weighted-average field it is a total of",
            ),
            GradeRejection::ForeignWeight { field, weight, wanted } => String::from_str("'").concat(
                field.as_str(),
            ).concat("' is weighted by '").concat(weight.as_str()).concat(
                "', but the schedule's tonnage basis is '",
            ).concat(wanted.as_str()).concat("', so grade x tonnes is not its contained quantity"),
            GradeRejection::NoTonnageBasis => String::from_str(
                "the schedule plan has no tonnage field configured, so no grade's weighting can be verified",
            ),
            GradeRejection::MissingValue { field, material } => String::from_str("material ").concat(
                decimal_text(material.0 as u64).as_str(),
            ).concat(" has no '").concat(field.as_str()).concat(
                "' value; a missing grade cannot be treated as zero in a blend",
            ),
            GradeRejection::OutOfRange { field, material, value: _ } => String::from_str("material ").concat(
                decimal_text(material.0 as u64).as_str(),
            ).concat("'s '").concat(field.as_str()).concat("' value ").concat(shown).concat(
                " is outside the range its declared unit allows",
            ),
        }
    }
}

/// A field that is blended.
#[derive(Clone, Debug)]
pub struct GradeField {
    pub field: ReserveFieldId,
    pub name: String,
    pub basis: GradeBasis,
}

/// The index of the first field from `i` on with the id.
pub open spec fn field_from(fields: Seq<ReserveField>, id: ReserveFieldId, i: int) -> Option<int>
    decreases fields.len() - i,
{
    if i >= fields.len() {
        None
    } else if fields[i].id == id {
        Some(i)
    } else {
        field_from(fields, id, i + 1)
    }
}

/// The name of a field, or what it is called where it has none.
pub open spec fn field_name(fields: Seq<ReserveField>, id: ReserveFieldId) -> Seq<char> {
    match field_from(fields, id, 0) {
        Some(i) => fields[i].name@,
        None => "field "@ + decimal_digits(id.0 as nat),
    }
}

/// Why a field cannot be blended against a tonnage field.
pub open spec fn field_refusal<N>(
    field: ReserveFieldId,
    fields: Seq<ReserveField>,
    tonnage: Option<ReserveFieldId>,
) -> Option<Refusal<N>> {
    match field_from(fields, field, 0) {
        None => Some(Refusal::UnknownField(field)),
        Some(i) => match tonnage {
            None => Some(Refusal::NoTonnageBasis),
            Some(basis) => match fields[i].aggregation {
                ReserveAggregation::Category => Some(Refusal::Categorical { field: fields[i].name@ }),
                ReserveAggregation::Sum => Some(Refusal::Summed { field: fields[i].name@ }),
                ReserveAggregation::WeightedAverage { weight_field } => if weight_field == basis {
                    None
                } else {
                    Some(
                        Refusal::ForeignWeight {
                            field: fields[i].name@,
                            weight: field_name(fields, weight_field),
                            wanted: field_name(fields, basis),
                        },
                    )
                },
            },
        },
    }
}

fn find_field(fields: &Vec<ReserveField>, id: ReserveFieldId) -> (r: Option<usize>)
    ensures
        r matches Some(i) ==> i < fields@.len() && field_from(fields@, id, 0) == Some(i as int),
        r is None ==> field_from(fields@, id, 0) is None,
{
    for i in 0..fields.len()
        invariant
            field_from(fields@, id, 0) == field_from(fields@, id, i as int),
    {
        if fields[i].id == id {
            return Some(i);
        }
    }
    None
}

fn name_field(fields: &Vec<ReserveField>, id: ReserveFieldId) -> (r: String)
    ensures
        r@ == field_name(fields@, id),
{
    match find_field(fields, id) {
        Some(i) => fields[i].name.clone(),
        None => String::from_str("field ").concat(decimal_text(id.0).as_str()),
    }
}

impl GradeField {
    /// Takes a field for blending: one that is averaged by the tonnage field.
    pub fn accept<N: Scalar>(
        field: ReserveFieldId,
        basis: GradeBasis,
        fields: &Vec<ReserveField>,
        tonnage: Option<ReserveFieldId>,
    ) -> (r: Result<Self, GradeRejection<N>>)
        ensures
            match field_refusal::<N>(field, fields@, tonnage) {
                Some(refusal) => r is Err && r->Err_0@ == refusal,
                None => r matches Ok(taken) && taken.field == field && taken.basis == basis && taken.name@ == field_name(
                    fields@,
                    field,
                ),
            },
    {
        let at: usize = match find_field(fields, field) {
            Some(i) => i,
            None => {
                return Err(GradeRejection::UnknownField(field));
            },
        };
        let name = fields[at].name.clone();
        let wanted = match tonnage {
            Some(id) => id,
            None => {
                return Err(GradeRejection::NoTonnageBasis);
            },
        };
        match fields[at].aggregation {
            ReserveAggregation::Category => Err(GradeRejection::Categorical { field: name }),
            ReserveAggregation::Sum => Err(GradeRejection::Summed { field: name }),
            ReserveAggregation::WeightedAverage { weight_field } => if weight_field == wanted {
                Ok(GradeField { field, name, basis })
            } else {
                Err(
                    GradeRejection::ForeignWeight {
                        field: name,
                        weight: name_field(fields, weight_field),
                        wanted: name_field(fields, wanted),
                    },
                )
            },
        }
    }
}

/// The grade of every material, as fractions of one.
#[derive(Clone, Debug)]
pub struct GradeTable<N> {
    pub fields: Vec<GradeField>,
    pub values: Ledger<MaterialId, Vec<N>>,
}

/// A value that can stand in the table: present, finite and between nothing
/// and everything.
pub open spec fn value_refusal<N: Scalar>(
    fields: Seq<GradeField>,
    material: MaterialId,
    raw: Seq<Option<N>>,
) -> spec_fn(int) -> Option<Refusal<N>> {
    |p: int|
        if p >= raw.len() || raw[p] is None || !raw[p]->0.finite() {
            Some(Refusal::MissingValue { field: fields[p].name@, material })
        } else {
            let fraction = fields[p].basis.fraction_of(raw[p]->0);
            if N::of_whole(0).at_most(fraction) && fraction.at_most(N::of_whole(1)) {
                None
            } else {
                Some(Refusal::OutOfRange { field: fields[p].name@, material, value: raw[p]->0 })
            }
        }
}

pub open spec fn row_refusal<N: Scalar>(
    fields: Seq<GradeField>,
    captured: Seq<(MaterialId, Vec<Option<N>>)>,
) -> spec_fn(int) -> Option<Refusal<N>> {
    |i: int| first_from(0, fields.len() as int, value_refusal(fields, captured[i].0, captured[i].1@))
}

/// The grades of one material as fractions.
pub open spec fn row_fractions<N: Scalar>(fields: Seq<GradeField>, raw: Seq<Option<N>>) -> Seq<N> {
    Seq::new(fields.len(), |p: int| fields[p].basis.fraction_of(raw[p]->0))
}

/// The largest grade among the first `n` materials, at least zero.
pub open spec fn peak_to<N: Scalar>(values: Seq<(MaterialId, Vec<N>)>, grade: int, n: nat) -> N
    decreases n,
{
    if n == 0 {
        N::of_whole(0)
    } else {
        let before = peak_to(values, grade, (n - 1) as nat);
        if grade < values[n - 1].1@.len() {
            before.upper(values[n - 1].1@[grade])
        } else {
            before
        }
    }
}

impl<N: Scalar> GradeTable<N> {
    /// The table holds what was captured, as fractions.
    pub open spec fn holds(self, fields: Seq<GradeField>, captured: Seq<(MaterialId, Vec<Option<N>>)>) -> bool {
        &&& self.fields@ == fields
        &&& self.values@.len() == captured.len()
        &&& forall|i: int|
            0 <= i < captured.len() ==> (#[trigger] self.values@[i]).0 == captured[i].0 && self.values@[i].1@
                == row_fractions(fields, captured[i].1@)
    }

    /// Builds the table from captured values, or says which is missing or out
    /// of range.
    pub fn build(fields: Vec<GradeField>, captured: &Ledger<MaterialId, Vec<Option<N>>>) -> (r: Result<
        Self,
        GradeRejection<N>,
    >)
        ensures
            match first_from(0, captured@.len() as int, row_refusal(fields@, captured@)) {
                Some(refusal) => r is Err && r->Err_0@ == refusal,
                None => r is Ok && r->Ok_0.fields == fields && r->Ok_0.holds(fields@, captured@),
            },
    {
        let rows = &captured.entries;
        let mut values: Ledger<MaterialId, Vec<N>> = Ledger { entries: Vec::new() };
        let ghost wrong = row_refusal(fields@, captured@);
        for i in 0..rows.len()
            invariant
                rows@ == captured@,
                wrong == row_refusal(fields@, captured@),
                first_from(0, captured@.len() as int, wrong) == first_from(i as int, captured@.len() as int, wrong),
                values@.len() == i,
                forall|k: int|
                    0 <= k < i ==> (#[trigger] values@[k]).0 == captured@[k].0 && values@[k].1@ == row_fractions(
                        fields@,
                        captured@[k].1@,
                    ),
        {
            let material = rows[i].0;
            let raw = &rows[i].1;
            let mut row: Vec<N> = Vec::new();
            let ghost amiss = value_refusal(fields@, material, raw@);
            for p in 0..fields.len()
                invariant
                    i < captured@.len(),
                    rows@ == captured@,
                    material == captured@[i as int].0,
                    raw == captured@[i as int].1,
                    wrong == row_refusal(fields@, captured@),
                    first_from(0, captured@.len() as int, wrong) == first_from(i as int, captured@.len() as int, wrong),
                    amiss == value_refusal(fields@, material, raw@),
                    first_from(0, fields@.len() as int, amiss) == first_from(p as int, fields@.len() as int, amiss),
                    row@ == row_fractions(fields@, raw@).take(p as int),
            {
                let found: Option<N> = if p < raw.len() {
                    raw[p]
                } else {
                    None
                };
                match found {
                    Some(value) => {
                        if !value.is_finite() {
                            assert(amiss(p as int) is Some);
                            assert(wrong(i as int) is Some);
                            return Err(GradeRejection::MissingValue { field: fields[p].name.clone(), material });
                        }
                        let fraction = fields[p].basis.to_fraction(value);
                        if !(N::whole(0).is_at_most(fraction) && fraction.is_at_most(N::whole(1))) {
                            assert(amiss(p as int) is Some);
                            assert(wrong(i as int) is Some);
                            return Err(GradeRejection::OutOfRange { field: fields[p].name.clone(), material, value });
                        }
                        row.push(fraction);
                        assert(row@ =~= row_fractions(fields@, raw@).take(p + 1));
                    },
                    None => {
                        assert(amiss(p as int) is Some);
                        assert(wrong(i as int) is Some);
                        return Err(GradeRejection::MissingValue { field: fields[p].name.clone(), material });
                    },
                }
            }
            assert(row@ =~= row_fractions(fields@, raw@));
            assert(wrong(i as int) is None);
            values.entries.push((material, row));
        }
        Ok(GradeTable { fields, values })
    }

    /// How many grades are blended.
    pub fn count(&self) -> (r: usize)
        ensures
            r == self.fields@.len(),
    {
        self.fields.len()
    }

    pub open spec fn fraction_at(self, material: MaterialId, grade: int) -> Option<N> {
        match held_under(self.values@, material) {
            Some(row) => if grade < row@.len() {
                Some(row@[grade])
            } else {
                None
            },
            None => None,
        }
    }

    /// The grade of a material, where it is known.
    pub fn fraction(&self, material: MaterialId, grade: usize) -> (r: Option<N>)
        ensures
            r == self.fraction_at(material, grade as int),
    {
        match self.values.find(material) {
            Some(row) => if grade < row.len() {
                Some(row[grade])
            } else {
                None
            },
            None => None,
        }
    }

    /// The largest value of a grade.
    pub fn ceiling(&self, grade: usize) -> (r: N)
        ensures
            r == peak_to(self.values@, grade as int, self.values@.len()),
    {
        let rows = &self.values.entries;
        let mut peak = N::whole(0);
        for i in 0..rows.len()
            invariant
                rows@ == self.values@,
                peak == peak_to(self.values@, grade as int, i as nat),
        {
            let row = &rows[i].1;
            if grade < row.len() {
                peak = peak.larger(row[grade]);
            }
        }
        peak
    }

    /// The largest value of every grade.
    pub fn ceilings(&self) -> (r: Vec<N>)
        ensures
            r@ == Seq::new(self.fields@.len(), |grade: int| peak_to(self.values@, grade, self.values@.len())),
    {
        let mut out: Vec<N> = Vec::new();
        for grade in 0..self.fields.len()
            invariant
                out@ =~= Seq::new(grade as nat, |g: int| peak_to(self.values@, g, self.values@.len())),
        {
            out.push(self.ceiling(grade));
        }
        out
    }
}

/// Every grade that a table takes from captured values lies between nothing
/// and everything, however it was written.
pub proof fn grades_within<N: Scalar>(
    fields: Seq<GradeField>,
    captured: Seq<(MaterialId, Vec<Option<N>>)>,
    i: int,
    p: int,
)
    requires
        first_from(0, captured.len() as int, row_refusal(fields, captured)) is None,
        0 <= i < captured.len(),
        0 <= p < fields.len(),
    ensures
        N::of_whole(0).at_most(row_fractions(fields, captured[i].1@)[p]),
        row_fractions(fields, captured[i].1@)[p].at_most(N::of_whole(1)),
{
    none_of(0, captured.len() as int, row_refusal(fields, captured), i);
    none_of(0, fields.len() as int, value_refusal(fields, captured[i].0, captured[i].1@), p);
}

proof fn none_of<E>(i: int, n: int, f: spec_fn(int) -> Option<E>, k: int)
    requires
        first_from(i, n, f) is None,
        i <= k < n,
    ensures
        f(k) is None,
    decreases n - i,
{
    if i < k {
        none_of(i + 1, n, f, k);
    }
}

/// The values of a grade in a table are numbers.
spec fn graded<N: Scalar>(values: Seq<(MaterialId, Vec<N>)>, grade: int) -> bool {
    forall|i: int|
        0 <= i < values.len() && grade < (#[trigger] values[i]).1@.len() ==> values[i].1@[grade].number()
}

/// The ceiling of a grade in a table that was built is the highest value that
/// any material has, and nothing where there are no materials.
pub proof fn ceiling_is_highest<N: Scalar>(
    fields: Seq<GradeField>,
    captured: Seq<(MaterialId, Vec<Option<N>>)>,
    table: GradeTable<N>,
    grade: int,
)
    requires
        first_from(0, captured.len() as int, row_refusal(fields, captured)) is None,
        table.holds(fields, captured),
        0 <= grade < fields.len(),
    ensures
        ({
            let values = table.values@;
            let ceiling = peak_to(values, grade, values.len());
            &&& N::of_whole(0).at_most(ceiling)
            &&& forall|i: int| 0 <= i < values.len() ==> (#[trigger] values[i]).1@[grade].at_most(ceiling)
            &&& values.len() > 0 ==> exists|i: int|
                0 <= i < values.len() && (#[trigger] values[i]).1@[grade].same(ceiling)
            &&& values.len() == 0 ==> ceiling == N::of_whole(0)
        }),
{
    let values = table.values@;
    let zero = N::of_whole(0);
    assert forall|i: int| 0 <= i < values.len() implies {
        let value = (#[trigger] values[i]).1@[grade];
        value.number() && zero.at_most(value)
    } by {
        grades_within(fields, captured, i, grade);
        N::comparison_laws(zero, values[i].1@[grade], zero);
    }
    ceiling_is_reached(values, grade, values.len());
    let ceiling = peak_to(values, grade, values.len());
    N::comparison_laws(ceiling, ceiling, ceiling);
    N::comparison_laws(zero, zero, zero);
    if values.len() > 0 {
        if ceiling == zero {
            let value = values[0].1@[grade];
            N::comparison_laws(value, ceiling, ceiling);
        } else {
            let i = choose|i: int|
                0 <= i < values.len() && grade < (#[trigger] values[i]).1@.len() && values[i].1@[grade] == ceiling;
            assert(values[i].1@[grade].same(ceiling));
        }
    }
}

/// No material exceeds the ceiling of a grade, and the ceiling is reached: it is
/// the value of some material, or nothing where none has more.
proof fn ceiling_is_reached<N: Scalar>(values: Seq<(MaterialId, Vec<N>)>, grade: int, n: nat)
    requires
        0 <= grade,
        n <= values.len(),
        graded(values, grade),
    ensures
        forall|i: int|
            0 <= i < n && grade < (#[trigger] values[i]).1@.len() ==> values[i].1@[grade].at_most(
                peak_to(values, grade, n),
            ),
        N::of_whole(0).at_most(peak_to(values, grade, n)),
        peak_to(values, grade, n).number(),
        peak_to(values, grade, n) == N::of_whole(0) || exists|i: int|
            0 <= i < n && grade < (#[trigger] values[i]).1@.len() && values[i].1@[grade] == peak_to(values, grade, n),
    decreases n,
{
    N::comparison_laws(N::of_whole(0), N::of_whole(0), N::of_whole(0));
    if n > 0 {
        let m = (n - 1) as nat;
        ceiling_is_reached(values, grade, m);
        let before = peak_to(values, grade, m);
        let now = peak_to(values, grade, n);
        if grade < values[n - 1].1@.len() {
            let next = values[n - 1].1@[grade];
            assert(values[n - 1].1@[grade].number());
            N::comparison_laws(before, next, next);
            N::comparison_laws(N::of_whole(0), before, now);
            assert forall|i: int| 0 <= i < n && grade < (#[trigger] values[i]).1@.len() implies values[i].1@[grade].at_most(
                now,
            ) by {
                if i < n - 1 {
                    N::comparison_laws(values[i].1@[grade], before, now);
                }
            }
        }
    }
}

} // verus!
