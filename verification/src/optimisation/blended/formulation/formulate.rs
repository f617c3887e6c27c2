//! The whole model of a blended optimisation.
use vstd::prelude::*;

use crate::cancellation::CancellationToken;
use crate::listing::flat;
use crate::optimisation::blended::formulation::base::{segments_of, writable, Formulation};
use crate::optimisation::blended::formulation::model::{Line, Sheet};
use crate::optimisation::blended::input::BlendInput;
use crate::scalar::Scalar;

verus! {

/// Writing the model was stopped.
#[derive(Clone, Copy, Debug, PartialEq, Eq, Structural)]
pub struct FormulationCancelled;

impl<'a, N: Scalar> Formulation<'a, N> {
    pub open spec fn pile_lines(self) -> spec_fn(int) -> Seq<Line<N>> {
        |p: int|
            if self.chunk_count(p) == 0 {
                self.plain_pile(p)
            } else {
                self.chunked_pile(p)
            }
    }

    /// Every line of the model.
    pub open spec fn lines(self) -> Seq<Line<N>> {
        self.cell_lines() + flat(self.input.piles@.len(), self.pile_lines()) + self.rule_lines() + flat(
            self.route_rules().len(),
            self.route_lines(),
        ) + flat(self.input.conditional_values@.len(), self.payment_lines()) + flat(
            self.input.loaders@.len(),
            self.source_lines(),
        )
    }

    fn write_piles(&self, sheet: &mut Sheet<N>)
        requires
            self.ready_to_write(),
        ensures
            final(sheet)@ == old(sheet)@ + flat(self.input.piles@.len(), self.pile_lines()),
    {
        let ghost base = sheet@;
        let ghost all = self.pile_lines();
        assert(base + flat(0, all) =~= base);
        for p in 0..self.input.piles.len()
            invariant
                self.ready_to_write(),
                all == self.pile_lines(),
                sheet@ == base + flat(p as nat, all),
        {
            if self.input.piles[p].chunks.len() == 0 {
                self.write_plain_pile(sheet, p);
            } else {
                self.write_chunked_pile(sheet, p);
            }
            assert(sheet@ =~= base + (flat(p as nat, all) + all(p as int)));
        }
    }
}

/// Every line of the model of an input.
pub open spec fn model_of<N: Scalar>(input: BlendInput<N>) -> Seq<Line<N>> {
    (Formulation { input: &input, segments: segments_of(input) }).lines()
}

fn stopped(cancel: Option<&CancellationToken>) -> (r: bool)
    ensures
        cancel is None ==> !r,
{
    match cancel {
        Some(token) => token.is_cancelled(),
        None => false,
    }
}

/// Writes the model of an input. It gives up where it sees, between two parts
/// of the model, that it is asked to stop; a model that is returned is whole.
pub fn formulate<N: Scalar>(input: &BlendInput<N>, cancel: Option<&CancellationToken>) -> (r: Result<
    Sheet<N>,
    FormulationCancelled,
>)
    requires
        writable(*input),
    ensures
        cancel is None ==> r is Ok,
        r matches Ok(sheet) ==> sheet@ == model_of(*input),
{
    let segments: usize = if input.segments_per_interval < 1 {
        1
    } else {
        input.segments_per_interval
    };
    let formulation = Formulation { input, segments };
    let mut sheet: Sheet<N> = Sheet::new();
    if stopped(cancel) {
        return Err(FormulationCancelled);
    }
    formulation.write_cells(&mut sheet);
    if stopped(cancel) {
        return Err(FormulationCancelled);
    }
    formulation.write_piles(&mut sheet);
    if stopped(cancel) {
        return Err(FormulationCancelled);
    }
    formulation.write_rules(&mut sheet);
    if stopped(cancel) {
        return Err(FormulationCancelled);
    }
    formulation.write_routes(&mut sheet);
    if stopped(cancel) {
        return Err(FormulationCancelled);
    }
    formulation.write_payments(&mut sheet);
    if stopped(cancel) {
        return Err(FormulationCancelled);
    }
    formulation.write_sources(&mut sheet);
    assert(sheet@ =~= formulation.lines());
    Ok(sheet)
}

} // verus!
