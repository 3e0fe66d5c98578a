//! Sweeps and relaxation over a weight matrix, with the numeric kernels handed in.

use crate::activation_function::ActivationFunction;
use crate::random::{each_index_once, lemma_order_in_range, shuffle_indices};
use crate::scalar::Scalar;
use crate::weight_matrix::WeightMatrix;
use rand::rngs::StdRng;
use vstd::prelude::*;

verus! {

/// A kernel can be called on the matrix with every vector of its dimension,
/// and then returns a vector of that dimension.
pub open spec fn kernel_defined<K: Fn(&WeightMatrix, &Vec<Scalar>) -> Vec<Scalar>>(
    kernel: K,
    matrix: WeightMatrix,
) -> bool {
    &&& forall|state: Vec<Scalar>|
        state.len() == matrix.dim() ==> #[trigger] kernel.requires((&matrix, &state))
    &&& forall|state: Vec<Scalar>, out: Vec<Scalar>|
        state.len() == matrix.dim() && #[trigger] kernel.ensures((&matrix, &state), out) ==> out.len()
            == state.len()
}

/// One unit update: `after` is `before` with component `unit` replaced by that
/// component of the activation's image of a product of the matrix and `before`.
pub open spec fn unit_update<K: Fn(&WeightMatrix, &Vec<Scalar>) -> Vec<Scalar>>(
    product: K,
    matrix: WeightMatrix,
    activation: ActivationFunction,
    unit: int,
    before: Vec<Scalar>,
    after: Vec<Scalar>,
) -> bool {
    exists|field: Vec<Scalar>| #[trigger]
        product.ensures((&matrix, &before), field) && after@ == before@.update(
            unit,
            activation.image(field@)[unit],
        )
}

/// `trace` holds the states of one sweep that visits the units in `order`:
/// the state before the first update, then the state after each update.
pub open spec fn sweep_along<K: Fn(&WeightMatrix, &Vec<Scalar>) -> Vec<Scalar>>(
    product: K,
    matrix: WeightMatrix,
    activation: ActivationFunction,
    order: Seq<usize>,
    trace: Seq<Vec<Scalar>>,
) -> bool {
    &&& trace.len() == order.len() + 1
    &&& forall|k: int|
        0 <= k < order.len() ==> unit_update(
            product,
            matrix,
            activation,
            order[k] as int,
            #[trigger] trace[k],
            trace[k + 1],
        )
}

/// A sweep in the given order leads from `before` to `after`.
pub open spec fn sweep_in<K: Fn(&WeightMatrix, &Vec<Scalar>) -> Vec<Scalar>>(
    product: K,
    matrix: WeightMatrix,
    activation: ActivationFunction,
    order: Seq<usize>,
    before: Vec<Scalar>,
    after: Vec<Scalar>,
) -> bool {
    exists|trace: Seq<Vec<Scalar>>| #[trigger]
        sweep_along(product, matrix, activation, order, trace) && trace[0] == before && trace.last()
            == after
}

/// One asynchronous sweep: visits the units in the given order, and each
/// update sees the updates made before it.
pub fn sweep_in_order<K: Fn(&WeightMatrix, &Vec<Scalar>) -> Vec<Scalar>>(
    matrix: &WeightMatrix,
    activation: ActivationFunction,
    order: &Vec<usize>,
    state: Vec<Scalar>,
    product: &K,
) -> (swept: Vec<Scalar>)
    requires
        matrix.wf(),
        state.len() == matrix.dim(),
        forall|k: int| 0 <= k < order.len() ==> order[k] < matrix.dim(),
        kernel_defined(*product, *matrix),
    ensures
        swept.len() == state.len(),
        sweep_in(*product, *matrix, activation, order@, state, swept),
{
    let ghost initial = state;
    let mut state = state;
    let ghost mut trace: Seq<Vec<Scalar>> = seq![state];
    let mut k: usize = 0;
    while k < order.len()
        invariant
            k <= order.len(),
            matrix.wf(),
            state.len() == matrix.dim(),
            forall|j: int| 0 <= j < order.len() ==> order[j] < matrix.dim(),
            kernel_defined(*product, *matrix),
            trace.len() == k + 1,
            trace[0] == initial,
            trace.last() == state,
            sweep_along(*product, *matrix, activation, order@.take(k as int), trace),
        decreases order.len() - k,
    {
        let unit = order[k];
        let ghost before = state;
        let field = product(matrix, &state);
        let next_state = activation.apply(field);
        state.set(unit, next_state[unit]);
        proof {
            let extended = trace.push(state);
            assert(unit_update(*product, *matrix, activation, unit as int, before, state));
            assert forall|j: int| 0 <= j < k + 1 implies unit_update(
                *product,
                *matrix,
                activation,
                order@.take(k + 1)[j] as int,
                #[trigger] extended[j],
                extended[j + 1],
            ) by {
                if j < k {
                    assert(order@.take(k as int)[j] == order@.take(k + 1)[j]);
                    assert(extended[j] == trace[j]);
                    assert(extended[j + 1] == trace[j + 1]);
                }
            }
            trace = extended;
        }
        k += 1;
    }
    proof {
        assert(order@.take(k as int) =~= order@);
        assert(sweep_along(*product, *matrix, activation, order@, trace));
    }
    state
}

/// A sweep that visits every unit exactly once, in some order, leads from
/// `before` to `after`.
pub open spec fn is_sweep<K: Fn(&WeightMatrix, &Vec<Scalar>) -> Vec<Scalar>>(
    product: K,
    matrix: WeightMatrix,
    activation: ActivationFunction,
    before: Vec<Scalar>,
    after: Vec<Scalar>,
) -> bool {
    exists|order: Seq<usize>| #[trigger]
        sweep_in(product, matrix, activation, order, before, after) && each_index_once(
            order,
            matrix.dim(),
        )
}

/// The number of unstable units among the given unit energies: those whose
/// energy is strictly greater than zero.
pub open spec fn unstable_units(energies: Seq<Scalar>) -> nat
    decreases energies.len(),
{
    if energies.len() == 0 {
        0
    } else {
        unstable_units(energies.drop_last()) + if energies.last().positive() {
            1nat
        } else {
            0nat
        }
    }
}

/// Counts the units whose energy is strictly greater than zero.
pub fn count_unstable_units(energies: &Vec<Scalar>) -> (count: usize)
    ensures
        count == unstable_units(energies@),
        count <= energies.len(),
{
    let mut count: usize = 0;
    let mut i: usize = 0;
    while i < energies.len()
        invariant
            i <= energies.len(),
            count <= i,
            count == unstable_units(energies@.take(i as int)),
        decreases energies.len() - i,
    {
        proof {
            assert(energies@.take(i + 1).drop_last() =~= energies@.take(i as int));
        }
        if energies[i].is_positive() {
            count += 1;
        }
        i += 1;
    }
    proof {
        assert(energies@.take(i as int) =~= energies@);
    }
    count
}

/// The stability test: strictly fewer unstable units than the tolerance.
pub open spec fn settled(unstable: nat, max_unstable_units: i32) -> bool {
    unstable < max_unstable_units
}

/// Decides whether a relaxation stops after a sweep that left `unstable`
/// unstable units.
pub fn is_settled(unstable: usize, max_unstable_units: i32) -> (stop: bool)
    ensures
        stop == settled(unstable as nat, max_unstable_units),
{
    max_unstable_units > 0 && unstable < max_unstable_units as usize
}

/// The energy kernel, called on `state`, can give unit energies of which
/// `unstable` are greater than zero.
pub open spec fn observes<E: Fn(&WeightMatrix, &Vec<Scalar>) -> Vec<Scalar>>(
    energy: E,
    matrix: WeightMatrix,
    state: Vec<Scalar>,
    unstable: nat,
) -> bool {
    exists|energies: Vec<Scalar>| #[trigger]
        energy.ensures((&matrix, &state), energies) && unstable_units(energies@) == unstable
}

/// `trace` holds the states of a relaxation, the initial one first and then
/// the state after each sweep; `counts` holds the number of unstable units
/// found after each sweep. No sweep but the last one left the state settled.
pub open spec fn relax_along<
    K: Fn(&WeightMatrix, &Vec<Scalar>) -> Vec<Scalar>,
    E: Fn(&WeightMatrix, &Vec<Scalar>) -> Vec<Scalar>,
>(
    product: K,
    energy: E,
    matrix: WeightMatrix,
    activation: ActivationFunction,
    max_unstable_units: i32,
    trace: Seq<Vec<Scalar>>,
    counts: Seq<nat>,
) -> bool {
    &&& trace.len() == counts.len() + 1
    &&& forall|j: int|
        0 <= j < counts.len() ==> is_sweep(product, matrix, activation, #[trigger] trace[j], trace[j + 1])
    &&& forall|j: int|
        0 <= j < counts.len() ==> observes(energy, matrix, trace[j + 1], #[trigger] counts[j])
    &&& forall|j: int| 0 <= j < counts.len() - 1 ==> !settled(#[trigger] counts[j], max_unstable_units)
}

/// The most sweeps that a relaxation with the given cap makes.
pub open spec fn sweep_budget(max_iterations: i32) -> nat {
    if max_iterations > 0 {
        max_iterations as nat
    } else {
        0
    }
}

/// A relaxation leads from `before` to `after`: sweep after sweep, at most
/// `max_iterations` of them, and where it made fewer, the last sweep left the
/// state settled.
pub open spec fn relaxes_to<
    K: Fn(&WeightMatrix, &Vec<Scalar>) -> Vec<Scalar>,
    E: Fn(&WeightMatrix, &Vec<Scalar>) -> Vec<Scalar>,
>(
    product: K,
    energy: E,
    matrix: WeightMatrix,
    activation: ActivationFunction,
    max_iterations: i32,
    max_unstable_units: i32,
    before: Vec<Scalar>,
    after: Vec<Scalar>,
) -> bool {
    exists|trace: Seq<Vec<Scalar>>, counts: Seq<nat>| #[trigger]
        relax_along(product, energy, matrix, activation, max_unstable_units, trace, counts) && trace[0]
            == before && trace.last() == after && counts.len() <= sweep_budget(max_iterations) && (
        counts.len() < sweep_budget(max_iterations) ==> counts.len() > 0 && settled(
            counts.last(),
            max_unstable_units,
        ))
}

/// Extending a relaxation by one sweep and its count keeps it a relaxation,
/// where the sweep before it did not leave the state settled.
pub proof fn lemma_relax_along_extends<
    K: Fn(&WeightMatrix, &Vec<Scalar>) -> Vec<Scalar>,
    E: Fn(&WeightMatrix, &Vec<Scalar>) -> Vec<Scalar>,
>(
    product: K,
    energy: E,
    matrix: WeightMatrix,
    activation: ActivationFunction,
    max_unstable_units: i32,
    trace: Seq<Vec<Scalar>>,
    counts: Seq<nat>,
    next: Vec<Scalar>,
    unstable: nat,
)
    requires
        relax_along(product, energy, matrix, activation, max_unstable_units, trace, counts),
        counts.len() > 0 ==> !settled(counts.last(), max_unstable_units),
        is_sweep(product, matrix, activation, trace.last(), next),
        observes(energy, matrix, next, unstable),
    ensures
        relax_along(
            product,
            energy,
            matrix,
            activation,
            max_unstable_units,
            trace.push(next),
            counts.push(unstable),
        ),
{
    let longer = trace.push(next);
    let more = counts.push(unstable);
    assert forall|j: int| 0 <= j < more.len() implies is_sweep(
        product,
        matrix,
        activation,
        #[trigger] longer[j],
        longer[j + 1],
    ) by {
        if j < counts.len() {
            assert(longer[j] == trace[j]);
            assert(longer[j + 1] == trace[j + 1]);
        }
    }
    assert forall|j: int| 0 <= j < more.len() implies observes(
        energy,
        matrix,
        longer[j + 1],
        #[trigger] more[j],
    ) by {
        if j < counts.len() {
            assert(longer[j + 1] == trace[j + 1]);
            assert(more[j] == counts[j]);
        }
    }
    assert forall|j: int| 0 <= j < more.len() - 1 implies !settled(
        #[trigger] more[j],
        max_unstable_units,
    ) by {
        assert(more[j] == counts[j]);
    }
}

/// Relaxes one state with a stream and an index buffer of the caller's: every
/// sweep shuffles the buffer as the last sweep left it and visits the units in
/// that order.
pub fn relax_with_stream<
    K: Fn(&WeightMatrix, &Vec<Scalar>) -> Vec<Scalar>,
    E: Fn(&WeightMatrix, &Vec<Scalar>) -> Vec<Scalar>,
>(
    matrix: &WeightMatrix,
    activation: ActivationFunction,
    unit_indices: &mut Vec<usize>,
    max_iterations: i32,
    max_unstable_units: i32,
    rng: &mut StdRng,
    state: Vec<Scalar>,
    product: &K,
    energy: &E,
) -> (relaxed: Vec<Scalar>)
    requires
        matrix.wf(),
        state.len() == matrix.dim(),
        each_index_once(old(unit_indices)@, matrix.dim()),
        kernel_defined(*product, *matrix),
        kernel_defined(*energy, *matrix),
    ensures
        relaxed.len() == state.len(),
        each_index_once(final(unit_indices)@, matrix.dim()),
        relaxes_to(
            *product,
            *energy,
            *matrix,
            activation,
            max_iterations,
            max_unstable_units,
            state,
            relaxed,
        ),
{
    let ghost initial = state;
    let mut state = state;
    let ghost mut trace: Seq<Vec<Scalar>> = seq![state];
    let ghost mut counts: Seq<nat> = Seq::empty();
    let mut sweeps: i32 = 0;
    let mut stop = false;
    while sweeps < max_iterations && !stop
        invariant
            0 <= sweeps,
            sweeps <= sweep_budget(max_iterations),
            matrix.wf(),
            state.len() == matrix.dim(),
            initial.len() == matrix.dim(),
            each_index_once(unit_indices@, matrix.dim()),
            kernel_defined(*product, *matrix),
            kernel_defined(*energy, *matrix),
            counts.len() == sweeps,
            trace[0] == initial,
            trace.last() == state,
            relax_along(*product, *energy, *matrix, activation, max_unstable_units, trace, counts),
            stop ==> counts.len() > 0,
            counts.len() > 0 ==> stop == settled(counts.last(), max_unstable_units),
        decreases max_iterations - sweeps,
    {
        shuffle_indices(unit_indices, rng);
        proof {
            lemma_order_in_range(unit_indices@, matrix.dim());
        }
        let ghost before = state;
        state = sweep_in_order(matrix, activation, unit_indices, state, product);
        let energies = energy(matrix, &state);
        let unstable = count_unstable_units(&energies);
        stop = is_settled(unstable, max_unstable_units);
        proof {
            assert(is_sweep(*product, *matrix, activation, before, state));
            assert(observes(*energy, *matrix, state, unstable as nat));
            lemma_relax_along_extends(
                *product,
                *energy,
                *matrix,
                activation,
                max_unstable_units,
                trace,
                counts,
                state,
                unstable as nat,
            );
            trace = trace.push(state);
            counts = counts.push(unstable as nat);
        }
        sweeps += 1;
    }
    state
}

/// The product kernel gives, for this matrix, a zero of either sign in every
/// component, whatever the state: what the product with a zero matrix is.
pub open spec fn gives_zero_field<K: Fn(&WeightMatrix, &Vec<Scalar>) -> Vec<Scalar>>(
    product: K,
    matrix: WeightMatrix,
) -> bool {
    forall|state: Vec<Scalar>, field: Vec<Scalar>| #[trigger]
        product.ensures((&matrix, &state), field) ==> field.len() == state.len() && forall|i: int|
            0 <= i < field.len() ==> (#[trigger] field[i]).magnitude() == 0
}

/// Where the product is zero everywhere, a sweep of a binary or bipolar
/// network sets every unit to the image of zero, whatever the state was; so a
/// second sweep changes nothing.
pub proof fn lemma_zero_field_sweep<K: Fn(&WeightMatrix, &Vec<Scalar>) -> Vec<Scalar>>(
    product: K,
    matrix: WeightMatrix,
    activation: ActivationFunction,
    before: Vec<Scalar>,
    after: Vec<Scalar>,
)
    requires
        activation != ActivationFunction::Identity,
        before.len() == matrix.dim(),
        gives_zero_field(product, matrix),
        is_sweep(product, matrix, activation, before, after),
    ensures
        after.len() == before.len(),
        forall|i: int|
            0 <= i < after.len() ==> #[trigger] after[i] == activation.value(Scalar { bits: 0 }),
{
    let order = choose|order: Seq<usize>| #[trigger]
        sweep_in(product, matrix, activation, order, before, after) && each_index_once(
            order,
            matrix.dim(),
        );
    let trace = choose|trace: Seq<Vec<Scalar>>| #[trigger]
        sweep_along(product, matrix, activation, order, trace) && trace[0] == before && trace.last()
            == after;
    lemma_order_in_range(order, matrix.dim());
    lemma_zero_field_trace(product, matrix, activation, order, trace, order.len() as int);
    assert forall|i: int| 0 <= i < after.len() implies #[trigger] after[i] == activation.value(
        Scalar { bits: 0 },
    ) by {
        assert(order.contains(i as usize));
    }
}

/// Where the product is zero everywhere, a state that a sweep of a binary or
/// bipolar network has produced is left unchanged by the next sweep.
pub proof fn lemma_zero_field_fixed_point<K: Fn(&WeightMatrix, &Vec<Scalar>) -> Vec<Scalar>>(
    product: K,
    matrix: WeightMatrix,
    activation: ActivationFunction,
    before: Vec<Scalar>,
    swept: Vec<Scalar>,
    swept_again: Vec<Scalar>,
)
    requires
        activation != ActivationFunction::Identity,
        before.len() == matrix.dim(),
        gives_zero_field(product, matrix),
        is_sweep(product, matrix, activation, before, swept),
        is_sweep(product, matrix, activation, swept, swept_again),
    ensures
        swept_again@ == swept@,
{
    lemma_zero_field_sweep(product, matrix, activation, before, swept);
    lemma_zero_field_sweep(product, matrix, activation, swept, swept_again);
    assert(swept_again@ =~= swept@);
}

/// After the first `steps` updates of a sweep with a zero product, the state
/// is as long as before and every unit visited so far holds the image of zero.
proof fn lemma_zero_field_trace<K: Fn(&WeightMatrix, &Vec<Scalar>) -> Vec<Scalar>>(
    product: K,
    matrix: WeightMatrix,
    activation: ActivationFunction,
    order: Seq<usize>,
    trace: Seq<Vec<Scalar>>,
    steps: int,
)
    requires
        activation != ActivationFunction::Identity,
        gives_zero_field(product, matrix),
        sweep_along(product, matrix, activation, order, trace),
        forall|k: int| 0 <= k < order.len() ==> (#[trigger] order[k]) < trace[0].len(),
        0 <= steps <= order.len(),
    ensures
        trace[steps].len() == trace[0].len(),
        forall|k: int|
            0 <= k < steps ==> trace[steps][(#[trigger] order[k]) as int] == activation.value(
                Scalar { bits: 0 },
            ),
    decreases steps,
{
    if steps > 0 {
        lemma_zero_field_trace(product, matrix, activation, order, trace, steps - 1);
        let unit = order[steps - 1] as int;
        let earlier = trace[steps - 1];
        let later = trace[steps];
        assert(unit_update(product, matrix, activation, unit, earlier, later));
        let field = choose|field: Vec<Scalar>| #[trigger]
            product.ensures((&matrix, &earlier), field) && later@ == earlier@.update(
                unit,
                activation.image(field@)[unit],
            );
        assert(field[unit].magnitude() == 0);
        assert(activation.image(field@)[unit] == activation.value(field[unit]));
        assert(activation.value(field[unit]) == activation.value(Scalar { bits: 0 }));
        assert forall|k: int| 0 <= k < steps implies trace[steps][(#[trigger] order[k]) as int]
            == activation.value(Scalar { bits: 0 }) by {
            if order[k] as int != unit {
                assert(later[order[k] as int] == earlier[order[k] as int]);
            }
        }
    }
}

} // verus!
