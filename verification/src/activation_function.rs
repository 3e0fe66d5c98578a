//! Activation mappings: each component of a vector is mapped on its own, by its
//! sign alone.

use crate::scalar::{Scalar, MINUS_ONE_BITS, ONE_BITS};
use vstd::prelude::*;

verus! {

/// What the binary mapping makes of one component: `0.0` where it is at most
/// zero, else `1.0`.
pub open spec fn binary_value(x: Scalar) -> Scalar {
    if x.non_positive() {
        Scalar { bits: 0 }
    } else {
        Scalar { bits: ONE_BITS }
    }
}

/// What the bipolar mapping makes of one component: `-1.0` where it is at most
/// zero, else `1.0`.
pub open spec fn bipolar_value(x: Scalar) -> Scalar {
    if x.non_positive() {
        Scalar { bits: MINUS_ONE_BITS }
    } else {
        Scalar { bits: ONE_BITS }
    }
}

/// The mapping of a network domain.
#[derive(Clone, Copy, Debug, PartialEq, Eq, Structural)]
pub enum ActivationFunction {
    Binary,
    Bipolar,
    Identity,
}

impl ActivationFunction {
    /// The image of one component.
    pub open spec fn value(self, x: Scalar) -> Scalar {
        match self {
            ActivationFunction::Binary => binary_value(x),
            ActivationFunction::Bipolar => bipolar_value(x),
            ActivationFunction::Identity => x,
        }
    }

    /// The image of a vector: of the same length, component by component.
    pub open spec fn image(self, v: Seq<Scalar>) -> Seq<Scalar> {
        Seq::new(v.len(), |i: int| self.value(v[i]))
    }

    /// Whether `x` is a value that this mapping can produce.
    pub open spec fn admits(self, x: Scalar) -> bool {
        match self {
            ActivationFunction::Binary => x.bits == 0 || x.bits == ONE_BITS,
            ActivationFunction::Bipolar => x.bits == MINUS_ONE_BITS || x.bits == ONE_BITS,
            ActivationFunction::Identity => true,
        }
    }

    /// Maps one component.
    pub fn apply_to_unit(&self, x: Scalar) -> (y: Scalar)
        ensures
            y == self.value(x),
    {
        match self {
            ActivationFunction::Binary => {
                if x.is_non_positive() {
                    Scalar::zero()
                } else {
                    Scalar::one()
                }
            },
            ActivationFunction::Bipolar => {
                if x.is_non_positive() {
                    Scalar::minus_one()
                } else {
                    Scalar::one()
                }
            },
            ActivationFunction::Identity => x,
        }
    }

    /// Maps a vector.
    pub fn apply(&self, vector: Vec<Scalar>) -> (mapped: Vec<Scalar>)
        ensures
            mapped@ == self.image(vector@),
    {
        match self {
            ActivationFunction::Binary => binary_activation_function(vector),
            ActivationFunction::Bipolar => bipolar_activation_function(vector),
            ActivationFunction::Identity => identity_activation_function(vector),
        }
    }
}

/// Maps every component to `0.0` or `1.0`.
pub fn binary_activation_function(vector: Vec<Scalar>) -> (mapped: Vec<Scalar>)
    ensures
        mapped@ == ActivationFunction::Binary.image(vector@),
{
    let ghost before = vector@;
    let mut vector = vector;
    let mut i: usize = 0;
    while i < vector.len()
        invariant
            i <= vector.len(),
            vector.len() == before.len(),
            forall|k: int| 0 <= k < i ==> vector[k] == binary_value(before[k]),
            forall|k: int| i <= k < vector.len() ==> vector[k] == before[k],
        decreases vector.len() - i,
    {
        let y = if vector[i].is_non_positive() {
            Scalar::zero()
        } else {
            Scalar::one()
        };
        vector.set(i, y);
        i += 1;
    }
    assert(vector@ =~= ActivationFunction::Binary.image(before));
    vector
}

/// Maps every component to `-1.0` or `1.0`.
pub fn bipolar_activation_function(vector: Vec<Scalar>) -> (mapped: Vec<Scalar>)
    ensures
        mapped@ == ActivationFunction::Bipolar.image(vector@),
{
    let ghost before = vector@;
    let mut vector = vector;
    let mut i: usize = 0;
    while i < vector.len()
        invariant
            i <= vector.len(),
            vector.len() == before.len(),
            forall|k: int| 0 <= k < i ==> vector[k] == bipolar_value(before[k]),
            forall|k: int| i <= k < vector.len() ==> vector[k] == before[k],
        decreases vector.len() - i,
    {
        let y = if vector[i].is_non_positive() {
            Scalar::minus_one()
        } else {
            Scalar::one()
        };
        vector.set(i, y);
        i += 1;
    }
    assert(vector@ =~= ActivationFunction::Bipolar.image(before));
    vector
}

/// Hands the vector back as it is.
pub fn identity_activation_function(vector: Vec<Scalar>) -> (mapped: Vec<Scalar>)
    ensures
        mapped@ == ActivationFunction::Identity.image(vector@),
{
    assert(vector@ =~= ActivationFunction::Identity.image(vector@));
    vector
}

/// Mapping one component twice gives what mapping it once gives.
pub proof fn lemma_value_idempotent(f: ActivationFunction, x: Scalar)
    ensures
        f.value(f.value(x)) == f.value(x),
        f.admits(f.value(x)),
{
}

/// Every activation mapping is idempotent: applied to its own image of a
/// vector, it gives that image again.
pub proof fn lemma_activation_idempotent(f: ActivationFunction, v: Seq<Scalar>)
    ensures
        f.image(f.image(v)) == f.image(v),
        f.image(v).len() == v.len(),
        forall|i: int| 0 <= i < v.len() ==> f.admits(#[trigger] f.image(v)[i]),
{
    assert forall|i: int| 0 <= i < v.len() implies f.image(f.image(v))[i] == f.image(v)[i] by {
        lemma_value_idempotent(f, v[i]);
    }
    assert(f.image(f.image(v)) =~= f.image(v));
    assert forall|i: int| 0 <= i < v.len() implies f.admits(#[trigger] f.image(v)[i]) by {
        lemma_value_idempotent(f, v[i]);
    }
}

} // verus!
