//! The domains of legal unit values.

use crate::activation_function::ActivationFunction;
use vstd::prelude::*;

verus! {

/// The set of values a unit may take. `Unspecified` is the placeholder of a
/// builder that has not been told its domain yet; it has no activation mapping.
#[derive(Clone, Copy, Debug, PartialEq, Eq, Hash, Structural)]
pub enum NetworkDomain {
    Unspecified,
    Binary,
    Bipolar,
    Continuous,
}

impl NetworkDomain {
    /// Whether the domain is one of the three concrete ones.
    pub open spec fn specified(self) -> bool {
        self != NetworkDomain::Unspecified
    }

    /// The mapping that belongs to a concrete domain.
    pub open spec fn activation(self) -> ActivationFunction {
        match self {
            NetworkDomain::Binary => ActivationFunction::Binary,
            NetworkDomain::Bipolar => ActivationFunction::Bipolar,
            _ => ActivationFunction::Identity,
        }
    }

    pub fn is_specified(&self) -> (b: bool)
        ensures
            b == self.specified(),
    {
        match self {
            NetworkDomain::Unspecified => false,
            _ => true,
        }
    }

    /// The activation mapping of this domain. The placeholder domain has none.
    pub fn activation_fn(&self) -> (f: ActivationFunction)
        requires
            self.specified(),
        ensures
            f == self.activation(),
            *self == NetworkDomain::Binary ==> f == ActivationFunction::Binary,
            *self == NetworkDomain::Bipolar ==> f == ActivationFunction::Bipolar,
            *self == NetworkDomain::Continuous ==> f == ActivationFunction::Identity,
    {
        match self {
            NetworkDomain::Binary => ActivationFunction::Binary,
            NetworkDomain::Bipolar => ActivationFunction::Bipolar,
            _ => ActivationFunction::Identity,
        }
    }
}

} // verus!
