use hopfield::activation_function::{
    binary_activation_function, bipolar_activation_function, identity_activation_function,
};
use hopfield::{ActivationFunction, NetworkDomain, Scalar};

fn scalars(values: &[f64]) -> Vec<Scalar> {
    values.iter().map(|x| Scalar::from_bits(x.to_bits())).collect()
}

fn doubles(values: &[Scalar]) -> Vec<f64> {
    values.iter().map(|s| f64::from_bits(s.to_bits())).collect()
}

fn sample_vector() -> Vec<f64> {
    vec![0.0, -0.0, 1.0, -1.0, 0.25, -0.25, 7.5e10, -7.5e10, f64::INFINITY, f64::NEG_INFINITY, 5.0e-324]
}

#[test]
fn binary_maps_each_component_by_its_sign() {
    let input = sample_vector();
    let expected: Vec<f64> = input.iter().map(|i| if *i <= 0.0 { 0.0 } else { 1.0 }).collect();
    let mapped = binary_activation_function(scalars(&input));
    assert_eq!(doubles(&mapped), expected);
    assert_eq!(
        doubles(&mapped),
        vec![0.0, 0.0, 1.0, 0.0, 1.0, 0.0, 1.0, 0.0, 1.0, 0.0, 1.0]
    );
}

#[test]
fn bipolar_maps_each_component_by_its_sign() {
    let input = sample_vector();
    let expected: Vec<f64> = input.iter().map(|i| if *i <= 0.0 { -1.0 } else { 1.0 }).collect();
    let mapped = bipolar_activation_function(scalars(&input));
    assert_eq!(doubles(&mapped), expected);
    assert_eq!(
        doubles(&mapped),
        vec![-1.0, -1.0, 1.0, -1.0, 1.0, -1.0, 1.0, -1.0, 1.0, -1.0, 1.0]
    );
}

#[test]
fn binary_and_bipolar_map_a_nan_to_one() {
    let mapped = binary_activation_function(scalars(&[f64::NAN]));
    assert_eq!(doubles(&mapped), vec![1.0]);
    let mapped = bipolar_activation_function(scalars(&[f64::NAN]));
    assert_eq!(doubles(&mapped), vec![1.0]);
}

#[test]
fn binary_gives_positive_zero_for_every_non_positive_component() {
    let mapped = binary_activation_function(scalars(&[-0.0, -3.0, 0.0]));
    for s in mapped {
        assert_eq!(s.to_bits(), 0.0f64.to_bits());
    }
}

#[test]
fn identity_hands_the_vector_back() {
    let input = scalars(&[0.0, -0.0, 1.5, -2.5, f64::NAN, f64::INFINITY]);
    let mapped = identity_activation_function(input.clone());
    assert_eq!(mapped, input);
}

#[test]
fn activation_keeps_the_length() {
    for n in [0usize, 1, 2, 17] {
        let input: Vec<f64> = (0..n).map(|i| i as f64 - 3.0).collect();
        assert_eq!(binary_activation_function(scalars(&input)).len(), n);
        assert_eq!(bipolar_activation_function(scalars(&input)).len(), n);
        assert_eq!(identity_activation_function(scalars(&input)).len(), n);
    }
}

#[test]
fn activation_is_idempotent_for_every_domain() {
    let input = scalars(&[0.0, -0.0, 1.0, -1.0, 0.3, -0.3, f64::NAN, f64::INFINITY, f64::NEG_INFINITY]);
    for f in [ActivationFunction::Binary, ActivationFunction::Bipolar, ActivationFunction::Identity] {
        let once = f.apply(input.clone());
        let twice = f.apply(once.clone());
        assert_eq!(once, twice);
    }
}

#[test]
fn apply_dispatches_to_the_three_mappings() {
    let input = scalars(&[0.5, -0.5, 0.0]);
    assert_eq!(
        ActivationFunction::Binary.apply(input.clone()),
        binary_activation_function(input.clone())
    );
    assert_eq!(
        ActivationFunction::Bipolar.apply(input.clone()),
        bipolar_activation_function(input.clone())
    );
    assert_eq!(
        ActivationFunction::Identity.apply(input.clone()),
        identity_activation_function(input.clone())
    );
}

#[test]
fn apply_to_unit_agrees_with_apply() {
    let input = scalars(&[0.5, -0.5, 0.0, -0.0, f64::NAN]);
    for f in [ActivationFunction::Binary, ActivationFunction::Bipolar, ActivationFunction::Identity] {
        let mapped = f.apply(input.clone());
        for i in 0..input.len() {
            assert_eq!(f.apply_to_unit(input[i]), mapped[i]);
        }
    }
}

#[test]
fn each_concrete_domain_has_its_mapping() {
    assert_eq!(NetworkDomain::Binary.activation_fn(), ActivationFunction::Binary);
    assert_eq!(NetworkDomain::Bipolar.activation_fn(), ActivationFunction::Bipolar);
    assert_eq!(NetworkDomain::Continuous.activation_fn(), ActivationFunction::Identity);
}

#[test]
fn only_the_placeholder_domain_is_unspecified() {
    assert!(!NetworkDomain::Unspecified.is_specified());
    assert!(NetworkDomain::Binary.is_specified());
    assert!(NetworkDomain::Bipolar.is_specified());
    assert!(NetworkDomain::Continuous.is_specified());
}
