use hopfield::batch::{collect_in_order, concurrent_relax_thread_fn, partition_states, WorkerTask};
use hopfield::relaxation::relax_with_stream;
use hopfield::{ActivationFunction, HopfieldNetwork, HopfieldNetworkBuilder, NetworkDomain, Scalar, WeightMatrix};
use nalgebra::{DMatrix, DVector};
use rand::rngs::StdRng;
use rand::{RngCore, SeedableRng};
use std::cell::RefCell;

fn scalars(values: &[f64]) -> Vec<Scalar> {
    values.iter().map(|x| Scalar::from_bits(x.to_bits())).collect()
}

fn as_nalgebra(matrix: &WeightMatrix) -> DMatrix<f64> {
    let n = matrix.dimension();
    DMatrix::<f64>::from_fn(n, n, |i, j| f64::from_bits(matrix.get(i, j).to_bits()))
}

fn as_vector(state: &Vec<Scalar>) -> DVector<f64> {
    DVector::<f64>::from_iterator(state.len(), state.iter().map(|s| f64::from_bits(s.to_bits())))
}

fn product(matrix: &WeightMatrix, state: &Vec<Scalar>) -> Vec<Scalar> {
    let field = as_nalgebra(matrix) * as_vector(state);
    field.iter().map(|x| Scalar::from_bits(x.to_bits())).collect()
}

fn unit_energies(matrix: &WeightMatrix, state: &Vec<Scalar>) -> Vec<Scalar> {
    let vector = as_vector(state);
    let energies = (as_nalgebra(matrix) * &vector).scale(-1.0).component_mul(&vector);
    energies.iter().map(|x| Scalar::from_bits(x.to_bits())).collect()
}

fn mixing_matrix(n: usize) -> WeightMatrix {
    let rows: Vec<Vec<Scalar>> = (0..n)
        .map(|i| {
            (0..n)
                .map(|j| {
                    let w = if i == j { 0.0 } else { (((i * 7 + j * 13) % 11) as f64) - 5.0 };
                    Scalar::from_bits(w.to_bits())
                })
                .collect()
        })
        .collect();
    WeightMatrix::from_rows(rows).unwrap()
}

fn numbered_states(count: usize) -> Vec<Vec<Scalar>> {
    (0..count).map(|k| scalars(&[k as f64, -(k as f64)])).collect()
}

fn bipolar_states(count: usize, n: usize) -> Vec<Vec<Scalar>> {
    (0..count)
        .map(|k| (0..n).map(|i| Scalar::from_bits((if (k >> (i % 8)) & 1 == 1 { 1.0f64 } else { -1.0f64 }).to_bits())).collect())
        .collect()
}

#[test]
fn states_are_shared_out_to_the_workers_in_turn() {
    let states = numbered_states(7);
    let shares = partition_states(states.clone(), 3);
    assert_eq!(shares.len(), 3);
    let tags: Vec<Vec<usize>> = shares.iter().map(|s| s.iter().map(|p| p.0).collect()).collect();
    assert_eq!(tags, vec![vec![0, 3, 6], vec![1, 4], vec![2, 5]]);
    for share in &shares {
        for (tag, state) in share {
            assert_eq!(*state, states[*tag]);
        }
    }
}

#[test]
fn one_worker_gets_the_whole_batch_in_order() {
    let states = numbered_states(5);
    let shares = partition_states(states.clone(), 1);
    assert_eq!(shares.len(), 1);
    let expected: Vec<(usize, Vec<Scalar>)> = states.into_iter().enumerate().collect();
    assert_eq!(shares[0], expected);
}

#[test]
fn more_workers_than_states_leave_shares_empty() {
    let shares = partition_states(numbered_states(2), 5);
    let sizes: Vec<usize> = shares.iter().map(|s| s.len()).collect();
    assert_eq!(sizes, vec![1, 1, 0, 0, 0]);
}

#[test]
fn an_empty_batch_gives_empty_shares() {
    let shares = partition_states(Vec::new(), 4);
    assert_eq!(shares.len(), 4);
    assert!(shares.iter().all(|s| s.is_empty()));
    let shares = partition_states(Vec::new(), 0);
    assert!(shares.is_empty());
}

#[test]
fn results_are_put_back_by_their_tags() {
    let states = numbered_states(4);
    let arrived = vec![
        (2usize, states[2].clone()),
        (0usize, states[0].clone()),
        (3usize, states[3].clone()),
        (1usize, states[1].clone()),
    ];
    assert_eq!(collect_in_order(arrived), Some(states));
    assert_eq!(collect_in_order(Vec::new()), Some(Vec::new()));
}

#[test]
fn results_with_a_tag_twice_are_refused() {
    let states = numbered_states(3);
    let arrived = vec![(0usize, states[0].clone()), (1usize, states[1].clone()), (1usize, states[2].clone())];
    assert_eq!(collect_in_order(arrived), None);
}

#[test]
fn results_with_a_tag_out_of_range_are_refused() {
    let states = numbered_states(3);
    let arrived = vec![(0usize, states[0].clone()), (1usize, states[1].clone()), (3usize, states[2].clone())];
    assert_eq!(collect_in_order(arrived), None);
    let arrived = vec![(1usize, states[1].clone())];
    assert_eq!(collect_in_order(arrived), None);
}

#[test]
fn sharing_out_and_collecting_restores_the_input_order() {
    for workers in 1..6usize {
        for count in 0..12usize {
            let states = numbered_states(count);
            let shares = partition_states(states.clone(), workers);
            // The results of the last worker come in first.
            let mut arrived: Vec<(usize, Vec<Scalar>)> = Vec::new();
            for share in shares.into_iter().rev() {
                for tagged in share.into_iter().rev() {
                    arrived.push(tagged);
                }
            }
            assert_eq!(arrived.len(), count);
            assert_eq!(collect_in_order(arrived), Some(states));
        }
    }
}

#[test]
fn a_worker_relaxes_its_share_like_a_sequential_relaxation_with_its_seed() {
    let matrix = mixing_matrix(8);
    let states = bipolar_states(5, 8);
    let share: Vec<(usize, Vec<Scalar>)> = states.iter().cloned().enumerate().collect();
    let results = concurrent_relax_thread_fn(
        matrix.clone(),
        ActivationFunction::Bipolar,
        (0..8).collect(),
        6,
        2,
        1234,
        share,
        &product,
        &unit_energies,
    );
    let mut rng = StdRng::seed_from_u64(1234);
    let mut buffer: Vec<usize> = (0..8).collect();
    let mut expected: Vec<(usize, Vec<Scalar>)> = Vec::new();
    for (k, state) in states.into_iter().enumerate() {
        let relaxed = relax_with_stream(
            &matrix,
            ActivationFunction::Bipolar,
            &mut buffer,
            6,
            2,
            &mut rng,
            state,
            &product,
            &unit_energies,
        );
        expected.push((k, relaxed));
    }
    assert_eq!(results, expected);
}

#[test]
fn a_worker_keeps_the_tags_and_the_order_of_its_share() {
    let matrix = mixing_matrix(8);
    let states = bipolar_states(4, 8);
    let share = vec![
        (9usize, states[0].clone()),
        (2usize, states[1].clone()),
        (5usize, states[2].clone()),
        (0usize, states[3].clone()),
    ];
    let results = concurrent_relax_thread_fn(
        matrix,
        ActivationFunction::Bipolar,
        (0..8).collect(),
        3,
        0,
        77,
        share,
        &product,
        &unit_energies,
    );
    let tags: Vec<usize> = results.iter().map(|r| r.0).collect();
    assert_eq!(tags, vec![9, 2, 5, 0]);
    assert!(results.iter().all(|r| r.1.len() == 8));
}

#[test]
fn a_worker_with_an_empty_share_returns_nothing() {
    let results = concurrent_relax_thread_fn(
        mixing_matrix(4),
        ActivationFunction::Binary,
        (0..4).collect(),
        3,
        0,
        77,
        Vec::new(),
        &product,
        &unit_energies,
    );
    assert!(results.is_empty());
}

fn unit_matrix(n: usize) -> WeightMatrix {
    let rows: Vec<Vec<Scalar>> = (0..n)
        .map(|i| (0..n).map(|j| Scalar::from_bits((if i == j { 1.0f64 } else { 0.0f64 }).to_bits())).collect())
        .collect();
    WeightMatrix::from_rows(rows).unwrap()
}

fn network(matrix: WeightMatrix, iterations: i32, tolerance: i32, seed: u64) -> HopfieldNetwork {
    let mut network = HopfieldNetworkBuilder::new_hopfield_network_builder()
        .set_network_dimension(matrix.dimension())
        .set_network_domain(NetworkDomain::Bipolar)
        .set_maximum_relaxation_iterations(iterations)
        .set_maximum_relaxation_unstable_units(tolerance)
        .build(StdRng::seed_from_u64(seed), Vec::new());
    network.matrix = matrix;
    network
}

fn run_one_after_the_other(tasks: Vec<WorkerTask>) -> Vec<(usize, Vec<Scalar>)> {
    let mut results = Vec::new();
    for task in tasks {
        results.extend(task.run(&product, &unit_energies));
    }
    results
}

fn run_last_worker_first(tasks: Vec<WorkerTask>) -> Vec<(usize, Vec<Scalar>)> {
    let mut results = Vec::new();
    for task in tasks.into_iter().rev() {
        let mut relaxed = task.run(&product, &unit_energies);
        relaxed.reverse();
        results.extend(relaxed);
    }
    results
}

#[test]
fn a_batch_comes_back_in_input_order_whatever_the_order_of_arrival() {
    // With the unit matrix every bipolar state is a fixed point, so every
    // relaxed state has to stand where its input stood.
    let states = bipolar_states(23, 8);
    for workers in [1usize, 2, 3, 8, 30] {
        let mut a = network(unit_matrix(8), 4, 0, 5);
        let relaxed = a.concurrent_relax_state_collection(states.clone(), workers, run_one_after_the_other);
        assert_eq!(relaxed, Some(states.clone()));
        let mut b = network(unit_matrix(8), 4, 0, 5);
        let relaxed = b.concurrent_relax_state_collection(states.clone(), workers, run_last_worker_first);
        assert_eq!(relaxed, Some(states.clone()));
    }
}

#[test]
fn a_batch_returns_as_many_states_as_it_was_given() {
    for count in [0usize, 1, 2, 9, 40] {
        for workers in [1usize, 4, 7] {
            let mut network = network(mixing_matrix(8), 3, 0, 12);
            let relaxed = network
                .concurrent_relax_state_collection(bipolar_states(count, 8), workers, run_last_worker_first)
                .unwrap();
            assert_eq!(relaxed.len(), count);
            assert!(relaxed.iter().all(|state| state.len() == 8));
        }
    }
}

#[test]
fn an_empty_batch_needs_no_worker() {
    let mut network = network(mixing_matrix(8), 3, 0, 12);
    let relaxed = network.concurrent_relax_state_collection(Vec::new(), 0, run_one_after_the_other);
    assert_eq!(relaxed, Some(Vec::new()));
}

#[test]
fn the_arrival_order_does_not_change_the_relaxed_states() {
    let states = bipolar_states(17, 8);
    let mut a = network(mixing_matrix(8), 6, 2, 77);
    let mut b = network(mixing_matrix(8), 6, 2, 77);
    let forward = a.concurrent_relax_state_collection(states.clone(), 4, run_one_after_the_other);
    let backward = b.concurrent_relax_state_collection(states, 4, run_last_worker_first);
    assert!(forward.is_some());
    assert_eq!(forward, backward);
}

#[test]
fn a_batch_is_reproducible_for_a_seed_and_a_number_of_workers() {
    let states = bipolar_states(17, 8);
    let mut a = network(mixing_matrix(8), 6, 2, 77);
    let mut b = network(mixing_matrix(8), 6, 2, 77);
    let first = a.concurrent_relax_state_collection(states.clone(), 3, run_one_after_the_other);
    let second = b.concurrent_relax_state_collection(states.clone(), 3, run_one_after_the_other);
    assert_eq!(first, second);
    // The same network goes on with its stream.
    let third = a.concurrent_relax_state_collection(states.clone(), 3, run_one_after_the_other);
    let fourth = b.concurrent_relax_state_collection(states, 3, run_one_after_the_other);
    assert_eq!(third, fourth);
}

#[test]
fn every_worker_gets_its_seed_from_the_stream_of_the_network_in_order() {
    let seeds: RefCell<Vec<u64>> = RefCell::new(Vec::new());
    let mut network = network(mixing_matrix(8), 3, 0, 2024);
    let relaxed = network.concurrent_relax_state_collection(bipolar_states(5, 8), 4, |tasks: Vec<WorkerTask>| {
        for task in &tasks {
            seeds.borrow_mut().push(task.rng_seed);
        }
        run_one_after_the_other(tasks)
    });
    assert!(relaxed.is_some());
    let mut reference = StdRng::seed_from_u64(2024);
    let expected: Vec<u64> = (0..4).map(|_| reference.next_u64()).collect();
    assert_eq!(seeds.into_inner(), expected);
}

#[test]
fn every_worker_gets_the_settings_of_the_network_and_its_share() {
    let states = bipolar_states(7, 8);
    let expected_shares = partition_states(states.clone(), 3);
    let mut network = network(mixing_matrix(8), 9, 2, 1);
    let matrix_rows = network.matrix.rows.clone();
    let seen = RefCell::new(0usize);
    let _ = network.concurrent_relax_state_collection(states, 3, |tasks: Vec<WorkerTask>| {
        assert_eq!(tasks.len(), 3);
        for (worker, task) in tasks.iter().enumerate() {
            assert_eq!(task.matrix.rows, matrix_rows);
            assert_eq!(task.activation_fn, ActivationFunction::Bipolar);
            assert_eq!(task.unit_indices, (0..8).collect::<Vec<usize>>());
            assert_eq!(task.maximum_relaxation_iterations, 9);
            assert_eq!(task.maximum_relaxation_unstable_units, 2);
            assert_eq!(task.state_collection, expected_shares[worker]);
            *seen.borrow_mut() += 1;
        }
        run_one_after_the_other(tasks)
    });
    assert_eq!(seen.into_inner(), 3);
}

#[test]
fn a_batch_with_a_missing_result_returns_nothing() {
    let mut network = network(mixing_matrix(8), 3, 0, 12);
    let relaxed = network.concurrent_relax_state_collection(bipolar_states(6, 8), 2, |tasks: Vec<WorkerTask>| {
        let mut results = run_one_after_the_other(tasks);
        results.pop();
        results
    });
    assert_eq!(relaxed, None);
}

#[test]
fn a_batch_with_a_result_twice_returns_nothing() {
    let mut network = network(mixing_matrix(8), 3, 0, 12);
    let relaxed = network.concurrent_relax_state_collection(bipolar_states(6, 8), 2, |tasks: Vec<WorkerTask>| {
        let mut results = run_one_after_the_other(tasks);
        let first = results[0].clone();
        results[1] = first;
        results
    });
    assert_eq!(relaxed, None);
    let relaxed = network.concurrent_relax_state_collection(bipolar_states(6, 8), 2, |tasks: Vec<WorkerTask>| {
        let mut results = run_one_after_the_other(tasks);
        let first = results[0].clone();
        results.push(first);
        results
    });
    assert_eq!(relaxed, None);
}

#[test]
fn a_batch_with_one_worker_is_a_sequential_relaxation_with_the_seed_of_that_worker() {
    let matrix = mixing_matrix(8);
    let states = bipolar_states(6, 8);
    let mut network = network(matrix.clone(), 5, 0, 31);
    let relaxed = network.concurrent_relax_state_collection(states.clone(), 1, run_one_after_the_other).unwrap();
    let seed = StdRng::seed_from_u64(31).next_u64();
    let mut rng = StdRng::seed_from_u64(seed);
    let mut buffer: Vec<usize> = (0..8).collect();
    let mut expected = Vec::new();
    for state in states {
        expected.push(relax_with_stream(
            &matrix,
            ActivationFunction::Bipolar,
            &mut buffer,
            5,
            0,
            &mut rng,
            state,
            &product,
            &unit_energies,
        ));
    }
    assert_eq!(relaxed, expected);
}

#[test]
fn a_batch_of_one_state_is_a_sequential_relaxation_with_the_seed_of_the_first_worker() {
    let matrix = mixing_matrix(8);
    let state = bipolar_states(6, 8).pop().unwrap();
    for workers in [1usize, 2, 5] {
        let mut network = network(matrix.clone(), 5, 2, 31);
        let relaxed = network
            .concurrent_relax_state_collection(vec![state.clone()], workers, run_last_worker_first)
            .unwrap();
        let seed = StdRng::seed_from_u64(31).next_u64();
        let mut rng = StdRng::seed_from_u64(seed);
        let mut buffer: Vec<usize> = (0..8).collect();
        let expected = relax_with_stream(
            &matrix,
            ActivationFunction::Bipolar,
            &mut buffer,
            5,
            2,
            &mut rng,
            state.clone(),
            &product,
            &unit_energies,
        );
        assert_eq!(relaxed, vec![expected]);
    }
}

#[test]
fn a_batch_keeps_the_network() {
    let mut network = network(mixing_matrix(8), 5, 2, 31);
    let rows = network.matrix.rows.clone();
    let _ = network.concurrent_relax_state_collection(bipolar_states(6, 8), 3, run_one_after_the_other);
    assert_eq!(network.matrix.rows, rows);
    assert_eq!(network.dimension, 8);
    assert_eq!(network.domain, NetworkDomain::Bipolar);
    assert_eq!(network.activation_fn, ActivationFunction::Bipolar);
    assert_eq!(network.maximum_relaxation_iterations, 5);
    assert_eq!(network.maximum_relaxation_unstable_units, 2);
}

#[test]
fn a_task_run_is_the_work_of_one_worker() {
    let states = bipolar_states(4, 8);
    let share: Vec<(usize, Vec<Scalar>)> = states.into_iter().enumerate().collect();
    let task = WorkerTask {
        matrix: mixing_matrix(8),
        activation_fn: ActivationFunction::Bipolar,
        unit_indices: (0..8).collect(),
        maximum_relaxation_iterations: 4,
        maximum_relaxation_unstable_units: 1,
        rng_seed: 99,
        state_collection: share.clone(),
    };
    let expected = concurrent_relax_thread_fn(
        mixing_matrix(8),
        ActivationFunction::Bipolar,
        (0..8).collect(),
        4,
        1,
        99,
        share,
        &product,
        &unit_energies,
    );
    assert_eq!(task.run(&product, &unit_energies), expected);
}
