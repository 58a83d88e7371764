use quantum_simulator::gate::Gate;
use quantum_simulator::probability::{has_drifted, Normalization, SimulationError};
use quantum_simulator::scalar::Numerics;
use quantum_simulator::state::AmplitudeVector;

fn numerics() -> Numerics<f64> {
    Numerics { zero: 0.0, one: 1.0, root_two: 2.0_f64.sqrt(), tolerance: 0.00001 }
}

fn sqrt(x: f64) -> f64 {
    x.sqrt()
}

fn state(first: [f64; 4]) -> AmplitudeVector<f64> {
    AmplitudeVector { cells: [first[0], first[1], first[2], first[3], 0.0, 0.0, 0.0, 0.0] }
}

#[test]
fn ground_state_is_certain_of_bucket_0() {
    let mut ground = AmplitudeVector::ground(0.0, 1.0);
    for policy in [Normalization::Keep, Normalization::Rescale] {
        let distribution = ground.calculate_probabilities(&numerics(), policy, &sqrt).unwrap();
        assert_eq!(distribution.buckets, [1.0, 0.0, 0.0, 0.0]);
        assert_eq!(ground.cells, [1.0, 0.0, 0.0, 0.0, 0.0, 0.0, 0.0, 0.0]);
    }
}

#[test]
fn x0_moves_the_amplitude_within_bucket_0() {
    // Cells 0 and 1 both belong to bucket 0, so the swap leaves the
    // probabilities of the ground state as they were.
    let mut after_x0 = AmplitudeVector::ground(0.0, 1.0);
    after_x0.apply_gate(Gate::X0, numerics().root_two);
    assert_eq!(after_x0.cells, [0.0, 1.0, 0.0, 0.0, 0.0, 0.0, 0.0, 0.0]);
    let distribution =
        after_x0.calculate_probabilities(&numerics(), Normalization::Keep, &sqrt).unwrap();
    assert_eq!(distribution.buckets, [1.0, 0.0, 0.0, 0.0]);
}

#[test]
fn a_bucket_is_the_sum_of_the_squares_of_its_two_cells() {
    let counting = AmplitudeVector { cells: [1.0, 2.0, 3.0, 4.0, 5.0, 6.0, 7.0, 8.0] };
    assert_eq!(counting.probabilities().buckets, [5.0, 25.0, 61.0, 113.0]);
    let signed = AmplitudeVector { cells: [-1.0, 0.5, 0.0, -0.25, 3.0, -4.0, 0.0, 0.0] };
    assert_eq!(signed.probabilities().buckets, [1.25, 0.0625, 25.0, 0.0]);
}

#[test]
fn squared_norm_adds_all_eight_squares() {
    let counting = AmplitudeVector { cells: [1.0, 2.0, 3.0, 4.0, 5.0, 6.0, 7.0, 8.0] };
    assert_eq!(counting.squared_norm(0.0), 204.0);
    assert_eq!(AmplitudeVector::ground(0.0, 1.0).squared_norm(0.0), 1.0);
    assert_eq!(state([0.0; 4]).squared_norm(0.0), 0.0);
    let mut mixed = AmplitudeVector::ground(0.0, 1.0);
    mixed.apply_gate(Gate::H0, numerics().root_two);
    assert_eq!(mixed.squared_norm(0.0), 0.9999999999999998);
}

#[test]
fn drift_is_a_distance_from_one_above_the_tolerance() {
    let k = numerics();
    assert!(!has_drifted(1.0, &k));
    assert!(!has_drifted(0.9999999999999998, &k));
    assert!(!has_drifted(0.999995, &k));
    assert!(!has_drifted(0.99999, &k));
    assert!(has_drifted(1.00001, &k));
    assert!(has_drifted(1.00002, &k));
    assert!(has_drifted(0.9999, &k));
    assert!(has_drifted(1.000011, &k));
    assert!(has_drifted(0.0, &k));
    assert!(has_drifted(4.0, &k));
    assert!(has_drifted(-1.0, &k));
    assert!(has_drifted(f64::INFINITY, &k));
}

#[test]
fn a_squared_norm_that_is_no_number_has_not_drifted() {
    assert!(!has_drifted(f64::NAN, &numerics()));
}

#[test]
fn keep_uses_drifted_amplitudes_as_they_stand() {
    let mut doubled = state([2.0, 0.0, 0.0, 0.0]);
    let distribution =
        doubled.calculate_probabilities(&numerics(), Normalization::Keep, &sqrt).unwrap();
    assert_eq!(distribution.buckets, [4.0, 0.0, 0.0, 0.0]);
    assert_eq!(doubled.cells, [2.0, 0.0, 0.0, 0.0, 0.0, 0.0, 0.0, 0.0]);

    let mut halved = state([0.5, 0.0, 0.0, 0.0]);
    let distribution =
        halved.calculate_probabilities(&numerics(), Normalization::Keep, &sqrt).unwrap();
    assert_eq!(distribution.buckets, [0.25, 0.0, 0.0, 0.0]);
    assert_eq!(halved.cells, [0.5, 0.0, 0.0, 0.0, 0.0, 0.0, 0.0, 0.0]);
}

#[test]
fn rescale_divides_drifted_amplitudes_by_their_norm() {
    let mut doubled = state([2.0, 0.0, 0.0, 0.0]);
    let distribution =
        doubled.calculate_probabilities(&numerics(), Normalization::Rescale, &sqrt).unwrap();
    assert_eq!(doubled.cells, [1.0, 0.0, 0.0, 0.0, 0.0, 0.0, 0.0, 0.0]);
    assert_eq!(distribution.buckets, [1.0, 0.0, 0.0, 0.0]);

    let mut three_four = state([3.0, 0.0, 4.0, 0.0]);
    let distribution =
        three_four.calculate_probabilities(&numerics(), Normalization::Rescale, &sqrt).unwrap();
    assert_eq!(three_four.cells, [0.6, 0.0, 0.8, 0.0, 0.0, 0.0, 0.0, 0.0]);
    assert_eq!(distribution.buckets, [0.36, 0.6400000000000001, 0.0, 0.0]);

    let mut even = AmplitudeVector { cells: [1.0, 1.0, 1.0, 1.0, 0.0, 0.0, 0.0, 0.0] };
    let distribution =
        even.calculate_probabilities(&numerics(), Normalization::Rescale, &sqrt).unwrap();
    assert_eq!(even.cells, [0.5, 0.5, 0.5, 0.5, 0.0, 0.0, 0.0, 0.0]);
    assert_eq!(distribution.buckets, [0.5, 0.5, 0.0, 0.0]);
}

#[test]
fn rescale_reaches_the_upper_cells() {
    let mut upper = AmplitudeVector { cells: [0.0, 0.0, 0.0, 0.0, 0.0, 6.0, 0.0, 8.0] };
    let distribution =
        upper.calculate_probabilities(&numerics(), Normalization::Rescale, &sqrt).unwrap();
    assert_eq!(upper.cells, [0.0, 0.0, 0.0, 0.0, 0.0, 0.6, 0.0, 0.8]);
    assert_eq!(distribution.buckets, [0.0, 0.0, 0.36, 0.6400000000000001]);
}

#[test]
fn rescale_leaves_amplitudes_within_the_tolerance_alone() {
    let mut mixed = AmplitudeVector::ground(0.0, 1.0);
    mixed.apply_gate(Gate::H0, numerics().root_two);
    let before = mixed.cells;
    let distribution =
        mixed.calculate_probabilities(&numerics(), Normalization::Rescale, &sqrt).unwrap();
    assert_eq!(mixed.cells, before);
    assert_eq!(distribution.buckets, [0.4999999999999999, 0.4999999999999999, 0.0, 0.0]);

    let mut close = state([1.000001, 0.0, 0.0, 0.0]);
    close.calculate_probabilities(&numerics(), Normalization::Rescale, &sqrt).unwrap();
    assert_eq!(close.cells, [1.000001, 0.0, 0.0, 0.0, 0.0, 0.0, 0.0, 0.0]);
}

#[test]
fn rescale_of_a_zero_vector_is_an_error() {
    let mut zero = state([0.0; 4]);
    let result = zero.calculate_probabilities(&numerics(), Normalization::Rescale, &sqrt);
    assert_eq!(result.unwrap_err(), SimulationError::DegenerateNormalization);
    assert_eq!(zero.cells, [0.0; 8]);
}

#[test]
fn keep_of_a_zero_vector_gives_zero_probabilities() {
    let mut zero = state([0.0; 4]);
    let distribution =
        zero.calculate_probabilities(&numerics(), Normalization::Keep, &sqrt).unwrap();
    assert_eq!(distribution.buckets, [0.0, 0.0, 0.0, 0.0]);
    assert_eq!(zero.cells, [0.0; 8]);
}

#[test]
fn normalize_returns_the_norm_it_divided_by() {
    let mut three_four = state([0.0, 3.0, 0.0, -4.0]);
    assert_eq!(three_four.normalize_state_vector(0.0, &sqrt), Ok(5.0));
    assert_eq!(three_four.cells, [0.0, 0.6, 0.0, -0.8, 0.0, 0.0, 0.0, 0.0]);

    let mut unit = AmplitudeVector::ground(0.0, 1.0);
    assert_eq!(unit.normalize_state_vector(0.0, &sqrt), Ok(1.0));
    assert_eq!(unit.cells, [1.0, 0.0, 0.0, 0.0, 0.0, 0.0, 0.0, 0.0]);
}

#[test]
fn normalize_refuses_a_zero_vector() {
    let mut zero = state([0.0; 4]);
    assert_eq!(
        zero.normalize_state_vector(0.0, &sqrt),
        Err(SimulationError::DegenerateNormalization)
    );
    assert_eq!(zero.cells, [0.0; 8]);
}

#[test]
fn normalize_uses_the_square_root_it_is_given() {
    // With a root function that always answers 4, every cell is divided by 4.
    let mut cells = state([2.0, 4.0, 8.0, 16.0]);
    assert_eq!(cells.normalize_state_vector(0.0, &|_| 4.0), Ok(4.0));
    assert_eq!(cells.cells, [0.5, 1.0, 2.0, 4.0, 0.0, 0.0, 0.0, 0.0]);
}

#[test]
fn probabilities_can_be_looked_up_by_bucket() {
    let counting = AmplitudeVector { cells: [1.0, 2.0, 3.0, 4.0, 5.0, 6.0, 7.0, 8.0] };
    let map = counting.probabilities().as_hashmap();
    assert_eq!(map.len(), 4);
    assert_eq!(map[&0], 5.0);
    assert_eq!(map[&1], 25.0);
    assert_eq!(map[&2], 61.0);
    assert_eq!(map[&3], 113.0);
    assert_eq!(map.get(&4), None);
}
