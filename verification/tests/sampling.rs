use quantum_simulator::probability::{Normalization, ProbabilityDistribution, SimulationError};
use quantum_simulator::sampler::{measure_state_vector, sample, select_bucket, OutcomeCounts};
use quantum_simulator::scalar::Numerics;
use quantum_simulator::state::AmplitudeVector;

fn numerics() -> Numerics<f64> {
    Numerics { zero: 0.0, one: 1.0, root_two: 2.0_f64.sqrt(), tolerance: 0.00001 }
}

fn sqrt(x: f64) -> f64 {
    x.sqrt()
}

fn distribution(buckets: [f64; 4]) -> ProbabilityDistribution<f64> {
    ProbabilityDistribution { buckets }
}

/// `shots` draws spread evenly over the range from 0 up to, not including,
/// 0.9999.
fn spread(shots: usize) -> Vec<f64> {
    (0..shots).map(|i| 0.9999 * (i as f64) / (shots as f64)).collect()
}

#[test]
fn the_first_bucket_whose_running_sum_exceeds_the_draw_is_chosen() {
    let even = distribution([0.25, 0.25, 0.25, 0.25]);
    assert_eq!(select_bucket(&even, 0.0, 0.0), Some(0));
    assert_eq!(select_bucket(&even, 0.2499, 0.0), Some(0));
    assert_eq!(select_bucket(&even, 0.25, 0.0), Some(1));
    assert_eq!(select_bucket(&even, 0.4999, 0.0), Some(1));
    assert_eq!(select_bucket(&even, 0.5, 0.0), Some(2));
    assert_eq!(select_bucket(&even, 0.7499, 0.0), Some(2));
    assert_eq!(select_bucket(&even, 0.75, 0.0), Some(3));
    assert_eq!(select_bucket(&even, 0.9998, 0.0), Some(3));
}

#[test]
fn buckets_without_probability_are_passed_over() {
    let gaps = distribution([0.0, 0.5, 0.0, 0.5]);
    assert_eq!(select_bucket(&gaps, 0.0, 0.0), Some(1));
    assert_eq!(select_bucket(&gaps, 0.4999, 0.0), Some(1));
    assert_eq!(select_bucket(&gaps, 0.5, 0.0), Some(3));
    assert_eq!(select_bucket(&gaps, 0.9998, 0.0), Some(3));
}

#[test]
fn a_draw_that_no_running_sum_exceeds_falls_in_no_bucket() {
    let short = distribution([0.25, 0.0, 0.25, 0.0]);
    assert_eq!(select_bucket(&short, 0.4999, 0.0), Some(2));
    assert_eq!(select_bucket(&short, 0.5, 0.0), None);
    assert_eq!(select_bucket(&short, 0.9, 0.0), None);
    let nothing = distribution([0.0, 0.0, 0.0, 0.0]);
    assert_eq!(select_bucket(&nothing, 0.0, 0.0), None);
}

#[test]
fn the_running_sum_starts_at_the_zero_given() {
    let even = distribution([0.25, 0.25, 0.25, 0.25]);
    assert_eq!(select_bucket(&even, 0.3, 0.1), Some(0));
    assert_eq!(select_bucket(&even, 0.3, 0.0), Some(1));
}

#[test]
fn a_certain_bucket_takes_every_shot() {
    let certain = distribution([1.0, 0.0, 0.0, 0.0]);
    for shots in [1, 2, 28, 1000] {
        let outcome = sample(&certain, &spread(shots), 0.0);
        assert_eq!(outcome.counts, [shots, 0, 0, 0]);
    }
    let extremes = [0.0, 0.9998999999999999, 0.5, f64::MIN_POSITIVE];
    assert_eq!(sample(&certain, &extremes, 0.0).counts, [4, 0, 0, 0]);
}

#[test]
fn no_draws_give_no_counts() {
    let certain = distribution([1.0, 0.0, 0.0, 0.0]);
    assert_eq!(sample(&certain, &[], 0.0).counts, [0, 0, 0, 0]);
}

#[test]
fn each_draw_is_counted_in_its_bucket() {
    let uneven = distribution([0.5, 0.25, 0.125, 0.125]);
    let draws = [0.1, 0.6, 0.8, 0.9, 0.3, 0.74, 0.75];
    assert_eq!(sample(&uneven, &draws, 0.0).counts, [2, 2, 2, 1]);
}

#[test]
fn counts_follow_the_probabilities() {
    let uneven = distribution([0.5, 0.25, 0.125, 0.125]);
    let outcome = sample(&uneven, &spread(8000), 0.0);
    assert_eq!(outcome.counts, [4001, 2000, 1000, 999]);
}

#[test]
fn leftover_probability_drops_trials() {
    // Drifted amplitudes kept as they stand: the probabilities add up to a
    // quarter, and only the draws below a quarter are counted.
    let mut halved = AmplitudeVector { cells: [0.5, 0.0, 0.0, 0.0, 0.0, 0.0, 0.0, 0.0] };
    let draws = spread(1000);
    let outcome =
        measure_state_vector(&mut halved, &numerics(), Normalization::Keep, &sqrt, &draws).unwrap();
    assert_eq!(outcome.counts, [251, 0, 0, 0]);
    let total: usize = outcome.counts.iter().sum();
    assert!(total < draws.len());
    assert_eq!(halved.cells, [0.5, 0.0, 0.0, 0.0, 0.0, 0.0, 0.0, 0.0]);
}

#[test]
fn rescaled_amplitudes_count_every_trial() {
    let mut halved = AmplitudeVector { cells: [0.5, 0.0, 0.0, 0.0, 0.0, 0.0, 0.0, 0.0] };
    let draws = spread(1000);
    let outcome =
        measure_state_vector(&mut halved, &numerics(), Normalization::Rescale, &sqrt, &draws)
            .unwrap();
    assert_eq!(outcome.counts, [1000, 0, 0, 0]);
    assert_eq!(halved.cells, [1.0, 0.0, 0.0, 0.0, 0.0, 0.0, 0.0, 0.0]);
}

#[test]
fn counts_never_exceed_the_shots_when_amplitudes_are_kept() {
    let draws = spread(500);
    for cells in [
        [1.0, 0.0, 0.0, 0.0, 0.0, 0.0, 0.0, 0.0],
        [0.5, 0.5, 0.0, 0.0, 0.0, 0.0, 0.0, 0.0],
        [0.1, 0.2, 0.3, 0.4, 0.0, 0.0, 0.0, 0.0],
        [3.0, 4.0, 0.0, 0.0, 0.0, 0.0, 0.0, 0.0],
        [0.0, 0.0, 0.0, 0.0, 0.0, 0.0, 0.0, 0.0],
        [0.0, 0.0, 0.0, 0.0, 0.3, 0.3, 0.3, 0.3],
    ] {
        let mut state = AmplitudeVector { cells };
        let outcome =
            measure_state_vector(&mut state, &numerics(), Normalization::Keep, &sqrt, &draws)
                .unwrap();
        let total: usize = outcome.counts.iter().sum();
        assert!(total <= draws.len(), "{:?}", cells);
    }
}

#[test]
fn counts_never_exceed_the_shots_when_amplitudes_are_rescaled() {
    let draws = spread(500);
    for cells in [
        [1.0, 0.0, 0.0, 0.0, 0.0, 0.0, 0.0, 0.0],
        [0.5, 0.5, 0.0, 0.0, 0.0, 0.0, 0.0, 0.0],
        [0.1, 0.2, 0.3, 0.4, 0.0, 0.0, 0.0, 0.0],
        [3.0, 4.0, 0.0, 0.0, 0.0, 0.0, 0.0, 0.0],
        [0.0, 0.0, 0.0, 0.0, 0.3, 0.3, 0.3, 0.3],
    ] {
        let mut state = AmplitudeVector { cells };
        let outcome =
            measure_state_vector(&mut state, &numerics(), Normalization::Rescale, &sqrt, &draws)
                .unwrap();
        let total: usize = outcome.counts.iter().sum();
        assert_eq!(total, draws.len(), "{:?}", cells);
    }
}

#[test]
fn measuring_a_zero_vector() {
    let draws = spread(28);
    let mut zero = AmplitudeVector { cells: [0.0; 8] };
    assert_eq!(
        measure_state_vector(&mut zero, &numerics(), Normalization::Rescale, &sqrt, &draws),
        Err(SimulationError::DegenerateNormalization)
    );
    assert_eq!(
        measure_state_vector(&mut zero, &numerics(), Normalization::Keep, &sqrt, &draws),
        Ok(OutcomeCounts { counts: [0, 0, 0, 0] })
    );
    assert_eq!(zero.cells, [0.0; 8]);
}

#[test]
fn rows_are_labelled_in_binary_with_buckets_1_and_2_exchanged() {
    let outcome = OutcomeCounts { counts: [1, 2, 3, 4] };
    assert_eq!(outcome.display_rows(), [("00", 1), ("01", 3), ("10", 2), ("11", 4)]);
}
