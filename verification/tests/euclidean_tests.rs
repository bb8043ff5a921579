use lobachevsky::euclidean::{Bjorklund, Breshenham, EuclideanRhythm};
use lobachevsky::LobachevskyError;

fn count(p: &[bool]) -> usize {
    p.iter().fold(0, |acc, b| if *b { acc + 1 } else { acc })
}

fn max_consecutive_falses(pattern: &[bool]) -> usize {
    let mut max_zeros = 0;
    let mut current_zeros = 0;
    for &value in pattern {
        if !value {
            current_zeros += 1;
            max_zeros = max_zeros.max(current_zeros);
        } else {
            current_zeros = 0;
        }
    }
    max_zeros
}

#[test]
fn bjorklund_basic_euclidean_patterns() {
    let result = Bjorklund::generate(8, 5).expect("test pattern should be okay");
    assert_eq!(result.len(), 8);
    assert_eq!(count(&result), 5);
    let result = Bjorklund::generate(8, 3).expect("test pattern should be okay");
    assert_eq!(result.len(), 8);
    assert_eq!(count(&result), 3);
    let result = Bjorklund::generate(16, 4).expect("test pattern should be okay");
    assert_eq!(result.len(), 16);
    assert_eq!(count(&result), 4);
}

#[test]
fn bjorklund_edge_cases_are_good() {
    let result = Bjorklund::generate(4, 4).expect("test pattern should be okay");
    assert_eq!(result, vec![true, true, true, true]);
    let result = Bjorklund::generate(4, 0).expect("test pattern should be okay");
    assert_eq!(result, vec![false, false, false, false]);
    let result = Bjorklund::generate(4, 1).expect("test pattern should be okay");
    assert_eq!(result, vec![true, false, false, false]);
    assert_eq!(result.len(), 4);
    assert_eq!(count(&result), 1);
    assert!(result[0]);
    let result = Bjorklund::generate(1, 1).expect("test pattern should be okay");
    assert_eq!(result, vec![true]);
    let result = Bjorklund::generate(1, 0).expect("test pattern should be okay");
    assert_eq!(result, vec![false]);
}

#[test]
fn bjorklund_can_handle_invalid_input() {
    assert!(Bjorklund::generate(4, 5).is_err());
    assert!(Bjorklund::generate(8, 10).is_err());
}

#[test]
fn bjorklund_known_patterns_work_properly() {
    let result = Bjorklund::generate(8, 3).expect("test pattern should be okay");
    assert_eq!(result.len(), 8);
    assert_eq!(count(&result), 3);
    assert!(max_consecutive_falses(&result) <= 3);
    let result = Bjorklund::generate(8, 5).expect("test pattern should be okay");
    assert_eq!(result.len(), 8);
    assert_eq!(count(&result), 5);
    let result = Bjorklund::generate(12, 7).expect("test pattern should be okay");
    assert_eq!(result.len(), 12);
    assert_eq!(count(&result), 7);
}

#[test]
fn bjorklund_patterns_start_with_pulse() {
    let result = Bjorklund::generate(8, 3).expect("test pattern should be okay");
    assert!(result[0]);
    let result = Bjorklund::generate(16, 5).expect("test pattern should be okay");
    assert!(result[0]);
    let result = Bjorklund::generate(8, 0).expect("test pattern should be okay");
    assert!(!result[0]);
}

#[test]
fn breshenham_basic_euclidean_patterns() {
    let result = Breshenham::generate(8, 5).expect("test pattern should be okay");
    assert_eq!(result.len(), 8);
    assert_eq!(count(&result), 5);
    let result = Breshenham::generate(8, 3).expect("test pattern should be okay");
    assert_eq!(result.len(), 8);
    assert_eq!(count(&result), 3);
    let result = Breshenham::generate(16, 4).expect("test pattern should be okay");
    assert_eq!(result.len(), 16);
    assert_eq!(count(&result), 4);
}

#[test]
fn breshenham_edge_cases_are_good() {
    let result = Breshenham::generate(4, 4).expect("test pattern should be okay");
    assert_eq!(result, vec![true, true, true, true]);
    let result = Breshenham::generate(4, 0).expect("test pattern should be okay");
    assert_eq!(result, vec![false, false, false, false]);
    let result = Breshenham::generate(4, 1).expect("test pattern should be okay");
    assert_eq!(result, vec![true, false, false, false]);
    assert_eq!(result.len(), 4);
    assert_eq!(count(&result), 1);
    assert!(result[0]);
    let result = Breshenham::generate(1, 1).expect("test pattern should be okay");
    assert_eq!(result, vec![true]);
    let result = Breshenham::generate(1, 0).expect("test pattern should be okay");
    assert_eq!(result, vec![false]);
}

#[test]
fn breshenham_can_handle_invalid_input() {
    assert!(Breshenham::generate(4, 5).is_err());
    assert!(Breshenham::generate(8, 10).is_err());
}

#[test]
fn breshenham_known_patterns_work_properly() {
    let result = Breshenham::generate(8, 3).expect("test pattern should be okay");
    assert_eq!(result.len(), 8);
    assert_eq!(count(&result), 3);
    assert!(max_consecutive_falses(&result) <= 3);
    let result = Breshenham::generate(8, 5).expect("test pattern should be okay");
    assert_eq!(result.len(), 8);
    assert_eq!(count(&result), 5);
    let result = Breshenham::generate(12, 7).expect("test pattern should be okay");
    assert_eq!(result.len(), 12);
    assert_eq!(count(&result), 7);
}

#[test]
fn breshenham_patterns_start_with_pulse() {
    let result = Breshenham::generate(8, 3).expect("test pattern should be okay");
    assert!(result[0]);
    let result = Breshenham::generate(16, 5).expect("test pattern should be okay");
    assert!(result[0]);
    let result = Breshenham::generate(8, 0).expect("test pattern should be okay");
    assert!(!result[0]);
}

#[test]
fn bresenham_specific_patterns() {
    let result = Breshenham::generate(13, 5).expect("test pattern should be okay");
    assert_eq!(result.len(), 13);
    assert_eq!(count(&result), 5);
    assert!(result[0]);
    let result = Breshenham::generate(7, 3).expect("test pattern should be okay");
    assert_eq!(result.len(), 7);
    assert_eq!(count(&result), 3);
    assert!(result[0]);
    let result = Breshenham::generate(5, 2).expect("test pattern should be okay");
    assert_eq!(result.len(), 5);
    assert_eq!(count(&result), 2);
    assert!(result[0]);
}

#[test]
fn exact_euclidean_patterns() {
    // E(3,8): the tresillo, from either algorithm.
    let x = true;
    let o = false;
    assert_eq!(Bjorklund::generate(8, 3).unwrap(), vec![x, o, o, x, o, o, x, o]);
    assert_eq!(Breshenham::generate(8, 3).unwrap(), vec![x, o, o, x, o, x, o, o]);
    // E(5,8): the cinquillo.
    assert_eq!(Bjorklund::generate(8, 5).unwrap(), vec![x, o, x, x, o, x, x, o]);
    assert_eq!(Breshenham::generate(8, 5).unwrap(), vec![x, o, x, x, o, x, x, o]);
    // E(2,5).
    assert_eq!(Breshenham::generate(5, 2).unwrap(), vec![x, o, x, o, o]);
}

#[test]
fn euclidean_error_carries_its_inputs() {
    match Bjorklund::generate(3, 7) {
        Err(LobachevskyError::EuclideanInputs { steps, pulses }) => {
            assert_eq!(steps, 3);
            assert_eq!(pulses, 7);
        }
        other => panic!("unexpected {:?}", other),
    }
    assert_eq!(Bjorklund::generate(0, 0).unwrap(), Vec::<bool>::new());
}

#[test]
fn every_small_pattern_keeps_its_pulses() {
    for steps in 1..=24usize {
        for pulses in 0..=steps {
            for p in [Bjorklund::generate(steps, pulses).unwrap(), Breshenham::generate(steps, pulses).unwrap()] {
                assert_eq!(p.len(), steps);
                assert_eq!(count(&p), pulses);
                if pulses > 0 {
                    assert!(p[0]);
                }
            }
        }
    }
}

#[test]
fn line_drawing_patterns_are_evenly_spread() {
    for steps in 1..=16usize {
        for pulses in 0..=steps {
            let p = Breshenham::generate(steps, pulses).ok().unwrap();
            for len in 0..=steps {
                let f = len * pulses / steps;
                for a in 0..steps {
                    let c = (0..len).filter(|i| p[(a + i) % steps]).count();
                    assert!(c == f || c == f + 1, "{} of {} over {} from {}: {}", pulses, steps, len, a, c);
                }
            }
        }
    }
}

#[test]
fn bjorklund_patterns_are_evenly_spread() {
    for steps in 1..=24usize {
        for pulses in 0..=steps {
            let p = Bjorklund::generate(steps, pulses).ok().unwrap();
            for len in 0..=steps {
                let counts: Vec<usize> =
                    (0..steps).map(|a| (0..len).filter(|i| p[(a + i) % steps]).count()).collect();
                let lo = *counts.iter().min().unwrap();
                let hi = *counts.iter().max().unwrap();
                assert!(hi - lo <= 1, "{} of {} over {}", pulses, steps, len);
            }
        }
    }
}
