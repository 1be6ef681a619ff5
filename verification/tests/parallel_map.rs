use std::sync::atomic::{AtomicUsize, Ordering};

use threshold_parmap::parmap::{apply, apply_for_effect, try_apply};
use threshold_parmap::policy::{takes_parallel_path, Policy, DEFAULT_CHUNK_SIZE, DEFAULT_THRESHOLD};

fn doubled_plus_one(input: &[u8]) -> Vec<u8> {
    input.iter().map(|t| t * 2 + 1).collect()
}

#[test]
fn empty_input_returns_empty() {
    let p = Policy::default();
    let out: Vec<u8> = apply(Vec::new(), |t: u8| t * 2 + 1, &p);
    assert_eq!(out, Vec::<u8>::new());
}

#[test]
fn default_policy_knobs() {
    let p = Policy::default();
    assert_eq!(p.threshold, 15);
    assert_eq!(p.chunk_size, 8);
    assert_eq!(DEFAULT_THRESHOLD, 15);
    assert_eq!(DEFAULT_CHUNK_SIZE, 8);
    let q = Policy::new(100, 3);
    assert_eq!(q.threshold, 100);
    assert_eq!(q.chunk_size, 3);
}

#[test]
fn threshold_boundary() {
    let p = Policy::default();
    assert!(!takes_parallel_path(15, &p));
    assert!(takes_parallel_path(16, &p));
    assert!(!takes_parallel_path(0, &p));

    let at_threshold: Vec<u8> = (1..=15).collect();
    let over_threshold: Vec<u8> = (1..=16).collect();
    let out15 = apply(at_threshold.clone(), |t: u8| t * 2 + 1, &p);
    let out16 = apply(over_threshold.clone(), |t: u8| t * 2 + 1, &p);
    assert_eq!(out15, doubled_plus_one(&at_threshold));
    assert_eq!(out16, doubled_plus_one(&over_threshold));
}

#[test]
fn length_and_order_preserved() {
    let p = Policy::default();
    for n in [1usize, 7, 15, 16, 17, 24, 25, 40] {
        let input: Vec<u64> = (0..n as u64).collect();
        let out = apply(input.clone(), |t: u64| t * 10 + 3, &p);
        assert_eq!(out.len(), input.len());
        for (i, v) in out.iter().enumerate() {
            assert_eq!(*v, input[i] * 10 + 3);
        }
    }
}

#[test]
fn both_paths_agree_on_reference_input() {
    let input: Vec<u8> = (1..=25).collect();
    let expected: Vec<u8> = (1..=25).map(|t| t * 2 + 1).collect();
    assert_eq!(expected.first(), Some(&3));
    assert_eq!(expected.last(), Some(&51));

    let parallel = Policy::default();
    let sequential_only = Policy::new(100, 8);
    let out_par = apply(input.clone(), |t: u8| t * 2 + 1, &parallel);
    let out_seq = apply(input.clone(), |t: u8| t * 2 + 1, &sequential_only);
    assert_eq!(out_par, expected);
    assert_eq!(out_seq, expected);
    assert_eq!(out_par, out_seq);
}

#[test]
fn every_element_processed_before_return() {
    let p = Policy::default();
    let counter = AtomicUsize::new(0);
    let input: Vec<u64> = (0..25).collect();
    let out = apply(
        input,
        |t: u64| {
            counter.fetch_add(1, Ordering::SeqCst);
            t + 1
        },
        &p,
    );
    // Every worker has been joined by the time `apply` returns, so all 25
    // applications are visible here.
    assert_eq!(counter.load(Ordering::SeqCst), 25);
    assert_eq!(out.len(), 25);
}

#[test]
fn effect_only_variant_marks_all_elements() {
    let p = Policy::default();
    let counter = AtomicUsize::new(0);
    let input: Vec<u64> = (0..25).collect();
    let done = apply_for_effect(
        input,
        |t: u64| {
            counter.fetch_add(1, Ordering::SeqCst);
            t * 2
        },
        &p,
    );
    assert_eq!(done.len(), 25);
    assert!(done.iter().all(|m| *m));
    assert_eq!(counter.load(Ordering::SeqCst), 25);
}

#[test]
fn effect_only_variant_sequential_path() {
    let p = Policy::default();
    let counter = AtomicUsize::new(0);
    let input: Vec<u64> = (0..10).collect();
    let done = apply_for_effect(
        input,
        |_t: u64| {
            counter.fetch_add(1, Ordering::SeqCst);
        },
        &p,
    );
    assert_eq!(done, vec![true; 10]);
    assert_eq!(counter.load(Ordering::SeqCst), 10);
}

#[test]
fn failure_on_one_element_reports_failure() {
    let p = Policy::default();
    let input: Vec<u8> = (1..=25).collect();
    let outcome = try_apply(
        input,
        |t: u8| if t == 13 { Err(t) } else { Ok(t * 2 + 1) },
        &p,
    );
    assert_eq!(outcome, Err(13));
}

#[test]
fn failure_reported_on_sequential_path_too() {
    let p = Policy::default();
    let input: Vec<u8> = (1..=5).collect();
    let outcome = try_apply(input, |t: u8| if t == 4 { Err("bad") } else { Ok(t) }, &p);
    assert_eq!(outcome, Err("bad"));
}

#[test]
fn fallible_transform_that_never_fails_succeeds() {
    let p = Policy::default();
    let input: Vec<u8> = (1..=25).collect();
    let outcome: Result<Vec<u8>, ()> = try_apply(input.clone(), |t: u8| Ok(t * 2 + 1), &p);
    assert_eq!(outcome, Ok(doubled_plus_one(&input)));
}

#[test]
fn all_workers_joined_even_when_one_fails() {
    let p = Policy::default();
    let counter = AtomicUsize::new(0);
    let input: Vec<u64> = (0..25).collect();
    let outcome = try_apply(
        input,
        |t: u64| {
            counter.fetch_add(1, Ordering::SeqCst);
            if t == 3 {
                Err(())
            } else {
                Ok(t)
            }
        },
        &p,
    );
    assert!(outcome.is_err());
    // Failure is only reported after every worker has run to completion and
    // been joined: each of the 25 elements was still processed.
    assert_eq!(counter.load(Ordering::SeqCst), 25);
}

#[test]
fn single_element_input() {
    let p = Policy::default();
    let out = apply(vec![41u64], |t: u64| t + 1, &p);
    assert_eq!(out, vec![42]);
}

#[test]
fn custom_chunk_size_of_one() {
    let p = Policy::new(2, 1);
    let input: Vec<u16> = (0..9).collect();
    let out = apply(input, |t: u16| t + 100, &p);
    assert_eq!(out, (100..109).collect::<Vec<u16>>());
}
