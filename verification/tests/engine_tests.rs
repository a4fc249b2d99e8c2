use puma::chunks::{chunk_ranges, range_header_value, CHUNK_SIZE};
use puma::digits::u64_to_decimal;
use puma::engine::{simulate_job, Progress};
use puma::retry::{backoff_delay_ms, run_with_retries, RetryPolicy, RetryState, MAX_RETRIES, SLEEP_FACTOR};

#[test]
fn partitions_250mb_into_three_expected_ranges() {
    let ranges = chunk_ranges(250_000_000, 100_000_000);
    assert_eq!(
        ranges,
        vec![(0, 99_999_999), (100_000_000, 199_999_999), (200_000_000, 249_999_999)]
    );
}

#[test]
fn partitions_exact_multiple_without_empty_tail() {
    let ranges = chunk_ranges(200_000_000, 100_000_000);
    assert_eq!(ranges, vec![(0, 99_999_999), (100_000_000, 199_999_999)]);
}

#[test]
fn partitions_single_byte_and_single_chunk() {
    assert_eq!(chunk_ranges(1, CHUNK_SIZE), vec![(0, 0)]);
    assert_eq!(chunk_ranges(5_000_000, 100_000_000), vec![(0, 4_999_999)]);
}

#[test]
fn renders_range_header() {
    assert_eq!(range_header_value(0, 99_999_999), "bytes=0-99999999");
    assert_eq!(range_header_value(100_000_000, 149_999_999), "bytes=100000000-149999999");
}

#[test]
fn renders_decimals() {
    assert_eq!(u64_to_decimal(0), "0");
    assert_eq!(u64_to_decimal(7), "7");
    assert_eq!(u64_to_decimal(1234567890), "1234567890");
    assert_eq!(u64_to_decimal(u64::MAX), "18446744073709551615");
}

#[test]
fn retry_succeeds_when_failures_fit_the_budget() {
    let policy = RetryPolicy { max_retries: 5, base_delay_ms: SLEEP_FACTOR };
    assert_eq!(run_with_retries(&policy, 0), Ok(0));
    assert_eq!(run_with_retries(&policy, 3), Ok(3));
    assert_eq!(run_with_retries(&policy, 5), Ok(5));
}

#[test]
fn retry_exhausts_when_failures_exceed_the_budget() {
    let policy = RetryPolicy { max_retries: 5, base_delay_ms: SLEEP_FACTOR };
    assert_eq!(run_with_retries(&policy, 6), Err(5));
    let none = RetryPolicy { max_retries: 0, base_delay_ms: SLEEP_FACTOR };
    assert_eq!(run_with_retries(&none, 1), Err(0));
    assert_eq!(run_with_retries(&none, 0), Ok(0));
}

#[test]
fn backoff_doubles_per_failure_and_saturates() {
    assert_eq!(backoff_delay_ms(500, 0), 500);
    assert_eq!(backoff_delay_ms(500, 1), 1000);
    assert_eq!(backoff_delay_ms(500, 5), 16000);
    assert_eq!(backoff_delay_ms(0, 10), 0);
    assert_eq!(backoff_delay_ms(u64::MAX, 1), u64::MAX);
    assert_eq!(backoff_delay_ms(1, 64), u64::MAX);
}

#[test]
fn after_failure_grants_delays_then_gives_up() {
    let policy = RetryPolicy { max_retries: 2, base_delay_ms: 500 };
    let mut st = RetryState { failures: 0 };
    assert_eq!(policy.after_failure(&mut st), Some(1000));
    assert_eq!(st.failures, 1);
    assert_eq!(policy.after_failure(&mut st), Some(2000));
    assert_eq!(st.failures, 2);
    assert_eq!(policy.after_failure(&mut st), None);
    assert_eq!(st.failures, 2);
}

#[test]
fn two_layer_pull_with_no_failures_reaches_full_lengths() {
    let a = simulate_job(150_000_000, 100_000_000, MAX_RETRIES, &vec![0, 0]);
    assert_eq!(a.final_len, 150_000_000);
    assert!(a.gaps.is_empty());
    let b = simulate_job(5_000_000, 100_000_000, MAX_RETRIES, &vec![0]);
    assert_eq!(b.final_len, 5_000_000);
    assert!(b.gaps.is_empty());
}

#[test]
fn exhausted_mid_file_chunk_keeps_length_but_leaves_a_gap() {
    let out = simulate_job(150_000_000, 100_000_000, 5, &vec![6, 0]);
    assert_eq!(out.final_len, 150_000_000);
    assert_eq!(out.gaps, vec![(0, 99_999_999)]);
}

#[test]
fn exhausted_final_chunk_truncates_the_file() {
    let out = simulate_job(150_000_000, 100_000_000, 5, &vec![0, 6]);
    assert_eq!(out.final_len, 100_000_000);
    assert_eq!(out.gaps, vec![(100_000_000, 149_999_999)]);
}

#[test]
fn progress_counts_completed_and_dropped_apart() {
    let mut p = Progress::new(150_000_000);
    assert!(!p.is_finished());
    p.on_chunk_success(100_000_000);
    assert_eq!(p.completed, 100_000_000);
    assert!(!p.is_finished());
    p.on_chunk_dropped(50_000_000);
    assert_eq!(p.completed, 100_000_000);
    assert_eq!(p.dropped, 50_000_000);
    assert!(p.is_finished());
}
