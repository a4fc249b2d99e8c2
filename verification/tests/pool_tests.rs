use puma::pool::{Pool, Scheduler, MAX_CHUNK_CONCURRENCY, MAX_FILE_CONCURRENCY};

#[test]
fn pool_hands_out_no_more_permits_than_its_capacity() {
    let mut p = Pool::new(3);
    assert!(p.try_acquire());
    assert!(p.try_acquire());
    assert!(p.try_acquire());
    assert!(!p.try_acquire());
    assert_eq!(p.in_flight, 3);
    p.release();
    assert!(p.try_acquire());
    assert!(!p.try_acquire());
}

#[test]
fn zero_capacity_pool_never_grants() {
    let mut p = Pool::new(0);
    assert!(!p.try_acquire());
    assert_eq!(p.in_flight, 0);
}

#[test]
fn scheduler_bounds_file_jobs() {
    let mut s = Scheduler::new(MAX_FILE_CONCURRENCY, MAX_CHUNK_CONCURRENCY);
    for k in 0..MAX_FILE_CONCURRENCY {
        assert_eq!(s.try_start_file(), Some(k as usize));
    }
    assert_eq!(s.try_start_file(), None);
    assert_eq!(s.jobs.len() as u64, MAX_FILE_CONCURRENCY);
}

#[test]
fn scheduler_bounds_chunks_within_one_job() {
    let mut s = Scheduler::new(2, 3);
    let job = s.try_start_file().unwrap();
    assert!(s.try_start_chunk(job));
    assert!(s.try_start_chunk(job));
    assert!(s.try_start_chunk(job));
    assert!(!s.try_start_chunk(job));
    s.finish_chunk(job);
    assert!(s.try_start_chunk(job));
}

#[test]
fn scheduler_frees_a_file_slot_when_a_job_retires() {
    let mut s = Scheduler::new(1, 2);
    let job = s.try_start_file().unwrap();
    assert_eq!(s.try_start_file(), None);
    assert!(s.try_start_chunk(job));
    s.finish_chunk(job);
    s.finish_file(job);
    assert_eq!(s.try_start_file(), Some(0));
}
