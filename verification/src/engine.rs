use vstd::prelude::*;
use crate::chunks::{chunk_count, chunk_ranges, chunk_ranges_spec, lemma_partition_complete};
use crate::retry::{run_with_retries, RetryPolicy, SLEEP_FACTOR};

verus! {

/// Progress of one transfer job. Bytes verified complete and bytes dropped
/// after exhausted retries are counted apart, so a rendered bar cannot show
/// a gapped file as fully downloaded.
#[derive(Debug)]
pub struct Progress {
    pub total: u64,
    pub completed: u64,
    pub dropped: u64,
}

impl Progress {
    /// The two counters never pass the expected total.
    pub open spec fn wf(&self) -> bool {
        self.completed + self.dropped <= self.total
    }

    /// Fresh progress for a job of `total` expected bytes.
    pub fn new(total: u64) -> (r: Progress)
        ensures
            r.wf(),
            r.total == total,
            r.completed == 0,
            r.dropped == 0,
    {
        Progress { total, completed: 0, dropped: 0 }
    }

    /// Records `len` bytes written and verified.
    pub fn on_chunk_success(&mut self, len: u64)
        requires
            old(self).wf(),
            old(self).completed + old(self).dropped + len <= old(self).total,
        ensures
            final(self).wf(),
            final(self).total == old(self).total,
            final(self).completed == old(self).completed + len,
            final(self).dropped == old(self).dropped,
    {
        self.completed = self.completed + len;
    }

    /// Records `len` bytes given up after exhausted retries.
    pub fn on_chunk_dropped(&mut self, len: u64)
        requires
            old(self).wf(),
            old(self).completed + old(self).dropped + len <= old(self).total,
        ensures
            final(self).wf(),
            final(self).total == old(self).total,
            final(self).completed == old(self).completed,
            final(self).dropped == old(self).dropped + len,
    {
        self.dropped = self.dropped + len;
    }

    /// Whether every byte of the job has been resolved, one way or the
    /// other.
    pub fn is_finished(&self) -> (r: bool)
        requires
            self.wf(),
        ensures
            r == (self.completed + self.dropped == self.total),
    {
        self.completed + self.dropped == self.total
    }
}

/// What one job leaves on disk when each chunk's source fails a fixed
/// number of times: the file's final length and the byte ranges whose
/// content is missing.
#[derive(Debug)]
pub struct JobOutcome {
    pub final_len: u64,
    pub gaps: Vec<(u64, u64)>,
}

/// Index of the last chunk whose source fails no more often than the
/// retries allow, or `-1` when every chunk is dropped.
pub open spec fn last_success(fails: Seq<u64>, max_retries: u64) -> int
    decreases fails.len(),
{
    if fails.len() == 0 {
        -1
    } else if fails.last() <= max_retries {
        fails.len() - 1
    } else {
        last_success(fails.drop_last(), max_retries)
    }
}

/// Length of the output file after the job: positional writes extend the
/// file, so it ends where the last successful chunk ends, and stays empty
/// when every chunk is dropped.
pub open spec fn final_len_spec(
    content_length: u64,
    chunk_size: u64,
    fails: Seq<u64>,
    max_retries: u64,
) -> int {
    if last_success(fails, max_retries) >= 0 {
        chunk_ranges_spec(content_length, chunk_size)[last_success(fails, max_retries)].1 + 1
    } else {
        0
    }
}

/// The ranges of the chunks among the first `upto` that exhaust their
/// retries, in ascending order.
pub open spec fn gaps_spec(
    content_length: u64,
    chunk_size: u64,
    fails: Seq<u64>,
    max_retries: u64,
    upto: int,
) -> Seq<(u64, u64)>
    decreases upto,
{
    if upto <= 0 {
        Seq::empty()
    } else {
        gaps_spec(content_length, chunk_size, fails, max_retries, upto - 1) + (if fails[upto - 1]
            > max_retries {
            seq![chunk_ranges_spec(content_length, chunk_size)[upto - 1]]
        } else {
            Seq::empty()
        })
    }
}

/// Runs one whole transfer job against chunk sources that fail
/// deterministically: chunk `i` fails `fail_counts[i]` times before it would
/// succeed. Every chunk goes through the retry loop; the outcome reports
/// the file length the positional writes reach and the gaps the dropped
/// chunks leave.
pub fn simulate_job(
    content_length: u64,
    chunk_size: u64,
    max_retries: u64,
    fail_counts: &Vec<u64>,
) -> (r: JobOutcome)
    requires
        content_length > 0,
        chunk_size > 0,
        chunk_count(content_length as nat, chunk_size as nat) <= usize::MAX,
        fail_counts@.len() == chunk_count(content_length as nat, chunk_size as nat),
    ensures
        r.final_len == final_len_spec(content_length, chunk_size, fail_counts@, max_retries),
        r.gaps@ == gaps_spec(
            content_length,
            chunk_size,
            fail_counts@,
            max_retries,
            fail_counts@.len() as int,
        ),
{
    let ranges = chunk_ranges(content_length, chunk_size);
    let policy = RetryPolicy { max_retries, base_delay_ms: SLEEP_FACTOR };
    let mut gaps: Vec<(u64, u64)> = Vec::new();
    let mut final_len: u64 = 0;
    let mut i: usize = 0;
    proof {
        lemma_partition_complete(content_length, chunk_size);
        assert(fail_counts@.subrange(0, 0) =~= Seq::<u64>::empty());
    }
    while i < ranges.len()
        invariant
            content_length > 0,
            chunk_size > 0,
            ranges@ == chunk_ranges_spec(content_length, chunk_size),
            policy.max_retries == max_retries,
            fail_counts@.len() == ranges@.len(),
            i <= ranges@.len(),
            forall|k: int|
                0 <= k < ranges@.len() ==> (#[trigger] ranges@[k]).0 <= ranges@[k].1
                    < content_length,
            gaps@ == gaps_spec(content_length, chunk_size, fail_counts@, max_retries, i as int),
            final_len as int == final_len_spec(
                content_length,
                chunk_size,
                fail_counts@.subrange(0, i as int),
                max_retries,
            ),
        decreases ranges@.len() - i,
    {
        let ghost pre = fail_counts@.subrange(0, i as int);
        let ghost next = fail_counts@.subrange(0, i + 1);
        proof {
            assert(next.drop_last() =~= pre);
            assert(next.last() == fail_counts@[i as int]);
        }
        match run_with_retries(&policy, fail_counts[i]) {
            Ok(_) => {
                final_len = ranges[i].1 + 1;
                proof {
                    crate::retry::lemma_retry_exhaustion(
                        max_retries as nat,
                        fail_counts@[i as int] as nat,
                    );
                    assert(fail_counts@[i as int] <= max_retries);
                    assert(next.len() == i + 1);
                    assert(next.last() <= max_retries);
                    assert(last_success(next, max_retries) == i);
                }
            },
            Err(_) => {
                gaps.push(ranges[i]);
                proof {
                    crate::retry::lemma_retry_exhaustion(
                        max_retries as nat,
                        fail_counts@[i as int] as nat,
                    );
                    assert(last_success(next, max_retries) == last_success(pre, max_retries));
                }
            },
        }
        i = i + 1;
    }
    proof {
        assert(fail_counts@.subrange(0, fail_counts@.len() as int) =~= fail_counts@);
    }
    JobOutcome { final_len, gaps }
}

/// A job whose final chunk completes leaves the file at the full expected
/// length, even when chunks before it were dropped: the gaps hide inside
/// the file, not at its end.
pub proof fn lemma_gapped_file_keeps_length(
    content_length: u64,
    chunk_size: u64,
    fails: Seq<u64>,
    max_retries: u64,
)
    requires
        content_length > 0,
        chunk_size > 0,
        fails.len() == chunk_count(content_length as nat, chunk_size as nat),
        fails.last() <= max_retries,
    ensures
        final_len_spec(content_length, chunk_size, fails, max_retries) == content_length,
{
    lemma_partition_complete(content_length, chunk_size);
    assert(last_success(fails, max_retries) == fails.len() - 1);
}

} // verus!
