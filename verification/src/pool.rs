use vstd::prelude::*;

verus! {

/// How many layer files may be transferred at once.
pub const MAX_FILE_CONCURRENCY: u64 = 5;

/// How many chunks of one file may be in flight at once.
pub const MAX_CHUNK_CONCURRENCY: u64 = 20;

/// A counting permit pool: at most `capacity` permits are ever out at once.
#[derive(Debug)]
pub struct Pool {
    pub capacity: u64,
    pub in_flight: u64,
}

impl Pool {
    /// The pool never hands out more permits than its capacity.
    pub open spec fn wf(&self) -> bool {
        self.in_flight <= self.capacity
    }

    /// A fresh pool with no permit taken.
    pub fn new(capacity: u64) -> (r: Pool)
        ensures
            r.wf(),
            r.capacity == capacity,
            r.in_flight == 0,
    {
        Pool { capacity, in_flight: 0 }
    }

    /// Takes one permit when capacity is free; succeeds exactly then.
    pub fn try_acquire(&mut self) -> (r: bool)
        requires
            old(self).wf(),
        ensures
            final(self).wf(),
            final(self).capacity == old(self).capacity,
            r == (old(self).in_flight < old(self).capacity),
            r ==> final(self).in_flight == old(self).in_flight + 1,
            !r ==> final(self).in_flight == old(self).in_flight,
    {
        if self.in_flight < self.capacity {
            self.in_flight = self.in_flight + 1;
            true
        } else {
            false
        }
    }

    /// Returns one permit.
    pub fn release(&mut self)
        requires
            old(self).wf(),
            old(self).in_flight > 0,
        ensures
            final(self).wf(),
            final(self).capacity == old(self).capacity,
            final(self).in_flight == old(self).in_flight - 1,
    {
        self.in_flight = self.in_flight - 1;
    }
}

/// Total of a sequence of in-flight chunk counts.
pub open spec fn sum_of(s: Seq<u64>) -> nat
    decreases s.len(),
{
    if s.len() == 0 {
        0
    } else {
        sum_of(s.drop_last()) + s.last() as nat
    }
}

/// A sequence of bounded counts sums to at most length times the bound.
proof fn lemma_sum_bound(s: Seq<u64>, b: u64)
    requires
        forall|j: int| 0 <= j < s.len() ==> #[trigger] s[j] <= b,
    ensures
        sum_of(s) <= s.len() * b,
    decreases s.len(),
{
    if s.len() > 0 {
        lemma_sum_bound(s.drop_last(), b);
        assert(s.last() <= b);
        assert(s.len() * b == (s.len() - 1) * b + b) by (nonlinear_arith);
    }
}

/// The two-level concurrency state of one pull: each element of `jobs` is
/// the number of chunk requests in flight for one active file job.
#[derive(Debug)]
pub struct Scheduler {
    pub max_files: u64,
    pub max_chunks_per_file: u64,
    pub jobs: Vec<u64>,
}

impl Scheduler {
    /// Concurrency bound: never more than `max_files` active file jobs, and
    /// never more than `max_chunks_per_file` chunks in flight within one job.
    pub open spec fn wf(&self) -> bool {
        &&& self.jobs@.len() <= self.max_files
        &&& forall|j: int|
            0 <= j < self.jobs@.len() ==> #[trigger] self.jobs@[j] <= self.max_chunks_per_file
    }

    /// A scheduler with no active job.
    pub fn new(max_files: u64, max_chunks_per_file: u64) -> (r: Scheduler)
        ensures
            r.wf(),
            r.max_files == max_files,
            r.max_chunks_per_file == max_chunks_per_file,
            r.jobs@.len() == 0,
    {
        Scheduler { max_files, max_chunks_per_file, jobs: Vec::new() }
    }

    /// Admits one more file job while fewer than `max_files` are active; the
    /// returned handle indexes the job's chunk count.
    pub fn try_start_file(&mut self) -> (r: Option<usize>)
        requires
            old(self).wf(),
        ensures
            final(self).wf(),
            final(self).max_files == old(self).max_files,
            final(self).max_chunks_per_file == old(self).max_chunks_per_file,
            r is Some <==> old(self).jobs@.len() < old(self).max_files,
            r matches Some(j) ==> j == old(self).jobs@.len() && final(self).jobs@ == old(
                self,
            ).jobs@.push(0u64),
            r is None ==> final(self).jobs@ == old(self).jobs@,
    {
        if (self.jobs.len() as u64) < self.max_files {
            let j = self.jobs.len();
            self.jobs.push(0);
            Some(j)
        } else {
            None
        }
    }

    /// Admits one more chunk request of job `job` while fewer than
    /// `max_chunks_per_file` are in flight; succeeds exactly then.
    pub fn try_start_chunk(&mut self, job: usize) -> (r: bool)
        requires
            old(self).wf(),
            job < old(self).jobs@.len(),
        ensures
            final(self).wf(),
            final(self).max_files == old(self).max_files,
            final(self).max_chunks_per_file == old(self).max_chunks_per_file,
            r == (old(self).jobs@[job as int] < old(self).max_chunks_per_file),
            r ==> final(self).jobs@ == old(self).jobs@.update(
                job as int,
                (old(self).jobs@[job as int] + 1) as u64,
            ),
            !r ==> final(self).jobs@ == old(self).jobs@,
    {
        let current = self.jobs[job];
        if current < self.max_chunks_per_file {
            self.jobs.set(job, current + 1);
            true
        } else {
            false
        }
    }

    /// Records that one chunk request of job `job` resolved.
    pub fn finish_chunk(&mut self, job: usize)
        requires
            old(self).wf(),
            job < old(self).jobs@.len(),
            old(self).jobs@[job as int] > 0,
        ensures
            final(self).wf(),
            final(self).max_files == old(self).max_files,
            final(self).max_chunks_per_file == old(self).max_chunks_per_file,
            final(self).jobs@ == old(self).jobs@.update(
                job as int,
                (old(self).jobs@[job as int] - 1) as u64,
            ),
    {
        let current = self.jobs[job];
        self.jobs.set(job, current - 1);
    }

    /// Retires job `job` once none of its chunks is in flight.
    pub fn finish_file(&mut self, job: usize)
        requires
            old(self).wf(),
            job < old(self).jobs@.len(),
            old(self).jobs@[job as int] == 0,
        ensures
            final(self).wf(),
            final(self).max_files == old(self).max_files,
            final(self).max_chunks_per_file == old(self).max_chunks_per_file,
            final(self).jobs@ == old(self).jobs@.remove(job as int),
    {
        self.jobs.remove(job);
    }

    /// The true upper bound on simultaneous requests is the product of the
    /// two capacities, because the chunk pool is per job, not global.
    pub proof fn lemma_total_in_flight_bound(&self)
        requires
            self.wf(),
        ensures
            sum_of(self.jobs@) <= self.max_files * self.max_chunks_per_file,
    {
        lemma_sum_bound(self.jobs@, self.max_chunks_per_file);
        assert(self.jobs@.len() * self.max_chunks_per_file <= self.max_files
            * self.max_chunks_per_file) by (nonlinear_arith)
            requires
                self.jobs@.len() <= self.max_files,
        ;
    }
}

} // verus!
