use vstd::prelude::*;
use vstd::arithmetic::power2::{pow2, lemma_pow2_adds, lemma_pow2_pos};

verus! {

/// Default number of retries for one chunk after its first failed attempt.
pub const MAX_RETRIES: u64 = 5;

/// Base backoff delay, in milliseconds.
pub const SLEEP_FACTOR: u64 = 500;

/// Fixed per-chunk retry policy: how many retries are allowed and the base of
/// the exponential backoff.
#[derive(Debug)]
pub struct RetryPolicy {
    pub max_retries: u64,
    pub base_delay_ms: u64,
}

/// Mutable per-chunk retry state: how many attempts have failed so far.
#[derive(Debug)]
pub struct RetryState {
    pub failures: u64,
}

/// The backoff delay before the retry that follows the `failures`-th failed
/// attempt: `base * 2^failures`.
pub open spec fn backoff_spec(base: nat, failures: nat) -> nat {
    base * pow2(failures)
}

/// Whether a chunk whose source fails deterministically
/// `failures_before_success` times and then succeeds completes under a policy
/// that allows `retries_left` further attempts after the first.
pub open spec fn spec_retry_run(retries_left: nat, failures_before_success: nat) -> bool
    decreases failures_before_success,
{
    if failures_before_success == 0 {
        true
    } else if retries_left == 0 {
        false
    } else {
        spec_retry_run((retries_left - 1) as nat, (failures_before_success - 1) as nat)
    }
}

/// Retry exhaustion: a source that fails deterministically `n` times and then
/// succeeds completes exactly when the policy allows at least `n` retries.
pub proof fn lemma_retry_exhaustion(max_retries: nat, failures_before_success: nat)
    ensures
        spec_retry_run(max_retries, failures_before_success) <==> failures_before_success
            <= max_retries,
    decreases failures_before_success,
{
    if failures_before_success > 0 && max_retries > 0 {
        lemma_retry_exhaustion((max_retries - 1) as nat, (failures_before_success - 1) as nat);
    }
}

/// The backoff delay `base * 2^failures`, saturating at `u64::MAX`.
pub fn backoff_delay_ms(base: u64, failures: u64) -> (r: u64)
    ensures
        backoff_spec(base as nat, failures as nat) <= u64::MAX ==> r == backoff_spec(
            base as nat,
            failures as nat,
        ),
        backoff_spec(base as nat, failures as nat) > u64::MAX ==> r == u64::MAX,
{
    let mut d: u64 = base;
    let mut i: u64 = 0;
    proof {
        vstd::arithmetic::power2::lemma2_to64();
    }
    while i < failures
        invariant
            i <= failures,
            d as nat == base * pow2(i as nat),
        decreases failures - i,
    {
        if d > u64::MAX / 2 {
            proof {
                let rest = (failures - i) as nat;
                lemma_pow2_adds(i as nat, rest);
                lemma_pow2_pos(rest);
                vstd::arithmetic::power2::lemma2_to64();
                if rest > 1 {
                    vstd::arithmetic::power2::lemma_pow2_strictly_increases(1, rest);
                }
                assert(pow2(rest) >= 2);
                assert(base * pow2(failures as nat) == (base * pow2(i as nat)) * pow2(rest))
                    by (nonlinear_arith)
                    requires
                        pow2((i + rest) as nat) == pow2(i as nat) * pow2(rest),
                        failures as nat == (i + rest) as nat,
                ;
                assert((base * pow2(i as nat)) * pow2(rest) >= (base * pow2(i as nat)) * 2)
                    by (nonlinear_arith)
                    requires
                        pow2(rest) >= 2,
                        base * pow2(i as nat) >= 0,
                ;
            }
            return u64::MAX;
        }
        d = d * 2;
        i = i + 1;
        proof {
            lemma_pow2_adds((i - 1) as nat, 1);
            vstd::arithmetic::power2::lemma2_to64();
            assert(base * pow2(i as nat) == (base * pow2((i - 1) as nat)) * 2)
                by (nonlinear_arith)
                requires
                    pow2(i as nat) == pow2((i - 1) as nat) * 2,
            ;
        }
    }
    d
}

impl RetryPolicy {
    /// The fixed policy the engine uses by default.
    pub fn default_policy() -> (r: RetryPolicy)
        ensures
            r.max_retries == MAX_RETRIES,
            r.base_delay_ms == SLEEP_FACTOR,
    {
        RetryPolicy { max_retries: MAX_RETRIES, base_delay_ms: SLEEP_FACTOR }
    }

    /// Decision after a failed chunk attempt: retry after the returned
    /// backoff delay, or give up once the retries are exhausted. The state
    /// counts one more failure exactly when a retry is granted.
    pub fn after_failure(&self, st: &mut RetryState) -> (r: Option<u64>)
        ensures
            old(st).failures >= self.max_retries ==> r is None && final(st).failures == old(
                st,
            ).failures,
            old(st).failures < self.max_retries ==> {
                &&& final(st).failures == old(st).failures + 1
                &&& r matches Some(d) && (if backoff_spec(
                    self.base_delay_ms as nat,
                    final(st).failures as nat,
                ) <= u64::MAX {
                    d == backoff_spec(self.base_delay_ms as nat, final(st).failures as nat)
                } else {
                    d == u64::MAX
                })
            },
    {
        if st.failures >= self.max_retries {
            None
        } else {
            st.failures = st.failures + 1;
            Some(backoff_delay_ms(self.base_delay_ms, st.failures))
        }
    }
}

/// Runs the retry loop against a source that fails deterministically
/// `failures_before_success` times and then succeeds: `Ok` carries the number
/// of failed attempts before the success, `Err` the number of retries that
/// were granted and exhausted.
pub fn run_with_retries(policy: &RetryPolicy, failures_before_success: u64) -> (r: Result<
    u64,
    u64,
>)
    ensures
        r is Ok <==> spec_retry_run(policy.max_retries as nat, failures_before_success as nat),
        failures_before_success <= policy.max_retries ==> (r matches Ok(k) && k
            == failures_before_success),
        failures_before_success > policy.max_retries ==> (r matches Err(k) && k
            == policy.max_retries),
{
    proof {
        lemma_retry_exhaustion(policy.max_retries as nat, failures_before_success as nat);
    }
    let mut st = RetryState { failures: 0 };
    loop
        invariant
            st.failures <= failures_before_success,
            st.failures <= policy.max_retries,
            spec_retry_run(policy.max_retries as nat, failures_before_success as nat) == (
            failures_before_success <= policy.max_retries),
        decreases failures_before_success - st.failures,
    {
        if st.failures >= failures_before_success {
            return Ok(st.failures);
        }
        match policy.after_failure(&mut st) {
            Some(_delay) => {
            },
            None => {
                return Err(st.failures);
            },
        }
    }
}

} // verus!
