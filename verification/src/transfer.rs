//! Transfer manager: byte-range resumable download with a bounded retry budget.
//!
//! The state machine here makes every decision of the download loop — which
//! offset to request, what to do with a response, when to retry and when to
//! give up — while the unverified shell performs the actual HTTP requests and
//! hands the results back as plain values.

use vstd::prelude::*;

verus! {

/// Outcome of one transfer step, as seen by the driver loop.
#[derive(Clone, Copy, PartialEq, Eq, Structural, Debug)]
pub enum TransferOutcome {
    /// The response carried the remaining bytes; the download is finished.
    Done,
    /// A transport-level failure; the attempt budget allows another try.
    Retry,
    /// The attempt budget is exhausted; the transfer failed permanently.
    FailedPermanent,
    /// The server answered with a status other than full or partial content.
    FailedFatal,
}

/// A resumable download: the destination bytes obtained so far plus the retry budget.
pub struct Transfer {
    /// Bytes of the destination file already obtained (on disk, in the real run).
    pub file: Vec<u8>,
    /// Transport-level failures seen so far; each one is a spent attempt.
    pub failures: u64,
    /// Total attempts allowed before the transfer fails permanently.
    pub max_attempts: u64,
}

/// A response status that carries content: 200 (full) or 206 (partial).
pub open spec fn spec_is_success_status(status: u16) -> bool {
    status == 200 || status == 206
}

/// Tests a response status for full or partial content.
pub fn is_success_status(status: u16) -> (r: bool)
    ensures
        r == spec_is_success_status(status),
{
    status == 200 || status == 206
}

/// The failure counter after one more transport-level failure.
pub open spec fn spec_fail_count_step(failures: u64, max_attempts: u64) -> u64 {
    if failures < max_attempts {
        (failures + 1) as u64
    } else {
        failures
    }
}

/// The outcome reported for a transport-level failure seen with `failures`
/// failures already recorded.
pub open spec fn spec_fail_outcome(failures: u64, max_attempts: u64) -> TransferOutcome {
    if failures + 1 >= max_attempts {
        TransferOutcome::FailedPermanent
    } else {
        TransferOutcome::Retry
    }
}

/// The destination bytes after a successful ranged response: the server sends
/// `resource` from the on-disk length onward and the bytes are appended.
pub open spec fn spec_completed(disk: Seq<u8>, resource: Seq<u8>) -> Seq<u8> {
    disk + resource.skip(disk.len() as int)
}

impl Transfer {
    /// Starts a transfer over whatever bytes are already on disk; a fresh
    /// download starts from an empty buffer.
    pub fn new(existing: Vec<u8>, max_attempts: u64) -> (t: Transfer)
        ensures
            t.file@ == existing@,
            t.failures == 0,
            t.max_attempts == max_attempts,
    {
        Transfer { file: existing, failures: 0, max_attempts }
    }

    /// The offset the next ranged request asks for: resume decisions are
    /// derived solely from the length already obtained.
    pub fn request_offset(&self) -> (r: u64)
        ensures
            r == self.file@.len(),
    {
        self.file.len() as u64
    }

    /// Records a response.  Full or partial content is appended to the
    /// destination — never truncating it — and finishes the transfer; any
    /// other status is fatal and is not retried.
    pub fn on_response(&mut self, status: u16, body: &[u8]) -> (r: TransferOutcome)
        ensures
            spec_is_success_status(status) ==> {
                &&& final(self).file@ == old(self).file@ + body@
                &&& r == TransferOutcome::Done
            },
            !spec_is_success_status(status) ==> {
                &&& final(self).file@ == old(self).file@
                &&& r == TransferOutcome::FailedFatal
            },
            final(self).failures == old(self).failures,
            final(self).max_attempts == old(self).max_attempts,
    {
        if status == 200 || status == 206 {
            crate::append_bytes(&mut self.file, body);
            TransferOutcome::Done
        } else {
            TransferOutcome::FailedFatal
        }
    }

    /// Records a transport-level failure (connection error, timeout).  The
    /// attempt counter advances; the outcome says whether the budget allows
    /// another try.
    pub fn on_transport_error(&mut self) -> (r: TransferOutcome)
        ensures
            final(self).failures == spec_fail_count_step(old(self).failures, old(self).max_attempts),
            r == spec_fail_outcome(old(self).failures, old(self).max_attempts),
            final(self).file@ == old(self).file@,
            final(self).max_attempts == old(self).max_attempts,
    {
        if self.failures < self.max_attempts {
            self.failures = self.failures + 1;
        }
        if self.failures >= self.max_attempts {
            TransferOutcome::FailedPermanent
        } else {
            TransferOutcome::Retry
        }
    }

    /// Whether the bytes obtained reach the declared size, which is how the
    /// orchestrator decides that no (further) download is needed.
    pub fn is_complete(&self, declared_size: u64) -> (r: bool)
        ensures
            r == (self.file@.len() >= declared_size),
    {
        self.file.len() as u64 >= declared_size
    }

    /// Hands the destination bytes back to the caller.
    pub fn into_file(self) -> (r: Vec<u8>)
        ensures
            r@ == self.file@,
    {
        self.file
    }
}

/// The failure counter after `n` consecutive transport-level failures of a
/// fresh transfer with the given attempt budget.
pub open spec fn spec_failures_after(n: nat, max_attempts: u64) -> u64
    decreases n,
{
    if n == 0 {
        0
    } else {
        spec_fail_count_step(spec_failures_after((n - 1) as nat, max_attempts), max_attempts)
    }
}

/// Retry bound: against a source that always fails transiently, a transfer
/// with `max_attempts == m` makes exactly `m` attempts.  For every `n` from 1
/// to `m`, after `n` failures the counter reads `n`; the outcome of the `n`-th
/// failure is `Retry` while `n < m` and `FailedPermanent` at `n == m`; and no
/// such outcome is ever `Done`.
pub proof fn lemma_retry_bound(m: u64, n: nat)
    requires
        1 <= m,
        1 <= n <= m,
    ensures
        spec_failures_after(n, m) == n,
        spec_fail_outcome(spec_failures_after((n - 1) as nat, m), m) == if n == m {
            TransferOutcome::FailedPermanent
        } else {
            TransferOutcome::Retry
        },
        spec_fail_outcome(spec_failures_after((n - 1) as nat, m), m) != TransferOutcome::Done,
    decreases n,
{
    if n > 1 {
        lemma_retry_bound(m, (n - 1) as nat);
    }
}

/// Resume correctness: completing a transfer whose first `k` bytes are already
/// on disk yields the resource byte for byte — the same bytes as a fresh full
/// download of the same resource.
pub proof fn lemma_resume_matches_full(resource: Seq<u8>, k: int)
    requires
        0 <= k <= resource.len(),
    ensures
        spec_completed(resource.take(k), resource) == resource,
        spec_completed(Seq::<u8>::empty(), resource) == resource,
{
    assert(spec_completed(resource.take(k), resource) =~= resource);
    assert(spec_completed(Seq::<u8>::empty(), resource) =~= resource);
}

} // verus!
