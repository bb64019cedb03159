//! Parallel chunk uploader: a bounded-concurrency, rate-governed scheduler
//! with per-chunk bounded retry and partial-failure tracking.
//!
//! The scheduler's decisions are a state machine: a coordinator admits chunks
//! while the rate controller allows, hands each admitted chunk to a worker,
//! and merges every worker's outcome into exactly one of the successful or the
//! failed set. A caller that runs workers concurrently drives the same state
//! machine from its own loop; `upload_chunks_parallel` drives it to completion
//! directly.

use vstd::prelude::*;

use crate::copy_byte_range;
use crate::textfmt;

verus! {

broadcast use
    vstd::seq_lib::group_to_multiset_ensures,
    vstd::seq_lib::lemma_multiset_commutative,
    vstd::multiset::group_multiset_axioms,
    vstd::set::group_set_axioms,
    vstd::std_specs::hash::group_hash_axioms,
;

/// Configuration for parallel upload operations
#[derive(Debug, Clone)]
pub struct ParallelUploadConfig {
    /// Maximum number of concurrent uploads
    pub max_concurrent: usize,
    /// Target upload rate in bytes per second
    pub target_rate_bps: u64,
    /// Maximum retry attempts per chunk
    pub max_retries: usize,
    /// Delay between retry attempts in milliseconds
    pub retry_delay_ms: u64,
}

impl Default for ParallelUploadConfig {
    /// Four concurrent uploads toward a 4 MiB/s target, three attempts per
    /// chunk, one second between attempts.
    fn default() -> (c: Self)
        ensures
            c.max_concurrent == 4,
            c.target_rate_bps == 4 * 1024 * 1024,
            c.max_retries == 3,
            c.retry_delay_ms == 1000,
    {
        ParallelUploadConfig {
            max_concurrent: 4,
            target_rate_bps: 4 * 1024 * 1024,
            max_retries: 3,
            retry_delay_ms: 1000,
        }
    }
}

/// Result of a parallel upload operation
#[derive(Debug)]
pub enum ParallelUploadResult {
    /// All chunks uploaded successfully
    Success,
    /// Some chunks failed after all retries
    PartialFailure {
        /// Successfully uploaded chunk IDs
        successful_chunks: Vec<u32>,
        /// Failed chunk IDs with errors
        failed_chunks: std::collections::HashMap<u32, String>,
    },
    /// Upload was completely unsuccessful
    Failed(String),
}

/// Information about a chunk to be uploaded
#[derive(Debug, Clone)]
pub struct ChunkInfo {
    /// Unique chunk ID (used for ordering/tracking)
    pub chunk_id: u32,
    /// The actual chunk data
    pub data: Vec<u8>,
    /// Size of this chunk in bytes
    pub size: usize,
}

/// The ids of a chunk sequence, in order.
pub open spec fn spec_chunk_ids(chunks: Seq<ChunkInfo>) -> Seq<u32> {
    chunks.map_values(|c: ChunkInfo| c.chunk_id)
}

/// Convert regular chunks to ChunkInfo with sequential IDs.
///
/// The produced entries carry ids 0 to N-1 in input order, each holding its
/// input chunk's bytes and that chunk's length as its size.
pub fn chunks_to_chunk_info(chunks: &[Vec<u8>]) -> (infos: Vec<ChunkInfo>)
    requires
        chunks@.len() <= u32::MAX,
    ensures
        infos@.len() == chunks@.len(),
        forall|i: int|
            0 <= i < chunks@.len() ==> {
                &&& (#[trigger] infos@[i]).chunk_id == i as u32
                &&& infos@[i].data@ == chunks@[i]@
                &&& infos@[i].size == chunks@[i]@.len()
            },
{
    let mut infos: Vec<ChunkInfo> = Vec::new();
    let n = chunks.len();
    let mut i: usize = 0;
    while i < n
        invariant
            n == chunks@.len() <= u32::MAX,
            i <= n,
            infos@.len() == i,
            forall|j: int|
                0 <= j < i ==> {
                    &&& (#[trigger] infos@[j]).chunk_id == j as u32
                    &&& infos@[j].data@ == chunks@[j]@
                    &&& infos@[j].size == chunks@[j]@.len()
                },
        decreases n - i,
    {
        let source = &chunks[i];
        let data = copy_byte_range(source, 0, source.len());
        proof {
            assert(data@ =~= chunks@[i as int]@);
        }
        let size = data.len();
        infos.push(ChunkInfo { chunk_id: i as u32, data, size });
        i = i + 1;
    }
    infos
}

/// The candid argument text for one identified chunk: the id as a `nat32` and
/// the data as a blob of two-digit uppercase hex escapes.
pub open spec fn spec_candid_args(chunk_id: int, data: Seq<u8>) -> Seq<char> {
    "("@ + textfmt::spec_dec(chunk_id) + " : nat32, blob \""@ + textfmt::spec_hex_escapes(data)
        + "\")"@
}

/// Converts chunk data with ID to a blob string in Candid format
pub fn chunk_with_id_to_candid_args(chunk_id: u32, data: &[u8]) -> (s: String)
    ensures
        s@ == spec_candid_args(chunk_id as int, data@),
{
    let mut s = String::from_str("(");
    textfmt::push_dec(&mut s, chunk_id as u64);
    s.append(" : nat32, blob \"");
    textfmt::push_hex_escapes(&mut s, data);
    s.append("\")");
    proof {
        assert(s@ =~= spec_candid_args(chunk_id as int, data@));
    }
    s
}

/// The fixed sample argument text `create_test_format` produces for an id.
pub open spec fn spec_test_format(chunk_id: int) -> Seq<char> {
    if chunk_id == 0 {
        "(0, blob \"\01\02\03\04\")"@
    } else {
        "("@ + textfmt::spec_dec(chunk_id) + ", blob \"\01\02\03\04\""@
    }
}

/// Test to create exact working format for debugging
pub fn create_test_format(chunk_id: u32) -> (s: String)
    ensures
        s@ == spec_test_format(chunk_id as int),
{
    if chunk_id == 0 {
        String::from_str("(0, blob \"\01\02\03\04\")")
    } else {
        let mut s = String::from_str("(");
        textfmt::push_dec(&mut s, chunk_id as u64);
        s.append(", blob \"\01\02\03\04\"");
        proof {
            assert(s@ =~= spec_test_format(chunk_id as int));
        }
        s
    }
}

/// The measured rate is strictly below the target: fewer bytes have moved
/// than `target_rate_bps` over the elapsed time would allow. While no time
/// has passed the rate counts as zero.
pub open spec fn spec_rate_below_target(bytes: int, elapsed_ms: int, target_rate_bps: int) -> bool {
    if elapsed_ms <= 0 {
        0 < target_rate_bps
    } else {
        bytes * 1000 < target_rate_bps * elapsed_ms
    }
}

/// The measured rate strictly exceeds the target.
pub open spec fn spec_rate_exceeds_target(bytes: int, elapsed_ms: int, target_rate_bps: int) -> bool {
    elapsed_ms > 0 && bytes * 1000 > target_rate_bps * elapsed_ms
}

/// Tracks upload progress and rate limiting.
///
/// Wall time is not read here: every rate question takes the elapsed
/// milliseconds since the session started as an argument, so the caller owns
/// the clock.
#[derive(Debug)]
pub struct UploadTracker {
    /// Total bytes uploaded so far
    pub bytes_uploaded: usize,
    /// Currently active uploads
    pub active_uploads: usize,
    /// Completed chunks
    pub completed_chunks: Vec<u32>,
}

impl UploadTracker {
    /// A fresh tracker: nothing uploaded, nothing active, nothing completed.
    pub fn new() -> (t: Self)
        ensures
            t.bytes_uploaded == 0,
            t.active_uploads == 0,
            t.completed_chunks@ == Seq::<u32>::empty(),
    {
        UploadTracker { bytes_uploaded: 0, active_uploads: 0, completed_chunks: Vec::new() }
    }

    /// Should we start another upload based on rate limiting?
    ///
    /// Admission holds exactly when a concurrency slot is free and either the
    /// measured rate is below the target or nothing is in flight — the second
    /// disjunct keeps the system live when no work is running.
    pub fn should_start_upload(&self, config: &ParallelUploadConfig, elapsed_ms: u64) -> (b: bool)
        ensures
            b == (self.active_uploads < config.max_concurrent && (spec_rate_below_target(
                self.bytes_uploaded as int,
                elapsed_ms as int,
                config.target_rate_bps as int,
            ) || self.active_uploads == 0)),
    {
        if self.active_uploads >= config.max_concurrent {
            return false;
        }
        let below = rate_product_below(self.bytes_uploaded, config.target_rate_bps, elapsed_ms);
        below || self.active_uploads == 0
    }

    /// Calculate the pacing delay needed to maintain the target rate: a long
    /// pause when over the target, a short one otherwise.
    pub fn calculate_delay(&self, config: &ParallelUploadConfig, elapsed_ms: u64) -> (d: u64)
        ensures
            d == if spec_rate_exceeds_target(
                self.bytes_uploaded as int,
                elapsed_ms as int,
                config.target_rate_bps as int,
            ) {
                100u64
            } else {
                10u64
            },
    {
        let over = elapsed_ms > 0 && rate_product_above(
            self.bytes_uploaded,
            config.target_rate_bps,
            elapsed_ms,
        );
        if over {
            100
        } else {
            10
        }
    }
}

/// The products compared when the measured rate is held against the target;
/// computed in 128 bits, where neither side can overflow.
fn rate_product_below(bytes: usize, target_rate_bps: u64, elapsed_ms: u64) -> (b: bool)
    ensures
        b == spec_rate_below_target(bytes as int, elapsed_ms as int, target_rate_bps as int),
{
    if elapsed_ms == 0 {
        target_rate_bps > 0
    } else {
        proof {
            vstd::arithmetic::mul::lemma_mul_upper_bound(
                bytes as int,
                u64::MAX as int,
                1000,
                1000,
            );
            vstd::arithmetic::mul::lemma_mul_upper_bound(
                target_rate_bps as int,
                u64::MAX as int,
                elapsed_ms as int,
                u64::MAX as int,
            );
        }
        let lhs: u128 = (bytes as u128) * 1000;
        let rhs: u128 = (target_rate_bps as u128) * (elapsed_ms as u128);
        lhs < rhs
    }
}

/// As `rate_product_below`, for the strict other direction.
fn rate_product_above(bytes: usize, target_rate_bps: u64, elapsed_ms: u64) -> (b: bool)
    requires
        elapsed_ms > 0,
    ensures
        b == spec_rate_exceeds_target(bytes as int, elapsed_ms as int, target_rate_bps as int),
{
    proof {
        vstd::arithmetic::mul::lemma_mul_upper_bound(bytes as int, u64::MAX as int, 1000, 1000);
        vstd::arithmetic::mul::lemma_mul_upper_bound(
            target_rate_bps as int,
            u64::MAX as int,
            elapsed_ms as int,
            u64::MAX as int,
        );
    }
    let lhs: u128 = (bytes as u128) * 1000;
    let rhs: u128 = (target_rate_bps as u128) * (elapsed_ms as u128);
    lhs > rhs
}

/// The attempts one chunk is given in parallel mode: `max_retries`, and never
/// fewer than one.
pub open spec fn spec_parallel_attempt_cap(config: ParallelUploadConfig) -> usize {
    if config.max_retries >= 1 {
        config.max_retries
    } else {
        1
    }
}

/// The message reported when one chunk has exhausted its attempts in parallel
/// mode: the chunk's id, the number of attempts made, and the error of the
/// last attempt.
pub open spec fn spec_chunk_retry_failure_msg(
    chunk_id: int,
    attempts: int,
    last_error: Seq<char>,
) -> Seq<char> {
    "Chunk "@ + textfmt::spec_dec(chunk_id) + " failed after "@ + textfmt::spec_dec(attempts)
        + " attempts. Last error: "@ + last_error
}

/// The transfer primitive accepts every (chunk id, data, attempt) call.
pub open spec fn parallel_transfer_callable<F: Fn(u32, Vec<u8>, usize) -> Result<(), String>>(
    f: F,
) -> bool {
    forall|args: (u32, Vec<u8>, usize)| #[trigger] call_requires(f, args)
}

/// Every outcome the transfer primitive can produce is a success.
pub open spec fn parallel_transfer_never_fails<F: Fn(u32, Vec<u8>, usize) -> Result<(), String>>(
    f: F,
) -> bool {
    forall|args: (u32, Vec<u8>, usize), out: Result<(), String>|
        #[trigger] call_ensures(f, args, out) ==> out is Ok
}

/// Every outcome the transfer primitive can produce is a failure.
pub open spec fn parallel_transfer_always_fails<F: Fn(u32, Vec<u8>, usize) -> Result<(), String>>(
    f: F,
) -> bool {
    forall|args: (u32, Vec<u8>, usize), out: Result<(), String>|
        #[trigger] call_ensures(f, args, out) ==> out is Err
}

/// The transfer primitive fails attempts 1 to `k - 1` of every chunk and
/// succeeds from attempt `k` on.
pub open spec fn parallel_transfer_succeeds_from<
    F: Fn(u32, Vec<u8>, usize) -> Result<(), String>,
>(f: F, k: usize) -> bool {
    forall|args: (u32, Vec<u8>, usize), out: Result<(), String>|
        #[trigger] call_ensures(f, args, out) ==> (out is Ok <==> args.2 >= k)
}

/// The transfer primitive has some successful outcome for the chunk with id
/// `id` and payload `data` at an attempt number between 1 and `cap`.
pub open spec fn parallel_chunk_succeeded<F: Fn(u32, Vec<u8>, usize) -> Result<(), String>>(
    f: F,
    id: u32,
    data: Seq<u8>,
    cap: usize,
) -> bool {
    exists|v: Vec<u8>, a: usize, out: Result<(), String>|
        v@ == data && 1 <= a <= cap && #[trigger] call_ensures(f, (id, v, a), out) && out is Ok
}

/// The transfer primitive failed the chunk with id `id` and payload `data` at
/// attempt number `cap` (the last attempt allowed), and `msg` is the
/// exhaustion message built from that last error.
pub open spec fn parallel_chunk_exhausted<F: Fn(u32, Vec<u8>, usize) -> Result<(), String>>(
    f: F,
    id: u32,
    data: Seq<u8>,
    cap: usize,
    msg: Seq<char>,
) -> bool {
    exists|v: Vec<u8>, out: Result<(), String>|
        v@ == data && #[trigger] call_ensures(f, (id, v, cap), out) && out is Err && msg
            == spec_chunk_retry_failure_msg(id as int, cap as int, out->Err_0@)
}

/// Upload a chunk with retry logic.
///
/// The transfer primitive receives the chunk id, the chunk's bytes, and the
/// 1-based attempt number; attempts stop at the first success. A primitive
/// that always fails is reported as failed after exactly
/// `spec_parallel_attempt_cap(*config)` attempts, and one that first succeeds
/// at an attempt within the cap is reported as a success.
pub fn upload_chunk_with_retry<F: Fn(u32, Vec<u8>, usize) -> Result<(), String>>(
    chunk: &ChunkInfo,
    config: &ParallelUploadConfig,
    transfer: &F,
) -> (r: Result<(), String>)
    requires
        parallel_transfer_callable(*transfer),
    ensures
        r is Ok ==> parallel_chunk_succeeded(
            *transfer,
            chunk.chunk_id,
            chunk.data@,
            spec_parallel_attempt_cap(*config),
        ),
        r matches Err(m) ==> parallel_chunk_exhausted(
            *transfer,
            chunk.chunk_id,
            chunk.data@,
            spec_parallel_attempt_cap(*config),
            m@,
        ),
        parallel_transfer_never_fails(*transfer) ==> r is Ok,
        parallel_transfer_always_fails(*transfer) ==> r is Err,
        forall|k: usize|
            #[trigger] parallel_transfer_succeeds_from(*transfer, k) && 1 <= k
                <= spec_parallel_attempt_cap(*config) ==> r is Ok,
{
    let mut attempts: usize = 0;
    loop
        invariant
            parallel_transfer_callable(*transfer),
            attempts < spec_parallel_attempt_cap(*config),
        decreases spec_parallel_attempt_cap(*config) - attempts,
    {
        attempts = attempts + 1;
        let payload = copy_byte_range(&chunk.data, 0, chunk.data.len());
        let ghost sent: Vec<u8> = payload;
        proof {
            assert(sent@ =~= chunk.data@);
        }
        let outcome = transfer(chunk.chunk_id, payload, attempts);
        match outcome {
            Ok(()) => {
                proof {
                    assert(call_ensures(*transfer, (chunk.chunk_id, sent, attempts), outcome));
                    assert(outcome->Ok_0 == ());
                }
                return Ok(());
            },
            Err(e) => {
                if attempts >= config.max_retries {
                    let ghost failed_outcome = Result::<(), String>::Err(e);
                    let mut m = String::from_str("Chunk ");
                    textfmt::push_dec(&mut m, chunk.chunk_id as u64);
                    m.append(" failed after ");
                    textfmt::push_dec(&mut m, attempts as u64);
                    m.append(" attempts. Last error: ");
                    m.append(e.as_str());
                    proof {
                        assert(call_ensures(
                            *transfer,
                            (chunk.chunk_id, sent, attempts),
                            failed_outcome,
                        ));
                        assert(m@ =~= spec_chunk_retry_failure_msg(
                            chunk.chunk_id as int,
                            spec_parallel_attempt_cap(*config) as int,
                            failed_outcome->Err_0@,
                        ));
                    }
                    return Err(m);
                }
                // the next attempt follows; any pacing is the primitive's concern
            },
        }
    }
}

/// The ids of a list of (id, error) pairs, in order.
pub open spec fn spec_pair_ids(pairs: Seq<(u32, String)>) -> Seq<u32> {
    pairs.map_values(|p: (u32, String)| p.0)
}

/// The sum capped at the largest representable value; bytes counters grow
/// with this, so they never overflow and never decrease.
pub open spec fn spec_saturating_add(a: int, b: int) -> int {
    if a + b <= usize::MAX {
        a + b
    } else {
        usize::MAX as int
    }
}

/// Adds `b` to `a`, capping at the largest representable value.
pub(crate) fn saturating_add_usize(a: usize, b: usize) -> (r: usize)
    ensures
        r == spec_saturating_add(a as int, b as int),
{
    if b <= usize::MAX - a {
        a + b
    } else {
        usize::MAX
    }
}

/// The multiset of a four-way concatenation is the sum of the four parts'
/// multisets.
proof fn lemma_four_way_multiset(p: Seq<u32>, i: Seq<u32>, s: Seq<u32>, f: Seq<u32>)
    ensures
        (p + i + s + f).to_multiset() == p.to_multiset().add(i.to_multiset()).add(
            s.to_multiset(),
        ).add(f.to_multiset()),
{
    vstd::seq_lib::lemma_multiset_commutative(p, i);
    vstd::seq_lib::lemma_multiset_commutative(p + i, s);
    vstd::seq_lib::lemma_multiset_commutative(p + i + s, f);
}

/// The coordinator state of a parallel upload session.
///
/// Every submitted chunk id is, at any point, in exactly one of four places:
/// still unscheduled in the pool, handed to a worker (in flight), merged into
/// the successful set, or merged into the failed set. Admission takes a chunk
/// from the pool only while the rate controller allows; reaping a worker's
/// outcome moves its id into exactly one of the two result sets and frees its
/// concurrency slot.
pub struct ParallelScheduler {
    /// Chunks not yet handed to any worker; admission takes from the back.
    pub pool: Vec<ChunkInfo>,
    /// Ids of chunks currently with a worker.
    pub in_flight: Vec<u32>,
    /// Byte and concurrency accounting for rate control.
    pub tracker: UploadTracker,
    /// Ids of chunks whose upload succeeded.
    pub successful_chunks: Vec<u32>,
    /// Ids of chunks whose attempts were exhausted, with their errors.
    pub failed_chunks: Vec<(u32, String)>,
    /// How many chunks were submitted.
    pub total: usize,
    /// The submitted ids, in submission order.
    pub submitted_ids: Ghost<Seq<u32>>,
}

impl ParallelScheduler {
    /// Every id the scheduler currently holds, over all four places.
    pub open spec fn all_ids(self) -> Seq<u32> {
        spec_chunk_ids(self.pool@) + self.in_flight@ + self.successful_chunks@ + spec_pair_ids(
            self.failed_chunks@,
        )
    }

    /// The bookkeeping invariant: the ids over the four places are exactly
    /// the submitted ids (which are distinct), and the tracker counts the
    /// in-flight set.
    pub open spec fn wf(self) -> bool {
        &&& self.all_ids().to_multiset() == self.submitted_ids@.to_multiset()
        &&& self.submitted_ids@.no_duplicates()
        &&& self.total == self.submitted_ids@.len()
        &&& self.tracker.active_uploads == self.in_flight@.len()
        &&& self.tracker.completed_chunks@ == self.successful_chunks@
    }

    /// Takes ownership of the submitted chunks; every chunk starts in the
    /// pool. Duplicate ids in the input are a caller contract violation.
    pub fn new(chunks: Vec<ChunkInfo>) -> (s: Self)
        requires
            spec_chunk_ids(chunks@).no_duplicates(),
        ensures
            s.wf(),
            s.pool@ == chunks@,
            s.in_flight@ == Seq::<u32>::empty(),
            s.successful_chunks@ == Seq::<u32>::empty(),
            s.failed_chunks@ == Seq::<(u32, String)>::empty(),
            s.submitted_ids@ == spec_chunk_ids(chunks@),
            s.total == chunks@.len(),
            s.tracker.bytes_uploaded == 0,
            s.tracker.active_uploads == 0,
    {
        let total = chunks.len();
        let ghost ids = spec_chunk_ids(chunks@);
        let s = ParallelScheduler {
            pool: chunks,
            in_flight: Vec::new(),
            tracker: UploadTracker::new(),
            successful_chunks: Vec::new(),
            failed_chunks: Vec::new(),
            total,
            submitted_ids: Ghost(ids),
        };
        proof {
            assert(s.all_ids() =~= ids);
        }
        s
    }

    /// The number of submitted chunks already merged into a result set.
    ///
    /// Completion is authoritative when this reaches the submitted count.
    pub fn is_complete(&self) -> (b: bool)
        requires
            self.wf(),
        ensures
            b == (self.successful_chunks@.len() + self.failed_chunks@.len()
                == self.total as int),
    {
        proof {
            assert(self.all_ids().to_multiset().len() == self.submitted_ids@.to_multiset().len());
        }
        self.successful_chunks.len() + self.failed_chunks.len() == self.total
    }

    /// Admits the next chunk if the rate controller allows and the pool is
    /// not empty: the chunk leaves the pool, its id goes in flight, and the
    /// active count grows by one — before the caller dispatches any work, so
    /// admission never races ahead of the concurrency bound.
    pub fn admit_next(&mut self, config: &ParallelUploadConfig, elapsed_ms: u64) -> (c: Option<
        ChunkInfo,
    >)
        requires
            old(self).wf(),
        ensures
            final(self).wf(),
            final(self).submitted_ids@ == old(self).submitted_ids@,
            final(self).total == old(self).total,
            final(self).successful_chunks@ == old(self).successful_chunks@,
            final(self).failed_chunks@ == old(self).failed_chunks@,
            final(self).tracker.bytes_uploaded == old(self).tracker.bytes_uploaded,
            match c {
                Some(chunk) => {
                    &&& old(self).pool@.len() > 0
                    &&& chunk == old(self).pool@.last()
                    &&& final(self).pool@ == old(self).pool@.drop_last()
                    &&& final(self).in_flight@ == old(self).in_flight@.push(chunk.chunk_id)
                    &&& final(self).tracker.active_uploads == old(self).tracker.active_uploads + 1
                    &&& old(self).tracker.active_uploads < config.max_concurrent
                },
                None => {
                    &&& final(self).pool@ == old(self).pool@
                    &&& final(self).in_flight@ == old(self).in_flight@
                    &&& final(self).tracker.active_uploads == old(self).tracker.active_uploads
                    &&& (old(self).pool@.len() == 0 || !(old(self).tracker.active_uploads
                        < config.max_concurrent && (spec_rate_below_target(
                        old(self).tracker.bytes_uploaded as int,
                        elapsed_ms as int,
                        config.target_rate_bps as int,
                    ) || old(self).tracker.active_uploads == 0)))
                },
            },
    {
        let should = self.tracker.should_start_upload(config, elapsed_ms);
        if !should {
            return None;
        }
        proof {
            assert(self.all_ids().to_multiset().len() == self.submitted_ids@.to_multiset().len());
        }
        let popped = self.pool.pop();
        match popped {
            None => None,
            Some(chunk) => {
                self.in_flight.push(chunk.chunk_id);
                self.tracker.active_uploads = self.tracker.active_uploads + 1;
                proof {
                    let p_old = spec_chunk_ids(old(self).pool@);
                    let p_new = spec_chunk_ids(self.pool@);
                    let i_old = old(self).in_flight@;
                    let i_new = self.in_flight@;
                    let s = self.successful_chunks@;
                    let f = spec_pair_ids(self.failed_chunks@);
                    lemma_four_way_multiset(p_old, i_old, s, f);
                    lemma_four_way_multiset(p_new, i_new, s, f);
                    assert(p_old =~= p_new.push(chunk.chunk_id));
                    assert(p_old.to_multiset() =~= p_new.to_multiset().insert(chunk.chunk_id));
                    assert(i_new.to_multiset() =~= i_old.to_multiset().insert(chunk.chunk_id));
                    assert(self.all_ids().to_multiset() =~= old(self).all_ids().to_multiset());
                }
                Some(chunk)
            },
        }
    }

    /// Merges a worker's successful outcome: the id leaves the in-flight set
    /// exactly once, the chunk's bytes count toward the rate estimate, and
    /// the id joins the successful set.
    pub fn record_success(&mut self, chunk_id: u32, size: usize)
        requires
            old(self).wf(),
            old(self).in_flight@.contains(chunk_id),
        ensures
            final(self).wf(),
            final(self).submitted_ids@ == old(self).submitted_ids@,
            final(self).total == old(self).total,
            final(self).pool@ == old(self).pool@,
            final(self).successful_chunks@ == old(self).successful_chunks@.push(chunk_id),
            final(self).failed_chunks@ == old(self).failed_chunks@,
            final(self).in_flight@.to_multiset() == old(self).in_flight@.to_multiset().remove(
                chunk_id,
            ),
            final(self).tracker.active_uploads == old(self).tracker.active_uploads - 1,
            final(self).tracker.bytes_uploaded == spec_saturating_add(
                old(self).tracker.bytes_uploaded as int,
                size as int,
            ),
    {
        let _ = self.remove_in_flight(chunk_id);
        self.tracker.bytes_uploaded = saturating_add_usize(self.tracker.bytes_uploaded, size);
        self.tracker.completed_chunks.push(chunk_id);
        self.successful_chunks.push(chunk_id);
        proof {
            let p = spec_chunk_ids(self.pool@);
            let i_old = old(self).in_flight@;
            let i_new = self.in_flight@;
            let s_old = old(self).successful_chunks@;
            let s_new = self.successful_chunks@;
            let f = spec_pair_ids(self.failed_chunks@);
            lemma_four_way_multiset(p, i_old, s_old, f);
            lemma_four_way_multiset(p, i_new, s_new, f);
            assert(i_old.to_multiset().contains(chunk_id));
            assert(s_new.to_multiset() =~= s_old.to_multiset().insert(chunk_id));
            assert(self.all_ids().to_multiset() =~= old(self).all_ids().to_multiset());
        }
    }

    /// Merges a worker's failed outcome: the id leaves the in-flight set
    /// exactly once and joins the failed set with its error.
    pub fn record_failure(&mut self, chunk_id: u32, error: String)
        requires
            old(self).wf(),
            old(self).in_flight@.contains(chunk_id),
        ensures
            final(self).wf(),
            final(self).submitted_ids@ == old(self).submitted_ids@,
            final(self).total == old(self).total,
            final(self).pool@ == old(self).pool@,
            final(self).successful_chunks@ == old(self).successful_chunks@,
            final(self).failed_chunks@ == old(self).failed_chunks@.push((chunk_id, error)),
            final(self).in_flight@.to_multiset() == old(self).in_flight@.to_multiset().remove(
                chunk_id,
            ),
            final(self).tracker.active_uploads == old(self).tracker.active_uploads - 1,
            final(self).tracker.bytes_uploaded == old(self).tracker.bytes_uploaded,
    {
        let _ = self.remove_in_flight(chunk_id);
        self.failed_chunks.push((chunk_id, error));
        proof {
            let p = spec_chunk_ids(self.pool@);
            let i_old = old(self).in_flight@;
            let i_new = self.in_flight@;
            let s = self.successful_chunks@;
            let f_old = spec_pair_ids(old(self).failed_chunks@);
            let f_new = spec_pair_ids(self.failed_chunks@);
            lemma_four_way_multiset(p, i_old, s, f_old);
            lemma_four_way_multiset(p, i_new, s, f_new);
            assert(i_old.to_multiset().contains(chunk_id));
            assert(f_new =~= f_old.push(chunk_id));
            assert(f_new.to_multiset() =~= f_old.to_multiset().insert(chunk_id));
            assert(self.all_ids().to_multiset() =~= old(self).all_ids().to_multiset());
        }
    }

    /// Takes one occurrence of `chunk_id` out of the in-flight set and frees
    /// its concurrency slot.
    fn remove_in_flight(&mut self, chunk_id: u32) -> (idx: usize)
        requires
            old(self).wf(),
            old(self).in_flight@.contains(chunk_id),
        ensures
            final(self).pool@ == old(self).pool@,
            final(self).successful_chunks@ == old(self).successful_chunks@,
            final(self).failed_chunks@ == old(self).failed_chunks@,
            final(self).submitted_ids@ == old(self).submitted_ids@,
            final(self).total == old(self).total,
            final(self).tracker.bytes_uploaded == old(self).tracker.bytes_uploaded,
            final(self).tracker.completed_chunks@ == old(self).tracker.completed_chunks@,
            idx < old(self).in_flight@.len(),
            old(self).in_flight@[idx as int] == chunk_id,
            final(self).in_flight@ == old(self).in_flight@.remove(idx as int),
            final(self).in_flight@.to_multiset() == old(self).in_flight@.to_multiset().remove(
                chunk_id,
            ),
            final(self).tracker.active_uploads == old(self).tracker.active_uploads - 1,
    {
        let ghost w: int = choose|j: int|
            0 <= j < old(self).in_flight@.len() && old(self).in_flight@[j] == chunk_id;
        let n = self.in_flight.len();
        let mut i: usize = 0;
        while self.in_flight[i] != chunk_id
            invariant
                *self == *old(self),
                n == self.in_flight@.len(),
                0 <= w < n,
                self.in_flight@[w] == chunk_id,
                i <= w,
                forall|j: int| 0 <= j < i ==> self.in_flight@[j] != chunk_id,
            decreases w - i,
        {
            i = i + 1;
        }
        self.in_flight.remove(i);
        self.tracker.active_uploads = self.tracker.active_uploads - 1;
        i
    }

    /// Classifies a completed session: no failures is a success, no successes
    /// is a failure, and a mixed outcome reports both sets, so that the
    /// failed ids can be written out and retried by id.
    pub fn into_result(self) -> (r: ParallelUploadResult)
        requires
            self.wf(),
            self.total > 0,
            self.successful_chunks@.len() + self.failed_chunks@.len() == self.total as int,
        ensures
            self.failed_chunks@.len() == 0 ==> r is Success,
            self.successful_chunks@.len() == 0 && self.failed_chunks@.len() > 0 ==> (r
                matches ParallelUploadResult::Failed(m) && m@ == "All chunks failed"@),
            self.successful_chunks@.len() > 0 && self.failed_chunks@.len() > 0 ==> (r
                matches ParallelUploadResult::PartialFailure { successful_chunks, failed_chunks }
                && successful_chunks@ == self.successful_chunks@ && failed_chunks@
                == spec_map_of_pairs(self.failed_chunks@)),
    {
        if self.failed_chunks.len() == 0 {
            ParallelUploadResult::Success
        } else if self.successful_chunks.len() == 0 {
            ParallelUploadResult::Failed(String::from_str("All chunks failed"))
        } else {
            let ghost orig = self.failed_chunks@;
            let mut failed_map: std::collections::HashMap<u32, String> =
                std::collections::HashMap::new();
            let mut rest = self.failed_chunks;
            let ghost mut done: int = 0;
            while rest.len() > 0
                invariant
                    0 <= done <= orig.len(),
                    rest@ == orig.skip(done),
                    failed_map@ == spec_map_of_pairs(orig.take(done)),
                decreases rest@.len(),
            {
                let pair = rest.remove(0);
                proof {
                    assert(pair == orig[done]);
                    assert(rest@ =~= orig.skip(done + 1));
                }
                let (id, err) = pair;
                failed_map.insert(id, err);
                proof {
                    assert(orig.take(done + 1).drop_last() =~= orig.take(done));
                    assert(orig.take(done + 1).last() == orig[done]);
                    done = done + 1;
                }
            }
            proof {
                assert(orig.take(done) =~= orig);
            }
            ParallelUploadResult::PartialFailure {
                successful_chunks: self.successful_chunks,
                failed_chunks: failed_map,
            }
        }
    }
}

/// The map holding each (id, error) pair of the list, later pairs prevailing;
/// with distinct ids, the map form of the failed set.
pub open spec fn spec_map_of_pairs(pairs: Seq<(u32, String)>) -> Map<u32, String>
    decreases pairs.len(),
{
    if pairs.len() == 0 {
        Map::empty()
    } else {
        spec_map_of_pairs(pairs.drop_last()).insert(pairs.last().0, pairs.last().1)
    }
}

/// The map of a pair list covers exactly the pair ids, and with distinct ids
/// it has one entry per pair.
pub proof fn lemma_map_of_pairs_dom(pairs: Seq<(u32, String)>)
    ensures
        spec_map_of_pairs(pairs).dom() =~= spec_pair_ids(pairs).to_set(),
        spec_map_of_pairs(pairs).dom().finite(),
        spec_pair_ids(pairs).no_duplicates() ==> spec_map_of_pairs(pairs).dom().len()
            == pairs.len(),
    decreases pairs.len(),
{
    broadcast use vstd::seq_lib::seq_to_set_is_finite;

    let ids = spec_pair_ids(pairs);
    if pairs.len() == 0 {
        assert(spec_map_of_pairs(pairs).dom() =~= ids.to_set());
    } else {
        let prefix = pairs.drop_last();
        lemma_map_of_pairs_dom(prefix);
        assert(spec_pair_ids(prefix) =~= ids.drop_last());
        assert(ids.last() == pairs.last().0);
        assert forall|x: u32| ids.to_set().contains(x) implies ids.drop_last().to_set().insert(
            ids.last(),
        ).contains(x) by {
            let i = choose|i: int| 0 <= i < ids.len() && ids[i] == x;
            if i < ids.len() - 1 {
                assert(ids.drop_last()[i] == x);
                assert(ids.drop_last().contains(x));
            } else {
                assert(x == ids.last());
            }
        }
        assert forall|x: u32| ids.drop_last().to_set().insert(ids.last()).contains(x) implies
            ids.to_set().contains(x) by {
            if x == ids.last() {
                assert(ids[ids.len() - 1] == x);
                assert(ids.contains(x));
            } else {
                let i = choose|i: int|
                    0 <= i < ids.drop_last().len() && ids.drop_last()[i] == x;
                assert(ids[i] == x);
                assert(ids.contains(x));
            }
        }
        assert(ids.drop_last().to_set().insert(ids.last()) =~= ids.to_set());
        assert(spec_map_of_pairs(pairs).dom() =~= spec_map_of_pairs(prefix).dom().insert(
            pairs.last().0,
        ));
        assert(spec_map_of_pairs(pairs).dom() =~= ids.to_set());
    }
    if ids.no_duplicates() {
        ids.unique_seq_to_set();
    }
}

/// The chunk has been merged into a result set, with the transfer outcome
/// that put it there: either its id is in the successful set and some attempt
/// within the cap succeeded, or its id is among the failed pairs and its last
/// allowed attempt failed.
pub open spec fn chunk_settled<F: Fn(u32, Vec<u8>, usize) -> Result<(), String>>(
    f: F,
    c: ChunkInfo,
    succ: Seq<u32>,
    pairs: Seq<(u32, String)>,
    cap: usize,
) -> bool {
    ||| (succ.contains(c.chunk_id) && parallel_chunk_succeeded(f, c.chunk_id, c.data@, cap))
    ||| (spec_pair_ids(pairs).contains(c.chunk_id) && exists|m: Seq<char>|
        #[trigger] parallel_chunk_exhausted(f, c.chunk_id, c.data@, cap, m))
}

/// Some submitted chunk carries this id, and its transfer succeeded within
/// the attempt cap.
spec fn succeeded_id_from<F: Fn(u32, Vec<u8>, usize) -> Result<(), String>>(
    f: F,
    all: Seq<ChunkInfo>,
    id: u32,
    cap: usize,
) -> bool {
    exists|i: int|
        0 <= i < all.len() && (#[trigger] all[i]).chunk_id == id && parallel_chunk_succeeded(
            f,
            all[i].chunk_id,
            all[i].data@,
            cap,
        )
}

/// Some submitted chunk carries this id, and its attempts were exhausted
/// with this message.
spec fn exhausted_id_from<F: Fn(u32, Vec<u8>, usize) -> Result<(), String>>(
    f: F,
    all: Seq<ChunkInfo>,
    id: u32,
    msg: Seq<char>,
    cap: usize,
) -> bool {
    exists|i: int|
        0 <= i < all.len() && (#[trigger] all[i]).chunk_id == id && parallel_chunk_exhausted(
            f,
            all[i].chunk_id,
            all[i].data@,
            cap,
            msg,
        )
}

/// Upload multiple chunks with rate-limited admission.
///
/// Chunks are admitted from the back of the pool while the rate controller
/// allows, each is retried against the transfer primitive up to the attempt
/// cap, and every submitted chunk ends in exactly one of the successful or
/// the failed set. No failures is a success; no successes is a failure; a
/// mixed outcome reports both sets. A `max_concurrent` of zero is treated as
/// one, so admission never stalls for good.
pub fn upload_chunks_parallel<F: Fn(u32, Vec<u8>, usize) -> Result<(), String>>(
    chunks: Vec<ChunkInfo>,
    config: &ParallelUploadConfig,
    transfer: F,
) -> (r: ParallelUploadResult)
    requires
        parallel_transfer_callable(transfer),
        spec_chunk_ids(chunks@).no_duplicates(),
    ensures
        chunks@.len() == 0 ==> (r matches ParallelUploadResult::Failed(m) && m@
            == "No chunks to upload"@),
        parallel_transfer_never_fails(transfer) && chunks@.len() > 0 ==> r is Success,
        parallel_transfer_always_fails(transfer) && chunks@.len() > 0 ==> (r
            matches ParallelUploadResult::Failed(m) && m@ == "All chunks failed"@),
        r is Success ==> chunks@.len() > 0 && forall|i: int|
            0 <= i < chunks@.len() ==> #[trigger] parallel_chunk_succeeded(
                transfer,
                chunks@[i].chunk_id,
                chunks@[i].data@,
                spec_parallel_attempt_cap(*config),
            ),
        r matches ParallelUploadResult::PartialFailure { successful_chunks, failed_chunks } ==> ({
            &&& successful_chunks@.no_duplicates()
            &&& successful_chunks@.len() >= 1
            &&& failed_chunks@.dom().len() >= 1
            &&& failed_chunks@.dom().finite()
            &&& successful_chunks@.len() + failed_chunks@.dom().len() == chunks@.len()
            &&& forall|id: u32| #[trigger] failed_chunks@.dom().contains(id)
                ==> !successful_chunks@.contains(id)
            &&& forall|id: u32| #[trigger] successful_chunks@.contains(id) ==> spec_chunk_ids(
                chunks@,
            ).contains(id)
            &&& forall|id: u32| #[trigger] failed_chunks@.dom().contains(id) ==> spec_chunk_ids(
                chunks@,
            ).contains(id)
            &&& forall|id: u32| #[trigger] spec_chunk_ids(chunks@).contains(id)
                ==> successful_chunks@.contains(id) || failed_chunks@.dom().contains(id)
            &&& forall|i: int|
                0 <= i < chunks@.len() && successful_chunks@.contains(
                    (#[trigger] chunks@[i]).chunk_id,
                ) ==> parallel_chunk_succeeded(
                    transfer,
                    chunks@[i].chunk_id,
                    chunks@[i].data@,
                    spec_parallel_attempt_cap(*config),
                )
            &&& forall|i: int|
                0 <= i < chunks@.len() && failed_chunks@.dom().contains(
                    (#[trigger] chunks@[i]).chunk_id,
                ) ==> parallel_chunk_exhausted(
                    transfer,
                    chunks@[i].chunk_id,
                    chunks@[i].data@,
                    spec_parallel_attempt_cap(*config),
                    failed_chunks@[chunks@[i].chunk_id]@,
                )
        }),
{
    let ghost cap = spec_parallel_attempt_cap(*config);
    let ghost all = chunks@;
    if chunks.len() == 0 {
        return ParallelUploadResult::Failed(String::from_str("No chunks to upload"));
    }
    let n = chunks.len();
    let mut sched = ParallelScheduler::new(chunks);
    let econfig = ParallelUploadConfig {
        max_concurrent: if config.max_concurrent == 0 {
            1
        } else {
            config.max_concurrent
        },
        target_rate_bps: config.target_rate_bps,
        max_retries: config.max_retries,
        retry_delay_ms: config.retry_delay_ms,
    };
    proof {
        assert(all.take(sched.pool@.len() as int) =~= all);
    }
    while !sched.is_complete()
        invariant
            parallel_transfer_callable(transfer),
            sched.wf(),
            sched.submitted_ids@ == spec_chunk_ids(all),
            sched.total == n,
            n == all.len(),
            n > 0,
            sched.in_flight@ == Seq::<u32>::empty(),
            sched.tracker.active_uploads == 0,
            sched.pool@ == all.take(sched.pool@.len() as int),
            econfig.max_concurrent >= 1,
            cap == spec_parallel_attempt_cap(*config),
            forall|i: int|
                sched.pool@.len() <= i < n ==> #[trigger] chunk_settled(
                    transfer,
                    all[i],
                    sched.successful_chunks@,
                    sched.failed_chunks@,
                    cap,
                ),
            forall|j: int|
                0 <= j < sched.successful_chunks@.len() ==> #[trigger] succeeded_id_from(
                    transfer,
                    all,
                    sched.successful_chunks@[j],
                    cap,
                ),
            forall|j: int|
                0 <= j < sched.failed_chunks@.len() ==> #[trigger] exhausted_id_from(
                    transfer,
                    all,
                    sched.failed_chunks@[j].0,
                    sched.failed_chunks@[j].1@,
                    cap,
                ),
        decreases sched.pool@.len(),
    {
        proof {
            lemma_four_way_multiset(
                spec_chunk_ids(sched.pool@),
                sched.in_flight@,
                sched.successful_chunks@,
                spec_pair_ids(sched.failed_chunks@),
            );
            assert(sched.all_ids().to_multiset().len()
                == sched.submitted_ids@.to_multiset().len());
            assert(sched.pool@.len() > 0);
        }
        let ghost pre = sched;
        let admitted = sched.admit_next(&econfig, 0);
        match admitted {
            Some(chunk) => {
                let ghost settled_index = sched.pool@.len() as int;
                proof {
                    assert(all.take(settled_index + 1).drop_last() =~= all.take(settled_index));
                    assert(sched.pool@ =~= all.take(settled_index));
                    assert(chunk == all[settled_index]);
                    assert(sched.in_flight@.last() == chunk.chunk_id);
                    assert(sched.in_flight@.contains(chunk.chunk_id));
                }
                let outcome = upload_chunk_with_retry(&chunk, config, &transfer);
                match outcome {
                    Ok(()) => {
                        sched.record_success(chunk.chunk_id, chunk.size);
                        proof {
                            assert(all[settled_index].chunk_id == chunk.chunk_id);
                            assert(sched.successful_chunks@.last() == chunk.chunk_id);
                            assert(sched.successful_chunks@.contains(chunk.chunk_id));
                            assert(succeeded_id_from(transfer, all, chunk.chunk_id, cap));
                        }
                    },
                    Err(m) => {
                        let ghost gm: String = m;
                        sched.record_failure(chunk.chunk_id, m);
                        proof {
                            assert(all[settled_index].chunk_id == chunk.chunk_id);
                            assert(sched.failed_chunks@.last() == (chunk.chunk_id, gm));
                            assert(spec_pair_ids(sched.failed_chunks@).last()
                                == chunk.chunk_id);
                            assert(spec_pair_ids(sched.failed_chunks@).contains(chunk.chunk_id));
                            assert(exhausted_id_from(transfer, all, chunk.chunk_id, gm@, cap));
                        }
                    },
                }
                proof {
                    assert(sched.in_flight@.to_multiset().len() == 0);
                    assert(sched.in_flight@ =~= Seq::<u32>::empty());
                    assert(chunk_settled(
                        transfer,
                        all[settled_index],
                        sched.successful_chunks@,
                        sched.failed_chunks@,
                        cap,
                    ));
                    assert forall|i: int|
                        sched.pool@.len() <= i < n implies #[trigger] chunk_settled(
                        transfer,
                        all[i],
                        sched.successful_chunks@,
                        sched.failed_chunks@,
                        cap,
                    ) by {
                        if i > settled_index {
                            assert(chunk_settled(
                                transfer,
                                all[i],
                                pre.successful_chunks@,
                                pre.failed_chunks@,
                                cap,
                            ));
                            assert(sched.successful_chunks@.len()
                                >= pre.successful_chunks@.len());
                            if pre.successful_chunks@.contains(all[i].chunk_id) {
                                let j = choose|j: int|
                                    0 <= j < pre.successful_chunks@.len()
                                        && pre.successful_chunks@[j] == all[i].chunk_id;
                                assert(sched.successful_chunks@[j] == all[i].chunk_id);
                                assert(sched.successful_chunks@.contains(all[i].chunk_id));
                            }
                            if spec_pair_ids(pre.failed_chunks@).contains(all[i].chunk_id) {
                                let j = choose|j: int|
                                    0 <= j < pre.failed_chunks@.len()
                                        && spec_pair_ids(pre.failed_chunks@)[j]
                                        == all[i].chunk_id;
                                assert(spec_pair_ids(sched.failed_chunks@)[j]
                                    == all[i].chunk_id);
                                assert(spec_pair_ids(sched.failed_chunks@).contains(
                                    all[i].chunk_id,
                                ));
                            }
                        }
                    }
                }
            },
            None => {
                proof {
                    assert(false);
                }
            },
        }
    }
    proof {
        lemma_four_way_multiset(
            spec_chunk_ids(sched.pool@),
            sched.in_flight@,
            sched.successful_chunks@,
            spec_pair_ids(sched.failed_chunks@),
        );
        assert(sched.all_ids().to_multiset().len() == sched.submitted_ids@.to_multiset().len());
        assert(sched.pool@.len() == 0);
    }
    let ghost gsucc = sched.successful_chunks@;
    let ghost gpairs = sched.failed_chunks@;
    proof {
        let combined = gsucc + spec_pair_ids(gpairs);
        assert(sched.all_ids() =~= combined);
        assert(combined.to_multiset() == spec_chunk_ids(all).to_multiset());
        spec_chunk_ids(all).lemma_multiset_has_no_duplicates();
        combined.lemma_multiset_has_no_duplicates_conv();
        assert(combined.no_duplicates());
        assert(gsucc.no_duplicates()) by {
            assert(forall|j: int| 0 <= j < gsucc.len() ==> combined[j] == gsucc[j]);
        }
        assert(spec_pair_ids(gpairs).no_duplicates()) by {
            assert(forall|j: int|
                0 <= j < spec_pair_ids(gpairs).len() ==> combined[gsucc.len() + j]
                    == spec_pair_ids(gpairs)[j]);
        }
        lemma_map_of_pairs_dom(gpairs);
        assert forall|id: u32| #[trigger] combined.contains(id) implies spec_chunk_ids(
            all,
        ).contains(id) by {
            assert(combined.to_multiset().count(id) > 0);
            assert(spec_chunk_ids(all).to_multiset().count(id) > 0);
        }
        assert forall|id: u32| #[trigger] spec_chunk_ids(all).contains(id) implies
            combined.contains(id) by {
            assert(spec_chunk_ids(all).to_multiset().count(id) > 0);
            assert(combined.to_multiset().count(id) > 0);
        }
        assert forall|id: u32| #[trigger] gsucc.contains(id) implies combined.contains(id) by {
            let j = choose|j: int| 0 <= j < gsucc.len() && gsucc[j] == id;
            assert(combined[j] == id);
        }
        assert forall|id: u32| #[trigger] spec_pair_ids(gpairs).contains(id) implies
            combined.contains(id) by {
            let j = choose|j: int|
                0 <= j < spec_pair_ids(gpairs).len() && spec_pair_ids(gpairs)[j] == id;
            assert(combined[gsucc.len() + j] == id);
        }
        assert forall|id: u32| #[trigger] combined.contains(id) implies gsucc.contains(id)
            || spec_pair_ids(gpairs).contains(id) by {
            let j = choose|j: int| 0 <= j < combined.len() && combined[j] == id;
            if j < gsucc.len() {
                assert(gsucc[j] == id);
            } else {
                assert(spec_pair_ids(gpairs)[j - gsucc.len()] == id);
            }
        }
        assert forall|id: u32| gsucc.contains(id) implies !spec_pair_ids(gpairs).contains(
            id,
        ) by {
            if gsucc.contains(id) && spec_pair_ids(gpairs).contains(id) {
                let j1 = choose|j: int| 0 <= j < gsucc.len() && gsucc[j] == id;
                let j2 = choose|j: int|
                    0 <= j < spec_pair_ids(gpairs).len() && spec_pair_ids(gpairs)[j] == id;
                assert(combined[j1] == id);
                assert(combined[gsucc.len() + j2] == id);
            }
        }
        lemma_map_of_pairs_get(gpairs);
        assert forall|i: int|
            0 <= i < n && gsucc.contains((#[trigger] all[i]).chunk_id) implies
            parallel_chunk_succeeded(transfer, all[i].chunk_id, all[i].data@, cap) by {
            assert(chunk_settled(transfer, all[i], gsucc, gpairs, cap));
        }
        assert forall|i: int|
            0 <= i < n && spec_map_of_pairs(gpairs).dom().contains(
                (#[trigger] all[i]).chunk_id,
            ) implies parallel_chunk_exhausted(
            transfer,
            all[i].chunk_id,
            all[i].data@,
            cap,
            spec_map_of_pairs(gpairs)[all[i].chunk_id]@,
        ) by {
            let id = all[i].chunk_id;
            assert(spec_pair_ids(gpairs).contains(id));
            let j = choose|j: int|
                0 <= j < spec_pair_ids(gpairs).len() && spec_pair_ids(gpairs)[j] == id;
            assert(gpairs[j].0 == id);
            assert(exhausted_id_from(transfer, all, gpairs[j].0, gpairs[j].1@, cap));
            let i2 = choose|i2: int|
                0 <= i2 < all.len() && (#[trigger] all[i2]).chunk_id == gpairs[j].0
                    && parallel_chunk_exhausted(
                    transfer,
                    all[i2].chunk_id,
                    all[i2].data@,
                    cap,
                    gpairs[j].1@,
                );
            assert(spec_chunk_ids(all)[i] == spec_chunk_ids(all)[i2]);
            assert(i == i2);
            assert(spec_map_of_pairs(gpairs)[id] == gpairs[j].1);
        }
    }
    let result = sched.into_result();
    proof {
        if parallel_transfer_never_fails(transfer) && gpairs.len() > 0 {
            assert(exhausted_id_from(transfer, all, gpairs[0].0, gpairs[0].1@, cap));
            assert(false);
        }
        if parallel_transfer_always_fails(transfer) && gsucc.len() > 0 {
            assert(succeeded_id_from(transfer, all, gsucc[0], cap));
            assert(false);
        }
        if gpairs.len() == 0 {
            assert forall|i: int| 0 <= i < n implies #[trigger] parallel_chunk_succeeded(
                transfer,
                all[i].chunk_id,
                all[i].data@,
                cap,
            ) by {
                assert(chunk_settled(transfer, all[i], gsucc, gpairs, cap));
            }
        }
    }
    result
}

/// With distinct ids, the map of a pair list holds each pair's error under
/// its id.
pub proof fn lemma_map_of_pairs_get(pairs: Seq<(u32, String)>)
    requires
        spec_pair_ids(pairs).no_duplicates(),
    ensures
        forall|j: int|
            0 <= j < pairs.len() ==> spec_map_of_pairs(pairs)[(#[trigger] pairs[j]).0]
                == pairs[j].1,
    decreases pairs.len(),
{
    if pairs.len() > 0 {
        let prefix = pairs.drop_last();
        let ids = spec_pair_ids(pairs);
        assert(spec_pair_ids(prefix) =~= ids.drop_last());
        lemma_map_of_pairs_get(prefix);
        assert forall|j: int|
            0 <= j < pairs.len() implies spec_map_of_pairs(pairs)[(#[trigger] pairs[j]).0]
            == pairs[j].1 by {
            if j < pairs.len() - 1 {
                assert(ids[j] == pairs[j].0);
                assert(ids[pairs.len() - 1] == pairs.last().0);
                assert(pairs[j].0 != pairs.last().0);
                assert(prefix[j] == pairs[j]);
                assert(spec_map_of_pairs(prefix)[pairs[j].0] == pairs[j].1);
            }
        }
    }
}

/// Does the id list contain this id?
fn ids_contain(ids: &Vec<u32>, id: u32) -> (b: bool)
    ensures
        b == ids@.contains(id),
{
    let n = ids.len();
    let mut i: usize = 0;
    while i < n
        invariant
            n == ids@.len(),
            i <= n,
            forall|j: int| 0 <= j < i ==> ids@[j] != id,
        decreases n - i,
    {
        if ids[i] == id {
            return true;
        }
        i = i + 1;
    }
    false
}

/// Keeps exactly the chunks whose id occurs in `ids`, in their input order —
/// the retry filter applied to a fresh split when a failed-chunk manifest
/// names the ids to send again.
pub fn filter_chunks_by_ids(chunks: Vec<ChunkInfo>, ids: &Vec<u32>) -> (kept: Vec<ChunkInfo>)
    ensures
        kept@ == chunks@.filter(|c: ChunkInfo| ids@.contains(c.chunk_id)),
{
    let ghost orig = chunks@;
    let ghost pred = |c: ChunkInfo| ids@.contains(c.chunk_id);
    let ghost mut done: int = 0;
    let mut rest = chunks;
    let mut kept: Vec<ChunkInfo> = Vec::new();
    while rest.len() > 0
        invariant
            0 <= done <= orig.len(),
            rest@ == orig.skip(done),
            pred == (|c: ChunkInfo| ids@.contains(c.chunk_id)),
            kept@ == orig.take(done).filter(pred),
        decreases rest@.len(),
    {
        let ghost pre = kept@;
        let c = rest.remove(0);
        proof {
            assert(c == orig[done]);
            assert(rest@ =~= orig.skip(done + 1));
        }
        if ids_contain(ids, c.chunk_id) {
            kept.push(c);
        }
        proof {
            reveal(Seq::filter);
            assert(orig.take(done + 1).drop_last() =~= orig.take(done));
            assert(orig.take(done + 1).last() == orig[done]);
            if pred(orig[done]) {
                assert(kept@ =~= pre.push(orig[done]));
            }
            assert(kept@ == orig.take(done + 1).filter(pred));
            done = done + 1;
        }
    }
    proof {
        assert(orig.take(done) =~= orig);
    }
    kept
}

} // verus!
