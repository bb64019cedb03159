//! Chunked upload engine: splitting a byte payload into size-bounded chunks
//! and scheduling their transfer through a caller-supplied, failure-prone
//! transfer primitive, with bounded retry and resumable interruption.

pub mod manifest;
pub mod storage;
pub mod parallel;
pub mod textfmt;

use vstd::prelude::*;

verus! {

/// The maximum size of the HTTP payload for canister updates, set to 2 MiB.
pub const MAX_CANISTER_HTTP_PAYLOAD_SIZE: usize = 2 * 1000 * 1000;

/// Configuration for upload operations with retry and resume capabilities.
///
/// Progress reporting is the caller's concern: the transfer primitive handed
/// to the engine sees every chunk index and attempt number, so a caller hooks
/// its reporting (and any inter-attempt delay of `retry_delay_ms`) into that
/// primitive.
#[derive(Debug, Clone)]
pub struct UploadConfig {
    /// Maximum number of retry attempts per chunk
    pub max_retries: usize,
    /// Delay between retry attempts in milliseconds
    pub retry_delay_ms: u64,
    /// Whether to enable auto-resume functionality
    pub auto_resume: bool,
}

impl Default for UploadConfig {
    /// Three attempts per chunk, one second between attempts, no auto-resume.
    fn default() -> (c: Self)
        ensures
            c.max_retries == 3,
            c.retry_delay_ms == 1000,
            !c.auto_resume,
    {
        UploadConfig { max_retries: 3, retry_delay_ms: 1000, auto_resume: false }
    }
}

impl UploadConfig {
    /// Creates a new UploadConfig with auto-resume enabled
    pub fn with_auto_resume() -> (c: Self)
        ensures
            c.max_retries == 3,
            c.retry_delay_ms == 1000,
            c.auto_resume,
    {
        UploadConfig { max_retries: 3, retry_delay_ms: 1000, auto_resume: true }
    }

    /// Sets the maximum number of retry attempts
    pub fn with_max_retries(self, retries: usize) -> (c: Self)
        ensures
            c.max_retries == retries,
            c.retry_delay_ms == self.retry_delay_ms,
            c.auto_resume == self.auto_resume,
    {
        UploadConfig { max_retries: retries, ..self }
    }

    /// Sets the retry delay in milliseconds
    pub fn with_retry_delay(self, delay_ms: u64) -> (c: Self)
        ensures
            c.max_retries == self.max_retries,
            c.retry_delay_ms == delay_ms,
            c.auto_resume == self.auto_resume,
    {
        UploadConfig { retry_delay_ms: delay_ms, ..self }
    }
}

/// Result of a chunk upload operation
#[derive(Debug)]
pub enum ChunkUploadResult {
    /// Chunk uploaded successfully
    Success,
    /// Chunk failed after all retry attempts
    Failed(String),
    /// Upload was interrupted and can be resumed
    Interrupted {
        /// The index of the chunk that failed (0-based)
        failed_at_chunk: usize,
        /// The error message describing the failure
        error: String,
    },
}

/// Parameters naming the destination of an upload; the transfer primitive a
/// caller builds from them carries them to the remote side.
#[derive(Debug, Clone)]
pub struct UploadParams<'a> {
    /// Name for display purposes
    pub name: &'a str,
    /// Target canister name
    pub canister_name: &'a str,
    /// Canister method to call
    pub canister_method: &'a str,
    /// Optional network specification
    pub network: Option<&'a str>,
}

/// The chunk sequence produced by splitting `data` into `chunk_size`-byte
/// pieces beginning at byte `start`: every piece has length `chunk_size`
/// except possibly the last, which holds the remainder.
pub open spec fn spec_split(data: Seq<u8>, chunk_size: int, start: int) -> Seq<Seq<u8>>
    decreases data.len() - start when chunk_size >= 1
{
    if chunk_size < 1 || start >= data.len() {
        Seq::empty()
    } else if start + chunk_size <= data.len() {
        seq![data.subrange(start, start + chunk_size)] + spec_split(data, chunk_size, start + chunk_size)
    } else {
        seq![data.subrange(start, data.len() as int)]
    }
}

/// Copies the byte range `[i, j)` of `data` into a fresh vector.
pub(crate) fn copy_byte_range(data: &Vec<u8>, i: usize, j: usize) -> (out: Vec<u8>)
    requires
        i <= j,
        j <= data.len(),
    ensures
        out@ == data@.subrange(i as int, j as int),
{
    let mut out: Vec<u8> = Vec::new();
    let mut k: usize = i;
    while k < j
        invariant
            i <= k <= j,
            j <= data.len(),
            out@ == data@.subrange(i as int, k as int),
        decreases j - k,
    {
        out.push(data[k]);
        proof {
            assert(out@ =~= data@.subrange(i as int, k + 1 as int));
        }
        k = k + 1;
    }
    out
}

/// Splits the data into chunks.
///
/// Each chunk holds `chunk_size` bytes, except possibly the last; chunking
/// begins at byte index `start_ind`, and a starting index at or past the end
/// of `data` yields no chunks.
pub fn split_into_chunks(data: Vec<u8>, chunk_size: usize, start_ind: usize) -> (chunks: Vec<Vec<u8>>)
    requires
        chunk_size >= 1,
    ensures
        chunks.deep_view() == spec_split(data@, chunk_size as int, start_ind as int),
{
    let mut chunks: Vec<Vec<u8>> = Vec::new();
    let mut start: usize = start_ind;
    while start < data.len()
        invariant
            chunk_size >= 1,
            spec_split(data@, chunk_size as int, start_ind as int)
                == chunks.deep_view() + spec_split(data@, chunk_size as int, start as int),
        decreases data.len() - start,
    {
        let remaining = data.len() - start;
        let ghost pre = chunks.deep_view();
        if chunk_size < remaining {
            let piece = copy_byte_range(&data, start, start + chunk_size);
            chunks.push(piece);
            proof {
                assert(chunks.deep_view() =~~= pre + seq![data@.subrange(start as int, start + chunk_size)]);
                assert(chunks.deep_view() + spec_split(data@, chunk_size as int, start + chunk_size)
                    =~= pre + spec_split(data@, chunk_size as int, start as int));
            }
            start = start + chunk_size;
        } else {
            let piece = copy_byte_range(&data, start, data.len());
            chunks.push(piece);
            proof {
                assert(chunks.deep_view() =~~= pre + seq![data@.subrange(start as int, data@.len() as int)]);
                assert(spec_split(data@, chunk_size as int, start as int)
                    =~= seq![data@.subrange(start as int, data@.len() as int)]);
                assert(chunks.deep_view() + spec_split(data@, chunk_size as int, data@.len() as int)
                    =~= pre + spec_split(data@, chunk_size as int, start as int));
            }
            start = data.len();
        }
    }
    proof {
        assert(chunks.deep_view() + spec_split(data@, chunk_size as int, start as int)
            =~= chunks.deep_view());
    }
    chunks
}

/// Law: concatenating the chunks of a split reproduces the data from the
/// starting offset on, exactly; with offset 0, the whole data.
pub proof fn lemma_split_concat(data: Seq<u8>, chunk_size: int, start: int)
    requires
        chunk_size >= 1,
        0 <= start <= data.len(),
    ensures
        spec_split(data, chunk_size, start).flatten() == data.subrange(start, data.len() as int),
    decreases data.len() - start,
{
    let s = spec_split(data, chunk_size, start);
    if start == data.len() {
        assert(s.flatten() =~= data.subrange(start, data.len() as int));
    } else if start + chunk_size <= data.len() {
        lemma_split_concat(data, chunk_size, start + chunk_size);
        let head = data.subrange(start, start + chunk_size);
        let rest = spec_split(data, chunk_size, start + chunk_size);
        assert(s.first() == head);
        assert(s.drop_first() =~= rest);
        assert(s.flatten() == head + rest.flatten());
        assert(head + data.subrange(start + chunk_size, data.len() as int)
            =~= data.subrange(start, data.len() as int));
    } else {
        let head = data.subrange(start, data.len() as int);
        assert(s.first() == head);
        assert(s.drop_first() =~= Seq::<Seq<u8>>::empty());
        assert(s.flatten() == head + Seq::<Seq<u8>>::empty().flatten());
        assert(head + Seq::<u8>::empty() =~= head);
    }
}

/// Law: splitting from offset `start` yields the same chunks as splitting the
/// suffix of the data that begins at `start` from offset 0.
pub proof fn lemma_split_offset(data: Seq<u8>, chunk_size: int, start: int)
    requires
        chunk_size >= 1,
        0 <= start <= data.len(),
    ensures
        spec_split(data, chunk_size, start) == spec_split(
            data.subrange(start, data.len() as int),
            chunk_size,
            0,
        ),
    decreases data.len() - start,
{
    let tail = data.subrange(start, data.len() as int);
    if start == data.len() {
        assert(spec_split(data, chunk_size, start) =~= spec_split(tail, chunk_size, 0));
    } else if start + chunk_size <= data.len() {
        lemma_split_offset(data, chunk_size, start + chunk_size);
        lemma_split_offset(tail, chunk_size, chunk_size);
        assert(data.subrange(start, start + chunk_size) =~= tail.subrange(0, chunk_size));
        assert(tail.subrange(chunk_size, tail.len() as int)
            =~= data.subrange(start + chunk_size, data.len() as int));
        assert(spec_split(data, chunk_size, start) =~= spec_split(tail, chunk_size, 0));
    } else {
        assert(data.subrange(start, data.len() as int) =~= tail.subrange(0, tail.len() as int));
        assert(spec_split(data, chunk_size, start) =~= spec_split(tail, chunk_size, 0));
    }
}

/// The blob-literal rendering of a byte sequence: every byte as an uppercase
/// two-digit hex escape, inside `(blob "...")`.
pub open spec fn spec_blob_string(data: Seq<u8>) -> Seq<char> {
    "(blob \""@ + textfmt::spec_hex_escapes(data) + "\")"@
}

/// Converts a vector of bytes to a blob string.
pub fn vec_u8_to_blob_string(data: &[u8]) -> (s: String)
    ensures
        s@ == spec_blob_string(data@),
{
    let mut s = String::from_str("(blob \"");
    textfmt::push_hex_escapes(&mut s, data);
    s.append("\")");
    proof {
        assert(("(blob \""@ + textfmt::spec_hex_escapes(data@)) + "\")"@
            =~= spec_blob_string(data@));
    }
    s
}

/// An error message under the uploader's common prefix.
pub open spec fn spec_error_string(message: Seq<char>) -> Seq<char> {
    "Upload Error: "@ + message
}

/// Creates a formatted error string.
pub fn create_error_string(message: &str) -> (s: String)
    ensures
        s@ == spec_error_string(message@),
{
    let mut s = String::from_str("Upload Error: ");
    s.append(message);
    s
}

/// The message reported when one transfer of a chunk fails: the chunk's
/// 1-based position and the failure's own text, under the uploader's error
/// prefix.
pub open spec fn spec_chunk_failure_text(chunk_index: int, detail: Seq<char>) -> Seq<char> {
    spec_error_string("Chunk "@ + textfmt::spec_dec(chunk_index + 1) + " failed: "@ + detail)
}

/// The failure message for one transfer of a chunk, built from what the
/// transfer reported.
pub fn chunk_failure_text(chunk_index: usize, detail: &str) -> (s: String)
    requires
        chunk_index < usize::MAX,
    ensures
        s@ == spec_chunk_failure_text(chunk_index as int, detail@),
{
    let mut s = String::from_str("Upload Error: ");
    s.append("Chunk ");
    textfmt::push_dec(&mut s, (chunk_index as u64) + 1);
    s.append(" failed: ");
    s.append(detail);
    proof {
        assert(s@ =~= spec_chunk_failure_text(chunk_index as int, detail@));
    }
    s
}

/// The message reported when one chunk has exhausted its attempts: the chunk's
/// 1-based position, the total, the number of attempts made, and the error of
/// the last attempt.
pub open spec fn spec_retry_failure_msg(
    chunk_index: int,
    total: int,
    attempts: int,
    last_error: Seq<char>,
) -> Seq<char> {
    "Failed to upload chunk "@ + textfmt::spec_dec(chunk_index + 1) + "/"@ + textfmt::spec_dec(
        total,
    ) + " after "@ + textfmt::spec_dec(attempts) + " attempts. Last error: "@ + last_error
}

/// How many attempts one chunk is given: `max_retries` when auto-resume is on,
/// otherwise a single attempt; never fewer than one.
pub open spec fn spec_attempt_cap(config: UploadConfig) -> usize {
    if config.auto_resume && config.max_retries >= 1 {
        config.max_retries
    } else {
        1
    }
}

/// The transfer primitive accepts every (chunk index, data, attempt) call.
pub open spec fn transfer_callable<F: Fn(usize, Vec<u8>, usize) -> Result<(), String>>(
    f: F,
) -> bool {
    forall|args: (usize, Vec<u8>, usize)| #[trigger] call_requires(f, args)
}

/// Every outcome the transfer primitive can produce is a success.
pub open spec fn transfer_never_fails<F: Fn(usize, Vec<u8>, usize) -> Result<(), String>>(
    f: F,
) -> bool {
    forall|args: (usize, Vec<u8>, usize), out: Result<(), String>|
        #[trigger] call_ensures(f, args, out) ==> out is Ok
}

/// Every outcome the transfer primitive can produce is a failure.
pub open spec fn transfer_always_fails<F: Fn(usize, Vec<u8>, usize) -> Result<(), String>>(
    f: F,
) -> bool {
    forall|args: (usize, Vec<u8>, usize), out: Result<(), String>|
        #[trigger] call_ensures(f, args, out) ==> out is Err
}

/// The transfer primitive fails attempts 1 to `k - 1` of every chunk and
/// succeeds from attempt `k` on.
pub open spec fn transfer_succeeds_from<F: Fn(usize, Vec<u8>, usize) -> Result<(), String>>(
    f: F,
    k: usize,
) -> bool {
    forall|args: (usize, Vec<u8>, usize), out: Result<(), String>|
        #[trigger] call_ensures(f, args, out) ==> (out is Ok <==> args.2 >= k)
}

/// The transfer primitive has some successful outcome for chunk `index` with
/// payload `data` at an attempt number between 1 and `cap`.
pub open spec fn chunk_transfer_succeeded<F: Fn(usize, Vec<u8>, usize) -> Result<(), String>>(
    f: F,
    index: usize,
    data: Seq<u8>,
    cap: usize,
) -> bool {
    exists|v: Vec<u8>, a: usize, out: Result<(), String>|
        v@ == data && 1 <= a <= cap && #[trigger] call_ensures(f, (index, v, a), out) && out is Ok
}

/// The transfer primitive failed chunk `index` with payload `data` at attempt
/// number `cap` (the last attempt allowed), and `msg` is the exhaustion
/// message built from that last error.
pub open spec fn chunk_transfer_exhausted<F: Fn(usize, Vec<u8>, usize) -> Result<(), String>>(
    f: F,
    index: usize,
    data: Seq<u8>,
    cap: usize,
    total: int,
    msg: Seq<char>,
) -> bool {
    exists|v: Vec<u8>, out: Result<(), String>|
        v@ == data && #[trigger] call_ensures(f, (index, v, cap), out) && out is Err && msg
            == spec_retry_failure_msg(index as int, total, cap as int, out->Err_0@)
}

/// Uploads a single chunk with retry logic based on the provided configuration.
///
/// The transfer primitive receives the chunk index, the chunk's bytes, and the
/// 1-based attempt number; attempts stop at the first success. On failure the
/// error reports the exact number of attempts made, so a primitive that always
/// fails is reported as failed after exactly `spec_attempt_cap(*config)`
/// attempts, and one that first succeeds at an attempt `k` within the cap is
/// reported as a success.
pub fn upload_chunk_with_config<F: Fn(usize, Vec<u8>, usize) -> Result<(), String>>(
    chunk: &Vec<u8>,
    chunk_index: usize,
    total_chunks: usize,
    config: &UploadConfig,
    transfer: &F,
) -> (r: Result<(), String>)
    requires
        transfer_callable(*transfer),
        chunk_index < total_chunks,
    ensures
        r is Ok ==> chunk_transfer_succeeded(
            *transfer,
            chunk_index,
            chunk@,
            spec_attempt_cap(*config),
        ),
        r matches Err(m) ==> chunk_transfer_exhausted(
            *transfer,
            chunk_index,
            chunk@,
            spec_attempt_cap(*config),
            total_chunks as int,
            m@,
        ),
        transfer_never_fails(*transfer) ==> r is Ok,
        transfer_always_fails(*transfer) ==> r is Err,
        forall|k: usize|
            #[trigger] transfer_succeeds_from(*transfer, k) && 1 <= k <= spec_attempt_cap(*config)
                ==> r is Ok,
{
    let max_attempts: usize = if config.auto_resume {
        config.max_retries
    } else {
        1
    };
    let mut attempts: usize = 0;
    loop
        invariant
            transfer_callable(*transfer),
            chunk_index < total_chunks,
            max_attempts == if config.auto_resume {
                config.max_retries
            } else {
                1
            },
            attempts < spec_attempt_cap(*config),
        decreases spec_attempt_cap(*config) - attempts,
    {
        attempts = attempts + 1;
        let payload = copy_byte_range(chunk, 0, chunk.len());
        let ghost sent: Vec<u8> = payload;
        proof {
            assert(sent@ =~= chunk@);
        }
        let outcome = transfer(chunk_index, payload, attempts);
        match outcome {
            Ok(()) => {
                proof {
                    assert(call_ensures(*transfer, (chunk_index, sent, attempts), outcome));
                    assert(outcome->Ok_0 == ());
                }
                return Ok(());
            },
            Err(e) => {
                if attempts >= max_attempts {
                    let ghost failed_outcome = Result::<(), String>::Err(e);
                    let mut m = String::from_str("Failed to upload chunk ");
                    textfmt::push_dec(&mut m, (chunk_index as u64) + 1);
                    m.append("/");
                    textfmt::push_dec(&mut m, total_chunks as u64);
                    m.append(" after ");
                    textfmt::push_dec(&mut m, attempts as u64);
                    m.append(" attempts. Last error: ");
                    m.append(e.as_str());
                    proof {
                        assert(call_ensures(
                            *transfer,
                            (chunk_index, sent, attempts),
                            failed_outcome,
                        ));
                        assert(m@ =~= spec_retry_failure_msg(
                            chunk_index as int,
                            total_chunks as int,
                            spec_attempt_cap(*config) as int,
                            failed_outcome->Err_0@,
                        ));
                    }
                    return Err(m);
                }
                // the next attempt follows; any pacing is the primitive's concern
            },
        }
    }
}

/// Uploads multiple chunks in ascending order with retry and resume support.
///
/// Chunks are taken strictly in order from `start_from_chunk` on; the first
/// chunk that exhausts its attempts stops the run, as an `Interrupted` outcome
/// naming that chunk when auto-resume is configured, and as a `Failed` outcome
/// otherwise. An empty chunk list and a start index past the end are rejected
/// immediately.
pub fn upload_chunks_with_resume<F: Fn(usize, Vec<u8>, usize) -> Result<(), String>>(
    chunks: &[Vec<u8>],
    start_from_chunk: usize,
    config: &UploadConfig,
    transfer: F,
) -> (r: ChunkUploadResult)
    requires
        transfer_callable(transfer),
    ensures
        chunks@.len() == 0 ==> (r matches ChunkUploadResult::Failed(m) && m@
            == "No chunks to upload"@),
        chunks@.len() > 0 && start_from_chunk >= chunks@.len() ==> (r
            matches ChunkUploadResult::Failed(m) && m@
            == "Start chunk index exceeds total chunks"@),
        r is Success ==> chunks@.len() > 0 && start_from_chunk < chunks@.len() && forall|j: usize|
            start_from_chunk <= j < chunks@.len() ==> #[trigger] chunk_transfer_succeeded(
                transfer,
                j,
                chunks@[j as int]@,
                spec_attempt_cap(*config),
            ),
        r matches ChunkUploadResult::Interrupted { failed_at_chunk, error } ==> (
        config.auto_resume && start_from_chunk <= failed_at_chunk < chunks@.len()
            && chunk_transfer_exhausted(
            transfer,
            failed_at_chunk,
            chunks@[failed_at_chunk as int]@,
            spec_attempt_cap(*config),
            chunks@.len() as int,
            error@,
        ) && (forall|j: usize|
            start_from_chunk <= j < failed_at_chunk ==> #[trigger] chunk_transfer_succeeded(
                transfer,
                j,
                chunks@[j as int]@,
                spec_attempt_cap(*config),
            ))),
        r matches ChunkUploadResult::Failed(m) ==> ((chunks@.len() > 0 && start_from_chunk
            < chunks@.len()) ==> (!config.auto_resume && exists|idx: usize|
            start_from_chunk <= idx < chunks@.len() && #[trigger] chunk_transfer_exhausted(
                transfer,
                idx,
                chunks@[idx as int]@,
                spec_attempt_cap(*config),
                chunks@.len() as int,
                m@,
            ))),
        transfer_never_fails(transfer) && chunks@.len() > 0 && start_from_chunk < chunks@.len()
            ==> r is Success,
        transfer_always_fails(transfer) && chunks@.len() > 0 && start_from_chunk < chunks@.len()
            && config.auto_resume ==> (r matches ChunkUploadResult::Interrupted {
            failed_at_chunk,
            ..
        } && failed_at_chunk == start_from_chunk),
        transfer_always_fails(transfer) && chunks@.len() > 0 && start_from_chunk < chunks@.len()
            && !config.auto_resume ==> r is Failed,
{
    let total = chunks.len();
    if total == 0 {
        return ChunkUploadResult::Failed(String::from_str("No chunks to upload"));
    }
    if start_from_chunk >= total {
        return ChunkUploadResult::Failed(String::from_str("Start chunk index exceeds total chunks"));
    }
    let mut i: usize = start_from_chunk;
    while i < total
        invariant
            transfer_callable(transfer),
            total == chunks@.len(),
            start_from_chunk <= i <= total,
            start_from_chunk < total,
            forall|j: usize|
                start_from_chunk <= j < i ==> #[trigger] chunk_transfer_succeeded(
                    transfer,
                    j,
                    chunks@[j as int]@,
                    spec_attempt_cap(*config),
                ),
        decreases total - i,
    {
        let chunk_ref = &chunks[i];
        match upload_chunk_with_config(chunk_ref, i, total, config, &transfer) {
            Ok(()) => {
                i = i + 1;
            },
            Err(m) => {
                proof {
                    assert(chunk_transfer_exhausted(
                        transfer,
                        i,
                        chunks@[i as int]@,
                        spec_attempt_cap(*config),
                        chunks@.len() as int,
                        m@,
                    ));
                    assert(exists|idx: usize|
                        start_from_chunk <= idx < chunks@.len() && #[trigger] chunk_transfer_exhausted(
                            transfer,
                            idx,
                            chunks@[idx as int]@,
                            spec_attempt_cap(*config),
                            chunks@.len() as int,
                            m@,
                        ));
                    if i != start_from_chunk {
                        assert(chunk_transfer_succeeded(
                            transfer,
                            start_from_chunk,
                            chunks@[start_from_chunk as int]@,
                            spec_attempt_cap(*config),
                        ));
                    }
                }
                if config.auto_resume {
                    return ChunkUploadResult::Interrupted { failed_at_chunk: i, error: m };
                } else {
                    let ghost gm: String = m;
                    let result = ChunkUploadResult::Failed(m);
                    proof {
                        assert(result->Failed_0 == gm);
                        assert(exists|idx: usize|
                            start_from_chunk <= idx < chunks@.len()
                                && #[trigger] chunk_transfer_exhausted(
                                transfer,
                                idx,
                                chunks@[idx as int]@,
                                spec_attempt_cap(*config),
                                chunks@.len() as int,
                                result->Failed_0@,
                            ));
                    }
                    return result;
                }
            },
        }
    }
    proof {
        assert(chunk_transfer_succeeded(
            transfer,
            start_from_chunk,
            chunks@[start_from_chunk as int]@,
            spec_attempt_cap(*config),
        ));
    }
    ChunkUploadResult::Success
}

} // verus!

