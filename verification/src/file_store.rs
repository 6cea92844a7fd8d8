//! The decisions of the processor that tails the transactions in the cache
//! and stores them in the file store.
//!
//! The processor keeps two cursors: the version up to which it has read the
//! cache, and the version up to which the file store is written. What lies
//! between them is buffered. The file store is written in blobs of a fixed
//! number of transactions, so its version is always a multiple of that
//! number. Reading the cache, sleeping and uploading are the caller's work:
//! it reports what came of them and is told what to do next.
use vstd::prelude::*;

verus! {

/// If the version is ahead of the cache head, retry after a short sleep.
pub const AHEAD_OF_CACHE_SLEEP_DURATION_IN_MILLIS: u64 = 100;

/// The number of blobs that are gathered before an upload, unless the head
/// of the cache is reached earlier.
pub const BLOBS_PER_UPLOAD: usize = 10;

/// What came of reading a batch of transactions from the cache.
#[derive(Clone, Copy, Debug, PartialEq, Eq, Structural)]
pub enum CacheBatch {
    /// The batch was read; it holds this many transactions.
    Fetched(usize),
    /// The cache does not hold the version yet.
    NotReady,
    /// The cache no longer holds the version.
    EvictedFromCache,
    /// The cache could not be read.
    Failed,
}

/// Why the processor stops.
#[derive(Clone, Copy, Debug, PartialEq, Eq, Structural)]
pub enum ProcessorError {
    /// The file store version is not a multiple of the blob size.
    MisalignedFileStoreVersion,
    /// The transactions to read have been evicted from the cache.
    EvictedFromCache,
    /// The cache could not be read.
    CacheFailed,
}

/// What the processor does next.
#[derive(Clone, Copy, Debug, PartialEq, Eq, Structural)]
pub enum Step {
    /// Read the next batch from the cache, at the current cache version.
    Fetch,
    /// Sleep for this many milliseconds, then read the same batch again.
    Sleep(u64),
    /// Take this many transactions from the front of the buffer and upload
    /// them to the file store.
    Upload(usize),
    /// Stop with an error.
    Fail(ProcessorError),
}

/// The two cursors of the processor and the size of its buffer.
#[derive(Clone, Copy, Debug, PartialEq, Eq, Structural)]
pub struct Cursor {
    /// The version up to which the cache has been read.
    pub current_cache_version: u64,
    /// The version up to which the file store is written.
    pub current_file_store_version: u64,
    /// The number of transactions read and not yet uploaded.
    pub buffered: usize,
    /// The number of transactions in one blob of the file store.
    pub blob_size: usize,
}

impl Cursor {
    /// The cursors are consistent: what has been read and not uploaded lies
    /// in the buffer, and a batch of the greatest size can be counted.
    pub open spec fn wf(self) -> bool {
        &&& self.blob_size > 0
        &&& self.blob_size * BLOBS_PER_UPLOAD <= usize::MAX
        &&& self.current_cache_version == self.current_file_store_version + self.buffered
    }

    /// The file store version is a multiple of the blob size.
    pub open spec fn aligned(self) -> bool {
        self.current_file_store_version as int % self.blob_size as int == 0
    }

    /// The number of transactions to upload from a buffer of `buffered`
    /// transactions: the greatest multiple of the blob size in it.
    pub open spec fn process_size(self) -> int {
        self.buffered as int / self.blob_size as int * self.blob_size as int
    }

    /// What follows the batch `batch` read at the cache version of `self`.
    pub open spec fn step_for(self, batch: CacheBatch) -> Step {
        match batch {
            CacheBatch::Fetched(count) => {
                let hit_head = count != self.blob_size;
                let buffered = self.buffered + count;
                if !hit_head && buffered < BLOBS_PER_UPLOAD * self.blob_size {
                    Step::Fetch
                } else if hit_head && buffered < self.blob_size {
                    Step::Fetch
                } else {
                    Step::Upload((buffered / self.blob_size as int * self.blob_size) as usize)
                }
            },
            CacheBatch::NotReady => Step::Sleep(AHEAD_OF_CACHE_SLEEP_DURATION_IN_MILLIS),
            CacheBatch::EvictedFromCache => Step::Fail(ProcessorError::EvictedFromCache),
            CacheBatch::Failed => Step::Fail(ProcessorError::CacheFailed),
        }
    }

    /// The cursors of a processor that starts at `version`, the version of
    /// the file store, with blobs of `blob_size` transactions.
    pub fn new(version: u64, blob_size: usize) -> (cursor: Cursor)
        requires
            blob_size > 0,
            blob_size * BLOBS_PER_UPLOAD <= usize::MAX,
        ensures
            cursor.wf(),
            cursor.current_cache_version == version,
            cursor.current_file_store_version == version,
            cursor.buffered == 0,
            cursor.blob_size == blob_size,
    {
        Cursor {
            current_cache_version: version,
            current_file_store_version: version,
            buffered: 0,
            blob_size,
        }
    }

    /// The check at the start of each round: the file store version has to
    /// be a multiple of the blob size.
    pub fn verify(&self) -> (checked: Result<(), ProcessorError>)
        requires
            self.wf(),
        ensures
            self.aligned() ==> checked is Ok,
            !self.aligned() ==> checked == Err::<(), ProcessorError>(
                ProcessorError::MisalignedFileStoreVersion,
            ),
    {
        if self.current_file_store_version % (self.blob_size as u64) != 0 {
            Err(ProcessorError::MisalignedFileStoreVersion)
        } else {
            Ok(())
        }
    }

    /// Takes in what came of reading a batch at the current cache version,
    /// and says what to do next.
    ///
    /// A batch that was read moves the cache version on and joins the
    /// buffer. A full batch means that the cache holds more: reading goes on
    /// until ten blobs are gathered. Any other batch reached the head:
    /// whatever full blobs the buffer holds are uploaded, and reading goes
    /// on if it holds none.
    pub fn on_batch(&mut self, batch: CacheBatch) -> (step: Step)
        requires
            old(self).wf(),
            batch matches CacheBatch::Fetched(count) ==> old(self).current_cache_version + count
                <= u64::MAX && old(self).buffered + count <= usize::MAX,
        ensures
            step == old(self).step_for(batch),
            final(self).wf(),
            final(self).blob_size == old(self).blob_size,
            final(self).current_file_store_version == old(self).current_file_store_version,
            final(self).buffered == old(self).buffered + match batch {
                CacheBatch::Fetched(count) => count,
                _ => 0,
            },
            step matches Step::Upload(size) ==> size == final(self).process_size() && 0 < size
                <= final(self).buffered,
    {
        match batch {
            CacheBatch::Fetched(count) => {
                let hit_head = count != self.blob_size;
                // Update the current cache version.
                self.current_cache_version = self.current_cache_version + count as u64;
                self.buffered = self.buffered + count;
                // If not hit the head, we want to collect more transactions.
                if !hit_head && self.buffered < BLOBS_PER_UPLOAD * self.blob_size {
                    return Step::Fetch;
                }
                // If hit the head, we want to collect at least one batch of transactions.
                if hit_head && self.buffered < self.blob_size {
                    return Step::Fetch;
                }
                proof {
                    Self::lemma_whole_blobs(self.buffered as int, self.blob_size as int);
                }
                Step::Upload(self.buffered / self.blob_size * self.blob_size)
            },
            CacheBatch::NotReady => Step::Sleep(AHEAD_OF_CACHE_SLEEP_DURATION_IN_MILLIS),
            CacheBatch::EvictedFromCache => Step::Fail(ProcessorError::EvictedFromCache),
            CacheBatch::Failed => Step::Fail(ProcessorError::CacheFailed),
        }
    }

    /// Takes in that `size` transactions from the front of the buffer have
    /// been uploaded: the file store version moves on by as many.
    pub fn on_uploaded(&mut self, size: usize)
        requires
            old(self).wf(),
            size <= old(self).buffered,
        ensures
            final(self).wf(),
            final(self).blob_size == old(self).blob_size,
            final(self).current_cache_version == old(self).current_cache_version,
            final(self).current_file_store_version == old(self).current_file_store_version + size,
            final(self).buffered == old(self).buffered - size,
    {
        self.buffered = self.buffered - size;
        self.current_file_store_version = self.current_file_store_version + size as u64;
    }

    /// The full blobs in a buffer of `buffered` transactions are no more
    /// than the buffer holds, and at least one if it holds a blob's worth.
    pub proof fn lemma_whole_blobs(buffered: int, blob_size: int)
        requires
            0 < blob_size <= buffered,
        ensures
            0 < buffered / blob_size * blob_size <= buffered,
            (buffered / blob_size * blob_size) % blob_size == 0,
    {
        vstd::arithmetic::div_mod::lemma_fundamental_div_mod(buffered, blob_size);
        vstd::arithmetic::div_mod::lemma_div_non_zero(buffered, blob_size);
        vstd::arithmetic::div_mod::lemma_mod_multiples_basic(buffered / blob_size, blob_size);
        assert(buffered / blob_size * blob_size == blob_size * (buffered / blob_size))
            by (nonlinear_arith);
        assert(0 < buffered / blob_size * blob_size) by (nonlinear_arith)
            requires
                0 < blob_size,
                0 < buffered / blob_size,
        ;
    }

    /// An upload of whole blobs keeps the file store version a multiple of
    /// the blob size.
    pub proof fn lemma_upload_keeps_alignment(self, size: int)
        requires
            self.wf(),
            self.aligned(),
            size % self.blob_size as int == 0,
            0 <= size,
        ensures
            (self.current_file_store_version + size) % self.blob_size as int == 0,
    {
        vstd::arithmetic::div_mod::lemma_add_mod_noop(
            self.current_file_store_version as int,
            size,
            self.blob_size as int,
        );
        vstd::arithmetic::div_mod::lemma_small_mod(0, self.blob_size as nat);
    }
}

} // verus!
