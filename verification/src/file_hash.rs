use crate::digest::{digest_of, is_digest_text, ContentDigest, ContentHasher};
use crate::failure::{too_large_message, FailureKind, FailureModel, HashError};
use crate::sha::SHA256_MAX_INPUT;
use vstd::prelude::*;

verus! {

/// The size of the buffer that a file is read through: each read hands the
/// hasher at most this many bytes, whatever the size of the file.
pub const CHUNK_SIZE: usize = 8192;

/// The hashing of one file, between two reads.
pub struct FileHasher {
    hasher: ContentHasher,
}

/// Where the hashing of a file stands after a read.
pub enum HashStep {
    /// The read brought bytes; the file is to be read further.
    Continue(FileHasher),
    /// The read found the end of the file; this is the file's identity.
    Finished(ContentDigest),
    /// The file cannot be hashed.
    Failed(HashError),
}

impl FileHasher {
    /// The hasher within is well-formed.
    pub closed spec fn wf(&self) -> bool {
        self.hasher.wf()
    }

    /// The bytes of the file that were read so far.
    pub closed spec fn consumed(&self) -> Seq<u8> {
        self.hasher.consumed()
    }

    /// What was read so far is no more than SHA-256 can digest.
    pub proof fn lemma_within_limit(&self)
        requires
            self.wf(),
        ensures
            self.consumed().len() <= SHA256_MAX_INPUT,
    {
        self.hasher.lemma_within_limit();
    }

    /// The hashing of a file of which nothing was read yet.
    pub fn new() -> (start: Self)
        ensures
            start.wf(),
            start.consumed() == Seq::<u8>::empty(),
    {
        FileHasher { hasher: ContentHasher::new() }
    }

    /// Takes the outcome of the next read of the file. A failed read ends the
    /// hashing in that failure. A read of no bytes is the end of the file and
    /// ends the hashing in the digest of all that was read. Any other read is
    /// taken in, and the file is to be read again; should the file prove
    /// longer than `SHA256_MAX_INPUT`, the hashing fails as `TooLarge`.
    pub fn step(self, read: Result<&[u8], HashError>) -> (next: HashStep)
        requires
            self.wf(),
        ensures
            match read {
                Err(error) => next matches HashStep::Failed(e) && e == error,
                Ok(chunk) => if chunk@.len() == 0 {
                    next matches HashStep::Finished(digest) && digest@ == digest_of(
                        self.consumed(),
                    ) && is_digest_text(digest@)
                } else if self.consumed().len() + chunk@.len() <= SHA256_MAX_INPUT {
                    next matches HashStep::Continue(rest) && rest.wf() && rest.consumed()
                        == self.consumed() + chunk@
                } else {
                    next matches HashStep::Failed(e) && e@ == (FailureModel {
                        kind: FailureKind::TooLarge,
                        message: too_large_message(),
                    })
                },
            },
    {
        match read {
            Err(error) => HashStep::Failed(error),
            Ok(chunk) => {
                if chunk.len() == 0 {
                    HashStep::Finished(self.hasher.finalize())
                } else {
                    let mut hasher = self.hasher;
                    if hasher.update(chunk) {
                        HashStep::Continue(FileHasher { hasher })
                    } else {
                        HashStep::Failed(HashError::too_large())
                    }
                }
            },
        }
    }
}

/// The identity of a byte string held in memory, computed as a file's is:
/// block after block of `CHUNK_SIZE` bytes, then the end.
pub fn hash_bytes(content: &[u8]) -> (outcome: Result<ContentDigest, HashError>)
    ensures
        match outcome {
            Ok(digest) => content@.len() <= SHA256_MAX_INPUT && digest@ == digest_of(content@)
                && is_digest_text(digest@),
            Err(e) => content@.len() > SHA256_MAX_INPUT && e@ == (FailureModel {
                kind: FailureKind::TooLarge,
                message: too_large_message(),
            }),
        },
{
    let mut hasher = FileHasher::new();
    let mut offset: usize = 0;
    assert(content@.take(0) =~= Seq::<u8>::empty());
    loop
        invariant
            hasher.wf(),
            offset <= content@.len(),
            hasher.consumed() == content@.take(offset as int),
        decreases content@.len() - offset,
    {
        let left: usize = content.len() - offset;
        let end: usize = if left > CHUNK_SIZE {
            offset + CHUNK_SIZE
        } else {
            content.len()
        };
        let chunk: &[u8] = &content[offset..end];
        proof {
            assert(content@.take(offset as int) + chunk@ =~= content@.take(end as int));
            if chunk@.len() == 0 {
                assert(content@.take(offset as int) =~= content@);
                hasher.lemma_within_limit();
            }
        }
        match hasher.step(Ok(chunk)) {
            HashStep::Continue(rest) => {
                hasher = rest;
                offset = end;
            },
            HashStep::Finished(digest) => {
                return Ok(digest);
            },
            HashStep::Failed(error) => {
                return Err(error);
            },
        }
    }
}

} // verus!
