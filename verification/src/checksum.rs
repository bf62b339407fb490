//! The checksum engine: CRC-64/ECMA-182 over a stream of chunks.

use vstd::prelude::*;

verus! {

/// The CRC-64/ECMA-182 checksum of a byte string: what `crc::Crc::<u64>::checksum`
/// returns for it under the catalogue entry `CRC_64_ECMA_182`.
pub uninterp spec fn crc64_ecma_182(bytes: Seq<u8>) -> u64;

/// The digest of no bytes at all.
pub const EMPTY_DIGEST: u64 = 0;

/// The number of bytes a reader should ask for at a time.
pub const CHUNK_SIZE: usize = 262144;

/// Calls `crc::Crc::<u64>::checksum` for CRC-64/ECMA-182. The result is the
/// named checksum of the bytes. For no bytes the crate returns the algorithm's
/// initial value through its final step, which for this algorithm (initial
/// value zero, no reflection, no final xor) is zero.
#[verifier::external_body]
fn crc_checksum(bytes: &[u8]) -> (sum: u64)
    ensures
        sum == crc64_ecma_182(bytes@),
        bytes@.len() == 0 ==> sum == EMPTY_DIGEST,
{
    crc::Crc::<u64>::new(&crc::CRC_64_ECMA_182).checksum(bytes)
}

/// Calls `crc::Crc::<u64>::digest_with_initial`, `crc::Digest::update` and
/// `crc::Digest::finalize` for CRC-64/ECMA-182: resumes a digest at `state`,
/// feeds it `chunk` and reads the value. The algorithm has width 64, no
/// reflection and no final xor, so the crate's initial and final steps leave a
/// value as it is, and its update is a loop over the bytes. Hence: where
/// `state` is the checksum of some bytes, the result is the checksum of those
/// bytes followed by the chunk; and an empty chunk leaves the state unchanged.
#[verifier::external_body]
fn crc_resume(state: u64, chunk: &[u8]) -> (next: u64)
    ensures
        forall|prefix: Seq<u8>| state == #[trigger] crc64_ecma_182(prefix)
            ==> next == crc64_ecma_182(prefix + chunk@),
        chunk@.len() == 0 ==> next == state,
{
    let crc = crc::Crc::<u64>::new(&crc::CRC_64_ECMA_182);
    let mut digest = crc.digest_with_initial(state);
    digest.update(chunk);
    digest.finalize()
}

/// The bytes of a sequence of chunks, one after the other.
pub open spec fn concat_chunks(chunks: Seq<Seq<u8>>) -> Seq<u8>
    decreases chunks.len(),
{
    if chunks.len() == 0 {
        Seq::empty()
    } else {
        concat_chunks(chunks.drop_last()) + chunks.last()
    }
}

/// The byte strings that a vector of chunks holds.
pub open spec fn chunk_views(chunks: Seq<Vec<u8>>) -> Seq<Seq<u8>> {
    Seq::new(chunks.len(), |i: int| chunks[i]@)
}

/// The digest of a stream that arrives as `chunks`: the checksum of their bytes
/// taken together.
pub open spec fn stream_digest(chunks: Seq<Seq<u8>>) -> u64 {
    crc64_ecma_182(concat_chunks(chunks))
}

/// What a reader does after handing a read to the engine.
#[derive(Clone, Copy, Debug, PartialEq, Eq, Structural)]
pub enum ReadStep {
    /// Bytes came: read again.
    Continue,
    /// The read returned nothing: the stream has ended.
    Finished,
}

/// The checksum of a byte string held in memory as a whole.
pub fn checksum_bytes(bytes: &[u8]) -> (sum: u64)
    ensures
        sum == crc64_ecma_182(bytes@),
        bytes@.len() == 0 ==> sum == EMPTY_DIGEST,
{
    crc_checksum(bytes)
}

/// An incremental CRC-64/ECMA-182 accumulator. Its view is the byte string it
/// has absorbed; it keeps only the 64-bit state, never the bytes.
pub struct ChecksumEngine {
    state: u64,
    absorbed: Ghost<Seq<u8>>,
}

impl ChecksumEngine {
    #[verifier::type_invariant]
    spec fn consistent(self) -> bool {
        &&& self.state == crc64_ecma_182(self.absorbed@)
        &&& self.absorbed@.len() == 0 ==> self.state == EMPTY_DIGEST
    }

    /// The bytes absorbed so far, in order.
    pub closed spec fn view(&self) -> Seq<u8> {
        self.absorbed@
    }

    /// An engine that has absorbed nothing.
    pub fn new() -> (engine: Self)
        ensures
            engine@ == Seq::<u8>::empty(),
    {
        // The state to start from is the checksum of no bytes.
        let nothing: Vec<u8> = Vec::new();
        let start = crc_checksum(nothing.as_slice());
        ChecksumEngine { state: start, absorbed: Ghost(Seq::empty()) }
    }

    /// Absorbs one chunk, of any length.
    pub fn update(&mut self, chunk: &[u8])
        ensures
            final(self)@ == old(self)@ + chunk@,
    {
        proof {
            use_type_invariant(&*self);
        }
        let next = crc_resume(self.state, chunk);
        proof {
            if chunk@.len() == 0 {
                assert(self.absorbed@ + chunk@ =~= self.absorbed@);
            }
        }
        *self = ChecksumEngine { state: next, absorbed: Ghost(self.absorbed@ + chunk@) };
    }

    /// Takes the outcome of one read into `buffer`, which filled its first
    /// `length` bytes. A read of no bytes ends the stream and changes nothing;
    /// any other is absorbed.
    pub fn absorb_read(&mut self, buffer: &[u8], length: usize) -> (step: ReadStep)
        requires
            length <= buffer@.len(),
        ensures
            step == (if length == 0 { ReadStep::Finished } else { ReadStep::Continue }),
            final(self)@ == old(self)@ + buffer@.subrange(0, length as int),
    {
        if length == 0 {
            assert(self@ + buffer@.subrange(0, 0) =~= self@);
            ReadStep::Finished
        } else {
            self.update(vstd::slice::slice_subrange(buffer, 0, length));
            ReadStep::Continue
        }
    }

    /// The digest of everything absorbed.
    pub fn finalize(self) -> (digest: u64)
        ensures
            digest == crc64_ecma_182(self@),
            self@.len() == 0 ==> digest == EMPTY_DIGEST,
    {
        proof {
            use_type_invariant(&self);
        }
        self.state
    }
}

/// The digest of a stream that arrives as `chunks`, fed to one engine in order.
pub fn digest_chunks(chunks: &Vec<Vec<u8>>) -> (digest: u64)
    ensures
        digest == stream_digest(chunk_views(chunks@)),
        concat_chunks(chunk_views(chunks@)).len() == 0 ==> digest == EMPTY_DIGEST,
{
    let mut engine = ChecksumEngine::new();
    let mut i: usize = 0;
    while i < chunks.len()
        invariant
            i <= chunks.len(),
            engine@ == concat_chunks(chunk_views(chunks@.take(i as int))),
        decreases chunks.len() - i,
    {
        engine.update(chunks[i].as_slice());
        proof {
            let next = chunk_views(chunks@.take(i + 1));
            assert(next.drop_last() =~= chunk_views(chunks@.take(i as int)));
            assert(next.last() == chunks@[i as int]@);
        }
        i += 1;
    }
    proof {
        assert(chunks@.take(i as int) =~= chunks@);
    }
    engine.finalize()
}

/// A stream of one chunk holds that chunk's bytes.
pub proof fn lemma_concat_chunks_single(content: Seq<u8>)
    ensures
        concat_chunks(seq![content]) == content,
{
    let one = seq![content];
    assert(one.drop_last() =~= Seq::<Seq<u8>>::empty());
    assert(concat_chunks(one.drop_last()) =~= Seq::<u8>::empty());
    assert(concat_chunks(one) =~= content);
}

/// The digest does not depend on how the bytes are cut into reads: every
/// sequence of chunks that holds `content` has the checksum of `content`, the
/// digest of the one-chunk stream.
pub proof fn lemma_digest_ignores_chunking(content: Seq<u8>, chunks: Seq<Seq<u8>>)
    requires
        concat_chunks(chunks) == content,
    ensures
        stream_digest(chunks) == crc64_ecma_182(content),
        stream_digest(chunks) == stream_digest(seq![content]),
{
    lemma_concat_chunks_single(content);
}

/// Two streams with the same bytes have the same digest, however each is cut.
pub proof fn lemma_same_bytes_same_digest(left: Seq<Seq<u8>>, right: Seq<Seq<u8>>)
    requires
        concat_chunks(left) == concat_chunks(right),
    ensures
        stream_digest(left) == stream_digest(right),
{
}

} // verus!
