//! The fixed-capacity buffers between the capture queue and the wire.

use crate::protocol::{KpEvent, Sample, MAX_BATCH_SIZE, MAX_PACKED_BATCH_SIZE};
use vstd::prelude::*;

verus! {

// ---------------------------------------------------------------------------
// Queue ends
// ---------------------------------------------------------------------------

#[verifier::external_type_specification]
#[verifier::external_body]
#[verifier::reject_recursive_types(T)]
pub struct ExConsumer<'a, T>(heapless::spsc::Consumer<'a, T>);

#[verifier::external_type_specification]
#[verifier::external_body]
#[verifier::reject_recursive_types(T)]
pub struct ExProducer<'a, T>(heapless::spsc::Producer<'a, T>);

/// What the receiving end of the queue has answered each time that it was asked for a
/// sample, in order: the sample that it handed out, or that there was none.
pub uninterp spec fn queue_answers(rx: heapless::spsc::Consumer<'static, Sample>) -> Seq<Option<Sample>>;

/// The samples that the sending end of the queue was offered, in order, each with whether
/// it was put in.
pub uninterp spec fn sample_offers(tx: heapless::spsc::Producer<'static, Sample>) -> Seq<
    (Sample, bool),
>;

/// The keyphasor edges that the sending end of the queue was offered, in order, each with
/// whether it was put in.
pub uninterp spec fn edge_offers(tx: heapless::spsc::Producer<'static, KpEvent>) -> Seq<
    (KpEvent, bool),
>;

/// `heapless::spsc::Consumer::dequeue` of a sample: the next one in the queue,
/// or nothing when the queue is empty. The contract says that this is one more
/// answer of this end. The sending end runs concurrently, so nothing is said of
/// which sample is next or of when the queue is empty.
#[verifier::external_body]
pub(crate) fn dequeue_sample(rx: &mut heapless::spsc::Consumer<'static, Sample>) -> (r: Option<
    Sample,
>)
    ensures
        queue_answers(*final(rx)) == queue_answers(*old(rx)).push(r),
{
    rx.dequeue()
}

/// `heapless::spsc::Producer::enqueue` of a sample: puts it in, or refuses it
/// when the queue is full. The contract says that this end was offered the sample,
/// with what came of it. The receiving end runs concurrently, so nothing is said
/// of when the queue is full.
#[verifier::external_body]
pub(crate) fn enqueue_sample(
    tx: &mut heapless::spsc::Producer<'static, Sample>,
    s: Sample,
) -> (r: bool)
    ensures
        sample_offers(*final(tx)) == sample_offers(*old(tx)).push((s, r)),
{
    tx.enqueue(s).is_ok()
}

/// `heapless::spsc::Producer::enqueue` of a keyphasor edge: puts it in, or
/// refuses it when the queue is full. The contract says that this end was offered
/// the edge, with what came of it. The receiving end runs concurrently, so nothing
/// is said of when the queue is full.
#[verifier::external_body]
pub(crate) fn enqueue_edge(
    tx: &mut heapless::spsc::Producer<'static, KpEvent>,
    e: KpEvent,
) -> (r: bool)
    ensures
        edge_offers(*final(tx)) == edge_offers(*old(tx)).push((e, r)),
{
    tx.enqueue(e).is_ok()
}

// ---------------------------------------------------------------------------
// Sample batch
// ---------------------------------------------------------------------------

/// Up to [`MAX_BATCH_SIZE`] samples in a `heapless::Vec`.
#[verifier::external_body]
pub struct SampleBatch {
    inner: heapless::Vec<Sample, MAX_BATCH_SIZE>,
}

/// The samples that a batch holds, in order.
pub uninterp spec fn batch_samples(b: SampleBatch) -> Seq<Sample>;

impl View for SampleBatch {
    type V = Seq<Sample>;

    open spec fn view(&self) -> Seq<Sample> {
        batch_samples(*self)
    }
}

impl SampleBatch {
    /// `heapless::Vec::new`: an empty batch.
    #[verifier::external_body]
    pub(crate) fn empty() -> (r: SampleBatch)
        ensures
            batch_samples(r) == Seq::<Sample>::empty(),
    {
        SampleBatch { inner: heapless::Vec::new() }
    }

    /// `heapless::Vec::push`: appends a sample, unless the batch is full.
    #[verifier::external_body]
    pub(crate) fn push(&mut self, s: Sample) -> (r: bool)
        ensures
            r == (batch_samples(*old(self)).len() < MAX_BATCH_SIZE),
            batch_samples(*final(self)) == if r {
                batch_samples(*old(self)).push(s)
            } else {
                batch_samples(*old(self))
            },
    {
        self.inner.push(s).is_ok()
    }

    /// `heapless::Vec::as_slice`: the samples, no more of them than the capacity.
    #[verifier::external_body]
    pub(crate) fn as_slice(&self) -> (r: &[Sample])
        ensures
            r@ == batch_samples(*self),
            r@.len() <= MAX_BATCH_SIZE,
    {
        self.inner.as_slice()
    }

    /// A batch with nothing in it.
    pub fn new() -> (r: SampleBatch)
        ensures
            r@ == Seq::<Sample>::empty(),
    {
        SampleBatch::empty()
    }

    /// The samples of the batch.
    pub fn samples(&self) -> (r: &[Sample])
        ensures
            r@ == self@,
            r@.len() <= MAX_BATCH_SIZE,
    {
        self.as_slice()
    }
}

// ---------------------------------------------------------------------------
// Packed batch
// ---------------------------------------------------------------------------

/// Up to [`MAX_PACKED_BATCH_SIZE`] bytes in a `heapless::Vec`.
#[verifier::external_body]
pub struct PackedBatch {
    inner: heapless::Vec<u8, MAX_PACKED_BATCH_SIZE>,
}

/// The bytes that a packed batch holds, in order.
pub uninterp spec fn batch_bytes(b: PackedBatch) -> Seq<u8>;

impl View for PackedBatch {
    type V = Seq<u8>;

    open spec fn view(&self) -> Seq<u8> {
        batch_bytes(*self)
    }
}

impl PackedBatch {
    /// `heapless::Vec::new`: an empty batch.
    #[verifier::external_body]
    pub(crate) fn empty() -> (r: PackedBatch)
        ensures
            batch_bytes(r) == Seq::<u8>::empty(),
    {
        PackedBatch { inner: heapless::Vec::new() }
    }

    /// `heapless::Vec::clear`: removes every byte.
    #[verifier::external_body]
    pub(crate) fn clear(&mut self)
        ensures
            batch_bytes(*final(self)) == Seq::<u8>::empty(),
    {
        self.inner.clear()
    }

    /// `heapless::Vec::extend_from_slice`: appends all bytes, or none where they
    /// do not fit.
    #[verifier::external_body]
    pub(crate) fn extend(&mut self, s: &[u8]) -> (r: bool)
        ensures
            r == (batch_bytes(*old(self)).len() + s@.len() <= MAX_PACKED_BATCH_SIZE),
            batch_bytes(*final(self)) == if r {
                batch_bytes(*old(self)) + s@
            } else {
                batch_bytes(*old(self))
            },
    {
        self.inner.extend_from_slice(s).is_ok()
    }

    /// `heapless::Vec::as_slice`: the bytes, no more of them than the capacity.
    #[verifier::external_body]
    pub(crate) fn as_slice(&self) -> (r: &[u8])
        ensures
            r@ == batch_bytes(*self),
            r@.len() <= MAX_PACKED_BATCH_SIZE,
    {
        self.inner.as_slice()
    }

    /// A batch with nothing in it.
    pub fn new() -> (r: PackedBatch)
        ensures
            r@ == Seq::<u8>::empty(),
    {
        PackedBatch::empty()
    }

    /// The bytes of the batch.
    pub fn bytes(&self) -> (r: &[u8])
        ensures
            r@ == self@,
            r@.len() <= MAX_PACKED_BATCH_SIZE,
    {
        self.as_slice()
    }
}

} // verus!
