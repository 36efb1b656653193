//! Encoding pipeline: destinations of encoded bytes, bearers collecting raw bytes and
//! the trait producing them.

use vstd::pervasive::arbitrary;
use vstd::prelude::*;
use vstd::slice::slice_subrange;

use crate::frame::FrameError;
use crate::region::{
    chained,
    lemma_log_len_add,
    log_bytes,
    log_len,
    region_room,
    seed_from,
    Buffers,
    Entry,
    Push,
    RegionBuffer,
    RegionError,
    StateSwitch,
    REGION_SIZE,
};
use crate::stream::{lemma_append_all_add, within, Origin, RawStream};

mod private;

verus! {

/// Runtime error of a [`Writer`].
#[derive(Debug)]
pub enum WriteError {
    /// The destination refused, for the reason given.
    Custom(String),
    /// The destination itself failed.
    Io(std::io::Error),
}

impl From<std::io::Error> for WriteError {
    fn from(e: std::io::Error) -> (r: Self) {
        WriteError::Io(e)
    }
}

impl vstd::std_specs::convert::FromSpecImpl<std::io::Error> for WriteError {
    open spec fn obeys_from_spec() -> bool {
        true
    }

    open spec fn from_spec(e: std::io::Error) -> Self {
        WriteError::Io(e)
    }
}

/// The error of a destination which has no room left.
pub fn out_of_bounds() -> (r: WriteError)
    ensures
        r matches WriteError::Custom(reason) && reason@ == "Requested length out of bounds"@,
{
    WriteError::Custom("Requested length out of bounds".to_owned())
}

/// A trait defining an incremental write interface.
///
/// A write takes two steps: [`Writer::write_mut`] hands out an arena of the length
/// requested, [`Writer::assume_init`] appends the filled part of it to the destination.
///
/// Specification functions have defaults for implementations outside of verified code,
/// whose behaviour nothing is stated of. A verified implementation overrides them.
pub trait Writer {
    /// The bytes written so far.
    open spec fn written(&self) -> Seq<u8> {
        arbitrary()
    }

    /// Whether this writer still has what was written, so that [`Writer::written`] keeps
    /// account of it.
    open spec fn recorded(&self) -> bool {
        arbitrary()
    }

    /// Whether the destination takes `n` more bytes.
    open spec fn fits(&self, n: nat) -> bool {
        arbitrary()
    }

    /// Whether the destination never fails to take what is flushed.
    open spec fn dependable(&self) -> bool {
        arbitrary()
    }

    /// Returns an arena of exactly `n` bytes for the caller to fill, without writing
    /// anything.
    ///
    /// `None` will be returned if `n` is out of bounds.
    fn write_mut(&mut self, n: usize) -> (r: Option<Vec<u8>>)
        ensures
            final(self).written() == old(self).written(),
            final(self).recorded() == old(self).recorded(),
            forall|m: nat| #[trigger] final(self).fits(m) == old(self).fits(m),
            final(self).dependable() == old(self).dependable(),
            r is Some <==> old(self).fits(n as nat),
            r matches Some(arena) ==> arena@.len() == n,
    ;

    /// Appends the first `n` bytes of `arena` to the destination.
    fn assume_init(&mut self, arena: &[u8], n: usize)
        requires
            n <= arena@.len(),
            old(self).fits(arena@.len()),
        ensures
            old(self).recorded() ==> final(self).written() == old(self).written() + arena@.take(
                n as int,
            ),
            final(self).recorded() == old(self).recorded(),
            forall|m: nat| #[trigger] final(self).fits(m) == old(self).fits((n + m) as nat),
            final(self).dependable() == old(self).dependable(),
    ;

    /// Flushes this writer into the actual destination.
    ///
    /// Implementations of this trait don't have a condition to guarantee data
    /// reaching its destination unless explicit flush was called. The default is for
    /// those whose data is at its destination as soon as it is written: there is nothing
    /// left to do.
    fn flush(&mut self) -> (r: Result<(), WriteError>)
        ensures
            r is Ok ==> final(self).written() == old(self).written(),
            final(self).recorded() == old(self).recorded(),
            forall|m: nat| #[trigger] final(self).fits(m) == old(self).fits(m),
            final(self).dependable() == old(self).dependable(),
            r is Err ==> !old(self).dependable(),
        default_ensures
            r is Ok,
            final(self).written() == old(self).written(),
    {
        Ok(())
    }
}

impl<T: Writer> Writer for &mut T {
    open spec fn written(&self) -> Seq<u8> {
        (**self).written()
    }

    open spec fn recorded(&self) -> bool {
        (**self).recorded()
    }

    open spec fn fits(&self, n: nat) -> bool {
        (**self).fits(n)
    }

    open spec fn dependable(&self) -> bool {
        (**self).dependable()
    }

    fn write_mut(&mut self, n: usize) -> (r: Option<Vec<u8>>)
        ensures
            *final(*final(self)) == *final(*old(self)),
    {
        (**self).write_mut(n)
    }

    /// What is written reaches the writer referred to: the reference stays the same, so what
    /// it holds in the end is what that writer holds afterwards.
    fn assume_init(&mut self, arena: &[u8], n: usize)
        ensures
            *final(*final(self)) == *final(*old(self)),
    {
        (**self).assume_init(arena, n)
    }

    /// Flushes the writer referred to, with the outcome that its own flush has.
    fn flush(&mut self) -> (r: Result<(), WriteError>)
        ensures
            *final(*final(self)) == *final(*old(self)),
            exists|writer: &mut T| #[trigger]
                call_ensures(T::flush, (writer,), r) && *writer == **old(self) && *final(writer)
                    == **final(self),
    {
        (**self).flush()
    }
}

impl Writer for Vec<u8> {
    open spec fn written(&self) -> Seq<u8> {
        self@
    }

    open spec fn recorded(&self) -> bool {
        true
    }

    open spec fn fits(&self, n: nat) -> bool {
        true
    }

    open spec fn dependable(&self) -> bool {
        true
    }

    fn write_mut(&mut self, n: usize) -> (r: Option<Vec<u8>>)
        ensures
            r is Some,
            *final(self) == *old(self),
    {
        Some(vec![0u8; n])
    }

    fn assume_init(&mut self, arena: &[u8], n: usize)
        ensures
            final(self)@ == old(self)@ + arena@.take(n as int),
    {
        self.extend_from_slice(slice_subrange(arena, 0, n));
    }

    fn flush(&mut self) -> (r: Result<(), WriteError>)
        ensures
            r is Ok,
    {
        Ok(())
    }
}

/// A slice takes what it has room for and then is what remains of it. What was written is
/// seen by whoever lent the slice.
impl Writer for &mut [u8] {
    open spec fn written(&self) -> Seq<u8> {
        Seq::empty()
    }

    open spec fn recorded(&self) -> bool {
        false
    }

    open spec fn fits(&self, n: nat) -> bool {
        n <= (**self)@.len()
    }

    open spec fn dependable(&self) -> bool {
        true
    }

    fn write_mut(&mut self, n: usize) -> (r: Option<Vec<u8>>)
        ensures
            *final(self) == *old(self),
    {
        if n <= self.len() {
            Some(vec![0u8; n])
        } else {
            None
        }
    }

    fn assume_init(&mut self, arena: &[u8], n: usize)
        ensures
            (**final(self))@ == (**old(self))@.skip(n as int),
            final(*old(self))@ == arena@.take(n as int) + final(*final(self))@,
    {
        let mut slice: &mut [u8] = &mut [];
        core::mem::swap(self, &mut slice);
        let (head, rest) = slice.split_at_mut(n);
        write_to_uninit(slice_subrange(arena, 0, n), head);
        assert(head@ =~= arena@.take(n as int));
        *self = rest;
    }
}

/// Copies `src` to the start of `dst`.
pub fn write_to_uninit(src: &[u8], dst: &mut [u8])
    requires
        src@.len() <= old(dst)@.len(),
    ensures
        final(dst)@ == src@ + old(dst)@.skip(src@.len() as int),
{
    let mut at: usize = 0;
    let ghost before = dst@;
    while at < src.len()
        invariant
            at <= src@.len() <= before.len(),
            dst@ == src@.take(at as int) + before.skip(at as int),
        decreases src@.len() - at,
    {
        dst[at] = src[at];
        at = at + 1;
        assert(dst@ =~= src@.take(at as int) + before.skip(at as int));
    }
    assert(src@.take(src@.len() as int) =~= src@);
}

/// Bearer of an encoding pipeline.
///
/// A bearer collects bytes requested to write until the region buffer is full or explicit
/// flush performed, compresses the data and flushes resulting region into generic
/// destination.
pub trait EncodeBearer: private::Sealed + Sized {
    /// What holds of a bearer between writes.
    spec fn inv(&self) -> bool;

    /// The raw bytes written so far.
    spec fn raw(&self) -> RawStream;

    /// What the stream started from.
    spec fn origin(&self) -> Origin;

    /// The regions finished so far.
    spec fn log(&self) -> Seq<Entry>;

    /// Whether the destination takes `n` more bytes.
    spec fn has_room(&self, n: nat) -> bool;

    /// Writes `bytes` into the region buffer of this bearer.
    ///
    /// The data is not packed: bytes exceeding what remains of the current region trigger
    /// a state switch and start the next one. A request greater than a region can not be
    /// served.
    fn write(&mut self, bytes: &[u8]) -> (r: Result<(), RegionError>)
        requires
            old(self).inv(),
        ensures
            final(self).inv(),
            final(self).origin() == old(self).origin(),
            continues(old(self).log(), final(self).log()),
            forall|m: nat| #[trigger]
                final(self).has_room(m) == old(self).has_room(
                    sent(old(self).log(), final(self).log()) + m,
                ),
            match r {
                Ok(_) => {
                    &&& bytes@.len() <= REGION_SIZE
                    &&& final(self).raw() == old(self).raw().append(bytes@)
                    &&& if old(self).raw().open.len() + bytes@.len() <= REGION_SIZE {
                        final(self).log() == old(self).log()
                    } else {
                        &&& final(self).log().len() == old(self).log().len() + 1
                        &&& final(self).log().last().raw == old(self).raw().open
                    }
                },
                Err(e) => {
                    let open = old(self).raw().open;
                    &&& final(self).raw() == old(self).raw()
                    &&& final(self).log() == old(self).log()
                    &&& refused(open, old(self).has_room(region_room(open.len())), bytes@, e)
                },
            },
    ;
}

/// Whether `after` is `before` with regions added at the end.
pub open spec fn continues(before: Seq<Entry>, after: Seq<Entry>) -> bool {
    before.len() <= after.len() && after.take(before.len() as int) == before
}

/// How many bytes were sent to the destination between `before` and `after`.
pub open spec fn sent(before: Seq<Entry>, after: Seq<Entry>) -> nat {
    log_len(after.skip(before.len() as int))
}

/// Nothing is sent as long as no region is added.
pub proof fn lemma_sent_nothing(log: Seq<Entry>)
    ensures
        continues(log, log),
        sent(log, log) == 0,
{
    assert(log.take(log.len() as int) =~= log);
    assert(log.skip(log.len() as int) =~= Seq::empty());
}

/// What is sent in two steps adds up.
pub proof fn lemma_sent_then(first: Seq<Entry>, second: Seq<Entry>, third: Seq<Entry>)
    requires
        continues(first, second),
        continues(second, third),
    ensures
        continues(first, third),
        sent(first, third) == sent(first, second) + sent(second, third),
{
    assert(third.take(first.len() as int) =~= second.take(first.len() as int)) by {
        assert(third.take(second.len() as int).take(first.len() as int) =~= third.take(
            first.len() as int,
        ));
    }
    let a = second.skip(first.len() as int);
    let b = third.skip(second.len() as int);
    assert(third.skip(first.len() as int) =~= a + b) by {
        assert(third.take(second.len() as int) == second);
        assert forall|i: int| 0 <= i < second.len() implies third[i] == second[i] by {
            assert(third.take(second.len() as int)[i] == third[i]);
        }
    }
    lemma_log_len_add(a, b);
}

/// Why a region with `open` pending can not be finished, `room` telling whether
/// the destination takes as much as is asked for.
pub open spec fn unfinished(open: Seq<u8>, room: bool, e: RegionError) -> bool {
    open.len() > 0 && !room && e is WriteFailure
}

/// Why `chunk` can not be written with `open` pending.
pub open spec fn refused(open: Seq<u8>, room: bool, chunk: Seq<u8>, e: RegionError) -> bool {
    if chunk.len() > REGION_SIZE {
        e == RegionError::OutOfBounds
    } else {
        open.len() + chunk.len() > REGION_SIZE && unfinished(open, room, e)
    }
}

/// A [`StreamEncoder`] builder.
pub struct StreamEncoderBuilder {
    region_buffer: RegionBuffer,
    seed: Option<u64>,
}

impl StreamEncoderBuilder {
    /// The region buffer is well-formed and empty.
    pub closed spec fn inv(&self) -> bool {
        &&& self.region_buffer.inv()
        &&& self.region_buffer.curr() == Seq::<u8>::empty()
        &&& self.region_buffer.prev() == Seq::<u8>::empty()
    }

    /// The seed specified, if any.
    pub closed spec fn seed_value(&self) -> Option<u64> {
        self.seed
    }

    /// The region buffer.
    pub closed spec fn buffer(&self) -> RegionBuffer {
        self.region_buffer
    }

    /// Creates a new [`StreamEncoderBuilder`], allocating a region buffer with initial
    /// capacity equal to `size`.
    pub fn new(size: usize) -> (r: Self)
        ensures
            r.inv(),
            r.seed_value() is None,
            r.buffer().buffers() == Buffers::fresh(size as nat),
    {
        Self { region_buffer: RegionBuffer::new(size), seed: None }
    }

    /// Creates a new [`StreamEncoderBuilder`] without allocating a new region buffer
    /// and instead reusing already existing one. Only the allocation is reused: what
    /// the buffer still holds is discarded.
    pub fn from_raw(buffer: RegionBuffer) -> (r: Self)
        ensures
            r.inv(),
            r.seed_value() is None,
            r.buffer().buffers() == buffer.buffers().cleared(),
    {
        let mut region_buffer = buffer;
        region_buffer.clear();
        Self { region_buffer, seed: None }
    }

    /// Specifies a `seed` which will be used to create region hashes.
    pub fn seed(self, seed: u64) -> (r: StreamEncoderBuilder)
        requires
            self.inv(),
        ensures
            r.inv(),
            r.seed_value() == Some(seed),
            r.buffer() == self.buffer(),
    {
        Self { region_buffer: self.region_buffer, seed: Some(seed) }
    }

    /// Constructs a new [`StreamEncoder`] with specified parameters and `writer`
    /// destination.
    ///
    /// If a seed wasn't specified using [`StreamEncoderBuilder::seed`], hash computation
    /// will be disabled and hash field in region headers will be zeroed.
    pub fn build<W>(self, writer: W) -> (r: StreamEncoder<W>) where W: Writer
        requires
            self.inv(),
        ensures
            r.inv(),
            r.raw() == RawStream::empty(),
            r.log() == Seq::<Entry>::empty(),
            r.destination() == writer,
            r.buffers() == self.buffer().buffers(),
            r.origin() == (Origin {
                base: writer.written(),
                seed: seed_from(self.seed_value()),
                recorded: writer.recorded(),
            }),
            forall|n: nat| #[trigger] r.has_room(n) == writer.fits(n),
    {
        let r = StreamEncoder {
            region_buffer: self.region_buffer,
            switch: Push::new(writer, self.seed),
        };
        assert(r.raw().regions =~= Seq::empty());
        r
    }
}

/// The one and only [`EncodeBearer`] implementation operating on region streams.
///
/// Flushes are performed automatically when the region buffer is full, but the final
/// flush should be performed by a user explicitly.
pub struct StreamEncoder<W> where W: Writer {
    region_buffer: RegionBuffer,
    switch: Push<W>,
}

impl<W> StreamEncoder<W> where W: Writer {
    /// The destination.
    pub closed spec fn destination(&self) -> W {
        self.switch.destination()
    }

    /// The buffers.
    pub closed spec fn buffers(&self) -> Buffers {
        self.region_buffer.buffers()
    }

    /// Deconstructs this [`StreamEncoder`] into a [`RegionBuffer`] for later reuse.
    pub fn into_raw(self) -> (r: RegionBuffer)
        requires
            self.inv(),
        ensures
            r.inv(),
            r.buffers() == self.buffers(),
            r.curr() == self.raw().open,
    {
        self.region_buffer
    }

    /// Flushes current state of the region buffer.
    pub fn flush(&mut self) -> (r: Result<(), RegionError>)
        requires
            old(self).inv(),
        ensures
            final(self).inv(),
            final(self).origin() == old(self).origin(),
            continues(old(self).log(), final(self).log()),
            forall|m: nat| #[trigger]
                final(self).has_room(m) == old(self).has_room(
                    sent(old(self).log(), final(self).log()) + m,
                ),
            match r {
                Ok(_) => {
                    &&& final(self).raw() == old(self).raw().close()
                    &&& final(self).buffers() == old(self).buffers().passed()
                    &&& if old(self).raw().open.len() == 0 {
                        &&& final(self).log() == old(self).log()
                        &&& final(self).destination() == old(self).destination()
                    } else {
                        &&& final(self).log().len() == old(self).log().len() + 1
                        &&& final(self).log().last().raw == old(self).raw().open
                    }
                },
                Err(e) => {
                    let open = old(self).raw().open;
                    &&& final(self).raw() == old(self).raw()
                    &&& final(self).buffers() == old(self).buffers()
                    &&& final(self).log() == old(self).log()
                    &&& unfinished(open, old(self).has_room(region_room(open.len())), e)
                },
            },
    {
        let ghost before = *self;
        let r = self.region_buffer.pass(&mut self.switch);
        proof {
            lemma_raw_regions(before, *self);
            lemma_sent_nothing(before.log());
            if r is Ok && before.raw().open.len() == 0 {
                assert(before.raw().open =~= Seq::empty());
            }
            if r is Ok && before.raw().open.len() > 0 {
                let entry = self.log().last();
                assert(self.log().take(before.log().len() as int) =~= before.log());
                assert(self.log().skip(before.log().len() as int) =~= seq![entry]);
                assert(seq![entry].drop_last() =~= Seq::empty());
                assert(log_len(seq![entry].drop_last()) == 0);
            }
        }
        r
    }

    /// Returns the destination. What was not flushed is discarded.
    pub fn into_inner(self) -> (r: W)
        ensures
            r == self.destination(),
    {
        self.switch.into_inner()
    }

    /// Creates a new [`StreamEncoder`].
    pub fn new(dst: W, size: usize, seed: Option<u64>) -> (r: Self)
        ensures
            r.inv(),
            r.raw() == RawStream::empty(),
            r.log() == Seq::<Entry>::empty(),
            r.destination() == dst,
            r.buffers() == Buffers::fresh(size as nat),
            r.origin() == (Origin {
                base: dst.written(),
                seed: seed_from(seed),
                recorded: dst.recorded(),
            }),
            forall|n: nat| #[trigger] r.has_room(n) == dst.fits(n),
    {
        let r = Self { region_buffer: RegionBuffer::new(size), switch: Push::new(dst, seed) };
        assert(r.raw().regions =~= Seq::empty());
        r
    }
}

impl<W> StreamEncoder<W> where W: Writer {
    /// The destination holds what it held before, followed by the regions finished, as far as
    /// it keeps account of what it holds. Each region can be expanded to its contents again.
    pub proof fn law_written(&self)
        requires
            self.inv(),
        ensures
            self.destination().recorded() ==> self.destination().written() == self.origin().base
                + log_bytes(self.log(), self.origin().seed),
            self.destination().recorded() == self.origin().recorded,
            chained(self.log()),
            self.raw().regions == raw_regions(self.log()),
            self.raw().open.len() <= REGION_SIZE,
            forall|n: nat| #[trigger] self.has_room(n) == self.destination().fits(n),
    {
    }
}

/// Contents of the regions of `log`.
pub open spec fn raw_regions(log: Seq<Entry>) -> Seq<Seq<u8>> {
    Seq::new(log.len(), |i: int| log[i].raw)
}

/// How a region more, or none, shows in the raw bytes written.
proof fn lemma_raw_regions<W: Writer>(before: StreamEncoder<W>, after: StreamEncoder<W>)
    ensures
        after.switch.log().len() == before.switch.log().len() + 1
            && after.switch.log().drop_last() == before.switch.log() ==> after.raw().regions
            == before.raw().regions.push(after.switch.log().last().raw),
        after.switch.log() == before.switch.log() ==> after.raw().regions == before.raw().regions,
{
    if after.switch.log().len() == before.switch.log().len() + 1
        && after.switch.log().drop_last() == before.switch.log() {
        assert forall|i: int| 0 <= i < before.switch.log().len() implies before.switch.log()[i]
            == after.switch.log()[i] by {
            assert(after.switch.log().drop_last()[i] == after.switch.log()[i]);
        }
        assert(after.raw().regions =~= before.raw().regions.push(after.switch.log().last().raw));
    }
}

impl<W> private::Sealed for StreamEncoder<W> where W: Writer {

}

impl<W> EncodeBearer for StreamEncoder<W> where W: Writer {
    closed spec fn inv(&self) -> bool {
        &&& self.switch.inv()
        &&& self.region_buffer.inv()
        &&& self.region_buffer.prev() == Seq::<u8>::empty()
    }

    closed spec fn raw(&self) -> RawStream {
        RawStream { regions: raw_regions(self.switch.log()), open: self.region_buffer.curr() }
    }

    closed spec fn origin(&self) -> Origin {
        Origin {
            base: self.switch.base(),
            seed: self.switch.hash_seed(),
            recorded: self.switch.destination().recorded(),
        }
    }

    closed spec fn log(&self) -> Seq<Entry> {
        self.switch.log()
    }

    closed spec fn has_room(&self, n: nat) -> bool {
        self.switch.destination().fits(n)
    }

    fn write(&mut self, bytes: &[u8]) -> (r: Result<(), RegionError>)
        ensures
            old(self).raw().open.len() + bytes@.len() <= REGION_SIZE ==> final(self).destination()
                == old(self).destination(),
            final(self).buffers() == (if r is Err {
                old(self).buffers()
            } else if old(self).raw().open.len() + bytes@.len() <= REGION_SIZE {
                old(self).buffers().extended(bytes@)
            } else {
                old(self).buffers().passed().swap().extended(bytes@)
            }),
    {
        proof {
            lemma_sent_nothing(self.log());
        }
        if bytes.len() > REGION_SIZE {
            return Err(RegionError::OutOfBounds);
        }
        let ghost before = *self;
        let ghost mut switched = *self;
        if self.region_buffer.remaining_cap() < bytes.len() {
            if let Err(e) = self.flush() {
                return Err(e);
            }
            proof {
                switched = *self;
            }
            self.region_buffer.swap();
            assert(self.raw().regions == before.raw().regions.push(before.raw().open));
            assert(self.raw().open =~= Seq::empty());
        }
        let ghost open = self.raw().open;
        self.region_buffer.write(bytes);
        proof {
            assert forall|m: nat| #[trigger] self.has_room(m) == before.has_room(
                sent(before.log(), self.log()) + m,
            ) by {
                assert(self.has_room(m) == switched.has_room(m));
            }
            assert(Seq::<u8>::empty() + bytes@ =~= bytes@);
            assert(self.raw().open == open + bytes@);
        }
        Ok(())
    }
}

/// The [`Encode`] implementation runtime error.
#[derive(Debug)]
pub enum EncodeError {
    /// Frame encoding error.
    FrameError(FrameError),
    /// Encode bearer error.
    BearerError(RegionError),
    /// Any other error.
    Other(&'static str),
}

impl From<FrameError> for EncodeError {
    fn from(e: FrameError) -> (r: Self) {
        EncodeError::FrameError(e)
    }
}

impl vstd::std_specs::convert::FromSpecImpl<FrameError> for EncodeError {
    open spec fn obeys_from_spec() -> bool {
        true
    }

    open spec fn from_spec(e: FrameError) -> Self {
        EncodeError::FrameError(e)
    }
}

impl From<RegionError> for EncodeError {
    fn from(e: RegionError) -> (r: Self) {
        EncodeError::BearerError(e)
    }
}

impl vstd::std_specs::convert::FromSpecImpl<RegionError> for EncodeError {
    open spec fn obeys_from_spec() -> bool {
        true
    }

    open spec fn from_spec(e: RegionError) -> Self {
        EncodeError::BearerError(e)
    }
}

/// What a request to write `chunks` to `before` may have led to: either all of them are
/// written, or those before one that is refused.
pub open spec fn encoded<B: EncodeBearer>(
    before: B,
    after: B,
    chunks: Seq<Seq<u8>>,
    r: Result<(), EncodeError>,
) -> bool {
    &&& after.inv()
    &&& after.origin() == before.origin()
    &&& continues(before.log(), after.log())
    &&& forall|m: nat| #[trigger]
        after.has_room(m) == before.has_room(sent(before.log(), after.log()) + m)
    &&& match r {
        Ok(_) => within(chunks) && after.raw() == before.raw().append_all(chunks),
        Err(e) => exists|count: int| #[trigger] stopped(before, after, chunks, e, count),
    }
}

/// Whether the chunk at `count` could not be written, those before it being written.
pub open spec fn stopped<B: EncodeBearer>(
    before: B,
    after: B,
    chunks: Seq<Seq<u8>>,
    e: EncodeError,
    count: int,
) -> bool {
    &&& 0 <= count < chunks.len()
    &&& after.raw() == before.raw().append_all(chunks.take(count))
    &&& e matches EncodeError::BearerError(e) && refused(
        after.raw().open,
        after.has_room(region_room(after.raw().open.len())),
        chunks[count],
        e,
    )
}

/// Nothing is written by writing no chunks.
pub proof fn lemma_encoded_nothing<B: EncodeBearer>(bearer: B)
    requires
        bearer.inv(),
    ensures
        encoded(bearer, bearer, Seq::empty(), Ok(())),
{
    lemma_sent_nothing(bearer.log());
}

/// Writing `a` and then `b` is writing their concatenation.
pub proof fn lemma_encoded_then<B: EncodeBearer>(
    first: B,
    second: B,
    third: B,
    a: Seq<Seq<u8>>,
    b: Seq<Seq<u8>>,
    r: Result<(), EncodeError>,
)
    requires
        encoded(first, second, a, Ok(())),
        encoded(second, third, b, r),
    ensures
        encoded(first, third, a + b, r),
{
    lemma_sent_then(first.log(), second.log(), third.log());
    match r {
        Ok(_) => {
            lemma_append_all_add(first.raw(), a, b);
            assert forall|i: int| 0 <= i < (a + b).len() implies (#[trigger] (a + b)[i]).len()
                <= REGION_SIZE by {
                if i < a.len() {
                    assert((a + b)[i] == a[i]);
                } else {
                    assert((a + b)[i] == b[i - a.len()]);
                }
            }
        },
        Err(e) => {
            let count = choose|count: int| #[trigger] stopped(second, third, b, e, count);
            lemma_append_all_add(first.raw(), a, b.take(count));
            assert((a + b).take(a.len() + count) =~= a + b.take(count));
            assert(stopped(first, third, a + b, e, a.len() + count));
        },
    }
}

/// What stopped the writing of `a` stops the writing of `a` and `b`.
pub proof fn lemma_encoded_stop<B: EncodeBearer>(
    first: B,
    second: B,
    a: Seq<Seq<u8>>,
    b: Seq<Seq<u8>>,
    e: EncodeError,
)
    requires
        encoded(first, second, a, Err(e)),
    ensures
        encoded(first, second, a + b, Err(e)),
{
    let count = choose|count: int| #[trigger] stopped(first, second, a, e, count);
    assert((a + b).take(count) =~= a.take(count));
    assert(stopped(first, second, a + b, e, count));
}

/// Requests `bearer` to write a single chunk.
pub fn write_chunk<B: EncodeBearer>(bearer: &mut B, chunk: &[u8]) -> (r: Result<(), EncodeError>)
    requires
        old(bearer).inv(),
    ensures
        encoded(*old(bearer), *final(bearer), seq![chunk@], r),
{
    let ghost before = *bearer;
    let r = match bearer.write(chunk) {
        Ok(_) => Ok(()),
        Err(e) => Err(EncodeError::BearerError(e)),
    };
    proof {
        let chunks = seq![chunk@];
        assert(chunks.drop_last() =~= Seq::empty());
        assert(before.raw().append_all(chunks.drop_last()) == before.raw());
        if r is Err {
            assert(chunks.take(0) =~= Seq::empty());
            assert(before.raw().append_all(chunks.take(0)) == before.raw());
            lemma_sent_nothing(before.log());
            let room = region_room(before.raw().open.len());
            assert(bearer.has_room(room) == before.has_room(room));
            assert(stopped(before, *bearer, chunks, r->Err_0, 0));
        }
    }
    r
}

/// A trait defining serialization of implementing type into a byte representation
/// for continuous storage.
///
/// Specification functions have defaults for implementations outside of verified code,
/// whose behaviour nothing is stated of. A verified implementation overrides them.
pub trait Encode {
    /// The byte representation, in the pieces it is written in.
    open spec fn wire(&self) -> Seq<Seq<u8>> {
        arbitrary()
    }

    /// The size hinted, as a number without limit.
    open spec fn size_hint(&self) -> nat {
        arbitrary()
    }

    /// Serializes `Self`, by requesting `bearer` to write encoded bytes.
    fn encode<B: EncodeBearer>(bearer: &mut B, src: &Self) -> (r: Result<(), EncodeError>)
        requires
            old(bearer).inv(),
        ensures
            encoded(*old(bearer), *final(bearer), src.wire(), r),
    ;

    /// Gets a possible or an actual size of serialized format of `Self`, in bytes.
    fn size_of(&self) -> (r: usize)
        requires
            self.size_hint() <= usize::MAX,
        ensures
            r == self.size_hint(),
    ;
}

} // verus!
