//! Frames: streams with a leading magic number and metadata.

use vstd::prelude::*;

use crate::codec::Codec;
use crate::decode::{
    get,
    meant,
    open_feed,
    source_fault,
    Decode,
    DecodeBearer,
    DecodeError,
    ReadError,
    Reader,
    StreamDecoder,
};
use crate::encode::{
    lemma_sent_then,
    raw_regions,
    sent,
    stopped,
    unfinished,
    Encode,
    EncodeBearer,
    EncodeError,
    StreamEncoder,
    WriteError,
    Writer,
};
use crate::laws::{
    bodies_fit,
    law_stream_round_trip,
    lemma_log_within_rooms,
    lemma_rooms_grow,
    rooms,
};
use crate::little_endian::lemma_le_bytes_len;
use crate::region::{
    chained,
    lemma_log_len,
    log_bytes,
    log_len,
    region_room,
    seed_from,
    Buffers,
    Entry,
    RegionError,
    Size,
    REGION_SIZE,
};
use crate::stream::{lemma_append_all_add, within, RawStream};

use core::marker::PhantomData;

mod label;
mod metadata;

pub use label::{
    ascii_bytes,
    label_bytes,
    label_decoding,
    label_form,
    law_label_round_trip,
    Label,
};
pub use metadata::{
    flags,
    is_magic_num_bytes,
    law_descriptor_round_trip,
    law_metadata_round_trip,
    magic_num_bytes,
    metadata_decoding,
    metadata_form,
    metadata_head,
    parse_descriptor,
    FrameDescriptor,
    FrameMetadata,
    Metadata,
    MAGIC_NUM,
    MASK_SEEDED,
    MASK_TIMESTAMP,
};

verus! {

/// A runtime error of frame methods.
#[derive(Debug)]
pub enum FrameError {
    /// Malformed label.
    MalformedLabel,
    /// Non-ASCII label contents.
    NonAsciiLabel,
    /// Leading magic number not found at expected position in source.
    NoMagicNumber,
    /// Mismatch between flags found in the metadata and the actual environment.
    EnvironmentMismatch,
    /// Read error.
    ReadError(ReadError),
    /// Write error.
    WriteError(WriteError),
}

impl From<ReadError> for FrameError {
    fn from(e: ReadError) -> (r: Self) {
        FrameError::ReadError(e)
    }
}

impl vstd::std_specs::convert::FromSpecImpl<ReadError> for FrameError {
    open spec fn obeys_from_spec() -> bool {
        true
    }

    open spec fn from_spec(e: ReadError) -> Self {
        FrameError::ReadError(e)
    }
}

impl From<WriteError> for FrameError {
    fn from(e: WriteError) -> (r: Self) {
        FrameError::WriteError(e)
    }
}

impl vstd::std_specs::convert::FromSpecImpl<WriteError> for FrameError {
    open spec fn obeys_from_spec() -> bool {
        true
    }

    open spec fn from_spec(e: WriteError) -> Self {
        FrameError::WriteError(e)
    }
}

/// A frame decoding and encoding interface.
///
/// Frames are wrappers for region streams, declared as a magic number, metadata header
/// and an actual region stream.
pub struct Frame<V, B> {
    _phantom: PhantomData<V>,
    metadata: FrameMetadata,
    seed: Option<u64>,
    base: B,
}

impl<V, B> Frame<V, B> {
    /// What the metadata says.
    pub closed spec fn metadata(&self) -> Metadata {
        self.metadata.metadata()
    }

    /// Seed of the region hashes, if any.
    pub closed spec fn seed(&self) -> Option<u64> {
        self.seed
    }

    /// The source or destination of the stream.
    pub closed spec fn base(&self) -> B {
        self.base
    }

    /// This frame with another label.
    pub closed spec fn labelled(self, label: Label) -> Self {
        Frame { metadata: FrameMetadata { label, ..self.metadata }, ..self }
    }

    /// This frame with another timestamp.
    pub closed spec fn timestamped(self, timestamp: u64) -> Self {
        Frame {
            metadata: FrameMetadata {
                frame_descriptor: FrameDescriptor {
                    timestamp: Some(timestamp),
                    ..self.metadata.frame_descriptor
                },
                ..self.metadata
            },
            ..self
        }
    }
}

/// Whether `bytes` are a frame with the value whose chunks are given.
pub open spec fn frame_form(
    bytes: Seq<u8>,
    metadata: Metadata,
    log: Seq<Entry>,
    seed: Option<u64>,
    chunks: Seq<Seq<u8>>,
) -> bool {
    &&& bytes == metadata_form(metadata) + log_bytes(log, seed_from(seed))
    &&& chained(log)
    &&& raw_regions(log) == RawStream::empty().append_all(chunks).close().regions
}

/// The metadata a frame is encoded with, which tells whether there is a seed.
pub open spec fn encoded_metadata(metadata: Metadata, seed: Option<u64>) -> Metadata {
    Metadata {
        descriptor: FrameDescriptor {
            seeded: metadata.descriptor.seeded || seed is Some,
            timestamp: metadata.descriptor.timestamp,
        },
        label: metadata.label,
    }
}

impl<T, W> Frame<T, W> where T: Encode, W: Writer {
    /// Constructs a new [`Frame`] bound to `dst` destination [`Writer`].
    pub fn new(dst: W) -> (r: Self)
        ensures
            r.metadata() == (Metadata {
                descriptor: FrameDescriptor { seeded: false, timestamp: None },
                label: Seq::empty(),
            }),
            r.seed() is None,
            r.base() == dst,
    {
        Self { _phantom: PhantomData, metadata: Default::default(), seed: None, base: dst }
    }

    /// Assigns a [`Label`] to the metadata of this frame.
    pub fn with_label(self, label: Label) -> (r: Frame<T, W>)
        ensures
            r == self.labelled(label),
            r.metadata() == (Metadata { label: label.bytes(), ..self.metadata() }),
            r.seed() == self.seed(),
            r.base() == self.base(),
    {
        let mut frame = self;
        frame.metadata.label = label;
        frame
    }

    /// Assigns a generic 8-byte timestamp to the metadata of this frame.
    pub fn with_timestamp(self, timestamp: u64) -> (r: Frame<T, W>)
        ensures
            r == self.timestamped(timestamp),
            r.metadata() == (Metadata {
                descriptor: FrameDescriptor {
                    timestamp: Some(timestamp),
                    ..self.metadata().descriptor
                },
                ..self.metadata()
            }),
            r.seed() == self.seed(),
            r.base() == self.base(),
    {
        let mut frame = self;
        frame.metadata.frame_descriptor.timestamp = Some(timestamp);
        frame
    }

    /// Specifies a `seed` which will be used to create region hashes.
    pub fn with_seed(self, seed: u64) -> (r: Frame<T, W>)
        ensures
            r.metadata() == self.metadata(),
            r.seed() == Some(seed),
            r.base() == self.base(),
    {
        let mut frame = self;
        frame.seed = Some(seed);
        frame
    }

    /// Encodes this frame with the `value` provided, giving back the destination.
    pub fn encode(self, value: T) -> (r: Result<W, EncodeError>)
        requires
            value.size_hint() <= usize::MAX,
        ensures
            match r {
                Ok(dst) => {
                    &&& within(value.wire())
                    &&& label_bytes(self.metadata().label)
                    &&& dst.recorded() == self.base().recorded()
                    &&& exists|bytes: Seq<u8>, log: Seq<Entry>|
                        {
                            &&& dst.recorded() ==> dst.written() == self.base().written() + bytes
                            &&& forall|m: nat| #[trigger]
                                dst.fits(m) == self.base().fits(bytes.len() + m)
                            &&& #[trigger] frame_form(
                                bytes,
                                encoded_metadata(self.metadata(), self.seed()),
                                log,
                                self.seed(),
                                value.wire(),
                            )
                        }
                },
                Err(EncodeError::FrameError(e)) => {
                    let form = metadata_form(encoded_metadata(self.metadata(), self.seed()));
                    &&& e is WriteError
                    &&& exists|n: nat| n <= form.len() && !#[trigger] self.base().fits(n)
                },
                Err(EncodeError::BearerError(e)) => {
                    let form = metadata_form(encoded_metadata(self.metadata(), self.seed()));
                    exists|count: int, log: Seq<Entry>| #[trigger]
                        frame_stopped(self.base(), form.len(), value.wire(), e, count, log)
                },
                Err(_) => false,
            },
    {
        let mut metadata = self.metadata;
        if self.seed.is_some() {
            metadata.frame_descriptor.seeded = true;
        }
        let ghost form = metadata_form(metadata.metadata());
        assert(metadata.metadata() == encoded_metadata(self.metadata(), self.seed()));
        let mut base = self.base;
        let ghost before = base.written();
        if let Err(e) = metadata.encode_into_writer(&mut base) {
            proof {
                let head = metadata_head(metadata.frame_descriptor);
                let n = if self.base().fits(head.len()) {
                    form.len()
                } else {
                    head.len()
                };
                assert(n <= form.len() && !self.base().fits(n));
            }
            return Err(EncodeError::FrameError(e));
        }
        let ghost opened = base;

        let size: usize = Size::Auto(&value).cap();
        let mut encoder = StreamEncoder::new(base, size, self.seed);
        let ghost fresh = encoder;
        let result = T::encode(&mut encoder, &value);
        let ghost written = encoder;
        let ghost count = if result is Ok {
            value.wire().len() as int
        } else {
            choose|count: int|
                #[trigger] stopped(fresh, written, value.wire(), result->Err_0, count)
        };
        proof {
            written.law_written();
            assert(value.wire().take(value.wire().len() as int) =~= value.wire());
            assert(written.log().skip(0) =~= written.log());
            let room = region_room(written.raw().open.len());
            assert(fresh.has_room(log_len(written.log()) + room) == opened.fits(
                log_len(written.log()) + room,
            ));
            assert(opened.fits(log_len(written.log()) + room) == self.base.fits(
                form.len() + log_len(written.log()) + room,
            ));
        }
        if let Err(e) = encoder.flush() {
            assert(frame_stopped(self.base(), form.len(), value.wire(), e, count, written.log()));
            return Err(EncodeError::BearerError(e));
        }
        if let Err(e) = result {
            assert(frame_stopped(
                self.base(),
                form.len(),
                value.wire(),
                e->BearerError_0,
                count,
                written.log(),
            ));
            return Err(e);
        }
        proof {
            encoder.law_written();
            let stream = log_bytes(encoder.log(), seed_from(self.seed));
            let bytes = form + stream;
            if encoder.destination().recorded() {
                assert(encoder.destination().written() =~= before + bytes);
            }
            lemma_log_len(encoder.log(), seed_from(self.seed));
            lemma_sent_then(fresh.log(), written.log(), encoder.log());
            assert(encoder.log().skip(0) =~= encoder.log());
            assert forall|m: nat| #[trigger] encoder.destination().fits(m) == self.base.fits(
                bytes.len() + m,
            ) by {
                assert(encoder.has_room(m) == encoder.destination().fits(m));
                let used = sent(written.log(), encoder.log());
                assert(encoder.has_room(m) == written.has_room(used + m));
                let before = sent(fresh.log(), written.log());
                assert(written.has_room(used + m) == fresh.has_room(before + (used + m)));
                assert(fresh.has_room(stream.len() + m) == opened.fits(stream.len() + m));
                assert(opened.fits(stream.len() + m) == self.base.fits(
                    form.len() + (stream.len() + m),
                ));
            }
            assert(frame_form(
                bytes,
                encoded_metadata(self.metadata(), self.seed()),
                encoder.log(),
                self.seed(),
                value.wire(),
            ));
        }
        Ok(encoder.into_inner())
    }
}

/// The last timestamp counts, and whether it is given before or after the label does not
/// matter: the frames are the same, so `Frame::encode` is owed the same of either. The
/// timestamp is stored in 8 bytes, whichever it is.
pub proof fn law_builder_order<T, W>(frame: Frame<T, W>, label: Label, first: u64, last: u64)
    ensures
        ({
            let given = frame.timestamped(first).labelled(label).timestamped(last);
            &&& given == frame.timestamped(last).labelled(label)
            &&& given.metadata() == Metadata {
                descriptor: FrameDescriptor {
                    timestamp: Some(last),
                    ..frame.metadata().descriptor
                },
                label: label.bytes(),
            }
            &&& given.seed() == frame.seed()
            &&& given.base() == frame.base()
            &&& metadata_head(given.metadata().descriptor).len() == 13
        }),
{
    lemma_le_bytes_len(MAGIC_NUM as nat, 4);
    lemma_le_bytes_len(last as nat, 8);
}

/// Frames with the same metadata and seed differ in how their regions were compressed, if
/// at all: where the bodies are the same, so are all of the bytes.
pub proof fn law_frame_bytes(
    metadata: Metadata,
    seed: Option<u64>,
    chunks: Seq<Seq<u8>>,
    bytes: Seq<u8>,
    log: Seq<Entry>,
    others: Seq<u8>,
    other: Seq<Entry>,
)
    requires
        frame_form(bytes, metadata, log, seed, chunks),
        frame_form(others, metadata, other, seed, chunks),
    ensures
        log.len() == other.len(),
        (forall|i: int| 0 <= i < log.len() ==> (#[trigger] log[i]).body == other[i].body)
            ==> bytes == others,
{
    assert(raw_regions(log).len() == raw_regions(other).len());
    if forall|i: int| 0 <= i < log.len() ==> (#[trigger] log[i]).body == other[i].body {
        assert forall|i: int| 0 <= i < log.len() implies log[i] == other[i] by {
            assert(raw_regions(log)[i] == raw_regions(other)[i]);
            assert(log[i].body == other[i].body);
        }
        assert(log =~= other);
    }
}

/// Whether the stream of a frame could not be finished with the first `count` chunks of
/// the value written: `log` are the regions that were, after the metadata of `head` bytes.
/// Either the next chunk exceeds a region or the region pending could not be written.
pub open spec fn frame_stopped<W: Writer>(
    base: W,
    head: nat,
    chunks: Seq<Seq<u8>>,
    e: RegionError,
    count: int,
    log: Seq<Entry>,
) -> bool {
    let raw = RawStream::empty().append_all(chunks.take(count));
    let room = base.fits(head + log_len(log) + region_room(raw.open.len()));
    &&& 0 <= count <= chunks.len()
    &&& chained(log)
    &&& raw_regions(log) == raw.regions
    &&& {
        ||| e == RegionError::OutOfBounds && count < chunks.len() && chunks[count].len()
            > REGION_SIZE
        ||| unfinished(raw.open, room, e)
    }
}

/// A value whose chunks do not exceed a region is encoded whenever the destination takes
/// the metadata and the room asked for the regions of the value, and anything less.
pub proof fn law_frame_owed<W: Writer>(
    base: W,
    head: nat,
    chunks: Seq<Seq<u8>>,
    e: RegionError,
    count: int,
    log: Seq<Entry>,
)
    requires
        within(chunks),
        forall|n: nat|
            n <= head + rooms(
                RawStream::empty().append_all(chunks).close().regions,
            ) ==> #[trigger] base.fits(n),
    ensures
        !frame_stopped(base, head, chunks, e, count, log),
{
    if frame_stopped(base, head, chunks, e, count, log) {
        let raw = RawStream::empty().append_all(chunks.take(count));
        lemma_append_all_add(RawStream::empty(), chunks.take(count), chunks.skip(count));
        assert(chunks.take(count) + chunks.skip(count) =~= chunks);
        lemma_rooms_grow(raw, chunks.skip(count));
        assert(raw.regions.push(raw.open).drop_last() =~= raw.regions);
        lemma_log_within_rooms(log);
        assert(base.fits(head + log_len(log) + region_room(raw.open.len())));
    }
}

impl<T, R> Frame<T, R> where T: Decode, R: Reader {
    /// Decodes a new [`Frame`] from `src` source [`Reader`].
    ///
    /// Generic `T` value is lazy-decoded, meaning this method will not decode frame value
    /// itself, which allows caller to access metadata values without complete decoding
    /// overhead. Any issues with the encoded value are not revealed yet.
    pub fn decode(src: R, seed: Option<u64>) -> (r: Result<Self, FrameError>)
        ensures
            match r {
                Ok(frame) => {
                    &&& frame.seed() == seed
                    &&& frame.base().faultless() == src.faultless()
                    &&& metadata_decoding(src.bytes()) == (
                        Ok::<Metadata, FrameError>(frame.metadata()),
                        frame.base().bytes(),
                    )
                },
                Err(e) => {
                    ||| metadata_decoding(src.bytes()).0 == Err::<Metadata, FrameError>(e)
                    ||| !src.faultless() && (e is ReadError || e is MalformedLabel)
                },
            },
    {
        let mut base = src;
        match FrameMetadata::decode_from_reader(&mut base) {
            Ok(metadata) => Ok(Self { _phantom: PhantomData, metadata, seed, base }),
            Err(e) => Err(e),
        }
    }

    /// Returns a [`Label`] contained in this frame's metadata.
    ///
    /// `None` returned if label is empty.
    pub fn get_label(&self) -> (r: Option<&Label>)
        ensures
            r is Some <==> self.metadata().label.len() > 0,
            r matches Some(label) ==> label.bytes() == self.metadata().label,
    {
        if self.metadata.label.is_empty() {
            None
        } else {
            Some(&self.metadata.label)
        }
    }

    /// Returns an 8-byte header timestamp contained in this frame's metadata.
    ///
    /// `None` returned if timestamp was not included.
    pub fn get_timestamp(&self) -> (r: Option<u64>)
        ensures
            r == self.metadata().descriptor.timestamp,
    {
        self.metadata.frame_descriptor.timestamp
    }

    /// Returns a deserialized value of this frame, with `size` bytes of initial capacity
    /// to stream it.
    ///
    /// If `seeded` metadata flag mismatched from actual presence of `seed` provided
    /// in [`Frame::decode`] method, an error returned, as the situation described
    /// indicates incorrect pipeline for targeted contents.
    pub fn get_value(self, size: usize) -> (r: Result<T, DecodeError>)
        ensures
            self.metadata().descriptor.seeded != (self.seed() is Some) ==> r == Err::<
                T,
                DecodeError,
            >(DecodeError::FrameError(FrameError::EnvironmentMismatch)),
            self.metadata().descriptor.seeded == (self.seed() is Some) ==> {
                ||| meant(r) == value_decoding::<T>(
                    self.base().bytes(),
                    self.seed(),
                    Buffers::fresh(size as nat),
                )
                ||| !self.base().faultless() && r is Err && source_fault(r->Err_0)
            },
    {
        if self.seed.is_some() != self.metadata.frame_descriptor.seeded {
            return Err(DecodeError::FrameError(FrameError::EnvironmentMismatch));
        }
        let mut decoder = match StreamDecoder::new(self.base, size, self.seed) {
            Ok(decoder) => decoder,
            Err(e) => return Err(DecodeError::BearerError(e)),
        };
        get(&mut decoder)
    }
}

/// What the stream in `bytes` is decoded to with the `buffers` given.
pub open spec fn value_decoding<T: Decode>(
    bytes: Seq<u8>,
    seed: Option<u64>,
    buffers: Buffers,
) -> Result<T::Value, DecodeError> {
    match open_feed(bytes, seed, buffers) {
        Ok(feed) => T::decoding(feed).0,
        Err(e) => Err(DecodeError::BearerError(e)),
    }
}

/// What was encoded into a frame is decoded from it: its label, its timestamp, whether it
/// was seeded and, with the same seed, its value, whatever follows the frame.
///
/// A value without any bytes is left out: no region is written for it, and the source may
/// be too short to be opened. So is one with a region whose header can not tell the length
/// of the body.
pub proof fn law_frame_round_trip<T: Codec>(
    value: T,
    metadata: Metadata,
    log: Seq<Entry>,
    seed: Option<u64>,
    bytes: Seq<u8>,
    rest: Seq<u8>,
    size: nat,
)
    requires
        label_bytes(metadata.label),
        frame_form(bytes, metadata, log, seed, value.wire()),
        bodies_fit(log),
        value.faithful(),
        RawStream::empty().append_all(value.wire()).open.len() > 0,
    ensures
        metadata_decoding(bytes + rest) == (
            Ok::<Metadata, FrameError>(metadata),
            log_bytes(log, seed_from(seed)) + rest,
        ),
        value_decoding::<T>(
            log_bytes(log, seed_from(seed)) + rest,
            seed,
            Buffers::fresh(size),
        ) == Ok::<T::Value, DecodeError>(value.value()),
{
    let stream = log_bytes(log, seed_from(seed));
    assert(stream.len() >= 7) by {
        assert(raw_regions(log).len() > 0);
        lemma_log_len(log, seed_from(seed));
    }
    assert(bytes + rest =~= metadata_form(metadata) + (stream + rest));
    law_metadata_round_trip(metadata, stream + rest);
    law_stream_round_trip(value, log, seed, rest, Buffers::fresh(size));
}

} // verus!
