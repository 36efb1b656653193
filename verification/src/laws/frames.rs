//! What frames hold and what comes back of it.

use vstd::prelude::*;
use vstd::string::{is_ascii, StringSliceAdditionalSpecFns};

use super::{bodies_fit, law_safe_size, law_seeds_agree, rooms};
use crate::codec::Codec;
use crate::decode::{open_feed, Decode, DecodeError, ReadError, Reader};
use crate::encode::{raw_regions, Encode, EncodeError, Writer};
use crate::frame::{
    encoded_metadata,
    frame_form,
    frame_stopped,
    is_magic_num_bytes,
    label_decoding,
    label_form,
    law_frame_owed,
    law_frame_round_trip,
    law_metadata_round_trip,
    magic_num_bytes,
    metadata_decoding,
    metadata_form,
    parse_descriptor,
    value_decoding,
    Frame,
    FrameDescriptor,
    FrameError,
    FrameMetadata,
    Label,
    Metadata,
};
use crate::little_endian::{
    le_bytes,
    le_value,
    lemma_le_bytes_len,
    lemma_le_bytes_of_value,
    lemma_le_value_of_bytes,
    lemma_span_values,
};
use crate::region::{
    chained,
    lemma_log_len,
    log_bytes,
    seed_from,
    xxhash64,
    Buffers,
    Entry,
    RegionError,
};
use crate::stream::{within, RawStream};

verus! {

/// A new frame says nothing, and what it is told afterwards changes nothing else.
pub proof fn law_frame_built<T: Encode, W: Writer>(
    dst: W,
    new: Frame<T, W>,
    frame: Frame<T, W>,
    label: Label,
    labelled: Frame<T, W>,
    timestamp: u64,
    timestamped: Frame<T, W>,
    seed: u64,
    seeded: Frame<T, W>,
)
    requires
        call_ensures(Frame::<T, W>::new, (dst,), new),
        call_ensures(Frame::<T, W>::with_label, (frame, label), labelled),
        call_ensures(Frame::<T, W>::with_timestamp, (frame, timestamp), timestamped),
        call_ensures(Frame::<T, W>::with_seed, (frame, seed), seeded),
    ensures
        new.metadata().label.len() == 0,
        new.metadata().descriptor.timestamp is None,
        !new.metadata().descriptor.seeded,
        new.seed() is None,
        new.base() == dst,
        labelled.metadata().label == label.bytes(),
        labelled.metadata().descriptor == frame.metadata().descriptor,
        labelled.seed() == frame.seed(),
        labelled.base() == frame.base(),
        timestamped.metadata().label == frame.metadata().label,
        timestamped.metadata().descriptor.timestamp == Some(timestamp),
        timestamped.metadata().descriptor.seeded == frame.metadata().descriptor.seeded,
        timestamped.seed() == frame.seed(),
        timestamped.base() == frame.base(),
        seeded.metadata() == frame.metadata(),
        seeded.seed() == Some(seed),
        seeded.base() == frame.base(),
{
}

/// A frame is encoded with the label and the timestamp it has, and tells that it is seeded
/// if it has a seed or was told so before.
pub proof fn law_encoded_metadata(metadata: Metadata, seed: Option<u64>)
    ensures
        encoded_metadata(metadata, seed).label == metadata.label,
        encoded_metadata(metadata, seed).descriptor.timestamp == metadata.descriptor.timestamp,
        encoded_metadata(metadata, seed).descriptor.seeded <==> metadata.descriptor.seeded
            || seed is Some,
{
}

/// What a frame writes follows what its destination held and is decoded to the metadata of
/// the frame, with and without a seed, whatever follows it.
///
/// What follows may be short only if the value has any bytes.
pub proof fn law_frame_metadata<T: Encode, W: Writer>(
    frame: Frame<T, W>,
    value: T,
    dst: W,
    rest: Seq<u8>,
)
    requires
        call_ensures(Frame::<T, W>::encode, (frame, value), Ok::<W, EncodeError>(dst)),
        frame.base().recorded(),
        rest.len() >= 7 || RawStream::empty().append_all(value.wire()).open.len() > 0,
    ensures
        ({
            let start = frame.base().written().len() as int;
            let bytes = dst.written().skip(start);
            let (r, left) = metadata_decoding(bytes + rest);
            &&& dst.recorded()
            &&& dst.written().take(start) == frame.base().written()
            &&& r is Ok
            &&& r->Ok_0.label == frame.metadata().label
            &&& r->Ok_0.descriptor.timestamp == frame.metadata().descriptor.timestamp
            &&& r->Ok_0.descriptor.seeded <==> frame.seed() is Some
                || frame.metadata().descriptor.seeded
        }),
{
    let metadata = encoded_metadata(frame.metadata(), frame.seed());
    let start = frame.base().written().len() as int;
    let (bytes, log) = choose|bytes: Seq<u8>, log: Seq<Entry>|
        dst.written() == frame.base().written() + bytes && #[trigger] frame_form(
            bytes,
            metadata,
            log,
            frame.seed(),
            value.wire(),
        );
    let stream = log_bytes(log, seed_from(frame.seed()));
    assert(dst.written().skip(start) =~= bytes);
    assert(dst.written().take(start) =~= frame.base().written());
    lemma_log_len(log, seed_from(frame.seed()));
    if RawStream::empty().append_all(value.wire()).open.len() > 0 {
        assert(raw_regions(log).len() > 0);
    }
    assert(bytes + rest =~= metadata_form(metadata) + (stream + rest));
    law_metadata_round_trip(metadata, stream + rest);
    law_encoded_metadata(frame.metadata(), frame.seed());
}

/// A frame is decoded to the label and the timestamp it was encoded with, with and without
/// a seed, whatever follows it. No label is told for an empty one.
pub proof fn law_frame_told<T: Encode, W: Writer, U: Decode>(
    frame: Frame<T, W>,
    value: T,
    dst: W,
    rest: Seq<u8>,
    src: &[u8],
    seed: Option<u64>,
    r: Result<Frame<U, &[u8]>, FrameError>,
    label: Option<&Label>,
    timestamp: Option<u64>,
)
    requires
        call_ensures(Frame::<T, W>::encode, (frame, value), Ok::<W, EncodeError>(dst)),
        frame.base().recorded(),
        rest.len() >= 7 || RawStream::empty().append_all(value.wire()).open.len() > 0,
        src@ == dst.written().skip(frame.base().written().len() as int) + rest,
        call_ensures(Frame::<U, &[u8]>::decode, (src, seed), r),
        r is Ok ==> call_ensures(Frame::<U, &[u8]>::get_label, (&r->Ok_0,), label),
        r is Ok ==> call_ensures(Frame::<U, &[u8]>::get_timestamp, (&r->Ok_0,), timestamp),
    ensures
        r is Ok,
        r->Ok_0.seed() == seed,
        label is Some <==> frame.metadata().label.len() > 0,
        label is Some ==> label->0.bytes() == frame.metadata().label,
        timestamp == frame.metadata().descriptor.timestamp,
        r->Ok_0.metadata().descriptor.seeded <==> frame.seed() is Some
            || frame.metadata().descriptor.seeded,
{
    law_frame_metadata(frame, value, dst, rest);
}

/// A value is decoded from the frame it was encoded into, with the same seed, whatever
/// capacity there is for it.
///
/// Left out are values without any bytes and values with a region of more than 65264 bytes,
/// which may be too long for its header once it is compressed.
pub proof fn law_frame_value<T: Codec, W: Writer>(
    frame: Frame<T, W>,
    value: T,
    dst: W,
    rest: Seq<u8>,
    src: &[u8],
    r: Result<Frame<T, &[u8]>, FrameError>,
    size: usize,
    decoded: Result<T, DecodeError>,
)
    requires
        value.faithful(),
        RawStream::empty().append_all(value.wire()).open.len() > 0,
        forall|i: int|
            0 <= i < RawStream::empty().append_all(value.wire()).close().regions.len() ==> (
            #[trigger] RawStream::empty().append_all(value.wire()).close().regions[i]).len()
                <= 65264,
        call_ensures(Frame::<T, W>::encode, (frame, value), Ok::<W, EncodeError>(dst)),
        frame.base().recorded(),
        frame.metadata().descriptor.seeded ==> frame.seed() is Some,
        src@ == dst.written().skip(frame.base().written().len() as int) + rest,
        call_ensures(Frame::<T, &[u8]>::decode, (src, frame.seed()), r),
        r is Ok ==> call_ensures(Frame::<T, &[u8]>::get_value, (r->Ok_0, size), decoded),
    ensures
        r is Ok,
        decoded is Ok,
        decoded->Ok_0.value() == value.value(),
{
    let seed = frame.seed();
    let metadata = encoded_metadata(frame.metadata(), seed);
    let (bytes, log) = choose|bytes: Seq<u8>, log: Seq<Entry>|
        dst.written() == frame.base().written() + bytes && #[trigger] frame_form(
            bytes,
            metadata,
            log,
            seed,
            value.wire(),
        );
    assert(dst.written().skip(frame.base().written().len() as int) =~= bytes);
    lemma_regions_safe(log, RawStream::empty().append_all(value.wire()).close().regions);
    law_frame_round_trip(value, metadata, log, seed, bytes, rest, size as nat);
}

proof fn lemma_regions_safe(log: Seq<Entry>, regions: Seq<Seq<u8>>)
    requires
        chained(log),
        raw_regions(log) == regions,
        forall|i: int| 0 <= i < regions.len() ==> (#[trigger] regions[i]).len() <= 65264,
    ensures
        bodies_fit(log),
{
    assert forall|i: int| 0 <= i < log.len() implies (#[trigger] log[i]).raw.len() <= 65264 by {
        assert(raw_regions(log)[i] == log[i].raw);
    }
    law_safe_size(log);
}

/// A value is not decoded without a seed from a frame that tells it is seeded, nor with a
/// seed from one that does not.
pub proof fn law_frame_environment<T: Decode>(
    frame: Frame<T, &[u8]>,
    size: usize,
    r: Result<T, DecodeError>,
)
    requires
        call_ensures(Frame::<T, &[u8]>::get_value, (frame, size), r),
    ensures
        frame.metadata().descriptor.seeded && frame.seed() is None ==> r is Err,
        !frame.metadata().descriptor.seeded && frame.seed() is Some ==> r is Err,
        frame.metadata().descriptor.seeded != (frame.seed() is Some) ==> r->Err_0
            == DecodeError::FrameError(FrameError::EnvironmentMismatch),
        frame.metadata().descriptor.seeded == (frame.seed() is Some) && r is Ok
            ==> open_feed(
            frame.base().bytes(),
            frame.seed(),
            Buffers::fresh(size as nat),
        ) is Ok,
{
}

/// A value is not decoded with a seed that gives the first region another hash.
pub proof fn law_frame_seed_refused<T: Encode, U: Decode, W: Writer>(
    frame: Frame<T, W>,
    value: T,
    dst: W,
    rest: Seq<u8>,
    seed: u64,
    src: &[u8],
    r: Result<Frame<U, &[u8]>, FrameError>,
    size: usize,
    decoded: Result<U, DecodeError>,
)
    requires
        frame.seed() is Some,
        RawStream::empty().append_all(value.wire()).open.len() > 0,
        ({
            let regions = RawStream::empty().append_all(value.wire()).close().regions;
            &&& forall|i: int| 0 <= i < regions.len() ==> (#[trigger] regions[i]).len() <= 65264
            &&& xxhash64(frame.seed()->0, regions[0]) != xxhash64(
                seed,
                regions[0],
            )
        }),
        call_ensures(Frame::<T, W>::encode, (frame, value), Ok::<W, EncodeError>(dst)),
        frame.base().recorded(),
        src@ == dst.written().skip(frame.base().written().len() as int) + rest,
        call_ensures(Frame::<U, &[u8]>::decode, (src, Some(seed)), r),
        r is Ok ==> call_ensures(Frame::<U, &[u8]>::get_value, (r->Ok_0, size), decoded),
    ensures
        r is Ok,
        decoded is Err,
        decoded->Err_0 == DecodeError::BearerError(RegionError::InvalidHash),
{
    let metadata = encoded_metadata(frame.metadata(), frame.seed());
    let (bytes, log) = choose|bytes: Seq<u8>, log: Seq<Entry>|
        dst.written() == frame.base().written() + bytes && #[trigger] frame_form(
            bytes,
            metadata,
            log,
            frame.seed(),
            value.wire(),
        );
    let stream = log_bytes(log, seed_from(frame.seed()));
    let regions = RawStream::empty().append_all(value.wire()).close().regions;
    assert(dst.written().skip(frame.base().written().len() as int) =~= bytes);
    lemma_log_len(log, seed_from(frame.seed()));
    assert(raw_regions(log).len() > 0);
    assert(raw_regions(log)[0] == log[0].raw);
    assert(bytes + rest =~= metadata_form(metadata) + (stream + rest));
    law_metadata_round_trip(metadata, stream + rest);
    lemma_regions_safe(log, regions);
    law_seeds_agree(log, frame.seed(), Some(seed), rest, Buffers::fresh(size as nat));
}

/// Encoding a frame into a vector always succeeds.
pub proof fn law_vec_frame<T: Codec>(
    frame: Frame<T, Vec<u8>>,
    value: T,
    r: Result<Vec<u8>, EncodeError>,
)
    requires
        call_ensures(Frame::<T, Vec<u8>>::encode, (frame, value), r),
    ensures
        r is Ok,
        r->Ok_0@.len() >= frame.base()@.len() + 6 + frame.metadata().label.len(),
        r->Ok_0@.take(frame.base()@.len() as int) == frame.base()@,
{
    value.law_chunks_within();
    let metadata = encoded_metadata(frame.metadata(), frame.seed());
    let head = metadata_form(metadata).len();
    if r is Err {
        if let EncodeError::BearerError(e) = r->Err_0 {
            let (count, log) = choose|count: int, log: Seq<Entry>| #[trigger]
                frame_stopped(frame.base(), head, value.wire(), e, count, log);
            law_frame_owed(frame.base(), head, value.wire(), e, count, log);
        }
    } else {
        let (bytes, log) = choose|bytes: Seq<u8>, log: Seq<Entry>|
            r->Ok_0.written() == frame.base().written() + bytes && #[trigger] frame_form(
                bytes,
                metadata,
                log,
                frame.seed(),
                value.wire(),
            );
        law_metadata_layout(metadata);
        assert(r->Ok_0@.take(frame.base()@.len() as int) =~= frame.base()@);
    }
}

/// How a frame is laid out: its metadata and then the regions of the value.
pub proof fn law_frame_layout(
    bytes: Seq<u8>,
    metadata: Metadata,
    log: Seq<Entry>,
    seed: Option<u64>,
    chunks: Seq<Seq<u8>>,
)
    requires
        frame_form(bytes, metadata, log, seed, chunks),
    ensures
        bytes == metadata_form(metadata) + log_bytes(log, seed_from(seed)),
        chained(log),
        log.len() == RawStream::empty().append_all(chunks).close().regions.len(),
        forall|i: int|
            0 <= i < log.len() ==> (#[trigger] log[i]).raw == RawStream::empty().append_all(
                chunks,
            ).close().regions[i],
{
    assert(raw_regions(log).len() == log.len());
    assert forall|i: int| 0 <= i < log.len() implies (#[trigger] log[i]).raw
        == RawStream::empty().append_all(chunks).close().regions[i] by {
        assert(raw_regions(log)[i] == log[i].raw);
    }
}

/// How metadata is laid out: four bytes of the magic number, one of flags, eight of the
/// timestamp if there is one, the length of the label and the label.
pub proof fn law_metadata_layout(metadata: Metadata)
    ensures
        ({
            let bytes = metadata_form(metadata);
            let stamp: int = if metadata.descriptor.timestamp is Some {
                8
            } else {
                0
            };
            &&& bytes.len() == 6 + stamp + metadata.label.len()
            &&& bytes.take(4) == seq![0xA9u8, 0xCEu8, 0xEBu8, 0x96u8]
            &&& bytes[4] == (if metadata.descriptor.seeded {
                128int
            } else {
                0
            }) + (if metadata.descriptor.timestamp is Some {
                64int
            } else {
                0
            })
            &&& metadata.descriptor.timestamp matches Some(timestamp) ==> bytes.subrange(5, 13)
                == le_bytes(timestamp as nat, 8)
            &&& metadata.label.len() <= 255 ==> bytes[5 + stamp] == metadata.label.len()
            &&& bytes.skip(6 + stamp) == metadata.label
        }),
{
    let bytes = metadata_form(metadata);
    lemma_magic_bytes();
    lemma_le_bytes_len(0x96EB_CEA9, 4);
    assert(0x80u8 | 0x40u8 == 192u8 && 0x80u8 | 0u8 == 128u8 && 0u8 | 0x40u8 == 64u8 && 0u8 | 0u8
        == 0u8) by (bit_vector);
    assert(bytes.take(4) =~= le_bytes(0x96EB_CEA9, 4));
    match metadata.descriptor.timestamp {
        Some(timestamp) => {
            lemma_le_bytes_len(timestamp as nat, 8);
            assert(bytes.subrange(5, 13) =~= le_bytes(timestamp as nat, 8));
            assert(bytes.skip(14) =~= metadata.label);
        },
        None => {
            assert(bytes.skip(6) =~= metadata.label);
        },
    }
}

proof fn lemma_magic_bytes()
    ensures
        le_bytes(0x96EB_CEA9, 4) == seq![0xA9u8, 0xCEu8, 0xEBu8, 0x96u8],
{
    reveal_with_fuel(le_bytes, 5);
    assert(le_bytes(0x96EB_CEA9, 4) =~= seq![0xA9u8, 0xCEu8, 0xEBu8, 0x96u8]);
}

/// The magic number is recognized by its bytes and nothing else is.
pub proof fn law_magic_number(magic: Vec<u8>, bytes: [u8; 4], r: bool)
    requires
        call_ensures(magic_num_bytes, (), magic),
        call_ensures(is_magic_num_bytes, (bytes,), r),
    ensures
        magic@ == seq![0xA9u8, 0xCEu8, 0xEBu8, 0x96u8],
        r <==> bytes@ == magic@,
{
    lemma_magic_bytes();
    lemma_le_bytes_of_value(bytes@);
    lemma_span_values();
    lemma_le_value_of_bytes(0x96EB_CEA9, 4);
}

/// Metadata is decoded from where [`law_metadata_layout`] puts it. What does not start with
/// the magic number is refused, as is a source without the 9 bytes of the longest
/// descriptor.
pub proof fn law_metadata_decoding(bytes: Seq<u8>)
    ensures
        ({
            let (r, left) = metadata_decoding(bytes);
            let seeded = bytes[4] >= 128;
            let stamped = (bytes[4] / 64) % 2 == 1;
            let end: int = if stamped {
                13
            } else {
                5
            };
            if bytes.len() < 4 {
                &&& r == Err::<Metadata, FrameError>(FrameError::ReadError(ReadError::OutOfBounds))
                &&& left == bytes
            } else if bytes.take(4) != seq![0xA9u8, 0xCEu8, 0xEBu8, 0x96u8] {
                &&& r == Err::<Metadata, FrameError>(FrameError::NoMagicNumber)
                &&& left == bytes
            } else if bytes.len() < 13 {
                &&& r == Err::<Metadata, FrameError>(FrameError::ReadError(ReadError::OutOfBounds))
                &&& left == bytes.skip(4)
            } else {
                match label_decoding(bytes.skip(end)) {
                    (Ok(label), after) => {
                        &&& r is Ok
                        &&& r->Ok_0.label == label
                        &&& r->Ok_0.descriptor.seeded == seeded
                        &&& r->Ok_0.descriptor.timestamp is Some <==> stamped
                        &&& stamped ==> r->Ok_0.descriptor.timestamp->0 == le_value(
                            bytes.subrange(5, 13),
                        )
                        &&& left == after
                    },
                    (Err(e), after) => r == Err::<Metadata, FrameError>(e) && left == after,
                }
            }
        }),
{
    if bytes.len() >= 4 {
        lemma_magic_bytes();
        lemma_span_values();
        lemma_le_bytes_of_value(bytes.take(4));
        lemma_le_value_of_bytes(0x96EB_CEA9, 4);
        if bytes.len() >= 13 {
            let byte = bytes[4];
            let rest = bytes.skip(4);
            lemma_flag_bits(byte);
            assert(rest.take(9)[0] == byte);
            assert(rest.take(9).subrange(1, 9) =~= bytes.subrange(5, 13));
            lemma_le_bytes_of_value(bytes.subrange(5, 13));
            let descriptor = parse_descriptor(rest.take(9))->0;
            if descriptor.timestamp is Some {
                lemma_le_bytes_len(descriptor.timestamp->0 as nat, 8);
                assert(rest.skip(9) =~= bytes.skip(13));
            } else {
                assert(rest.skip(1) =~= bytes.skip(5));
            }
        }
    }
}

proof fn lemma_flag_bits(byte: u8)
    by (bit_vector)
    ensures
        byte & 0b1000_0000 != 0 <==> byte >= 128,
        byte & 0b0100_0000 == 0 <==> (byte / 64) % 2 == 0,
{
}

/// How a descriptor is read and written.
pub proof fn law_descriptor(
    descriptor: FrameDescriptor,
    len: usize,
    src: &[u8],
    r: Option<FrameDescriptor>,
)
    requires
        call_ensures(FrameDescriptor::len, (&descriptor,), len),
        src@.len() > 0,
        call_ensures(FrameDescriptor::from_bytes, (src,), r),
    ensures
        len == (if descriptor.timestamp is Some {
            9int
        } else {
            1
        }),
        descriptor.bytes().len() == len,
        r is None <==> (src@[0] / 64) % 2 == 1 && src@.len() < 9,
        r is Some ==> r->0.seeded == (src@[0] >= 128),
        r is Some ==> (r->0.timestamp is Some <==> (src@[0] / 64) % 2 == 1),
        r is Some && r->0.timestamp is Some ==> r->0.timestamp->0 == le_value(src@.subrange(1, 9)),
{
    lemma_flag_bits(src@[0]);
    if descriptor.timestamp is Some {
        lemma_le_bytes_len(descriptor.timestamp->0 as nat, 8);
    }
    if src@.len() >= 9 {
        lemma_span_values();
        lemma_le_bytes_of_value(src@.subrange(1, 9));
    }
}

/// A label is made of any ASCII text of at most 255 characters and gives that text back.
pub proof fn law_label_text(
    text: &str,
    label: Option<Label>,
    converted: Result<Label, ()>,
    shown: &str,
    bytes: &[u8],
    len: usize,
    empty: bool,
)
    requires
        call_ensures(Label::new, (text,), label),
        call_ensures(<Label as TryFrom<&str>>::try_from, (text,), converted),
        label is Some ==> call_ensures(Label::as_str, (&label->0,), shown),
        label is Some ==> call_ensures(Label::as_bytes, (&label->0,), bytes),
        label is Some ==> call_ensures(Label::len, (&label->0,), len),
        label is Some ==> call_ensures(Label::is_empty, (&label->0,), empty),
    ensures
        label is Some <==> is_ascii(text) && text@.len() <= 255,
        converted is Ok <==> label is Some,
        label is Some ==> {
            &&& shown.spec_bytes() == text.spec_bytes()
            &&& bytes@ == text.spec_bytes()
            &&& len == text.spec_bytes().len()
            &&& empty <==> text.spec_bytes().len() == 0
            &&& converted->Ok_0.bytes() == label->0.bytes()
        },
{
}

/// A label is stored as its length in a byte and its characters. What is too short for the
/// length told or holds other characters is refused.
pub proof fn law_label_decoding(label: Seq<u8>, bytes: Seq<u8>)
    ensures
        label_form(label).len() == label.len() + 1,
        label.len() <= 255 ==> label_form(label)[0] == label.len(),
        label_form(label).skip(1) == label,
        ({
            let (r, left) = label_decoding(bytes);
            let len = bytes[0] as int;
            let told = bytes.subrange(1, 1 + len);
            if bytes.len() == 0 {
                &&& r == Err::<Seq<u8>, FrameError>(FrameError::ReadError(ReadError::OutOfBounds))
                &&& left == bytes
            } else if bytes.len() < 1 + len {
                &&& r == Err::<Seq<u8>, FrameError>(FrameError::MalformedLabel)
                &&& left == bytes.skip(1)
            } else if exists|i: int| 0 <= i < len && #[trigger] told[i] >= 128 {
                &&& r == Err::<Seq<u8>, FrameError>(FrameError::NonAsciiLabel)
                &&& left == bytes.skip(1)
            } else {
                r == Ok::<Seq<u8>, FrameError>(told) && left == bytes.skip(1 + len)
            }
        }),
{
    assert(label_form(label).skip(1) =~= label);
    if bytes.len() > 0 {
        let len = bytes[0] as int;
        if bytes.len() >= 1 + len {
            assert(bytes.skip(1).take(len) =~= bytes.subrange(1, 1 + len));
            assert(bytes.skip(1).skip(len) =~= bytes.skip(1 + len));
        }
    }
}

/// What metadata says is what it is made of.
pub proof fn law_metadata_said(metadata: FrameMetadata)
    ensures
        metadata.metadata().descriptor == metadata.frame_descriptor,
        metadata.metadata().label == metadata.label.bytes(),
{
}

/// The value of a frame is decoded from the stream behind the metadata.
pub proof fn law_value_decoding<T: Decode>(bytes: Seq<u8>, seed: Option<u64>, buffers: Buffers)
    ensures
        match open_feed(bytes, seed, buffers) {
            Ok(feed) => value_decoding::<T>(bytes, seed, buffers) == T::decoding(feed).0,
            Err(e) => value_decoding::<T>(bytes, seed, buffers) == Err::<T::Value, DecodeError>(
                DecodeError::BearerError(e),
            ),
        },
{
}

/// A frame is encoded whenever no chunk of the value exceeds a region and the destination
/// takes the metadata and the room asked for the regions of the value, and anything less.
pub proof fn law_frame_encode_owed<T: Encode, W: Writer>(
    frame: Frame<T, W>,
    value: T,
    r: Result<W, EncodeError>,
)
    requires
        call_ensures(Frame::<T, W>::encode, (frame, value), r),
        within(value.wire()),
        forall|n: nat|
            n <= 14 + frame.metadata().label.len() + rooms(
                RawStream::empty().append_all(value.wire()).close().regions,
            ) ==> #[trigger] frame.base().fits(n),
    ensures
        r is Ok,
{
    let metadata = encoded_metadata(frame.metadata(), frame.seed());
    let head = metadata_form(metadata).len();
    law_metadata_layout(metadata);
    if r is Err {
        if let EncodeError::BearerError(e) = r->Err_0 {
            let (count, log) = choose|count: int, log: Seq<Entry>| #[trigger]
                frame_stopped(frame.base(), head, value.wire(), e, count, log);
            law_frame_owed(frame.base(), head, value.wire(), e, count, log);
        }
    }
}

/// A frame whose value has a chunk that exceeds a region is not encoded.
pub proof fn law_frame_chunk_refused<T: Encode, W: Writer>(
    frame: Frame<T, W>,
    value: T,
    r: Result<W, EncodeError>,
    at: int,
)
    requires
        call_ensures(Frame::<T, W>::encode, (frame, value), r),
        0 <= at < value.wire().len(),
        value.wire()[at].len() > 65535,
    ensures
        r is Err,
{
}

/// A descriptor is written to the start of a slice which has room for it, and not at all to
/// another.
pub proof fn law_descriptor_written(descriptor: FrameDescriptor, dst: &mut [u8], r: Option<()>)
    requires
        old(dst)@.len() > 0,
        call_ensures(FrameDescriptor::into_bytes, (descriptor, dst), r),
    ensures
        descriptor.timestamp is None ==> r is Some,
        descriptor.timestamp is Some ==> (r is Some <==> old(dst)@.len() >= 9),
        r is None ==> final(dst)@ == old(dst)@,
        r is Some ==> {
            &&& final(dst)@.len() == old(dst)@.len()
            &&& final(dst)@[0] == (if descriptor.seeded {
                128int
            } else {
                0
            }) + (if descriptor.timestamp is Some {
                64int
            } else {
                0
            })
            &&& descriptor.timestamp is None ==> final(dst)@.skip(1) == old(dst)@.skip(1)
            &&& descriptor.timestamp matches Some(timestamp) ==> final(dst)@.subrange(1, 9)
                == le_bytes(timestamp as nat, 8) && final(dst)@.skip(9) == old(dst)@.skip(9)
        },
{
    assert(0x80u8 | 0x40u8 == 192u8 && 0x80u8 | 0u8 == 128u8 && 0u8 | 0x40u8 == 64u8 && 0u8 | 0u8
        == 0u8) by (bit_vector);
    match descriptor.timestamp {
        Some(timestamp) => {
            lemma_le_bytes_len(timestamp as nat, 8);
            if r is Some {
                assert(final(dst)@.subrange(1, 9) =~= le_bytes(timestamp as nat, 8));
                assert(final(dst)@.skip(9) =~= old(dst)@.skip(9));
            }
        },
        None => {
            assert(final(dst)@.skip(1) =~= old(dst)@.skip(1));
        },
    }
}

/// Nothing is said by default.
pub proof fn law_metadata_default(
    label: Label,
    descriptor: FrameDescriptor,
    metadata: FrameMetadata,
    longest: usize,
)
    requires
        call_ensures(<Label as Default>::default, (), label),
        call_ensures(<FrameDescriptor as Default>::default, (), descriptor),
        call_ensures(<FrameMetadata as Default>::default, (), metadata),
        call_ensures(FrameDescriptor::max_len, (), longest),
    ensures
        label.bytes().len() == 0,
        !descriptor.seeded && descriptor.timestamp is None,
        metadata.metadata().label.len() == 0,
        metadata.metadata().descriptor == descriptor,
        longest == 9,
{
}

/// Metadata is written to a destination as it is laid out, and read from a source as it is
/// decoded.
pub proof fn law_metadata_written<W: Writer>(
    metadata: FrameMetadata,
    dst: &mut W,
    r: Result<(), FrameError>,
    src: &mut &[u8],
    read: Result<FrameMetadata, FrameError>,
)
    requires
        call_ensures(FrameMetadata::encode_into_writer::<W>, (metadata, dst), r),
        call_ensures(FrameMetadata::decode_from_reader::<&[u8]>, (src,), read),
    ensures
        r is Ok && (*old(dst)).recorded() ==> (*final(dst)).written() == (*old(dst)).written()
            + metadata_form(metadata.metadata()),
        ({
            let form = metadata_form(metadata.metadata());
            let head = form.len() - 1 - metadata.label.bytes().len();
            (*old(dst)).fits(head as nat) && (*old(dst)).fits(form.len()) ==> r is Ok
        }),
        r is Err ==> r->Err_0 is WriteError,
        read is Ok ==> metadata_decoding(old(src)@).0 == Ok::<Metadata, FrameError>(
            read->Ok_0.metadata(),
        ),
        read is Err ==> metadata_decoding(old(src)@).0 == Err::<Metadata, FrameError>(read->Err_0),
        final(src)@ == metadata_decoding(old(src)@).1,
{
}

/// A label is written to a destination and read from a source likewise.
pub proof fn law_label_written<W: Writer>(
    label: Label,
    dst: &mut W,
    r: Result<(), FrameError>,
    src: &mut &[u8],
    read: Result<Label, FrameError>,
)
    requires
        call_ensures(Label::encode_into_writer::<W>, (&label, dst), r),
        call_ensures(Label::decode_from_reader::<&[u8]>, (src,), read),
    ensures
        r is Ok && (*old(dst)).recorded() ==> (*final(dst)).written() == (*old(dst)).written()
            + label_form(label.bytes()),
        r is Ok <==> (*old(dst)).fits(label.bytes().len() + 1),
        r is Err ==> r->Err_0 is WriteError && (*final(dst)).written() == (*old(dst)).written(),
        read is Ok ==> label_decoding(old(src)@).0 == Ok::<Seq<u8>, FrameError>(
            read->Ok_0.bytes(),
        ),
        read is Err ==> label_decoding(old(src)@).0 == Err::<Seq<u8>, FrameError>(read->Err_0),
        final(src)@ == label_decoding(old(src)@).1,
{
}

} // verus!
