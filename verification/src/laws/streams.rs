//! What a stream gives back of what was written to it, from the first call to the last.

use vstd::prelude::*;

use super::ends::law_vec_encode;
use super::{law_encoder_round_trip, law_safe_size};
use crate::codec::Codec;
use crate::decode::{Data, Decode, DecodeBearer, DecodeError, StreamDecoder, StreamDecoderBuilder};
use crate::encode::{
    encoded,
    raw_regions,
    Encode,
    EncodeBearer,
    EncodeError,
    StreamEncoder,
    StreamEncoderBuilder,
    Writer,
};
use crate::region::{log_bytes, seed_from, Buffers, RegionBuffer, RegionError};
use crate::stream::RawStream;

verus! {

/// A builder is told the seed and nothing else changes by that. Unless told, there is none.
pub proof fn law_builders(
    size: usize,
    buffer: RegionBuffer,
    seed: u64,
    encoding: StreamEncoderBuilder,
    reused: StreamEncoderBuilder,
    seeded: StreamEncoderBuilder,
    decoding: StreamDecoderBuilder,
    reused_decoding: StreamDecoderBuilder,
    seeded_decoding: StreamDecoderBuilder,
)
    requires
        call_ensures(StreamEncoderBuilder::new, (size,), encoding),
        call_ensures(StreamEncoderBuilder::from_raw, (buffer,), reused),
        call_ensures(StreamEncoderBuilder::seed, (encoding, seed), seeded),
        call_ensures(StreamDecoderBuilder::new, (size,), decoding),
        call_ensures(StreamDecoderBuilder::from_raw, (buffer,), reused_decoding),
        call_ensures(StreamDecoderBuilder::seed, (decoding, seed), seeded_decoding),
    ensures
        encoding.seed_value() is None,
        reused.seed_value() is None,
        seeded.seed_value() == Some(seed),
        decoding.seed_value() is None,
        reused_decoding.seed_value() is None,
        seeded_decoding.seed_value() == Some(seed),
        encoding.buffer().curr().len() == 0,
        reused.buffer().curr().len() == 0,
        seeded.buffer() == encoding.buffer(),
        decoding.buffer().curr().len() == 0,
        reused_decoding.buffer().curr().len() == 0,
        seeded_decoding.buffer() == decoding.buffer(),
        encoding.buffer().buffers() == decoding.buffer().buffers(),
        reused.buffer().buffers() == reused_decoding.buffer().buffers(),
{
}

/// An encoder starts with nothing written, whichever way it is made, and gives its
/// destination back.
pub proof fn law_encoder_made<W: Writer>(
    builder: StreamEncoderBuilder,
    dst: W,
    size: usize,
    seed: Option<u64>,
    built: StreamEncoder<W>,
    made: StreamEncoder<W>,
    encoder: StreamEncoder<W>,
    given: W,
)
    requires
        builder.inv(),
        call_ensures(StreamEncoderBuilder::build::<W>, (builder, dst), built),
        call_ensures(StreamEncoder::<W>::new, (dst, size, seed), made),
        call_ensures(StreamEncoder::<W>::into_inner, (encoder,), given),
    ensures
        built.inv(),
        built.raw() == RawStream::empty(),
        built.log().len() == 0,
        built.destination() == dst,
        built.origin().seed == seed_from(builder.seed_value()),
        built.origin().base == dst.written(),
        made.inv(),
        made.raw() == RawStream::empty(),
        made.log().len() == 0,
        made.destination() == dst,
        made.origin().seed == seed_from(seed),
        made.origin().base == dst.written(),
        given == encoder.destination(),
{
}

/// A value that is encoded into a vector and flushed is decoded from what was appended to
/// the vector, with the same seed, whatever follows and whatever capacity there is on
/// either side.
///
/// Left out are values without any bytes and values with a region of more than 65264 bytes,
/// which may be too long for its header once it is compressed.
pub proof fn law_stream_value<T: Codec>(
    dst: Vec<u8>,
    size: usize,
    seed: Option<u64>,
    value: T,
    made: StreamEncoder<Vec<u8>>,
    written: StreamEncoder<Vec<u8>>,
    r: Result<(), EncodeError>,
    flushed: &mut StreamEncoder<Vec<u8>>,
    s: Result<(), RegionError>,
    given: Vec<u8>,
    rest: Seq<u8>,
    src: &[u8],
    capacity: usize,
    opened: Result<StreamDecoder<&[u8]>, RegionError>,
    decoder: &mut StreamDecoder<&[u8]>,
    decoded: Result<T, DecodeError>,
)
    requires
        value.faithful(),
        RawStream::empty().append_all(value.wire()).open.len() > 0,
        forall|i: int|
            0 <= i < RawStream::empty().append_all(value.wire()).close().regions.len() ==> (
            #[trigger] RawStream::empty().append_all(value.wire()).close().regions[i]).len()
                <= 65264,
        call_ensures(StreamEncoder::<Vec<u8>>::new, (dst, size, seed), made),
        encoded(made, written, value.wire(), r),
        *old(flushed) == written,
        call_ensures(StreamEncoder::<Vec<u8>>::flush, (flushed, ), s),
        call_ensures(StreamEncoder::<Vec<u8>>::into_inner, (*final(flushed),), given),
        src@ == given@.skip(dst@.len() as int) + rest,
        call_ensures(StreamDecoder::<&[u8]>::new, (src, capacity, seed), opened),
        opened is Ok ==> *old(decoder) == opened->Ok_0,
        call_ensures(T::decode::<StreamDecoder<&[u8]>>, (decoder,), decoded),
    ensures
        r is Ok,
        s is Ok,
        given@.take(dst@.len() as int) == dst@,
        opened is Ok,
        decoded is Ok,
        decoded->Ok_0.value() == value.value(),
{
    law_vec_encode(made, written, &value, r);
    written.law_written();
    let encoder = *final(flushed);
    encoder.law_written();
    let regions = RawStream::empty().append_all(value.wire()).close().regions;
    assert(raw_regions(encoder.log()) == regions);
    assert forall|i: int| 0 <= i < encoder.log().len() implies (
    #[trigger] encoder.log()[i]).raw.len() <= 65264 by {
        assert(raw_regions(encoder.log())[i] == encoder.log()[i].raw);
    }
    law_safe_size(encoder.log());
    law_encoder_round_trip(value, encoder, seed, rest, Buffers::fresh(capacity as nat));
    assert(given@ =~= dst@ + log_bytes(encoder.log(), seed_from(seed)));
    assert(given@.take(dst@.len() as int) =~= dst@);
}

/// What a decoder built with a seed opens is what one made with it opens, given the same
/// buffers.
pub proof fn law_decoder_built(
    builder: StreamDecoderBuilder,
    size: usize,
    src: &[u8],
    built: Result<StreamDecoder<&[u8]>, RegionError>,
    made: Result<StreamDecoder<&[u8]>, RegionError>,
)
    requires
        builder.inv(),
        builder.buffer().buffers() == Buffers::fresh(size as nat),
        call_ensures(StreamDecoderBuilder::build::<&[u8]>, (builder, src), built),
        call_ensures(StreamDecoder::<&[u8]>::new, (src, size, builder.seed_value()), made),
    ensures
        built is Ok <==> made is Ok,
        built is Err ==> built->Err_0 == made->Err_0,
        built is Ok ==> built->Ok_0.feed() == made->Ok_0.feed(),
{
}

} // verus!
