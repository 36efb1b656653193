//! What destinations take and what sources give.

use vstd::prelude::*;

use super::law_room_suffices;
use crate::codec::Codec;
use crate::cursor::{ByteSink, ByteSource, Cursor, CursorReader, CursorWriter, Storage, StorageMut};
use crate::decode::{ReadError, ReadResult, Reader};
use crate::encode::{
    encoded,
    stopped,
    write_chunk,
    write_to_uninit,
    Encode,
    EncodeBearer,
    EncodeError,
    StreamEncoder,
    WriteError,
    Writer,
};
use crate::region::{region_room, RegionError};

verus! {

/// A vector takes whatever it is asked to and keeps all of it.
pub proof fn law_vec_takes_all(
    asked: &mut Vec<u8>,
    n: usize,
    arena: Option<Vec<u8>>,
    filled: &mut Vec<u8>,
    bytes: &[u8],
    count: usize,
    flushed: &mut Vec<u8>,
    r: Result<(), WriteError>,
)
    requires
        call_ensures(<Vec<u8> as Writer>::write_mut, (asked, n), arena),
        count <= bytes@.len(),
        call_ensures(<Vec<u8> as Writer>::assume_init, (filled, bytes, count), ()),
        call_ensures(<Vec<u8> as Writer>::flush, (flushed, ), r),
    ensures
        arena is Some,
        arena->0@.len() == n,
        final(asked)@ == old(asked)@,
        final(filled)@ == old(filled)@ + bytes@.take(count as int),
        r is Ok,
        final(flushed)@ == old(flushed)@,
{
}

/// What is stated of a vector as a destination is stated of its bytes, without limit.
pub proof fn law_vec_destination(v: Vec<u8>, n: nat)
    ensures
        v.fits(n),
        Writer::written(&v) == v@,
        Writer::recorded(&v),
        Writer::dependable(&v),
{
}

/// A reference stands for the destination it refers to.
pub proof fn law_lent_destination<T: Writer>(writer: &mut T, n: nat)
    ensures
        <&mut T as Writer>::fits(&writer, n) == (*old(writer)).fits(n),
        <&mut T as Writer>::written(&writer) == (*old(writer)).written(),
        <&mut T as Writer>::recorded(&writer) == (*old(writer)).recorded(),
        <&mut T as Writer>::dependable(&writer) == (*old(writer)).dependable(),
{
}

/// Encoding a value into a vector always succeeds, whatever was written before it.
pub proof fn law_vec_encode<T: Codec>(
    before: StreamEncoder<Vec<u8>>,
    after: StreamEncoder<Vec<u8>>,
    value: &T,
    r: Result<(), EncodeError>,
)
    requires
        before.inv(),
        encoded(before, after, value.wire(), r),
    ensures
        r is Ok,
        after.inv(),
        after.raw() == before.raw().append_all(value.wire()),
{
    value.law_chunks_within();
    law_vec_room(before);
    law_room_suffices(before, after, value.wire(), r);
}

/// So does encoding it into a vector that is lent.
pub proof fn law_lent_vec_encode<'a, T: Codec>(
    before: StreamEncoder<&'a mut Vec<u8>>,
    after: StreamEncoder<&'a mut Vec<u8>>,
    value: &T,
    r: Result<(), EncodeError>,
)
    requires
        before.inv(),
        encoded(before, after, value.wire(), r),
    ensures
        r is Ok,
        after.inv(),
        after.raw() == before.raw().append_all(value.wire()),
{
    value.law_chunks_within();
    before.law_written();
    law_room_suffices(before, after, value.wire(), r);
}

/// The destination of an encoder has room if it is a vector.
proof fn law_vec_room(encoder: StreamEncoder<Vec<u8>>)
    requires
        encoder.inv(),
    ensures
        forall|n: nat| #[trigger] encoder.has_room(n),
{
    encoder.law_written();
}

/// A chunk is written into a vector exactly if it does not exceed a region, and flushing
/// always succeeds.
pub proof fn law_vec_chunk(
    encoder: &mut StreamEncoder<Vec<u8>>,
    chunk: &[u8],
    r: Result<(), RegionError>,
    flushed: &mut StreamEncoder<Vec<u8>>,
    s: Result<(), RegionError>,
)
    requires
        old(encoder).inv(),
        call_ensures(
            <StreamEncoder<Vec<u8>> as EncodeBearer>::write,
            (encoder, chunk),
            r,
        ),
        old(flushed).inv(),
        call_ensures(StreamEncoder::<Vec<u8>>::flush, (flushed, ), s),
    ensures
        r is Ok <==> chunk@.len() <= 65535,
        r is Err ==> r->Err_0 == RegionError::OutOfBounds,
        r is Ok ==> final(encoder).raw() == old(encoder).raw().append(chunk@),
        r is Err ==> final(encoder).raw() == old(encoder).raw(),
        s is Ok,
        final(flushed).raw() == old(flushed).raw().close(),
{
    law_vec_room(*old(encoder));
    law_vec_room(*old(flushed));
    let open = old(encoder).raw().open;
    assert(old(encoder).has_room(region_room(open.len())));
    let open = old(flushed).raw().open;
    assert(old(flushed).has_room(region_room(open.len())));
}

/// Writing to any destination fails only for a chunk which exceeds a region or for want of
/// the room asked for the region pending.
pub proof fn law_chunk_refused<W: Writer>(
    encoder: &mut StreamEncoder<W>,
    chunk: &[u8],
    r: Result<(), RegionError>,
)
    requires
        old(encoder).inv(),
        call_ensures(<StreamEncoder<W> as EncodeBearer>::write, (encoder, chunk), r),
    ensures
        ({
            let open = old(encoder).raw().open;
            &&& chunk@.len() > 65535 ==> r == Err::<(), RegionError>(RegionError::OutOfBounds)
            &&& chunk@.len() <= 65535 && open.len() + chunk@.len() <= 65535 ==> r is Ok
            &&& chunk@.len() <= 65535 && old(encoder).destination().fits(
                region_room(open.len()),
            ) ==> r is Ok
            &&& chunk@.len() <= 65535 && r is Err ==> r->Err_0 is WriteFailure
            &&& r is Err ==> final(encoder).raw() == old(encoder).raw() && final(encoder).log()
                == old(encoder).log()
            &&& r is Ok ==> final(encoder).raw() == old(encoder).raw().append(chunk@)
        }),
{
    old(encoder).law_written();
    let open = old(encoder).raw().open;
    assert(old(encoder).has_room(region_room(open.len())) == old(encoder).destination().fits(
        region_room(open.len()),
    ));
}

/// A value is written completely or up to a chunk which could not be written.
pub proof fn law_encode_stops<T: Encode, B: EncodeBearer>(
    before: B,
    after: B,
    value: &T,
    r: Result<(), EncodeError>,
)
    requires
        encoded(before, after, value.wire(), r),
    ensures
        after.inv(),
        after.origin() == before.origin(),
        before.log().len() <= after.log().len(),
        forall|i: int| 0 <= i < before.log().len() ==> after.log()[i] == #[trigger] before.log()[i],
        r is Ok ==> after.raw() == before.raw().append_all(value.wire()),
        r is Ok ==> (forall|i: int|
            0 <= i < value.wire().len() ==> (#[trigger] value.wire()[i]).len() <= 65535),
        r is Err ==> r->Err_0 is BearerError,
        r is Err ==> exists|count: int|
            {
                &&& 0 <= count < value.wire().len()
                &&& after.raw() == before.raw().append_all(#[trigger] value.wire().take(count))
                &&& if value.wire()[count].len() > 65535 {
                    r->Err_0->BearerError_0 == RegionError::OutOfBounds
                } else {
                    &&& r->Err_0->BearerError_0 is WriteFailure
                    &&& after.raw().open.len() + value.wire()[count].len() > 65535
                    &&& !after.has_room(region_room(after.raw().open.len()))
                }
            },
{
    assert forall|i: int| 0 <= i < before.log().len() implies after.log()[i]
        == #[trigger] before.log()[i] by {
        assert(after.log().take(before.log().len() as int)[i] == before.log()[i]);
    }
    if r is Err {
        let count = choose|count: int| #[trigger]
            stopped(before, after, value.wire(), r->Err_0, count);
        assert(after.raw() == before.raw().append_all(value.wire().take(count)));
    }
}

/// A slice takes what there is room for, and what was taken is seen by its lender.
pub proof fn law_slice_takes<'a>(
    asked: &mut &'a mut [u8],
    n: usize,
    arena: Option<Vec<u8>>,
    filled: &mut &'a mut [u8],
    bytes: &[u8],
    count: usize,
)
    requires
        call_ensures(<&'a mut [u8] as Writer>::write_mut, (asked, n), arena),
        count <= bytes@.len() <= (**old(filled))@.len(),
        call_ensures(<&'a mut [u8] as Writer>::assume_init, (filled, bytes, count), ()),
    ensures
        arena is Some <==> n <= (**old(asked))@.len(),
        arena is Some ==> arena->0@.len() == n,
        (**final(filled))@ == (**old(filled))@.skip(count as int),
        final(*old(filled))@.take(count as int) == bytes@.take(count as int),
{
    assert(final(*old(filled))@.take(count as int) =~= bytes@.take(count as int));
}

/// A cursor takes what there is room for behind its position.
pub proof fn law_cursor_destination<T: StorageMut>(
    cursor: Cursor<T>,
    inner: T,
    n: nat,
    new: Cursor<T>,
)
    requires
        call_ensures(Cursor::<T>::new, (inner,), new),
    ensures
        new.inner() == inner,
        new.position() == 0,
        cursor.fits(n) <==> cursor.position() + n <= cursor.inner().held().len(),
        Writer::recorded(&cursor),
        Writer::dependable(&cursor),
        cursor.position() <= cursor.inner().held().len() ==> Writer::written(&cursor)
            == cursor.inner().held().take(cursor.position() as int),
{
}

/// A cursor replaces the bytes behind its position and moves past them. Nothing else of
/// the storage changes.
pub proof fn law_cursor_fills<T: StorageMut>(
    cursor: &mut Cursor<T>,
    bytes: &[u8],
    count: usize,
    at: int,
)
    requires
        count <= bytes@.len(),
        old(cursor).position() + bytes@.len() <= old(cursor).inner().held().len(),
        call_ensures(<Cursor<T> as Writer>::assume_init, (cursor, bytes, count), ()),
        0 <= at < old(cursor).inner().held().len(),
    ensures
        final(cursor).position() == old(cursor).position() + count,
        final(cursor).inner().held().len() == old(cursor).inner().held().len(),
        ({
            let start = old(cursor).position() as int;
            let held = final(cursor).inner().held();
            if start <= at < start + count {
                held[at] == bytes@[at - start]
            } else {
                held[at] == old(cursor).inner().held()[at]
            }
        }),
{
}

/// Storage holds the bytes it is made of.
pub proof fn law_storage<const N: usize>(
    slice: &[u8],
    vec: Vec<u8>,
    array: [u8; N],
    lent: &mut [u8],
)
    ensures
        slice.held() == slice@,
        vec.held() == vec@,
        array.held() == array@,
        <&mut [u8] as Storage>::held(&lent) == old(lent)@,
{
}

/// What a slice is as a source.
pub proof fn law_slice_source(slice: &[u8], lent: &mut [u8])
    ensures
        Reader::bytes(&slice) == slice@,
        !Reader::overrun(&slice),
        Reader::ready(&slice) == slice@.len(),
        Reader::faultless(&slice),
        <&mut [u8] as Reader>::bytes(&lent) == old(lent)@,
        !<&mut [u8] as Reader>::overrun(&lent),
        <&mut [u8] as Reader>::ready(&lent) == old(lent)@.len(),
        <&mut [u8] as Reader>::faultless(&lent),
{
}

/// A slice shows the bytes that come next, as many as it has, and gives them up one after
/// the other.
pub proof fn law_slice_gives<'a>(
    shown: &mut &'a [u8],
    n: usize,
    r: ReadResult<&[u8]>,
    moved: &mut &'a [u8],
    count: usize,
)
    requires
        call_ensures(<&'a [u8] as Reader>::read_borrow, (shown, n), r),
        count <= old(moved)@.len(),
        call_ensures(<&'a [u8] as Reader>::advance, (moved, count), ()),
    ensures
        n <= old(shown)@.len() ==> r is Ok && r->Ok_0@ == old(shown)@.take(n as int),
        n > old(shown)@.len() ==> r is Err && r->Err_0 == ReadError::OutOfBounds,
        final(shown)@ == old(shown)@,
        final(moved)@ == old(moved)@.skip(count as int),
{
}

/// A cursor shows the bytes behind its position, and nothing once it is past the end.
pub proof fn law_cursor_gives<T: Storage>(cursor: &mut Cursor<T>, n: usize, r: ReadResult<&[u8]>)
    requires
        call_ensures(<Cursor<T> as Reader>::read_borrow, (cursor, n), r),
    ensures
        ({
            let held = old(cursor).inner().held();
            let start = old(cursor).position();
            &&& start + n <= held.len() ==> r is Ok && r->Ok_0@ == held.subrange(
                start as int,
                start + n,
            )
            &&& start + n > held.len() ==> r is Err && r->Err_0 == ReadError::OutOfBounds
        }),
{
    let held = old(cursor).inner().held();
    let start = old(cursor).position();
    if start + n <= held.len() {
        assert(held.skip(start as int).take(n as int) =~= held.subrange(start as int, start + n));
    }
}

/// A cursor is moved as far as asked, both as a source and by itself.
pub proof fn law_cursor_moves<T: Storage>(cursor: &mut Cursor<T>, n: usize)
    requires
        old(cursor).position() + n <= usize::MAX,
        call_ensures(Cursor::<T>::advance, (cursor, n), ()),
    ensures
        final(cursor).position() == old(cursor).position() + n,
        final(cursor).inner() == old(cursor).inner(),
{
}

/// A new reader over a source shows the bytes the source has to give, and fails only if
/// there are too few or the source fails.
pub proof fn law_source_read<R: ByteSource>(
    source: R,
    capacity: usize,
    plain: CursorReader<R>,
    sized: CursorReader<R>,
    reader: &mut CursorReader<R>,
    n: usize,
    r: ReadResult<&[u8]>,
)
    requires
        call_ensures(CursorReader::<R>::new, (source,), plain),
        call_ensures(CursorReader::<R>::with_capacity, (source, capacity), sized),
        *old(reader) == plain || *old(reader) == sized,
        call_ensures(<CursorReader<R> as Reader>::read_borrow, (reader, n), r),
    ensures
        r is Ok ==> n <= source.remaining().len() && r->Ok_0@ == source.remaining().take(n as int),
        r is Err && source.reliable() ==> r->Err_0 == ReadError::OutOfBounds && n
            > source.remaining().len(),
        n <= source.remaining().len() && source.reliable() ==> r is Ok,
        final(reader).bytes() == source.remaining(),
{
    assert(Seq::<u8>::empty() + source.remaining() =~= source.remaining());
}

/// What a reader over a source gives up is gone, and nothing else.
pub proof fn law_source_moves<R: ByteSource>(reader: &mut CursorReader<R>, n: usize)
    requires
        n <= old(reader).kept().len(),
        call_ensures(<CursorReader<R> as Reader>::advance, (reader, n), ()),
    ensures
        final(reader).bytes() == old(reader).bytes().skip(n as int),
        old(reader).bytes() == old(reader).kept() + old(reader).source().remaining(),
        old(reader).faultless() == old(reader).source().reliable(),
{
}

/// A slice as a source gives the bytes it has, as many as fit.
pub proof fn law_slice_source_read<'a>(
    source: &mut &'a [u8],
    buf: &mut [u8],
    r: Result<usize, std::io::Error>,
)
    requires
        call_ensures(<&'a [u8] as ByteSource>::read, (source, buf), r),
    ensures
        r is Ok,
        ByteSource::remaining(old(source)) == old(source)@,
        ByteSource::reliable(old(source)),
        old(buf)@.len() > 0 && old(source)@.len() > 0 ==> r->Ok_0 > 0,
        r->Ok_0 <= old(source)@.len(),
        r->Ok_0 <= old(buf)@.len(),
        final(buf)@.take(r->Ok_0 as int) == old(source)@.take(r->Ok_0 as int),
        final(source)@ == old(source)@.skip(r->Ok_0 as int),
{
}

/// A vector receives all of the bytes written to it.
pub proof fn law_vec_receives(
    sink: &mut Vec<u8>,
    bytes: &[u8],
    r: Result<(), std::io::Error>,
    flushed: &mut Vec<u8>,
    s: Result<(), std::io::Error>,
)
    requires
        call_ensures(<Vec<u8> as ByteSink>::write_all, (sink, bytes), r),
        call_ensures(<Vec<u8> as ByteSink>::flush, (flushed, ), s),
    ensures
        r is Ok,
        final(sink)@ == old(sink)@ + bytes@,
        s is Ok,
        final(flushed)@ == old(flushed)@,
        ByteSink::received(old(sink)) == old(sink)@,
        ByteSink::settled(old(sink)) == old(sink)@,
        ByteSink::reliable(old(sink)),
{
}

/// What is written to a new writer over a destination waits for a flush, and then is
/// received by the destination after all it had received before.
pub proof fn law_sink_written<W: ByteSink>(
    sink: W,
    capacity: usize,
    plain: CursorWriter<W>,
    sized: CursorWriter<W>,
    filled: &mut CursorWriter<W>,
    bytes: &[u8],
    count: usize,
    flushed: &mut CursorWriter<W>,
    r: Result<(), WriteError>,
)
    requires
        call_ensures(CursorWriter::<W>::new, (sink,), plain),
        call_ensures(CursorWriter::<W>::with_capacity, (sink, capacity), sized),
        *old(filled) == plain || *old(filled) == sized,
        count <= bytes@.len(),
        call_ensures(<CursorWriter<W> as Writer>::assume_init, (filled, bytes, count), ()),
        *final(filled) == *old(flushed),
        call_ensures(<CursorWriter<W> as Writer>::flush, (flushed, ), r),
    ensures
        final(filled).sink() == sink,
        final(filled).pending() == bytes@.take(count as int),
        !final(filled).failed(),
        r is Ok ==> final(flushed).sink().received() == sink.received() + bytes@.take(count as int),
        r is Ok ==> final(flushed).pending().len() == 0 && !final(flushed).failed(),
        sink.reliable() ==> r is Ok,
        r is Err ==> final(flushed).failed() && final(flushed).pending() == bytes@.take(
            count as int,
        ),
{
    assert(Seq::<u8>::empty() + bytes@.take(count as int) =~= bytes@.take(count as int));
    if r is Ok {
        let received = final(flushed).sink().received();
        assert(received + final(flushed).pending() =~= received);
    }
}

/// A writer over a destination takes whatever it is asked to, and closing it sends what is
/// pending, unless the destination has failed before.
pub proof fn law_sink_closed<W: ByteSink>(writer: CursorWriter<W>, r: W, n: nat)
    requires
        call_ensures(CursorWriter::<W>::close, (writer,), r),
    ensures
        writer.fits(n),
        Writer::recorded(&writer),
        Writer::written(&writer) == writer.sink().received() + writer.pending(),
        Writer::dependable(&writer) == writer.sink().reliable(),
        writer.failed() ==> r == writer.sink(),
        !writer.failed() && writer.sink().reliable() ==> r.received() == writer.sink().received()
            + writer.pending(),
{
}

/// Flushing to any destination fails only for want of the room asked for the region pending,
/// and otherwise finishes it. Nothing is pending then.
pub proof fn law_flush_refused<W: Writer>(
    encoder: &mut StreamEncoder<W>,
    r: Result<(), RegionError>,
)
    requires
        old(encoder).inv(),
        call_ensures(StreamEncoder::<W>::flush, (encoder,), r),
    ensures
        ({
            let open = old(encoder).raw().open;
            &&& open.len() == 0 ==> r is Ok && final(encoder).log() == old(encoder).log()
            &&& old(encoder).destination().fits(region_room(open.len())) ==> r is Ok
            &&& r is Ok ==> final(encoder).raw() == old(encoder).raw().close()
            &&& r is Ok && open.len() > 0 ==> final(encoder).log().last().raw == open
                && final(encoder).log().drop_last() == old(encoder).log()
            &&& r is Err ==> r->Err_0 is WriteFailure && final(encoder).raw()
                == old(encoder).raw() && final(encoder).log() == old(encoder).log()
        }),
{
    old(encoder).law_written();
    let open = old(encoder).raw().open;
    assert(old(encoder).has_room(region_room(open.len())) == old(encoder).destination().fits(
        region_room(open.len()),
    ));
    if r is Ok && open.len() > 0 {
        let (before, after) = (old(encoder).log(), final(encoder).log());
        assert(after.drop_last() =~= after.take(before.len() as int));
    }
}

/// Bytes are copied to the start of a slice, the rest of which stays.
pub proof fn law_copied(src: &[u8], dst: &mut [u8])
    requires
        src@.len() <= old(dst)@.len(),
        call_ensures(write_to_uninit, (src, dst), ()),
    ensures
        final(dst)@.len() == old(dst)@.len(),
        final(dst)@.take(src@.len() as int) == src@,
        final(dst)@.skip(src@.len() as int) == old(dst)@.skip(src@.len() as int),
{
    assert(final(dst)@.take(src@.len() as int) =~= src@);
    assert(final(dst)@.skip(src@.len() as int) =~= old(dst)@.skip(src@.len() as int));
}

/// A single chunk is written as such.
pub proof fn law_chunk_written<B: EncodeBearer>(
    bearer: &mut B,
    chunk: &[u8],
    r: Result<(), EncodeError>,
)
    requires
        old(bearer).inv(),
        call_ensures(write_chunk::<B>, (bearer, chunk), r),
    ensures
        r is Ok ==> final(bearer).raw() == old(bearer).raw().append(chunk@),
        r is Err ==> final(bearer).raw() == old(bearer).raw(),
        chunk@.len() > 65535 ==> r == Err::<(), EncodeError>(
            EncodeError::BearerError(RegionError::OutOfBounds),
        ),
        chunk@.len() + old(bearer).raw().open.len() <= 65535 ==> r is Ok,
{
    let chunks = seq![chunk@];
    assert(chunks[0] == chunk@);
    assert(chunks.drop_last() =~= Seq::empty());
    assert(old(bearer).raw().append_all(chunks.drop_last()) == old(bearer).raw());
    if r is Err {
        let count = choose|count: int| #[trigger]
            stopped(*old(bearer), *final(bearer), chunks, r->Err_0, count);
        assert(chunks.take(0) =~= Seq::empty());
        assert(old(bearer).raw().append_all(chunks.take(0)) == old(bearer).raw());
    }
}

/// A reference stands for the destination of bytes it refers to.
pub proof fn law_lent_sink<T: ByteSink>(sink: &mut T)
    ensures
        <&mut T as ByteSink>::received(&sink) == (*old(sink)).received(),
        <&mut T as ByteSink>::settled(&sink) == (*old(sink)).settled(),
        <&mut T as ByteSink>::reliable(&sink) == (*old(sink)).reliable(),
{
}

} // verus!
