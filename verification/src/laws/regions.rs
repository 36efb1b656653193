//! What regions are made of and when they are accepted.

use vstd::prelude::*;

use super::numbers::law_le_value_short;
use crate::decode::{inlet_of, open_feed, DecodeBearer, ReadError, Reader, StreamDecoder};
use crate::encode::{Encode, EncodeBearer, StreamEncoder, Writer};
use crate::little_endian::{
    le_bytes,
    le_value,
    lemma_le_bytes_len,
    lemma_le_bytes_of_value,
    lemma_le_value_of_bytes,
    lemma_span_values,
};
use crate::lz4::{bound, compress_bound, lz4_expand, CompressStream, DecompressStream};
use crate::region::{
    accept_region,
    hash_region,
    head_region,
    header_of,
    lemma_log_push,
    log_bytes,
    max_encoded,
    max_encoded_size,
    pull,
    region_bytes,
    region_room,
    seed_from,
    write_region,
    xxhash64,
    Buffer,
    Buffers,
    Entry,
    Held,
    Inlet,
    Pull,
    Push,
    RegionBuffer,
    RegionError,
    RegionHeader,
    Seed,
    Size,
    StateSwitch,
};
use crate::stream::{lemma_append_all_add, within, Feed, RawStream};

verus! {

/// The hash of a region is that of all of its raw bytes under the seed, and zero if there
/// is no seed.
pub proof fn law_hash_covers_region(seed: Option<Seed>, raw: &[u8], r: u64)
    requires
        call_ensures(hash_region, (seed, raw), r),
    ensures
        seed matches Some(seed) ==> r == xxhash64(seed.inner, raw@),
        seed is None ==> r == 0,
{
}

/// Contents which differ in their hash differ in the header of their region, under any seed.
pub proof fn law_header_tells_contents(
    a: Seq<u8>,
    b: Seq<u8>,
    body: Seq<u8>,
    other: Seq<u8>,
    seed: Seed,
)
    requires
        xxhash64(seed.inner, a) != xxhash64(seed.inner, b),
    ensures
        header_of(a, body, Some(seed)).hash != header_of(b, other, Some(seed)).hash,
{
}

/// The seed given is the one hashes are made with, zero being a seed as any other.
pub proof fn law_seed_given(seed: Option<u64>)
    ensures
        seed is None <==> seed_from(seed) is None,
        seed matches Some(number) ==> seed_from(seed) == Some(Seed { inner: number }),
{
}

/// How a header is laid out: two bytes for the length of the body, two for the length of the
/// contents, the least significant first, and eight for the hash.
pub proof fn law_header_layout(header: RegionHeader)
    ensures
        ({
            let bytes = header.bytes();
            &&& bytes.len() == 12
            &&& bytes[0] + 256 * bytes[1] == header.compressed_size
            &&& bytes[2] + 256 * bytes[3] == header.alloc_size
            &&& bytes.skip(4) == le_bytes(header.hash as nat, 8)
        }),
{
    let bytes = header.bytes();
    let (c, a) = (header.compressed_size as nat, header.alloc_size as nat);
    lemma_le_bytes_len(c, 2);
    lemma_le_bytes_len(a, 2);
    lemma_le_bytes_len(header.hash as nat, 8);
    lemma_span_values();
    lemma_le_value_of_bytes(c, 2);
    lemma_le_value_of_bytes(a, 2);
    law_le_value_short(bytes[0], bytes[1]);
    law_le_value_short(bytes[2], bytes[3]);
    assert(seq![bytes[0], bytes[1]] =~= le_bytes(c, 2));
    assert(seq![bytes[2], bytes[3]] =~= le_bytes(a, 2));
    assert(bytes.skip(4) =~= le_bytes(header.hash as nat, 8));
}

/// How a region is laid out: the header, with the lower two bytes of either length, and then
/// the body.
pub proof fn law_region_layout(entry: Entry, seed: Option<Seed>)
    ensures
        ({
            let bytes = region_bytes(entry, seed);
            &&& bytes.len() == 12 + entry.body.len()
            &&& bytes[0] + 256 * bytes[1] == entry.body.len() % 65536
            &&& bytes[2] + 256 * bytes[3] == entry.raw.len() % 65536
            &&& seed is None ==> le_value(bytes.subrange(4, 12)) == 0
            &&& seed matches Some(seed) ==> le_value(bytes.subrange(4, 12))
                == xxhash64(seed.inner, entry.raw)
            &&& bytes.skip(12) == entry.body
        }),
{
    let bytes = region_bytes(entry, seed);
    let header = header_of(entry.raw, entry.body, seed);
    law_header_layout(header);
    assert(bytes.subrange(4, 12) =~= header.bytes().skip(4));
    lemma_span_values();
    lemma_le_value_of_bytes(header.hash as nat, 8);
    assert(bytes.skip(12) =~= entry.body);
}

/// Regions are written one after the other.
pub proof fn law_log_concatenates(a: Seq<Entry>, b: Seq<Entry>, entry: Entry, seed: Option<Seed>)
    ensures
        log_bytes(Seq::empty(), seed) == Seq::<u8>::empty(),
        log_bytes(seq![entry], seed) == region_bytes(entry, seed),
        log_bytes(a + b, seed) == log_bytes(a, seed) + log_bytes(b, seed),
    decreases b.len(),
{
    assert(seq![entry].drop_last() =~= Seq::empty());
    assert(log_bytes(seq![entry].drop_last(), seed) =~= Seq::empty());
    assert(log_bytes(seq![entry], seed) =~= region_bytes(entry, seed));
    if b.len() == 0 {
        assert(a + b =~= a);
        assert(log_bytes(a + b, seed) =~= log_bytes(a, seed) + log_bytes(b, seed));
    } else {
        law_log_concatenates(a, b.drop_last(), entry, seed);
        assert((a + b).drop_last() =~= a + b.drop_last());
        assert(log_bytes(a + b, seed) =~= log_bytes(a, seed) + log_bytes(b, seed));
    }
}

/// Every region is compressed with the contents of the region before it at hand, the first
/// one with nothing, and expands to its contents given any room for them.
pub proof fn law_regions_linked<W: Writer>(encoder: StreamEncoder<W>, at: int, limit: nat)
    requires
        encoder.inv(),
        0 <= at < encoder.log().len(),
        encoder.log()[at].raw.len() <= limit <= 65535,
    ensures
        0 < encoder.log()[at].raw.len() <= 65535,
        at == 0 ==> lz4_expand(Seq::empty(), encoder.log()[at].body, limit) == Some(
            encoder.log()[at].raw,
        ),
        at > 0 ==> lz4_expand(encoder.log()[at - 1].raw, encoder.log()[at].body, limit) == Some(
            encoder.log()[at].raw,
        ),
        encoder.raw().regions[at] == encoder.log()[at].raw,
{
    encoder.law_written();
}

/// When a region is pulled, and what is refused.
///
/// The header takes 12 bytes, its first two numbers tell how long the body is and how much
/// room there has to be. The body has to be there, to expand to something within the
/// room there is, and all of what it expands to has to have the hash of the header.
/// Whatever is refused is not consumed.
pub proof fn law_pull(inlet: Inlet, buf: Held)
    ensures
        ({
            let bytes = inlet.bytes;
            let size = 12 + bytes[0] + 256 * bytes[1];
            let told = (bytes[2] + 256 * bytes[3]) as nat;
            let room = if buf.cap < told {
                told
            } else {
                buf.cap
            };
            let raw = lz4_expand(inlet.history, bytes.subrange(12, size), room);
            let hash = le_value(bytes.subrange(4, 12));
            let pulled = pull(inlet, buf);
            if bytes.len() < 12 {
                &&& pulled.result == Err::<(), RegionError>(
                    RegionError::ReadFailure(ReadError::OutOfBounds),
                )
                &&& pulled.buf == buf
                &&& pulled.inlet == inlet
            } else if bytes.len() < size {
                &&& pulled.result == Err::<(), RegionError>(RegionError::InvalidSizeHint)
                &&& pulled.buf == buf
                &&& pulled.inlet == inlet
            } else if raw is None || raw->0.len() == 0 {
                &&& pulled.result == Err::<(), RegionError>(RegionError::MalformedRegion)
                &&& pulled.buf.bytes.len() == 0
                &&& pulled.buf.cap == room
                &&& pulled.inlet == inlet
            } else {
                let intact = match inlet.seed {
                    Some(seed) => xxhash64(seed.inner, raw->0) == hash,
                    None => hash == 0,
                };
                &&& intact <==> pulled.result is Ok
                &&& !intact ==> pulled.result == Err::<(), RegionError>(RegionError::InvalidHash)
                &&& pulled.buf.bytes == raw->0
                &&& pulled.buf.cap == room
                &&& pulled.inlet.history == raw->0
                &&& pulled.inlet.seed == inlet.seed
                &&& pulled.inlet.bytes == (if intact {
                    bytes.skip(size)
                } else {
                    bytes
                })
            }
        }),
{
    let bytes = inlet.bytes;
    if bytes.len() >= 12 {
        let first = bytes.take(12);
        law_le_value_short(bytes[0], bytes[1]);
        law_le_value_short(bytes[2], bytes[3]);
        assert(first.subrange(0, 2) =~= seq![bytes[0], bytes[1]]);
        assert(first.subrange(2, 4) =~= seq![bytes[2], bytes[3]]);
        assert(first.subrange(4, 12) =~= bytes.subrange(4, 12));
        lemma_span_values();
        lemma_le_bytes_of_value(bytes.subrange(4, 12));
    }
}

/// The header of a region is read where [`law_header_layout`] puts it.
pub proof fn law_header_read(bytes: &[u8], r: RegionHeader)
    requires
        bytes@.len() >= 12,
        call_ensures(RegionHeader::from_bytes, (bytes,), r),
    ensures
        r.compressed_size == bytes@[0] + 256 * bytes@[1],
        r.alloc_size == bytes@[2] + 256 * bytes@[3],
        r.hash == le_value(bytes@.subrange(4, 12)),
{
    law_le_value_short(bytes@[0], bytes@[1]);
    law_le_value_short(bytes@[2], bytes@[3]);
    assert(bytes@.subrange(0, 2) =~= seq![bytes@[0], bytes@[1]]);
    assert(bytes@.subrange(2, 4) =~= seq![bytes@[2], bytes@[3]]);
    lemma_span_values();
    lemma_le_bytes_of_value(bytes@.subrange(4, 12));
}

/// A header is made of the lengths and the hash, and written before the body.
pub proof fn law_region_written(
    raw_len: usize,
    body: &[u8],
    hash: u64,
    header: RegionHeader,
    arena: &mut [u8],
)
    requires
        call_ensures(head_region, (raw_len, body, hash), header),
        12 + body@.len() <= old(arena)@.len(),
        call_ensures(write_region, (arena, header, body), ()),
    ensures
        ({
            let bytes = final(arena)@;
            &&& bytes.len() == old(arena)@.len()
            &&& bytes[0] + 256 * bytes[1] == body@.len() % 65536
            &&& bytes[2] + 256 * bytes[3] == raw_len % 65536
            &&& bytes.subrange(4, 12) == le_bytes(hash as nat, 8)
            &&& bytes.subrange(12, 12 + body@.len() as int) == body@
            &&& bytes.skip(12 + body@.len() as int) == old(arena)@.skip(12 + body@.len() as int)
        }),
{
    law_header_layout(header);
    let bytes = final(arena)@;
    assert(bytes.subrange(4, 12) =~= header.bytes().skip(4));
    assert(bytes.subrange(12, 12 + body@.len() as int) =~= body@);
    assert(bytes.skip(12 + body@.len() as int) =~= old(arena)@.skip(12 + body@.len() as int));
}

/// A region is accepted for what it expanded to, if that has the hash of the header.
pub proof fn law_region_judged(
    header: RegionHeader,
    raw: Option<Vec<u8>>,
    hash: u64,
    r: Result<Vec<u8>, RegionError>,
)
    requires
        call_ensures(accept_region, (header, raw, hash), r),
    ensures
        r is Ok <==> raw is Some && hash == header.hash,
        r is Ok ==> raw == Some(r->Ok_0),
        r is Err && raw is None ==> r->Err_0 == RegionError::MalformedRegion,
        r is Err && raw is Some ==> r->Err_0 == RegionError::InvalidHash,
{
}

/// How much room is asked for: one byte more for every 255, 16 besides and the header.
pub proof fn law_room_asked(len: nat)
    requires
        len <= 65535,
    ensures
        region_room(len) == len + len / 255 + 28,
        bound(len) == len + len / 255 + 16,
{
}

/// The bound of compression, nothing beyond the longest input admitted.
pub proof fn law_compress_bound(size: usize, r: usize)
    requires
        call_ensures(compress_bound, (size,), r),
    ensures
        size <= 0x7E00_0000 ==> r == size + size / 255 + 16,
        size > 0x7E00_0000 ==> r == 0,
{
}

/// The size announced grows by a full region with a header for every full region more, and
/// is that of a single region for what remains.
pub proof fn law_max_encoded_size_steps(size: nat)
    ensures
        max_encoded(size + 65535) == max_encoded(size) + 65820,
        max_encoded(0) == 16,
        0 < size < 65535 ==> max_encoded(size) == size + size / 255 + 28,
{
    let full = size / 65535;
    assert((size + 65535) / 65535 == full + 1);
    assert((size + 65535) % 65535 == size % 65535);
    assert(bound(65535) == 65808);
    assert((full + 1) * bound(65535) == full * bound(65535) + 65808) by (nonlinear_arith)
        requires
            bound(65535) == 65808,
    ;
    assert(0nat * bound(65535) == 0) by (nonlinear_arith);
}

/// The function announces that size.
pub proof fn law_max_encoded_size_returned(size: usize, r: usize)
    requires
        max_encoded(size as nat) <= usize::MAX,
        call_ensures(max_encoded_size, (size,), r),
    ensures
        r == max_encoded(size as nat),
{
}

/// The capacity hinted: none for a negative count, that of two regions for a full hint.
pub proof fn law_size_hinted(count: isize, manual: usize, full: usize)
    requires
        call_ensures(Size::<()>::cap, (&Size::Manual(count),), manual),
        call_ensures(Size::<()>::cap, (&Size::Full,), full),
    ensures
        count >= 0 ==> manual == count,
        count < 0 ==> manual == 0,
        full == 131070,
{
}

/// A hint derived from a value is the size the value tells of itself.
pub proof fn law_size_derived<T: Encode>(value: T, hinted: usize, told: usize)
    requires
        value.size_hint() <= usize::MAX,
        call_ensures(Size::<T>::cap, (&Size::Auto(value),), hinted),
        call_ensures(T::size_of, (&value,), told),
    ensures
        hinted == told,
{
}

/// Buffers made for `cap` bytes have that capacity together, up to a region each.
pub proof fn law_buffers_fresh(cap: nat)
    ensures
        ({
            let buffers = Buffers::fresh(cap);
            &&& buffers.curr.bytes.len() == 0
            &&& cap <= 65535 ==> buffers.curr.cap == cap && buffers.prev is None
            &&& cap > 65535 ==> buffers.curr.cap == 65535 && buffers.prev is Some
                && buffers.prev->0.bytes.len() == 0
            &&& 65535 < cap <= 131070 ==> buffers.curr.cap + buffers.prev->0.cap == cap
            &&& cap > 131070 ==> buffers.prev->0.cap == 65535
        }),
{
}

/// Swapping changes the places of the two buffers. One that is still to be made has a
/// quarter of what the other holds, or 256 bytes if that is little.
pub proof fn law_buffers_swap(buffers: Buffers)
    ensures
        buffers.swap().curr == buffers.spare(),
        buffers.swap().spare() == buffers.curr,
        buffers.swap().swap().curr == buffers.curr,
        buffers.swap().swap().spare() == buffers.spare(),
        buffers.prev matches Some(prev) ==> buffers.spare() == prev,
        buffers.prev is None ==> {
            let held = buffers.curr.bytes.len();
            &&& buffers.spare().bytes.len() == 0
            &&& held > 4096 ==> buffers.spare().cap == held / 4
            &&& held <= 4096 ==> buffers.spare().cap == 256
        },
{
}

/// What is written to a buffer follows what it holds, and the capacity grows as far as
/// necessary. Emptying a buffer keeps the capacity, up to that of a region if it is for
/// another stream.
pub proof fn law_buffers_change(buffers: Buffers, src: Seq<u8>)
    ensures
        buffers.extended(src).curr.bytes == buffers.curr.bytes + src,
        buffers.extended(src).curr.cap >= buffers.curr.bytes.len() + src.len(),
        buffers.extended(src).curr.cap == buffers.curr.cap || buffers.extended(src).curr.cap
            == buffers.curr.bytes.len() + src.len() > buffers.curr.cap,
        buffers.extended(src).prev == buffers.prev,
        buffers.passed().curr.bytes.len() == 0,
        buffers.passed().curr.cap == buffers.curr.cap,
        buffers.passed().prev == buffers.prev,
        buffers.cleared().curr.bytes.len() == 0,
        buffers.curr.cap <= 65535 ==> buffers.cleared().curr.cap == buffers.curr.cap,
        buffers.curr.cap > 65535 ==> buffers.cleared().curr.cap == 65535,
        buffers.prev is None <==> buffers.cleared().prev is None,
        buffers.prev is Some ==> buffers.cleared().prev->0.bytes.len() == 0,
        buffers.prev is Some && buffers.prev->0.cap <= 65535 ==> buffers.cleared().prev->0.cap
            == buffers.prev->0.cap,
{
}

/// What is written to a new region buffer is read from it, once.
pub proof fn law_region_buffer_read_write(
    cap: usize,
    new: RegionBuffer,
    writing: &mut RegionBuffer,
    src: &[u8],
    reading: &mut RegionBuffer,
    n: usize,
    r: Option<&[u8]>,
)
    requires
        call_ensures(RegionBuffer::new, (cap,), new),
        *old(writing) == new,
        call_ensures(RegionBuffer::write, (writing, src), ()),
        *final(writing) == *old(reading),
        call_ensures(RegionBuffer::read, (reading, n), r),
    ensures
        n <= src@.len() ==> r is Some && r->0@ == src@.take(n as int),
        n > src@.len() ==> r is None,
{
    assert(Seq::<u8>::empty() + src@ =~= src@);
}

/// What an encoder does with a chunk: the raw bytes stay in order, and a region ends only
/// where the chunk that follows would make it longer than 65535 bytes.
pub proof fn law_chunk_appended(raw: RawStream, chunk: Seq<u8>)
    ensures
        raw.open.len() + chunk.len() <= 65535 ==> raw.append(chunk).regions == raw.regions
            && raw.append(chunk).open == raw.open + chunk,
        raw.open.len() + chunk.len() > 65535 ==> raw.append(chunk).regions == raw.regions.push(
            raw.open,
        ) && raw.append(chunk).open == chunk,
        raw.open.len() == 0 ==> raw.close() == raw,
        raw.open.len() > 0 ==> raw.close().regions == raw.regions.push(raw.open),
        raw.close().open.len() == 0,
        RawStream::empty().regions.len() == 0,
        RawStream::empty().open.len() == 0,
{
}

/// Chunks are written one by one.
pub proof fn law_chunks_appended(raw: RawStream, a: Seq<Seq<u8>>, b: Seq<Seq<u8>>, chunk: Seq<u8>)
    ensures
        raw.append_all(Seq::empty()) == raw,
        raw.append_all(seq![chunk]) == raw.append(chunk),
        raw.append_all(a + b) == raw.append_all(a).append_all(b),
{
    assert(seq![chunk].drop_last() =~= Seq::empty());
    assert(raw.append_all(seq![chunk].drop_last()) == raw);
    lemma_append_all_add(raw, a, b);
}

/// A chunk is admitted exactly if it does not exceed a region.
pub proof fn law_within(chunks: Seq<Seq<u8>>, chunk: Seq<u8>)
    ensures
        within(Seq::empty()),
        within(chunks.push(chunk)) <==> within(chunks)
            && chunk.len() <= 65535,
{
    let more = chunks.push(chunk);
    if within(more) {
        assert(more[chunks.len() as int] == chunk);
        assert forall|i: int| 0 <= i < chunks.len() implies (#[trigger] chunks[i]).len()
            <= 65535 by {
            assert(more[i] == chunks[i]);
        }
    }
    if within(chunks) && chunk.len() <= 65535 {
        assert forall|i: int| 0 <= i < more.len() implies (#[trigger] more[i]).len() <= 65535 by {
            if i < chunks.len() {
                assert(more[i] == chunks[i]);
            }
        }
    }
}

/// What a decoder reads: the bytes of the current region as long as they suffice, else the
/// start of the next one. Bytes are read once and in order. If the next region can not be
/// pulled, those of the current one are still there.
pub proof fn law_feed_read(feed: Feed, n: nat)
    requires
        feed.ready(),
    ensures
        ({
            let (r, after) = feed.read(n);
            let pulled = pull(feed.inlet, feed.prev);
            if n <= feed.unread().len() {
                &&& r == Ok::<Seq<u8>, RegionError>(feed.unread().take(n as int))
                &&& after.unread() == feed.unread().skip(n as int)
                &&& after.inlet == feed.inlet
                &&& after.prev == feed.prev
            } else if pulled.result is Err {
                &&& r == Err::<Seq<u8>, RegionError>(pulled.result->Err_0)
                &&& after.unread() == feed.unread()
                &&& after.inlet == pulled.inlet
                &&& after.prev == pulled.buf
            } else if n <= pulled.buf.bytes.len() {
                &&& r == Ok::<Seq<u8>, RegionError>(pulled.buf.bytes.take(n as int))
                &&& after.unread() == pulled.buf.bytes.skip(n as int)
                &&& after.inlet == pulled.inlet
                &&& after.prev == feed.curr
            } else {
                &&& r == Err::<Seq<u8>, RegionError>(RegionError::OutOfBounds)
                &&& after.unread() == pulled.buf.bytes
                &&& after.inlet == pulled.inlet
                &&& after.prev == feed.curr
            }
        }),
{
    let (r, after) = feed.read(n);
    if n <= feed.unread().len() {
        assert(after.unread() =~= feed.unread().skip(n as int));
    } else if pull(feed.inlet, feed.prev).result is Ok {
        let raw = pull(feed.inlet, feed.prev).buf.bytes;
        assert(raw.skip(0) =~= raw);
    }
}

/// Reading in two steps what the current region holds is reading it at once.
pub proof fn law_feed_read_splits(feed: Feed, a: nat, b: nat)
    requires
        feed.ready(),
        a + b <= feed.unread().len(),
    ensures
        feed.read(a).0 is Ok,
        feed.read(a).1.read(b).0 is Ok,
        feed.read(a + b).0 == Ok::<Seq<u8>, RegionError>(
            feed.read(a).0->Ok_0 + feed.read(a).1.read(b).0->Ok_0,
        ),
        feed.read(a + b).1 == feed.read(a).1.read(b).1,
{
    let unread = feed.unread();
    law_feed_read(feed, a);
    assert(unread.take((a + b) as int) =~= unread.take(a as int) + unread.skip(a as int).take(
        b as int,
    ));
}

/// A decoder is opened over a source exactly if the first region of it can be pulled, with
/// nothing before it, and then has that region before it.
pub proof fn law_decoder_opened(bytes: Seq<u8>, seed: Option<u64>, buffers: Buffers)
    ensures
        ({
            let inlet = Inlet {
                history: Seq::empty(),
                bytes,
                seed: match seed {
                    Some(number) => Some(Seed { inner: number }),
                    None => None,
                },
            };
            let pulled = pull(inlet, buffers.curr);
            let r = open_feed(bytes, seed, buffers);
            &&& r is Ok <==> pulled.result is Ok
            &&& r is Err ==> r->Err_0 == pulled.result->Err_0
            &&& r is Ok ==> {
                &&& r->Ok_0.unread() == pulled.buf.bytes
                &&& r->Ok_0.inlet == pulled.inlet
                &&& r->Ok_0.curr == pulled.buf
                &&& buffers.prev matches Some(prev) ==> r->Ok_0.prev == prev
            }
        }),
{
    let pulled = pull(inlet_of(bytes, seed), buffers.curr);
    assert(pulled.buf.bytes.skip(0) =~= pulled.buf.bytes);
}

/// A decoder over a slice is opened as its bytes are, with the buffers of the size given.
pub proof fn law_decoder_of_slice(
    src: &[u8],
    size: usize,
    seed: Option<u64>,
    r: Result<StreamDecoder<&[u8]>, RegionError>,
)
    requires
        call_ensures(StreamDecoder::<&[u8]>::new, (src, size, seed), r),
    ensures
        ({
            let opened = open_feed(src@, seed, Buffers::fresh(size as nat));
            &&& r is Ok <==> opened is Ok
            &&& r is Err ==> opened->Err_0 == r->Err_0
            &&& r is Ok ==> r->Ok_0.feed() == opened->Ok_0
            &&& r is Ok ==> r->Ok_0.faultless()
        }),
{
}

/// A seed is the number it is made of, and hashes bytes under it.
pub proof fn law_seed(
    number: u64,
    made: Seed,
    converted: Seed,
    default: Seed,
    seed: Seed,
    bytes: &[u8],
    hash: u64,
)
    requires
        call_ensures(Seed::new, (number,), made),
        call_ensures(<Seed as From<u64>>::from, (number,), converted),
        call_ensures(<Seed as Default>::default, (), default),
        call_ensures(Seed::hash, (&seed, bytes), hash),
    ensures
        made.inner == number,
        converted.inner == number,
        default.inner == 0,
        hash == xxhash64(seed.inner, bytes@),
{
}

/// A count given by hand is hinted as it is, as far as it can be.
pub proof fn law_size_manual(count: usize, manual: Size, cap: usize, full: Size, default: Size)
    requires
        call_ensures(Size::<()>::manual, (count,), manual),
        call_ensures(Size::<()>::cap, (&manual,), cap),
        call_ensures(Size::<()>::full, (), full),
        call_ensures(<Size as Default>::default, (), default),
    ensures
        count <= isize::MAX ==> cap == count,
        count > isize::MAX ==> cap == 0,
        full is Full,
        default == Size::<()>::Manual(4096),
{
}

/// How much of a region buffer is left to write and to read.
pub proof fn law_region_buffer_left(buffer: RegionBuffer, cap: usize, len: usize)
    requires
        buffer.inv(),
        buffer.cursor() <= buffer.curr().len(),
        call_ensures(RegionBuffer::remaining_cap, (&buffer,), cap),
        call_ensures(RegionBuffer::remaining_len, (&buffer,), len),
    ensures
        buffer.curr().len() + cap == 65535,
        buffer.cursor() + len == buffer.curr().len(),
{
}

/// A region buffer that is cleared is empty, one that is swapped has the contents of the
/// buffers in each other's place.
pub proof fn law_region_buffer_swapped(cleared: &mut RegionBuffer, swapped: &mut RegionBuffer)
    requires
        call_ensures(RegionBuffer::clear, (cleared,), ()),
        call_ensures(RegionBuffer::swap, (swapped,), ()),
    ensures
        final(cleared).curr().len() == 0,
        final(cleared).prev().len() == 0,
        final(cleared).cursor() == 0,
        final(swapped).curr() == old(swapped).prev(),
        final(swapped).prev() == old(swapped).curr(),
        final(swapped).cursor() == old(swapped).cursor(),
{
}

/// A pull starts at the source given, with the seed given and nothing before it.
pub proof fn law_pull_made<R: Reader>(
    src: R,
    seed: Option<u64>,
    made: Pull<R>,
    told: Option<Seed>,
    given: R,
)
    requires
        call_ensures(Pull::<R>::new, (src, seed), made),
        call_ensures(Pull::<R>::seed, (&made,), told),
        call_ensures(Pull::<R>::into_inner, (made,), given),
    ensures
        made.inlet().bytes == src.bytes(),
        made.inlet().history.len() == 0,
        seed is None <==> told is None,
        seed matches Some(number) ==> told->0.inner == number,
        made.inlet().seed == told,
        given == src,
        made.faultless() == src.faultless(),
{
}

/// A push starts at the destination given, with the seed given and nothing written.
pub proof fn law_push_made<W: Writer>(
    dst: W,
    seed: Option<u64>,
    made: Push<W>,
    told: Option<Seed>,
    given: W,
)
    requires
        call_ensures(Push::<W>::new, (dst, seed), made),
        call_ensures(Push::<W>::seed, (&made,), told),
        call_ensures(Push::<W>::into_inner, (made,), given),
    ensures
        made.destination() == dst,
        made.log().len() == 0,
        made.base() == dst.written(),
        seed is None <==> told is None,
        seed matches Some(number) ==> told->0.inner == number,
        given == dst,
{
}

/// A pass of a buffer becomes one more region of the stream, whose bytes follow those the
/// destination held, or fails for want of room and changes nothing. An empty buffer is
/// passed without any effect.
pub proof fn law_push_pass<W: Writer>(
    push: &mut Push<W>,
    buf: &mut Buffer,
    r: Result<(), RegionError>,
)
    requires
        old(push).inv(),
        old(buf)@.sound(),
        call_ensures(<Push<W> as StateSwitch>::pass, (push, buf), r),
    ensures
        old(buf)@.bytes.len() == 0 ==> r is Ok && *final(push) == *old(push),
        old(buf)@.bytes.len() > 0 ==> (r is Ok <==> old(push).destination().fits(
            old(buf)@.bytes.len() + old(buf)@.bytes.len() / 255 + 28,
        )),
        r is Ok ==> final(buf)@.bytes.len() == 0,
        r is Err ==> r->Err_0 is WriteFailure && final(buf)@ == old(buf)@ && final(push).log()
            == old(push).log(),
        r is Ok && old(buf)@.bytes.len() > 0 ==> {
            let entry = final(push).log().last();
            &&& entry.raw == old(buf)@.bytes
            &&& final(push).log() == old(push).log().push(entry)
            &&& entry.body.len() <= entry.raw.len() + entry.raw.len() / 255 + 16
            &&& old(push).destination().recorded() ==> final(push).destination().written()
                == old(push).destination().written() + region_bytes(entry, old(push).hash_seed())
        },
{
    if r is Ok && old(buf)@.bytes.len() > 0 {
        let (before, after) = (old(push).log(), final(push).log());
        let entry = after.last();
        assert(after =~= before.push(entry));
        assert(after[before.len() as int] == entry);
        lemma_log_push(before, entry, old(push).hash_seed());
        assert(old(push).base() + log_bytes(before, old(push).hash_seed()) + region_bytes(
            entry,
            old(push).hash_seed(),
        ) =~= old(push).base() + log_bytes(after, old(push).hash_seed()));
    }
}

/// A pass of a source is a pull from it, as long as the source does not fail otherwise than
/// for want of bytes.
pub proof fn law_pull_pass<R: Reader>(
    from: &mut Pull<R>,
    buf: &mut Buffer,
    r: Result<(), RegionError>,
)
    requires
        old(buf)@.sound(),
        old(from).faultless(),
        call_ensures(<Pull<R> as StateSwitch>::pass, (from, buf), r),
    ensures
        r == pull(old(from).inlet(), old(buf)@).result,
        final(buf)@ == pull(old(from).inlet(), old(buf)@).buf,
        final(from).inlet() == pull(old(from).inlet(), old(buf)@).inlet,
        final(from).faultless(),
{
}

/// A decoder reads what its feed gives, and fails otherwise only if its source does while
/// the next region is needed.
pub proof fn law_decoder_read<R: Reader>(
    decoder: &mut StreamDecoder<R>,
    n: usize,
    r: Result<&[u8], RegionError>,
)
    requires
        old(decoder).inv(),
        call_ensures(<StreamDecoder<R> as DecodeBearer>::read, (decoder, n), r),
    ensures
        n <= old(decoder).feed().unread().len() ==> r is Ok && r->Ok_0@
            == old(decoder).feed().unread().take(n as int),
        r is Ok ==> r->Ok_0@.len() == n && old(decoder).feed().read(n as nat).0 == Ok::<
            Seq<u8>,
            RegionError,
        >(r->Ok_0@),
        r is Err && old(decoder).faultless() ==> old(decoder).feed().read(n as nat).0 == Err::<
            Seq<u8>,
            RegionError,
        >(r->Err_0),
        r is Ok || old(decoder).faultless() ==> final(decoder).feed() == old(decoder).feed().read(
            n as nat,
        ).1,
        final(decoder).faultless() == old(decoder).faultless(),
{
    if n <= old(decoder).feed().unread().len() {
        law_feed_read(old(decoder).feed(), n as nat);
    }
}

/// Buffers that are given back are those of the encoder or decoder.
pub proof fn law_buffers_given_back<W: Writer, R: Reader>(
    encoder: StreamEncoder<W>,
    used: RegionBuffer,
    decoder: StreamDecoder<R>,
    read: RegionBuffer,
)
    requires
        encoder.inv(),
        call_ensures(StreamEncoder::<W>::into_raw, (encoder,), used),
        decoder.inv(),
        call_ensures(StreamDecoder::<R>::into_raw, (decoder,), read),
    ensures
        used.curr() == encoder.raw().open,
        used.buffers() == encoder.buffers(),
        read.buffers().curr == decoder.feed().curr,
        read.cursor() == decoder.feed().cursor,
{
}

/// Both ends of a compressed stream keep the contents of the last block, the whole of it, and
/// a block is expanded with them at hand. One that expands to nothing is refused.
pub proof fn law_compressed_stream(
    empty: CompressStream,
    nothing: DecompressStream,
    kept: &mut CompressStream,
    src: &[u8],
    stream: &CompressStream,
    block: Vec<u8>,
    expanding: &mut DecompressStream,
    read: &[u8],
    limit: usize,
    r: Option<Vec<u8>>,
)
    requires
        call_ensures(CompressStream::new, (), empty),
        call_ensures(DecompressStream::new, (), nothing),
        call_ensures(CompressStream::keep, (kept, src), ()),
        src@.len() <= 65535,
        stream.history().len() <= 65535,
        call_ensures(CompressStream::compress, (stream, src), block),
        read@.len() <= 65535,
        limit <= 65535,
        call_ensures(DecompressStream::decompress, (expanding, read, limit), r),
    ensures
        empty.history().len() == 0,
        nothing.history().len() == 0,
        final(kept).history() == src@,
        lz4_expand(stream.history(), block@, src@.len()) == Some(src@),
        lz4_expand(stream.history(), block@, 65535) == Some(src@),
        match lz4_expand(old(expanding).history(), read@, limit as nat) {
            Some(raw) => if raw.len() == 0 {
                r is None
            } else {
                r is Some && r->0@ == raw && final(expanding).history() == raw
            },
            None => r is None,
        },
        r is None ==> final(expanding).history() == old(expanding).history(),
{
}

} // verus!
