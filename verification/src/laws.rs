//! What a decoder reads back of what an encoder has written.

use vstd::prelude::*;

use crate::codec::Codec;
use crate::decode::{inlet_of, open_feed, DecodeError};
use crate::encode::{
    encoded,
    raw_regions,
    sent,
    stopped,
    EncodeBearer,
    EncodeError,
    StreamEncoder,
    Writer,
};
use crate::lz4::{bound, expands};
use crate::region::{
    chained,
    header_of,
    history_at,
    law_header_round_trip,
    lemma_log_len,
    log_bytes,
    log_len,
    max_encoded,
    pull,
    region_bytes,
    region_hash,
    region_room,
    seed_from,
    Buffers,
    Entry,
    Held,
    Inlet,
    RegionError,
    Seed,
    HEADER_SIZE,
    REGION_SIZE,
    SAFE_SIZE,
};
use crate::stream::{lemma_append_all_add, within, Feed, RawStream};

pub mod characters;
pub mod ends;
pub mod errors;
pub mod frames;
pub mod integers;
pub mod maps;
pub mod numbers;
pub mod plans;
pub mod regions;
pub mod streams;
pub mod tuples;
pub mod values;

verus! {

/// Raw bytes a decoder has before it: the rest of a region and the regions after it.
#[verifier::ext_equal]
pub struct Tail {
    pub cur: Seq<u8>,
    pub rest: Seq<Seq<u8>>,
}

/// Whether `bytes` start with `chunk`.
pub open spec fn starts_with(bytes: Seq<u8>, chunk: Seq<u8>) -> bool {
    chunk.len() <= bytes.len() && bytes.take(chunk.len() as int) == chunk
}

impl Tail {
    /// What remains after `chunk`, if it comes next. It does not reach over the end of a
    /// region.
    pub open spec fn take(self, chunk: Seq<u8>) -> Option<Tail> {
        if starts_with(self.cur, chunk) {
            Some(Tail { cur: self.cur.skip(chunk.len() as int), rest: self.rest })
        } else if self.cur.len() == 0 && self.rest.len() > 0 && starts_with(self.rest[0], chunk) {
            Some(Tail { cur: self.rest[0].skip(chunk.len() as int), rest: self.rest.skip(1) })
        } else {
            None
        }
    }

    /// What remains after `chunks`, if they come next.
    pub open spec fn take_all(self, chunks: Seq<Seq<u8>>) -> Option<Tail>
        decreases chunks.len(),
    {
        if chunks.len() == 0 {
            Some(self)
        } else {
            match self.take_all(chunks.drop_last()) {
                Some(tail) => tail.take(chunks.last()),
                None => None,
            }
        }
    }
}

/// Taking the chunks of two values one after the other is taking their concatenation.
pub proof fn lemma_take_all_add(tail: Tail, a: Seq<Seq<u8>>, b: Seq<Seq<u8>>)
    ensures
        tail.take_all(a + b) == (match tail.take_all(a) {
            Some(after) => after.take_all(b),
            None => None,
        }),
    decreases b.len(),
{
    if b.len() == 0 {
        assert(a + b =~= a);
    } else {
        lemma_take_all_add(tail, a, b.drop_last());
        assert((a + b).drop_last() =~= a + b.drop_last());
        assert((a + b).last() == b.last());
    }
}

/// Taking a single chunk.
pub proof fn lemma_take_one(tail: Tail, chunk: Seq<u8>)
    ensures
        tail.take_all(seq![chunk]) == tail.take(chunk),
{
    assert(seq![chunk].drop_last() =~= Seq::<Seq<u8>>::empty());
    assert(tail.take_all(seq![chunk].drop_last()) == Some(tail));
}

/// Whether the region next in `inlet` is intact and holds `raw`, whatever room there is
/// in the buffer it is pulled into.
pub open spec fn region_next(inlet: Inlet, raw: Seq<u8>) -> bool {
    forall|buf: Held|
        buf.cap <= REGION_SIZE ==> {
            let pulled = #[trigger] pull(inlet, buf);
            &&& pulled.result is Ok
            &&& pulled.buf == Held { bytes: raw, cap: buf.room(raw.len()) }
            &&& pulled.inlet == pull(inlet, Held::empty(0)).inlet
        }
}

/// Whether the regions next in `inlet` are intact and hold `regions`.
pub open spec fn inlet_holds(inlet: Inlet, regions: Seq<Seq<u8>>) -> bool
    decreases regions.len(),
{
    if regions.len() == 0 {
        true
    } else {
        &&& regions[0].len() <= REGION_SIZE
        &&& region_next(inlet, regions[0])
        &&& inlet_holds(pull(inlet, Held::empty(0)).inlet, regions.skip(1))
    }
}

/// Whether a decoder at `feed` has `tail` before it.
pub open spec fn holds(feed: Feed, tail: Tail) -> bool {
    &&& feed.ready()
    &&& feed.unread() == tail.cur
    &&& inlet_holds(feed.inlet, tail.rest)
}

/// Reading what the current region still has.
pub proof fn lemma_read_current(feed: Feed, tail: Tail, n: nat)
    requires
        holds(feed, tail),
        n <= tail.cur.len(),
    ensures
        feed.read(n).0 == Ok::<Seq<u8>, RegionError>(tail.cur.take(n as int)),
        holds(feed.read(n).1, Tail { cur: tail.cur.skip(n as int), rest: tail.rest }),
{
    assert(feed.read(n).1.unread() =~= tail.cur.skip(n as int));
}

/// Reading a chunk that comes next.
pub proof fn lemma_read_chunk(feed: Feed, tail: Tail, chunk: Seq<u8>)
    requires
        holds(feed, tail),
        tail.take(chunk) is Some,
    ensures
        feed.read(chunk.len()).0 == Ok::<Seq<u8>, RegionError>(chunk),
        holds(feed.read(chunk.len()).1, tail.take(chunk)->0),
{
    if starts_with(tail.cur, chunk) {
        lemma_read_current(feed, tail, chunk.len());
    } else {
        let pulled = pull(feed.inlet, feed.prev);
        assert(pulled.buf.bytes == tail.rest[0]);
        assert(chunk.len() > 0) by {
            if chunk.len() == 0 {
                assert(tail.cur.take(0) =~= chunk);
            }
        }
        let after = feed.read(chunk.len()).1;
        assert(after.unread() =~= tail.rest[0].skip(chunk.len() as int));
    }
}

/// Reading a chunk that comes next in two parts.
pub proof fn lemma_read_parts(feed: Feed, tail: Tail, chunk: Seq<u8>, n: nat)
    requires
        holds(feed, tail),
        tail.take(chunk) is Some,
        0 < n <= chunk.len(),
    ensures
        feed.read(n).0 == Ok::<Seq<u8>, RegionError>(chunk.take(n as int)),
        feed.read(n).1.read((chunk.len() - n) as nat).0 == Ok::<Seq<u8>, RegionError>(
            chunk.skip(n as int),
        ),
        holds(feed.read(n).1.read((chunk.len() - n) as nat).1, tail.take(chunk)->0),
{
    let head = chunk.take(n as int);
    let back = chunk.skip(n as int);
    let whole = if starts_with(tail.cur, chunk) {
        tail.cur
    } else {
        tail.rest[0]
    };
    assert(whole.take(n as int) =~= whole.take(chunk.len() as int).take(n as int));
    assert(!starts_with(tail.cur, chunk) ==> !starts_with(tail.cur, head));
    lemma_read_chunk(feed, tail, head);
    let middle = tail.take(head)->0;
    assert(whole.skip(n as int).take(back.len() as int) =~= whole.take(chunk.len() as int).skip(
        n as int,
    ));
    assert(middle.cur == whole.skip(n as int));
    assert(starts_with(middle.cur, back));
    lemma_read_chunk(feed.read(n).1, middle, back);
    assert(middle.cur.skip(back.len() as int) =~= whole.skip(chunk.len() as int));
}

/// Whether `all` is what the regions of `raw` may end up as when more is written.
pub open spec fn extends(all: Seq<Seq<u8>>, raw: RawStream) -> bool {
    &&& raw.regions.len() < all.len()
    &&& all.take(raw.regions.len() as int) == raw.regions
    &&& starts_with(all[raw.regions.len() as int], raw.open)
}

/// What follows `raw` in `all`.
pub open spec fn tail_at(all: Seq<Seq<u8>>, raw: RawStream) -> Tail {
    let at = raw.regions.len() as int;
    Tail { cur: all[at].skip(raw.open.len() as int), rest: all.skip(at + 1) }
}

/// What is written to a stream comes next for a decoder which has read everything
/// before it.
pub proof fn lemma_written_comes_next(all: Seq<Seq<u8>>, raw: RawStream, chunks: Seq<Seq<u8>>)
    requires
        within(chunks),
        raw.open.len() <= REGION_SIZE,
        extends(all, raw.append_all(chunks)),
    ensures
        extends(all, raw),
        raw.append_all(chunks).open.len() <= REGION_SIZE,
        tail_at(all, raw).take_all(chunks) == Some(tail_at(all, raw.append_all(chunks))),
    decreases chunks.len(),
{
    if chunks.len() > 0 {
        let chunk = chunks.last();
        let before = raw.append_all(chunks.drop_last());
        let after = raw.append_all(chunks);
        assert(after == before.append(chunk));
        assert(chunk.len() <= REGION_SIZE);
        assert(within(chunks.drop_last()));
        lemma_open_within(raw, chunks.drop_last());
        let at = before.regions.len() as int;
        if before.open.len() + chunk.len() > REGION_SIZE {
            assert(all[at] == before.open) by {
                assert(all.take(at + 1)[at] == after.regions[at]);
            }
            assert(all.take(at) =~= before.regions) by {
                assert(all.take(at) =~= all.take(at + 1).take(at));
                assert(after.regions.take(at) =~= before.regions);
            }
            assert(before.open.take(before.open.len() as int) =~= before.open);
            assert(extends(all, before));
            let tail = tail_at(all, before);
            assert(tail.cur.len() == 0);
            assert(tail.rest[0] == all[at + 1]);
            assert(tail.take(chunk)->0 =~= tail_at(all, after)) by {
                assert(all.skip(at + 1).skip(1) =~= all.skip(at + 2));
            }
        } else {
            assert(all[at].take(before.open.len() as int) =~= all[at].take(
                after.open.len() as int,
            ).take(before.open.len() as int));
            assert(after.open.take(before.open.len() as int) =~= before.open);
            assert(extends(all, before));
            let tail = tail_at(all, before);
            assert(tail.cur.take(chunk.len() as int) =~= after.open.skip(before.open.len() as int));
            assert(after.open.skip(before.open.len() as int) =~= chunk);
            assert(tail.cur.skip(chunk.len() as int) =~= all[at].skip(after.open.len() as int));
        }
        lemma_written_comes_next(all, raw, chunks.drop_last());
    }
}

/// The region being collected never exceeds the size of a region.
pub proof fn lemma_open_within(raw: RawStream, chunks: Seq<Seq<u8>>)
    requires
        within(chunks),
        raw.open.len() <= REGION_SIZE,
    ensures
        raw.append_all(chunks).open.len() <= REGION_SIZE,
    decreases chunks.len(),
{
    if chunks.len() > 0 {
        assert(chunks.last().len() <= REGION_SIZE);
        assert(within(chunks.drop_last()));
        lemma_open_within(raw, chunks.drop_last());
    }
}

/// Amount of bytes in all of `chunks`.
pub open spec fn total_len(chunks: Seq<Seq<u8>>) -> nat
    decreases chunks.len(),
{
    if chunks.len() == 0 {
        0
    } else {
        total_len(chunks.drop_last()) + chunks.last().len()
    }
}

/// Chunks that do not exceed a region together are pending in the first one.
pub proof fn lemma_single_region(chunks: Seq<Seq<u8>>)
    requires
        total_len(chunks) <= REGION_SIZE,
    ensures
        RawStream::empty().append_all(chunks).regions.len() == 0,
        RawStream::empty().append_all(chunks).open.len() == total_len(chunks),
    decreases chunks.len(),
{
    if chunks.len() > 0 {
        lemma_single_region(chunks.drop_last());
    }
}

/// How much room is asked for to write `regions`, one after the other.
pub open spec fn rooms(regions: Seq<Seq<u8>>) -> nat
    decreases regions.len(),
{
    if regions.len() == 0 {
        0
    } else {
        rooms(regions.drop_last()) + region_room(regions.last().len())
    }
}

proof fn lemma_rooms_add(a: Seq<Seq<u8>>, b: Seq<Seq<u8>>)
    ensures
        rooms(a + b) == rooms(a) + rooms(b),
    decreases b.len(),
{
    if b.len() == 0 {
        assert(a + b =~= a);
    } else {
        lemma_rooms_add(a, b.drop_last());
        assert((a + b).drop_last() =~= a + b.drop_last());
    }
}

/// Regions take no more than the room asked for.
pub proof fn lemma_log_within_rooms(log: Seq<Entry>)
    requires
        forall|i: int|
            0 <= i < log.len() ==> (#[trigger] log[i]).body.len() <= bound(log[i].raw.len()),
    ensures
        log_len(log) <= rooms(raw_regions(log)),
    decreases log.len(),
{
    if log.len() > 0 {
        let front = log.drop_last();
        assert forall|i: int| 0 <= i < front.len() implies (#[trigger] front[i]).body.len()
            <= bound(front[i].raw.len()) by {
            assert(front[i] == log[i]);
        }
        lemma_log_within_rooms(front);
        assert(raw_regions(log).drop_last() =~= raw_regions(front));
        assert(log[log.len() - 1].body.len() <= bound(log[log.len() - 1].raw.len()));
    }
}

/// Regions once finished stay.
proof fn lemma_regions_stay(raw: RawStream, chunks: Seq<Seq<u8>>)
    ensures
        raw.regions.len() <= raw.append_all(chunks).regions.len(),
        raw.append_all(chunks).regions.take(raw.regions.len() as int) == raw.regions,
    decreases chunks.len(),
{
    let after = raw.append_all(chunks).regions;
    if chunks.len() > 0 {
        lemma_regions_stay(raw, chunks.drop_last());
        let before = raw.append_all(chunks.drop_last()).regions;
        assert(after.take(raw.regions.len() as int) =~= before.take(raw.regions.len() as int));
    } else {
        assert(after.take(raw.regions.len() as int) =~= raw.regions);
    }
}

/// The more is written, the more room is asked for.
pub proof fn lemma_rooms_grow(raw: RawStream, chunks: Seq<Seq<u8>>)
    requires
        within(chunks),
    ensures
        rooms(raw.close().regions) <= rooms(raw.append_all(chunks).close().regions),
    decreases chunks.len(),
{
    if chunks.len() > 0 {
        let before = raw.append_all(chunks.drop_last());
        let after = raw.append_all(chunks);
        assert(chunks.last().len() <= REGION_SIZE);
        assert(within(chunks.drop_last()));
        lemma_rooms_grow(raw, chunks.drop_last());
        assert(before.regions.push(before.open).drop_last() =~= before.regions);
        assert(after.regions.push(after.open).drop_last() =~= after.regions);
    }
}

/// Encoding chunks that do not exceed a region succeeds if the destination has the room
/// asked for the regions that are finished on the way, and anything less.
pub proof fn law_room_suffices<W: Writer>(
    before: StreamEncoder<W>,
    after: StreamEncoder<W>,
    chunks: Seq<Seq<u8>>,
    r: Result<(), EncodeError>,
)
    requires
        before.inv(),
        encoded(before, after, chunks, r),
        within(chunks),
        forall|n: nat|
            n <= rooms(
                before.raw().append_all(chunks).regions.skip(before.raw().regions.len() as int),
            ) ==> #[trigger] before.has_room(n),
    ensures
        r is Ok,
{
    if r is Err {
        let e = r->Err_0;
        let count = choose|count: int| #[trigger] stopped(before, after, chunks, e, count);
        let k = before.raw().regions.len() as int;
        let open = after.raw().open;
        before.law_written();
        after.law_written();
        let new = after.log().skip(before.log().len() as int);
        assert forall|i: int| 0 <= i < new.len() implies (#[trigger] new[i]).body.len() <= bound(
            new[i].raw.len(),
        ) by {
            assert(new[i] == after.log()[i + before.log().len()]);
        }
        lemma_log_within_rooms(new);
        assert(raw_regions(new) =~= after.raw().regions.skip(k));
        // The region pending is finished by the chunk that was refused
        let next = after.raw().append(chunks[count]);
        assert(chunks.take(count + 1).drop_last() =~= chunks.take(count));
        assert(next == before.raw().append_all(chunks.take(count + 1)));
        assert(chunks[count].len() <= REGION_SIZE);
        assert(next.regions == after.raw().regions.push(open));
        lemma_append_all_add(before.raw(), chunks.take(count + 1), chunks.skip(count + 1));
        assert(chunks.take(count + 1) + chunks.skip(count + 1) =~= chunks);
        lemma_regions_stay(next, chunks.skip(count + 1));
        let all = before.raw().append_all(chunks).regions;
        let done = after.raw().regions.skip(k).push(open);
        assert(all.skip(k) =~= done + all.skip(next.regions.len() as int)) by {
            assert(all.take(next.regions.len() as int) == next.regions);
            assert forall|i: int| 0 <= i < next.regions.len() implies all[i] == next.regions[i] by {
                assert(all.take(next.regions.len() as int)[i] == all[i]);
            }
        }
        lemma_rooms_add(done, all.skip(next.regions.len() as int));
        assert(done.drop_last() =~= after.raw().regions.skip(k));
        let used = sent(before.log(), after.log());
        assert(after.has_room(region_room(open.len())) == before.has_room(
            used + region_room(open.len()),
        ));
    }
}

/// Amount of raw bytes in all of the regions.
pub open spec fn raw_len(log: Seq<Entry>) -> nat
    decreases log.len(),
{
    if log.len() == 0 {
        0
    } else {
        raw_len(log.drop_last()) + log.last().raw.len()
    }
}

/// Whether all of the regions but the last are full.
pub open spec fn packed(log: Seq<Entry>) -> bool {
    forall|i: int| 0 <= i < log.len() - 1 ==> (#[trigger] log[i]).raw.len() == REGION_SIZE
}

proof fn lemma_full_len(log: Seq<Entry>)
    requires
        forall|i: int|
            0 <= i < log.len() ==> (#[trigger] log[i]).raw.len() == REGION_SIZE
                && log[i].body.len() <= bound(REGION_SIZE as nat),
    ensures
        raw_len(log) == log.len() * REGION_SIZE,
        log_len(log) <= log.len() * 65820,
    decreases log.len(),
{
    if log.len() > 0 {
        let front = log.drop_last();
        let entry = log[log.len() - 1];
        assert forall|i: int| 0 <= i < front.len() implies (#[trigger] front[i]).raw.len()
            == REGION_SIZE && front[i].body.len() <= bound(REGION_SIZE as nat) by {
            assert(front[i] == log[i]);
        }
        lemma_full_len(front);
        assert(log.len() * REGION_SIZE == front.len() * REGION_SIZE + REGION_SIZE)
            by (nonlinear_arith)
            requires
                log.len() == front.len() + 1,
        ;
        assert(bound(REGION_SIZE as nat) == 65808);
    }
}

/// A stream whose regions but the last are full takes at most the size announced for
/// the amount of bytes in it.
pub proof fn law_max_encoded_size(log: Seq<Entry>, seed: Option<Seed>)
    requires
        chained(log),
        packed(log),
    ensures
        log_bytes(log, seed).len() <= max_encoded(raw_len(log)),
{
    lemma_log_len(log, seed);
    if log.len() > 0 {
        let front = log.drop_last();
        let entry = log[log.len() - 1];
        let n = front.len();
        let size = raw_len(log);
        assert forall|i: int| 0 <= i < front.len() implies (#[trigger] front[i]).raw.len()
            == REGION_SIZE && front[i].body.len() <= bound(REGION_SIZE as nat) by {
            assert(front[i] == log[i]);
        }
        lemma_full_len(front);
        assert(bound(REGION_SIZE as nat) == 65808);
        assert(size == n * 65535 + entry.raw.len());
        if entry.raw.len() == REGION_SIZE {
            assert(size == (n + 1) * 65535);
            assert(size / 65535 == n + 1 && size % 65535 == 0);
        } else {
            assert(size / 65535 == n && size % 65535 == entry.raw.len());
        }
        let full = size / 65535;
        assert(full * bound(REGION_SIZE as nat) == full * 65808) by (nonlinear_arith)
            requires
                bound(REGION_SIZE as nat) == 65808,
        ;
    }
}

/// No less is announced for more bytes.
pub proof fn law_max_encoded_size_monotonic(a: nat, b: nat)
    requires
        a <= b,
    ensures
        max_encoded(a) <= max_encoded(b),
{
    let (p, r) = (a / 65535, a % 65535);
    let (q, s) = (b / 65535, b % 65535);
    assert(bound(REGION_SIZE as nat) == 65808);
    assert(p * bound(REGION_SIZE as nat) == p * 65808 && q * bound(REGION_SIZE as nat) == q * 65808)
        by (nonlinear_arith)
        requires
            bound(REGION_SIZE as nat) == 65808,
    ;
    assert(a == 65535 * p + r && b == 65535 * q + s);
    assert(p <= q);
    assert(p == q ==> r <= s);
}

/// The first of the regions comes first.
pub proof fn lemma_log_bytes_first(log: Seq<Entry>, seed: Option<Seed>)
    requires
        log.len() > 0,
    ensures
        log_bytes(log, seed) == region_bytes(log[0], seed) + log_bytes(log.skip(1), seed),
    decreases log.len(),
{
    if log.len() == 1 {
        assert(log.drop_last() =~= Seq::empty());
        assert(log.skip(1) =~= Seq::empty());
        assert(log_bytes(log, seed) =~= region_bytes(log[0], seed) + log_bytes(log.skip(1), seed));
    } else {
        lemma_log_bytes_first(log.drop_last(), seed);
        assert(log.drop_last().skip(1) =~= log.skip(1).drop_last());
        assert(log_bytes(log, seed) =~= region_bytes(log[0], seed) + log_bytes(log.skip(1), seed));
    }
}

/// Whether the length of every body is one that the header of its region can tell.
pub open spec fn bodies_fit(log: Seq<Entry>) -> bool {
    forall|i: int| 0 <= i < log.len() ==> (#[trigger] log[i]).body.len() <= 0xFFFF
}

/// The header of a region of at most [`SAFE_SIZE`] bytes can tell the length of the body.
pub proof fn law_safe_size(log: Seq<Entry>)
    requires
        chained(log),
        forall|i: int| 0 <= i < log.len() ==> (#[trigger] log[i]).raw.len() <= SAFE_SIZE,
    ensures
        bodies_fit(log),
{
    assert(bound(SAFE_SIZE as nat) <= 0xFFFF);
}

/// The header of the region that a value of at most [`SAFE_SIZE`] bytes is written to can
/// tell the length of the body.
pub proof fn law_safe_value(chunks: Seq<Seq<u8>>, log: Seq<Entry>)
    requires
        total_len(chunks) <= SAFE_SIZE,
        chained(log),
        raw_regions(log) == RawStream::empty().append_all(chunks).close().regions,
    ensures
        bodies_fit(log),
{
    lemma_single_region(chunks);
    let raw = RawStream::empty().append_all(chunks);
    assert forall|i: int| 0 <= i < log.len() implies (#[trigger] log[i]).raw.len() <= SAFE_SIZE by {
        assert(raw_regions(log).len() == log.len());
        assert(raw.regions.push(raw.open).len() == 1);
        assert(raw_regions(log)[i] == log[i].raw);
        assert(raw.close().regions[i] == raw.open);
    }
    law_safe_size(log);
}

/// Pulling a region that was written, with whatever comes after it, gives its contents.
///
/// A body whose length the header can not tell is left out: what is pulled then is cut
/// short.
pub proof fn law_region_round_trip(
    entry: Entry,
    history: Seq<u8>,
    seed: Option<Seed>,
    rest: Seq<u8>,
    buf: Held,
)
    requires
        0 < entry.raw.len() <= REGION_SIZE,
        entry.body.len() <= 0xFFFF,
        expands(history, entry.body, entry.raw),
        buf.cap <= REGION_SIZE,
    ensures
        ({
            let inlet = Inlet { history, bytes: region_bytes(entry, seed) + rest, seed };
            let pulled = pull(inlet, buf);
            &&& pulled.result is Ok
            &&& pulled.buf == Held { bytes: entry.raw, cap: buf.room(entry.raw.len()) }
            &&& pulled.inlet == Inlet { history: entry.raw, bytes: rest, seed }
        }),
{
    let header = header_of(entry.raw, entry.body, seed);
    let bytes = region_bytes(entry, seed) + rest;
    let size = HEADER_SIZE + entry.body.len();
    law_header_round_trip(header, Seq::empty());
    assert(bytes.take(HEADER_SIZE as int) =~= header.bytes() + Seq::<u8>::empty());
    assert(bytes.subrange(HEADER_SIZE as int, size as int) =~= entry.body);
    assert(bytes.skip(size as int) =~= rest);
}

/// Regions that were written are intact for a decoder with the same seed, which pulls
/// their contents in order.
#[verifier::rlimit(40)]
pub proof fn lemma_log_intact(
    log: Seq<Entry>,
    at: int,
    seed: Option<Seed>,
    rest: Seq<u8>,
)
    requires
        chained(log),
        bodies_fit(log),
        0 <= at <= log.len(),
    ensures
        inlet_holds(
            Inlet {
                history: history_at(log, at),
                bytes: log_bytes(log.skip(at), seed) + rest,
                seed,
            },
            raw_regions(log).skip(at),
        ),
    decreases log.len() - at,
{
    if at < log.len() {
        let entry = log[at];
        let left = log.skip(at);
        lemma_log_bytes_first(left, seed);
        assert(left.skip(1) =~= log.skip(at + 1));
        let after = log_bytes(log.skip(at + 1), seed) + rest;
        assert(log_bytes(left, seed) + rest =~= region_bytes(entry, seed) + after);
        let inlet = Inlet {
            history: history_at(log, at),
            bytes: log_bytes(left, seed) + rest,
            seed,
        };
        assert forall|buf: Held| buf.cap <= REGION_SIZE implies {
            let pulled = #[trigger] pull(inlet, buf);
            &&& pulled.result is Ok
            &&& pulled.buf == Held { bytes: entry.raw, cap: buf.room(entry.raw.len()) }
            &&& pulled.inlet == pull(inlet, Held::empty(0)).inlet
        } by {
            law_region_round_trip(entry, history_at(log, at), seed, after, buf);
            law_region_round_trip(entry, history_at(log, at), seed, after, Held::empty(0));
        }
        law_region_round_trip(entry, history_at(log, at), seed, after, Held::empty(0));
        assert(region_next(inlet, entry.raw));
        lemma_log_intact(log, at + 1, seed, rest);
        assert(raw_regions(log).skip(at).skip(1) =~= raw_regions(log).skip(at + 1));
        assert(raw_regions(log).skip(at)[0] == entry.raw);
    }
}

/// A decoder opened over regions that were written has the contents of all of them
/// before it, whatever comes after them and whatever buffers it has.
pub proof fn law_open(log: Seq<Entry>, seed: Option<u64>, rest: Seq<u8>, buffers: Buffers)
    requires
        log.len() > 0,
        chained(log),
        bodies_fit(log),
        buffers.sound(),
    ensures
        open_feed(log_bytes(log, seed_from(seed)) + rest, seed, buffers) is Ok,
        holds(
            open_feed(log_bytes(log, seed_from(seed)) + rest, seed, buffers)->Ok_0,
            tail_at(raw_regions(log), RawStream::empty()),
        ),
{
    let bytes = log_bytes(log, seed_from(seed)) + rest;
    lemma_log_intact(log, 0, seed_from(seed), rest);
    assert(log.skip(0) =~= log);
    assert(raw_regions(log).skip(0) =~= raw_regions(log));
    let feed = open_feed(bytes, seed, buffers)->Ok_0;
    let tail = tail_at(raw_regions(log), RawStream::empty());
    assert(feed.unread() =~= tail.cur);
}

/// A region that was written is refused under a seed that gives its contents another hash.
proof fn lemma_region_refused(
    entry: Entry,
    encoder: Option<Seed>,
    inlet: Inlet,
    rest: Seq<u8>,
    buf: Held,
)
    requires
        0 < entry.raw.len() <= REGION_SIZE,
        entry.body.len() <= 0xFFFF,
        expands(inlet.history, entry.body, entry.raw),
        inlet.bytes == region_bytes(entry, encoder) + rest,
        region_hash(encoder, entry.raw) != region_hash(inlet.seed, entry.raw),
        buf.cap <= REGION_SIZE,
    ensures
        pull(inlet, buf).result == Err::<(), RegionError>(RegionError::InvalidHash),
{
    let header = header_of(entry.raw, entry.body, encoder);
    let size = HEADER_SIZE + entry.body.len();
    law_header_round_trip(header, Seq::empty());
    assert(inlet.bytes.take(HEADER_SIZE as int) =~= header.bytes() + Seq::<u8>::empty());
    assert(inlet.bytes.subrange(HEADER_SIZE as int, size as int) =~= entry.body);
}

/// A decoder whose seed gives the first region another hash than the encoder's refuses to
/// open the stream. Having no seed counts as a hash of zero.
pub proof fn law_seeds_agree(
    log: Seq<Entry>,
    encoder: Option<u64>,
    decoder: Option<u64>,
    rest: Seq<u8>,
    buffers: Buffers,
)
    requires
        log.len() > 0,
        chained(log),
        bodies_fit(log),
        buffers.sound(),
        region_hash(seed_from(encoder), log[0].raw) != region_hash(seed_from(decoder), log[0].raw),
    ensures
        open_feed(log_bytes(log, seed_from(encoder)) + rest, decoder, buffers) == Err::<
            Feed,
            RegionError,
        >(RegionError::InvalidHash),
{
    let seed = seed_from(encoder);
    let after = log_bytes(log.skip(1), seed) + rest;
    let bytes = log_bytes(log, seed) + rest;
    lemma_log_bytes_first(log, seed);
    assert(bytes =~= region_bytes(log[0], seed) + after);
    assert(history_at(log, 0) =~= Seq::empty());
    assert(log[0].body.len() <= 0xFFFF);
    lemma_region_refused(log[0], seed, inlet_of(bytes, decoder), after, buffers.curr);
}

/// A decoder which has read exactly what was written before a value decodes that value,
/// and has then read exactly what was written up to and with it. Neither the regions
/// the value is spread over nor what follows it matter.
pub proof fn law_in_step<T: Codec>(value: T, all: Seq<Seq<u8>>, before: RawStream, feed: Feed)
    requires
        value.faithful(),
        before.open.len() <= REGION_SIZE,
        extends(all, before.append_all(value.wire())),
        holds(feed, tail_at(all, before)),
    ensures
        T::decoding(feed).0 == Ok::<T::Value, DecodeError>(value.value()),
        holds(T::decoding(feed).1, tail_at(all, before.append_all(value.wire()))),
{
    value.law_chunks_within();
    lemma_written_comes_next(all, before, value.wire());
    value.law_round_trip(feed, tail_at(all, before));
}

/// A value that was encoded and flushed is decoded again by a decoder with the same seed,
/// whatever follows the stream.
///
/// A value without any bytes is left out: flushing it writes no region to open. So is one
/// with a region whose header can not tell the length of the body.
/// The log is that of [`StreamEncoder::log`] after the flush.
///
/// [`StreamEncoder::log`]: crate::encode::StreamEncoder::log
pub proof fn law_stream_round_trip<T: Codec>(
    value: T,
    log: Seq<Entry>,
    seed: Option<u64>,
    rest: Seq<u8>,
    buffers: Buffers,
)
    requires
        value.faithful(),
        chained(log),
        bodies_fit(log),
        buffers.sound(),
        RawStream::empty().append_all(value.wire()).open.len() > 0,
        raw_regions(log) == RawStream::empty().append_all(value.wire()).close().regions,
    ensures
        ({
            let bytes = log_bytes(log, seed_from(seed)) + rest;
            &&& open_feed(bytes, seed, buffers) is Ok
            &&& T::decoding(open_feed(bytes, seed, buffers)->Ok_0).0 == Ok::<T::Value, DecodeError>(
                value.value(),
            )
        }),
{
    let after = RawStream::empty().append_all(value.wire());
    let all = raw_regions(log);
    assert(all.len() == after.regions.len() + 1);
    assert(all.take(after.regions.len() as int) =~= after.regions);
    assert(after.open.take(after.open.len() as int) =~= after.open);
    law_open(log, seed, rest, buffers);
    law_in_step(
        value,
        all,
        RawStream::empty(),
        open_feed(log_bytes(log, seed_from(seed)) + rest, seed, buffers)->Ok_0,
    );
}

/// What a fresh encoder has written of a value once it is flushed is decoded to that value
/// by a decoder with the same seed.
pub proof fn law_encoder_round_trip<T: Codec, W: Writer>(
    value: T,
    encoder: StreamEncoder<W>,
    seed: Option<u64>,
    rest: Seq<u8>,
    buffers: Buffers,
)
    requires
        value.faithful(),
        buffers.sound(),
        encoder.inv(),
        bodies_fit(encoder.log()),
        encoder.destination().recorded(),
        encoder.origin().seed == seed_from(seed),
        encoder.raw() == RawStream::empty().append_all(value.wire()).close(),
        RawStream::empty().append_all(value.wire()).open.len() > 0,
    ensures
        ({
            let base = encoder.origin().base;
            let bytes = encoder.destination().written().skip(base.len() as int) + rest;
            &&& open_feed(bytes, seed, buffers) is Ok
            &&& T::decoding(open_feed(bytes, seed, buffers)->Ok_0).0 == Ok::<T::Value, DecodeError>(
                value.value(),
            )
        }),
{
    encoder.law_written();
    let base = encoder.origin().base;
    assert(encoder.destination().written().skip(base.len() as int) =~= log_bytes(
        encoder.log(),
        seed_from(seed),
    ));
    law_stream_round_trip(value, encoder.log(), seed, rest, buffers);
}

} // verus!
