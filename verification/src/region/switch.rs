//! State switches: what turns the contents of a region buffer into a region of a stream
//! and back.

use vstd::prelude::*;
use vstd::slice::slice_subrange;

use super::buffer::{Buffer, Held};
use super::private::Sealed;
use super::{
    hash_region,
    law_header_round_trip,
    parse_header,
    region_hash,
    seed_from,
    RegionError,
    RegionHeader,
    Seed,
    HEADER_SIZE,
    REGION_SIZE,
};
use crate::decode::{ReadError, Reader};
use crate::encode::{out_of_bounds, write_to_uninit, WriteError, Writer};
use crate::lz4::{
    bound,
    compress_bound,
    expands,
    inflate,
    CompressStream,
    DecompressStream,
};

verus! {

/// A trait defining an implementation of region state switch.
///
/// The region switch is a pass of current state of a region buffer which main point is
/// to prepare the buffer for streaming next region of bytes: [`Pull`] fills the buffer
/// with the next region of a source, [`Push`] empties it into a destination.
pub trait StateSwitch: Sealed + Sized {
    /// What holds of a switch between passes.
    spec fn inv(&self) -> bool;

    /// What a pass which found `buf` and left `next` in the buffer may have done.
    spec fn switched(
        before: Self,
        after: Self,
        buf: Held,
        next: Held,
        r: Result<(), RegionError>,
    ) -> bool;

    /// Performs a state switch on the `buf` passed.
    fn pass(&mut self, buf: &mut Buffer) -> (r: Result<(), RegionError>)
        requires
            old(self).inv(),
            old(buf)@.sound(),
        ensures
            final(self).inv(),
            final(buf)@.sound(),
            Self::switched(*old(self), *final(self), old(buf)@, final(buf)@, r),
    ;
}

/// What is left of a stream of regions.
pub struct Inlet {
    /// Contents of the region pulled last.
    pub history: Seq<u8>,
    /// The bytes that follow it.
    pub bytes: Seq<u8>,
    /// Seed of the hashes.
    pub seed: Option<Seed>,
}

/// Outcome of a pull.
pub struct Pulled {
    pub result: Result<(), RegionError>,
    /// The buffer afterwards.
    pub buf: Held,
    pub inlet: Inlet,
}

/// Pulls the next region of `inlet` into a buffer.
///
/// The buffer is made to have room for as much as the header tells, and the body may expand
/// to all the room there is. The bytes of a region are consumed only if it is intact.
pub open spec fn pull(inlet: Inlet, buf: Held) -> Pulled {
    let header = parse_header(inlet.bytes.take(HEADER_SIZE as int));
    let size = HEADER_SIZE + header.compressed_size;
    let cap = buf.room(header.alloc_size as nat);
    if inlet.bytes.len() < HEADER_SIZE {
        Pulled { result: Err(RegionError::ReadFailure(ReadError::OutOfBounds)), buf, inlet }
    } else if inlet.bytes.len() < size {
        Pulled { result: Err(RegionError::InvalidSizeHint), buf, inlet }
    } else {
        match inflate(inlet.history, inlet.bytes.subrange(HEADER_SIZE as int, size), cap) {
            None => Pulled {
                result: Err(RegionError::MalformedRegion),
                buf: Held::empty(cap),
                inlet,
            },
            Some(raw) => if region_hash(inlet.seed, raw) != header.hash {
                Pulled {
                    result: Err(RegionError::InvalidHash),
                    buf: Held { bytes: raw, cap },
                    inlet: Inlet { history: raw, ..inlet },
                }
            } else {
                Pulled {
                    result: Ok(()),
                    buf: Held { bytes: raw, cap },
                    inlet: Inlet { history: raw, bytes: inlet.bytes.skip(size), ..inlet },
                }
            },
        }
    }
}

/// A [`StateSwitch`] implementation for decoding.
pub struct Pull<R> where R: Reader {
    stream: DecompressStream,
    seed: Option<Seed>,
    source: R,
}

impl<R> Pull<R> where R: Reader {
    /// What is left of the stream.
    pub closed spec fn inlet(&self) -> Inlet {
        Inlet { history: self.stream.history(), bytes: self.source.bytes(), seed: self.seed }
    }

    /// The contained reader.
    pub closed spec fn source(&self) -> R {
        self.source
    }

    /// Whether the source fails for want of bytes only.
    pub closed spec fn faultless(&self) -> bool {
        self.source.faultless()
    }

    /// Constructs a new [`Pull`] authority with `src` source [`Reader`] and `seed`.
    pub fn new(src: R, seed: Option<u64>) -> (r: Self)
        ensures
            r.inlet() == (Inlet {
                history: Seq::empty(),
                bytes: src.bytes(),
                seed: seed_from(seed),
            }),
            r.faultless() == src.faultless(),
            r.source() == src,
    {
        let seed = match seed {
            Some(seed) => Some(Seed::new(seed)),
            None => None,
        };
        Self { stream: DecompressStream::new(), seed, source: src }
    }

    /// Returns contained reader, consuming `self`.
    pub fn into_inner(self) -> (r: R)
        ensures
            r == self.source(),
    {
        self.source
    }

    /// Returns contained region hash seed.
    pub fn seed(&self) -> (r: Option<Seed>)
        ensures
            r == self.inlet().seed,
    {
        self.seed
    }
}

/// Judges a region by what its body expanded to and by the `hash` of that.
pub fn accept_region(header: RegionHeader, raw: Option<Vec<u8>>, hash: u64) -> (r: Result<
    Vec<u8>,
    RegionError,
>)
    ensures
        match raw {
            None => r == Err::<Vec<u8>, RegionError>(RegionError::MalformedRegion),
            Some(v) => if hash == header.hash {
                r == Ok::<Vec<u8>, RegionError>(v)
            } else {
                r == Err::<Vec<u8>, RegionError>(RegionError::InvalidHash)
            },
        },
{
    match raw {
        None => Err(RegionError::MalformedRegion),
        Some(raw) => {
            if hash != header.hash {
                Err(RegionError::InvalidHash)
            } else {
                Ok(raw)
            }
        },
    }
}

impl<R> Sealed for Pull<R> where R: Reader {

}

impl<R> StateSwitch for Pull<R> where R: Reader {
    open spec fn inv(&self) -> bool {
        true
    }

    /// The pass is [`pull`], unless the source failed, in which case nothing changed.
    open spec fn switched(
        before: Self,
        after: Self,
        buf: Held,
        next: Held,
        r: Result<(), RegionError>,
    ) -> bool {
        let pulled = pull(before.inlet(), buf);
        &&& after.faultless() == before.faultless()
        &&& {
            ||| {
                &&& r == pulled.result
                &&& next == pulled.buf
                &&& after.inlet() == pulled.inlet
            }
            ||| {
                &&& r matches Err(RegionError::ReadFailure(ReadError::Io(_)))
                &&& !before.faultless()
                &&& next == buf
                &&& after.inlet() == before.inlet()
            }
        }
    }

    /// Reads next region from the [`Reader`] source, decompresses the body to the region
    /// buffer and verifies a hash of resulting data.
    fn pass(&mut self, buf: &mut Buffer) -> (r: Result<(), RegionError>) {
        let ghost inlet = self.inlet();
        let header = match self.source.read_borrow(HEADER_SIZE) {
            Ok(bytes) => RegionHeader::from_bytes(bytes),
            Err(e) => return Err(RegionError::ReadFailure(e)),
        };
        assert(header == parse_header(inlet.bytes.take(HEADER_SIZE as int)));

        let size: usize = HEADER_SIZE + header.compressed_size as usize;
        let raw = match self.source.read_borrow(size) {
            Ok(bytes) => {
                let body = slice_subrange(bytes, HEADER_SIZE, size);
                assert(body@ =~= inlet.bytes.subrange(HEADER_SIZE as int, size as int));
                buf.clear();
                buf.reserve(header.alloc_size as usize);
                self.stream.decompress(body, buf.cap())
            },
            Err(e) => {
                return Err(
                    match e {
                        ReadError::OutOfBounds => RegionError::InvalidSizeHint,
                        ReadError::Io(e) => RegionError::ReadFailure(ReadError::Io(e)),
                    },
                )
            },
        };

        let hash: u64 = match &raw {
            Some(raw) => {
                buf.extend(raw.as_slice());
                assert(buf@.bytes =~= raw@);
                hash_region(self.seed, raw.as_slice())
            },
            None => 0,
        };
        match accept_region(header, raw, hash) {
            Ok(_) => {
                self.source.advance(size);
                Ok(())
            },
            Err(e) => Err(e),
        }
    }
}

/// A region as it was written: its contents and the body they were compressed to.
pub struct Entry {
    pub raw: Seq<u8>,
    pub body: Seq<u8>,
}

/// Header of a region, whose length fields hold two bytes each.
pub open spec fn header_of(raw: Seq<u8>, body: Seq<u8>, seed: Option<Seed>) -> RegionHeader {
    RegionHeader {
        compressed_size: (body.len() % 0x1_0000) as u16,
        alloc_size: (raw.len() % 0x1_0000) as u16,
        hash: region_hash(seed, raw),
    }
}

/// Makes the header of a `body` which `raw_len` bytes with the `hash` given were compressed
/// to. Of lengths which exceed two bytes the lower two are kept.
pub fn head_region(raw_len: usize, body: &[u8], hash: u64) -> (r: RegionHeader)
    ensures
        r.compressed_size == body@.len() % 0x1_0000,
        r.alloc_size == raw_len as nat % 0x1_0000,
        r.hash == hash,
{
    RegionHeader {
        compressed_size: (body.len() as u64 % 0x1_0000) as u16,
        alloc_size: (raw_len as u64 % 0x1_0000) as u16,
        hash,
    }
}

/// The serialized form of a region.
pub open spec fn region_bytes(entry: Entry, seed: Option<Seed>) -> Seq<u8> {
    header_of(entry.raw, entry.body, seed).bytes() + entry.body
}

/// The serialized form of a sequence of regions.
pub open spec fn log_bytes(log: Seq<Entry>, seed: Option<Seed>) -> Seq<u8>
    decreases log.len(),
{
    if log.len() == 0 {
        Seq::empty()
    } else {
        log_bytes(log.drop_last(), seed) + region_bytes(log.last(), seed)
    }
}

/// Contents of the region before the one at `at`, empty for the first.
pub open spec fn history_at(log: Seq<Entry>, at: int) -> Seq<u8> {
    if at == 0 {
        Seq::empty()
    } else {
        log[at - 1].raw
    }
}

/// Whether every body expands to the contents of its region, no region is empty or too
/// long, and every body keeps to the bound of compression.
pub open spec fn chained(log: Seq<Entry>) -> bool {
    forall|at: int|
        0 <= at < log.len() ==> {
            let entry = #[trigger] log[at];
            &&& 0 < entry.raw.len() <= REGION_SIZE
            &&& expands(history_at(log, at), entry.body, entry.raw)
            &&& entry.body.len() <= bound(entry.raw.len())
        }
}

/// One more region on a log which is chained.
pub proof fn lemma_log_push(log: Seq<Entry>, entry: Entry, seed: Option<Seed>)
    ensures
        log_bytes(log.push(entry), seed) == log_bytes(log, seed) + region_bytes(entry, seed),
        log.push(entry).drop_last() == log,
        chained(log) && 0 < entry.raw.len() <= REGION_SIZE && expands(
            history_at(log, log.len() as int),
            entry.body,
            entry.raw,
        ) && entry.body.len() <= bound(entry.raw.len()) ==> chained(log.push(entry)),
        log_len(log.push(entry)) == log_len(log) + HEADER_SIZE + entry.body.len(),
{
    let next = log.push(entry);
    assert(next.drop_last() =~= log);
    assert forall|at: int| 0 <= at < log.len() implies next[at] == log[at] && history_at(next, at)
        == history_at(log, at) by {}
    assert(history_at(next, log.len() as int) == history_at(log, log.len() as int));
}

/// How many bytes a sequence of regions takes.
pub open spec fn log_len(log: Seq<Entry>) -> nat
    decreases log.len(),
{
    if log.len() == 0 {
        0
    } else {
        log_len(log.drop_last()) + HEADER_SIZE as nat + log.last().body.len()
    }
}

/// The serialized form of a sequence of regions has the length announced for it.
pub proof fn lemma_log_len(log: Seq<Entry>, seed: Option<Seed>)
    ensures
        log_bytes(log, seed).len() == log_len(log),
        log.len() > 0 ==> log_len(log) >= HEADER_SIZE,
    decreases log.len(),
{
    if log.len() > 0 {
        let entry = log.last();
        lemma_log_len(log.drop_last(), seed);
        law_header_round_trip(header_of(entry.raw, entry.body, seed), Seq::empty());
    }
}

/// Lengths add up.
pub proof fn lemma_log_len_add(a: Seq<Entry>, b: Seq<Entry>)
    ensures
        log_len(a + b) == log_len(a) + log_len(b),
    decreases b.len(),
{
    if b.len() == 0 {
        assert(a + b =~= a);
    } else {
        lemma_log_len_add(a, b.drop_last());
        assert((a + b).drop_last() =~= a + b.drop_last());
    }
}

/// How much room is asked for to write a region of `len` raw bytes.
pub open spec fn region_room(len: nat) -> nat {
    bound(len) + HEADER_SIZE as nat
}

/// A [`StateSwitch`] implementation for encoding.
pub struct Push<W> where W: Writer {
    stream: CompressStream,
    destination: W,
    seed: Option<Seed>,
    base: Ghost<Seq<u8>>,
    log: Ghost<Seq<Entry>>,
}

impl<W> Push<W> where W: Writer {
    /// What the destination held before the first region.
    pub closed spec fn base(&self) -> Seq<u8> {
        self.base@
    }

    /// The regions written so far.
    pub closed spec fn log(&self) -> Seq<Entry> {
        self.log@
    }

    /// Seed of the hashes.
    pub closed spec fn hash_seed(&self) -> Option<Seed> {
        self.seed
    }

    /// The contained writer.
    pub closed spec fn destination(&self) -> W {
        self.destination
    }

    /// Contents of the region written last.
    pub closed spec fn history(&self) -> Seq<u8> {
        self.stream.history()
    }

    /// Creates a new [`Push`] with `dst` [`Writer`] destination and `seed`.
    pub fn new(dst: W, seed: Option<u64>) -> (r: Self)
        ensures
            r.inv(),
            r.base() == dst.written(),
            r.log() == Seq::<Entry>::empty(),
            r.destination() == dst,
            r.hash_seed() == seed_from(seed),
    {
        let ghost base = dst.written();
        let seed = match seed {
            Some(seed) => Some(Seed::new(seed)),
            None => None,
        };
        let r = Self {
            stream: CompressStream::new(),
            destination: dst,
            seed,
            base: Ghost(base),
            log: Ghost(Seq::empty()),
        };
        assert(base + log_bytes(r.log@, seed) =~= base);
        r
    }

    /// Returns contained writer, consuming `self`.
    pub fn into_inner(self) -> (r: W)
        ensures
            r == self.destination(),
    {
        self.destination
    }

    /// Returns contained region hash seed.
    pub fn seed(&self) -> (r: Option<Seed>)
        ensures
            r == self.hash_seed(),
    {
        self.seed
    }
}

/// Lays out a region in `arena`: the `header`, followed by the `body`.
pub fn write_region(arena: &mut [u8], header: RegionHeader, body: &[u8])
    requires
        HEADER_SIZE + body@.len() <= old(arena)@.len(),
    ensures
        final(arena)@ == header.bytes() + body@ + old(arena)@.skip((HEADER_SIZE + body@.len()) as int),
{
    let ghost before = arena@;
    let header_bytes = header.into_bytes();
    let (head, tail) = arena.split_at_mut(HEADER_SIZE);
    write_to_uninit(header_bytes.as_slice(), head);
    write_to_uninit(body, tail);
    proof {
        assert(head@ =~= header.bytes());
        assert(tail@ =~= body@ + before.skip((HEADER_SIZE + body@.len()) as int));
    }
}

impl<W> Sealed for Push<W> where W: Writer {

}

impl<W> StateSwitch for Push<W> where W: Writer {
    /// The destination holds the regions written, each of which expands to its contents.
    open spec fn inv(&self) -> bool {
        &&& chained(self.log())
        &&& self.history() == history_at(self.log(), self.log().len() as int)
        &&& self.destination().recorded() ==> self.destination().written() == self.base()
            + log_bytes(self.log(), self.hash_seed())
    }

    /// A pass of an empty buffer does nothing. Otherwise the contents of the buffer
    /// become one more region, unless the destination has no room for it.
    open spec fn switched(
        before: Self,
        after: Self,
        buf: Held,
        next: Held,
        r: Result<(), RegionError>,
    ) -> bool {
        let room = before.destination().fits(region_room(buf.bytes.len()));
        &&& after.base() == before.base()
        &&& after.hash_seed() == before.hash_seed()
        &&& after.destination().recorded() == before.destination().recorded()
        &&& match r {
            Ok(_) => {
                &&& next == Held::empty(buf.cap)
                &&& if buf.bytes.len() == 0 {
                    after == before
                } else {
                    &&& room
                    &&& after.log().len() == before.log().len() + 1
                    &&& after.log().drop_last() == before.log()
                    &&& after.log().last().raw == buf.bytes
                    &&& forall|m: nat| #[trigger]
                        after.destination().fits(m) == before.destination().fits(
                            HEADER_SIZE as nat + after.log().last().body.len() + m,
                        )
                }
            },
            Err(e) => {
                &&& buf.bytes.len() > 0
                &&& !room
                &&& e matches RegionError::WriteFailure(WriteError::Custom(_))
                &&& next == buf
                &&& after.log() == before.log()
                &&& after.destination().written() == before.destination().written()
                &&& forall|m: nat| #[trigger]
                    after.destination().fits(m) == before.destination().fits(m)
            },
        }
    }

    /// Serializes the contents of `buf` into the internal [`Writer`].
    fn pass(&mut self, buf: &mut Buffer) -> (r: Result<(), RegionError>) {
        if buf.len() == 0 {
            assert(buf@.bytes =~= Seq::empty());
            return Ok(());
        }
        let size: usize = compress_bound(buf.len()) + HEADER_SIZE;
        let mut arena = match self.destination.write_mut(size) {
            Some(arena) => arena,
            None => return Err(RegionError::WriteFailure(out_of_bounds())),
        };
        let body = self.stream.compress(buf.as_slice());
        let hash: u64 = hash_region(self.seed, buf.as_slice());
        let header = head_region(buf.len(), body.as_slice(), hash);
        proof {
            law_header_round_trip(header, Seq::empty());
        }
        write_region(arena.as_mut_slice(), header, body.as_slice());
        assert(arena@.len() == size);
        self.destination.assume_init(arena.as_slice(), HEADER_SIZE + body.len());
        self.stream.keep(buf.as_slice());
        proof {
            let entry = Entry { raw: buf@.bytes, body: body@ };
            let before = self.log@;
            self.log@ = before.push(entry);
            assert(arena@.take(HEADER_SIZE + body@.len()) =~= region_bytes(entry, self.seed));
            lemma_log_push(before, entry, self.seed);
            if self.destination.recorded() {
                assert(self.destination.written() =~= self.base@ + log_bytes(self.log@, self.seed));
            }
        }
        buf.clear();
        Ok(())
    }
}

} // verus!
