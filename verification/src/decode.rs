//! Decoding pipeline: sources of encoded bytes, bearers handing out raw bytes and
//! the trait interpreting them.

use vstd::pervasive::arbitrary;
use vstd::prelude::*;
use vstd::slice::slice_subrange;

use crate::frame::FrameError;
use crate::region::{pull, seed_from, Buffers, Inlet, Pull, RegionBuffer, RegionError};
use crate::stream::Feed;

mod private;

verus! {

/// `std::io::Error`, carried as it is.
#[verifier::external_type_specification]
#[verifier::external_body]
pub struct ExIoError(std::io::Error);

/// Runtime error of a [`Reader`].
#[derive(Debug)]
pub enum ReadError {
    /// Requested length is out of bounds.
    OutOfBounds,
    /// The source itself failed.
    Io(std::io::Error),
}

impl From<std::io::Error> for ReadError {
    fn from(e: std::io::Error) -> (r: Self) {
        ReadError::Io(e)
    }
}

impl vstd::std_specs::convert::FromSpecImpl<std::io::Error> for ReadError {
    open spec fn obeys_from_spec() -> bool {
        true
    }

    open spec fn from_spec(e: std::io::Error) -> Self {
        ReadError::Io(e)
    }
}

/// Result of a read.
pub type ReadResult<T> = Result<T, ReadError>;

/// A trait defining a read interface over a sequence of bytes.
///
/// Reading only shows the bytes that come next, [`Reader::advance`] consumes them.
///
/// Specification functions have defaults for implementations outside of verified code,
/// whose behaviour nothing is stated of. A verified implementation overrides them.
pub trait Reader: Sized {
    /// The bytes that are not consumed yet.
    open spec fn bytes(&self) -> Seq<u8> {
        arbitrary()
    }

    /// Whether the reader was moved past the end of its bytes, where nothing can be read,
    /// not even no bytes.
    open spec fn overrun(&self) -> bool {
        arbitrary()
    }

    /// How many of the bytes may be consumed right away.
    open spec fn ready(&self) -> nat {
        arbitrary()
    }

    /// Whether reads fail for want of bytes only.
    open spec fn faultless(&self) -> bool {
        arbitrary()
    }

    /// Reads exactly `n` bytes and does not advance the reader.
    fn read_borrow(&mut self, n: usize) -> (r: ReadResult<&[u8]>)
        ensures
            final(self).bytes() == old(self).bytes(),
            final(self).faultless() == old(self).faultless(),
            final(self).overrun() == old(self).overrun(),
            final(self).ready() <= final(self).bytes().len(),
            old(self).overrun() ==> old(self).bytes().len() == 0,
            n <= old(self).ready() && !old(self).overrun() ==> r is Ok,
            match r {
                Ok(shown) => {
                    &&& !old(self).overrun()
                    &&& n <= old(self).bytes().len()
                    &&& shown@ == old(self).bytes().take(n as int)
                    &&& n <= final(self).ready()
                },
                Err(ReadError::OutOfBounds) => n > old(self).bytes().len() || old(self).overrun(),
                Err(ReadError::Io(_)) => !old(self).faultless(),
            },
    ;

    /// Advances the reader by `n` bytes.
    fn advance(&mut self, n: usize)
        requires
            n <= old(self).ready(),
        ensures
            n <= old(self).bytes().len(),
            final(self).bytes() == old(self).bytes().skip(n as int),
            final(self).overrun() == old(self).overrun(),
            final(self).faultless() == old(self).faultless(),
    ;

    /// Reads exactly constant `N` bytes and does not advance the reader.
    fn read_borrow_const<const N: usize>(&mut self) -> (r: ReadResult<[u8; N]>)
        ensures
            final(self).bytes() == old(self).bytes(),
            final(self).faultless() == old(self).faultless(),
            final(self).overrun() == old(self).overrun(),
            final(self).ready() <= final(self).bytes().len(),
            old(self).overrun() ==> old(self).bytes().len() == 0,
            N <= old(self).ready() && !old(self).overrun() ==> r is Ok,
            match r {
                Ok(shown) => {
                    &&& !old(self).overrun()
                    &&& N <= old(self).bytes().len()
                    &&& shown@ == old(self).bytes().take(N as int)
                    &&& N <= final(self).ready()
                },
                Err(ReadError::OutOfBounds) => N > old(self).bytes().len() || old(self).overrun(),
                Err(ReadError::Io(_)) => !old(self).faultless(),
            },
    {
        let mut buf: [u8; N] = [0u8; N];
        let ghost shown = self.bytes().take(N as int);
        match self.read_borrow(N) {
            Ok(bytes) => {
                let mut at: usize = 0;
                while at < N
                    invariant
                        at <= N,
                        bytes@ == shown,
                        shown.len() == N,
                        buf@.take(at as int) == shown.take(at as int),
                    decreases N - at,
                {
                    let ghost before = buf@;
                    buf[at] = bytes[at];
                    assert(buf@.take(at + 1) =~= before.take(at as int).push(bytes@[at as int]));
                    assert(shown.take(at + 1) =~= shown.take(at as int).push(shown[at as int]));
                    at = at + 1;
                }
                assert(buf@.take(N as int) =~= buf@);
                assert(shown.take(N as int) =~= shown);
                Ok(buf)
            },
            Err(e) => Err(e),
        }
    }
}

/// Reading does not advance the reader: what was read once is read again, whatever the
/// source does. `first` and `second` are the reader as handed to two reads in a row.
pub proof fn law_read_again<R: Reader>(
    first: &mut R,
    second: &mut R,
    n: usize,
    a: ReadResult<&[u8]>,
    b: ReadResult<&[u8]>,
)
    requires
        call_ensures(R::read_borrow, (first, n), a),
        *final(first) == *second,
        call_ensures(R::read_borrow, (second, n), b),
        a is Ok,
    ensures
        b is Ok,
        b->Ok_0@ == a->Ok_0@,
{
}

impl Reader for &[u8] {
    open spec fn bytes(&self) -> Seq<u8> {
        self@
    }

    open spec fn overrun(&self) -> bool {
        false
    }

    open spec fn ready(&self) -> nat {
        self@.len()
    }

    open spec fn faultless(&self) -> bool {
        true
    }

    fn read_borrow(&mut self, n: usize) -> (r: ReadResult<&[u8]>) {
        if n <= self.len() {
            Ok(slice_subrange(*self, 0, n))
        } else {
            Err(ReadError::OutOfBounds)
        }
    }

    fn advance(&mut self, n: usize) {
        *self = slice_subrange(*self, n, self.len());
    }
}

impl Reader for &mut [u8] {
    open spec fn bytes(&self) -> Seq<u8> {
        (**self)@
    }

    open spec fn overrun(&self) -> bool {
        false
    }

    open spec fn ready(&self) -> nat {
        (**self)@.len()
    }

    open spec fn faultless(&self) -> bool {
        true
    }

    fn read_borrow(&mut self, n: usize) -> (r: ReadResult<&[u8]>) {
        if n <= self.len() {
            Ok(slice_subrange(*self, 0, n))
        } else {
            Err(ReadError::OutOfBounds)
        }
    }

    fn advance(&mut self, n: usize) {
        let mut slice: &mut [u8] = &mut [];
        core::mem::swap(self, &mut slice);
        let (_, rest) = slice.split_at_mut(n);
        *self = rest;
    }
}

/// Bearer of a decoding pipeline.
///
/// A bearer selects targeted chunk, verifies the metadata, decompresses and gives raw
/// bytes to the caller, which is responsible for interpreting them.
pub trait DecodeBearer: private::Sealed + Sized {
    /// What holds of a bearer between reads.
    spec fn inv(&self) -> bool;

    /// What is left to read.
    spec fn feed(&self) -> Feed;

    /// Whether the source fails for want of bytes only.
    spec fn faultless(&self) -> bool;

    /// Requests exactly `n` raw bytes.
    ///
    /// Read of `n` bytes advances the bearer's internal position in source
    /// by `n`, making prior bytes inaccessible. A read that failed may be followed by others.
    fn read(&mut self, n: usize) -> (r: Result<&[u8], RegionError>)
        requires
            old(self).inv(),
        ensures
            final(self).inv(),
            final(self).faultless() == old(self).faultless(),
            old(self).feed().ready(),
            final(self).feed().ready(),
            match r {
                Ok(bytes) => {
                    &&& old(self).feed().read(n as nat) == (
                        Ok::<Seq<u8>, RegionError>(bytes@),
                        final(self).feed(),
                    )
                    &&& bytes@.len() == n
                },
                Err(e) => {
                    ||| old(self).feed().read(n as nat) == (
                        Err::<Seq<u8>, RegionError>(e),
                        final(self).feed(),
                    )
                    ||| {
                        &&& !old(self).faultless()
                        &&& old(self).feed().unread().len() < n
                        &&& e matches RegionError::ReadFailure(ReadError::Io(_))
                        &&& final(self).feed() == old(self).feed()
                    }
                },
            },
    ;
}

/// A [`StreamDecoder`] builder.
pub struct StreamDecoderBuilder {
    region_buffer: RegionBuffer,
    seed: Option<u64>,
}

impl StreamDecoderBuilder {
    /// The region buffer is well-formed and empty.
    pub closed spec fn inv(&self) -> bool {
        &&& self.region_buffer.inv()
        &&& self.region_buffer.curr() == Seq::<u8>::empty()
        &&& self.region_buffer.prev() == Seq::<u8>::empty()
    }

    /// The seed specified, if any.
    pub closed spec fn seed_value(&self) -> Option<u64> {
        self.seed
    }

    /// The region buffer.
    pub closed spec fn buffer(&self) -> RegionBuffer {
        self.region_buffer
    }

    /// Creates a new [`StreamDecoderBuilder`], allocating a region buffer with initial
    /// capacity equal to `size`.
    pub fn new(size: usize) -> (r: Self)
        ensures
            r.inv(),
            r.seed_value() is None,
            r.buffer().buffers() == Buffers::fresh(size as nat),
    {
        Self { region_buffer: RegionBuffer::new(size), seed: None }
    }

    /// Creates a new [`StreamDecoderBuilder`] without allocating a new region buffer
    /// and instead reusing already existing one. Only the allocation is reused: what
    /// the buffer still holds is discarded.
    pub fn from_raw(buffer: RegionBuffer) -> (r: Self)
        ensures
            r.inv(),
            r.seed_value() is None,
            r.buffer().buffers() == buffer.buffers().cleared(),
    {
        let mut region_buffer = buffer;
        region_buffer.clear();
        Self { region_buffer, seed: None }
    }

    /// Specifies a `seed` which will be used to verify region hashes.
    pub fn seed(self, seed: u64) -> (r: StreamDecoderBuilder)
        requires
            self.inv(),
        ensures
            r.inv(),
            r.seed_value() == Some(seed),
            r.buffer() == self.buffer(),
    {
        Self { region_buffer: self.region_buffer, seed: Some(seed) }
    }

    /// Constructs a new [`StreamDecoder`] with specified parameters and `reader`
    /// source.
    ///
    /// If a seed wasn't specified using [`StreamDecoderBuilder::seed`], hash computation
    /// will be disabled and hash fields will be compared with zeroed hash.
    ///
    /// This method will return an error if decoding the first region has failed.
    pub fn build<R>(self, reader: R) -> (r: Result<StreamDecoder<R>, RegionError>) where R: Reader
        requires
            self.inv(),
        ensures
            opened(reader, self.seed_value(), self.buffer().buffers(), r),
    {
        let mut decoder = StreamDecoder {
            region_buffer: self.region_buffer,
            switch: Pull::new(reader, self.seed),
        };
        match decoder.region_buffer.pass(&mut decoder.switch) {
            Ok(_) => Ok(decoder),
            Err(e) => Err(e),
        }
    }
}

/// The stream that `bytes` hold, before its first region.
pub open spec fn inlet_of(bytes: Seq<u8>, seed: Option<u64>) -> Inlet {
    Inlet { history: Seq::empty(), bytes, seed: seed_from(seed) }
}

/// A decoder with the `buffers` given opens a source by pulling its first region.
pub open spec fn open_feed(
    bytes: Seq<u8>,
    seed: Option<u64>,
    buffers: Buffers,
) -> Result<Feed, RegionError> {
    let pulled = pull(inlet_of(bytes, seed), buffers.curr);
    match pulled.result {
        Ok(_) => Ok(
            Feed {
                curr: pulled.buf,
                prev: Buffers { curr: pulled.buf, ..buffers }.spare(),
                cursor: 0,
                inlet: pulled.inlet,
            },
        ),
        Err(e) => Err(e),
    }
}

/// What opening `reader` may have led to.
pub open spec fn opened<R: Reader>(
    reader: R,
    seed: Option<u64>,
    buffers: Buffers,
    r: Result<StreamDecoder<R>, RegionError>,
) -> bool {
    match r {
        Ok(decoder) => {
            &&& decoder.inv()
            &&& decoder.faultless() == reader.faultless()
            &&& open_feed(reader.bytes(), seed, buffers) == Ok::<Feed, RegionError>(decoder.feed())
            &&& decoder.feed().ready()
        },
        Err(e) => {
            ||| open_feed(reader.bytes(), seed, buffers) == Err::<Feed, RegionError>(e)
            ||| !reader.faultless() && e matches RegionError::ReadFailure(ReadError::Io(_))
        },
    }
}

/// The one and only [`DecodeBearer`] implementation operating on region streams.
pub struct StreamDecoder<R> where R: Reader {
    region_buffer: RegionBuffer,
    switch: Pull<R>,
}

impl<R> StreamDecoder<R> where R: Reader {
    /// Deconstructs this [`StreamDecoder`] into a [`RegionBuffer`] for later reuse.
    pub fn into_raw(self) -> (r: RegionBuffer)
        requires
            self.inv(),
        ensures
            r.inv(),
            r.buffers().curr == self.feed().curr,
            r.buffers().spare() == self.feed().prev,
            r.cursor() == self.feed().cursor,
    {
        self.region_buffer
    }

    /// Creates a new [`StreamDecoder`].
    pub fn new(src: R, size: usize, seed: Option<u64>) -> (r: Result<Self, RegionError>)
        ensures
            opened(src, seed, Buffers::fresh(size as nat), r),
    {
        let mut decoder = Self {
            region_buffer: RegionBuffer::new(size),
            switch: Pull::new(src, seed),
        };
        match decoder.region_buffer.pass(&mut decoder.switch) {
            Ok(_) => Ok(decoder),
            Err(e) => Err(e),
        }
    }
}

impl<R> private::Sealed for StreamDecoder<R> where R: Reader {

}

impl<R> DecodeBearer for StreamDecoder<R> where R: Reader {
    closed spec fn inv(&self) -> bool {
        &&& self.region_buffer.inv()
        &&& self.region_buffer.cursor() <= self.region_buffer.curr().len()
    }

    closed spec fn feed(&self) -> Feed {
        Feed {
            curr: self.region_buffer.buffers().curr,
            prev: self.region_buffer.buffers().spare(),
            cursor: self.region_buffer.cursor(),
            inlet: self.switch.inlet(),
        }
    }

    closed spec fn faultless(&self) -> bool {
        self.switch.faultless()
    }

    fn read(&mut self, n: usize) -> (r: Result<&[u8], RegionError>) {
        let ghost feed = self.feed();
        if self.region_buffer.remaining_len() < n {
            self.region_buffer.swap();
            if let Err(e) = self.region_buffer.pass(&mut self.switch) {
                self.region_buffer.swap();
                return Err(e);
            }
        }
        // If read failed after a state switch, we assume request
        // as invalid for the bytes streamed
        match self.region_buffer.read(n) {
            Some(bytes) => {
                assert(bytes@ =~= feed.read(n as nat).0->Ok_0);
                Ok(bytes)
            },
            None => Err(RegionError::OutOfBounds),
        }
    }
}

/// The [`Decode`] implementation runtime error.
#[derive(Debug)]
pub enum DecodeError {
    /// Frame decoding error.
    FrameError(FrameError),
    /// Decode bearer error.
    BearerError(RegionError),
    /// Invalid pattern.
    InvalidPattern,
    /// Any other error.
    Other(&'static str),
}

impl From<FrameError> for DecodeError {
    fn from(e: FrameError) -> (r: Self) {
        DecodeError::FrameError(e)
    }
}

impl vstd::std_specs::convert::FromSpecImpl<FrameError> for DecodeError {
    open spec fn obeys_from_spec() -> bool {
        true
    }

    open spec fn from_spec(e: FrameError) -> Self {
        DecodeError::FrameError(e)
    }
}

impl From<RegionError> for DecodeError {
    fn from(e: RegionError) -> (r: Self) {
        DecodeError::BearerError(e)
    }
}

impl vstd::std_specs::convert::FromSpecImpl<RegionError> for DecodeError {
    open spec fn obeys_from_spec() -> bool {
        true
    }

    open spec fn from_spec(e: RegionError) -> Self {
        DecodeError::BearerError(e)
    }
}

/// Meaning of a value of the data model, which is what encoding preserves.
pub trait Data {
    /// Mathematical counterpart of the implementing type.
    type Value;

    /// What this value stands for.
    spec fn value(&self) -> Self::Value;
}

/// What a result of decoding stands for.
pub open spec fn meant<T: Data>(r: Result<T, DecodeError>) -> Result<T::Value, DecodeError> {
    match r {
        Ok(v) => Ok(v.value()),
        Err(e) => Err(e),
    }
}

/// What a decoding may have led to: the outcome which the bytes determine, unless the
/// source failed.
pub open spec fn decoded<V, B: DecodeBearer>(
    before: B,
    after: B,
    outcome: (Result<V, DecodeError>, Feed),
    r: Result<V, DecodeError>,
) -> bool {
    &&& after.inv()
    &&& after.faultless() == before.faultless()
    &&& match r {
        Ok(_) => outcome == (r, after.feed()),
        Err(e) => outcome == (r, after.feed()) || !before.faultless() && source_fault(e),
    }
}

/// Whether `e` is a failure of the source itself.
pub open spec fn source_fault(e: DecodeError) -> bool {
    e matches DecodeError::BearerError(RegionError::ReadFailure(ReadError::Io(_)))
}

/// A trait for interpreting serialized bytes into instances of the implementing type.
///
/// Specification functions have defaults for implementations outside of verified code,
/// whose behaviour nothing is stated of. A verified implementation overrides them.
pub trait Decode: Data + Sized {
    /// What the bytes of a feed are interpreted as and what is left to read afterwards.
    open spec fn decoding(feed: Feed) -> (Result<Self::Value, DecodeError>, Feed) {
        arbitrary()
    }

    /// Constructs `Self` from raw serialized bytes.
    fn decode<B: DecodeBearer>(bearer: &mut B) -> (r: Result<Self, DecodeError>)
        requires
            old(bearer).inv(),
        ensures
            decoded(*old(bearer), *final(bearer), Self::decoding(old(bearer).feed()), meant(r)),
    ;
}

/// Decodes `T` from the [`DecodeBearer`] provided.
pub fn get<T>(bearer: &mut impl DecodeBearer) -> (r: Result<T, DecodeError>) where T: Decode
    requires
        old(bearer).inv(),
    ensures
        decoded(*old(bearer), *final(bearer), T::decoding(old(bearer).feed()), meant(r)),
{
    T::decode(bearer)
}

} // verus!
