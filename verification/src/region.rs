//! Regions: the units a stream consists of, each holding a header and a compressed body.

use vstd::prelude::*;
use vstd::slice::slice_subrange;

use crate::decode::ReadError;
use crate::encode::{Encode, WriteError};
use crate::lz4::{bound, compress_bound};
use crate::little_endian::{
    get_le,
    le_bytes,
    le_value,
    lemma_le_bytes_len,
    lemma_le_bytes_of_value,
    lemma_le_value_of_bytes,
    lemma_span_values,
    put_le,
};

use twox_hash::XxHash64;

mod buffer;
mod private;
mod switch;

pub use buffer::{Buffer, Buffers, Held, RegionBuffer};
pub use switch::{
    accept_region,
    chained,
    head_region,
    header_of,
    history_at,
    lemma_log_push,
    lemma_log_len,
    lemma_log_len_add,
    log_bytes,
    log_len,
    pull,
    region_bytes,
    region_room,
    write_region,
    Entry,
    Inlet,
    Pull,
    Pulled,
    Push,
    StateSwitch,
};

verus! {

/// Maximum size of region body.
pub const REGION_SIZE: usize = 65535;

/// Size of the largest region whose body fits the length field of the header however badly
/// it compresses.
pub const SAFE_SIZE: usize = 65264;

/// Byte size of region header.
pub const HEADER_SIZE: usize = 12;

/// The maximum possible size of a region stream which `size` raw bytes are packed into.
pub open spec fn max_encoded(size: nat) -> nat {
    let full = size / REGION_SIZE as nat;
    let rest = size % REGION_SIZE as nat;
    let count = if rest == 0 {
        full
    } else {
        full + 1
    };
    full * bound(REGION_SIZE as nat) + bound(rest) + count * HEADER_SIZE as nat
}

/// Returns the maximum possible size of an encoded region stream
/// containing a value sized in `size` bytes.
///
/// This does not account for possible early state switches in
/// non-last regions because that directly depends
/// on [`Encode`] implementation.
pub fn max_encoded_size(size: usize) -> (r: usize)
    requires
        max_encoded(size as nat) <= usize::MAX,
    ensures
        r == max_encoded(size as nat),
{
    let full: usize = size / REGION_SIZE;
    let rest: usize = size % REGION_SIZE;
    let count: usize = if rest == 0 {
        full
    } else {
        full + 1
    };
    let full_bound: usize = compress_bound(REGION_SIZE);
    proof {
        assert(0 <= full * full_bound <= max_encoded(size as nat)) by (nonlinear_arith)
            requires
                full >= 0,
                full_bound >= 0,
                full * full_bound <= max_encoded(size as nat),
        ;
    }
    full * full_bound + compress_bound(rest) + count * HEADER_SIZE
}

/// XXHASH64 of `bytes` under `seed`.
pub uninterp spec fn xxhash64(seed: u64, bytes: Seq<u8>) -> u64;

/// Calls `twox_hash::XxHash64::oneshot`, whose result depends on the seed and the bytes
/// alone.
#[verifier::external_body]
fn xxhash64_oneshot(seed: u64, bytes: &[u8]) -> (hash: u64)
    ensures
        hash == xxhash64(seed, bytes@),
{
    XxHash64::oneshot(seed, bytes)
}

/// Seed of a region hash, represented in 8 bytes.
#[derive(Copy, Clone, Debug, PartialEq, Eq, Structural)]
pub struct Seed {
    pub inner: u64,
}

impl Seed {
    /// Constructs a new [`Seed`].
    pub fn new(seed: u64) -> (r: Self)
        ensures
            r.inner == seed,
    {
        Self { inner: seed }
    }

    /// Produces a hash of `bytes` using this [`Seed`].
    pub fn hash(&self, bytes: &[u8]) -> (r: u64)
        ensures
            r == xxhash64(self.inner, bytes@),
    {
        xxhash64_oneshot(self.inner, bytes)
    }
}

impl Default for Seed {
    fn default() -> (r: Self)
        ensures
            r.inner == 0,
    {
        Self { inner: 0 }
    }
}

impl From<u64> for Seed {
    fn from(seed: u64) -> (r: Self) {
        Self::new(seed)
    }
}

impl vstd::std_specs::convert::FromSpecImpl<u64> for Seed {
    open spec fn obeys_from_spec() -> bool {
        true
    }

    open spec fn from_spec(seed: u64) -> Self {
        Seed { inner: seed }
    }
}

/// The seed that a number stands for.
pub open spec fn seed_from(seed: Option<u64>) -> Option<Seed> {
    match seed {
        Some(seed) => Some(Seed { inner: seed }),
        None => None,
    }
}

/// The hash a region with contents `raw` carries: zero where hashing is disabled.
pub open spec fn region_hash(seed: Option<Seed>, raw: Seq<u8>) -> u64 {
    match seed {
        Some(seed) => xxhash64(seed.inner, raw),
        None => 0,
    }
}

/// Returns the hash that a region with contents `raw` carries.
pub fn hash_region(seed: Option<Seed>, raw: &[u8]) -> (r: u64)
    ensures
        r == region_hash(seed, raw@),
        seed matches Some(seed) ==> r == xxhash64(seed.inner, raw@),
        seed is None ==> r == 0,
{
    match seed {
        Some(seed) => seed.hash(raw),
        None => 0,
    }
}

/// A hint of capacity required for bearer to stream a pipeline.
pub enum Size<T = ()> where T: Encode {
    /// An explicitly specified capacity in bytes.
    Manual(isize),
    /// Capacity derived from `<T as Encode>::size_of` method call.
    Auto(T),
    /// Hint to allocate the maximum capacity possible.
    Full,
}

impl Default for Size {
    /// Default value of [`Size`] is 4 KiB.
    fn default() -> (r: Self)
        ensures
            r == Size::<()>::Manual(4096),
    {
        Size::Manual(4096)
    }
}

impl Size {
    /// `Size::<()>::Full`.
    pub fn full() -> (r: Self)
        ensures
            r == Size::<()>::Full,
    {
        Size::Full
    }

    /// `Size::<()>::Manual`.
    ///
    /// A count beyond `isize::MAX` wraps around, which hints no capacity at all.
    pub fn manual(count: usize) -> (r: Self)
        ensures
            r matches Size::Manual(cap) && cap == (if count <= isize::MAX {
                count as int
            } else {
                count - 2 * (isize::MAX + 1)
            }),
    {
        if count <= isize::MAX as usize {
            Size::Manual(count as isize)
        } else {
            Size::Manual(isize::MIN + (count - isize::MAX as usize - 1) as isize)
        }
    }
}

impl<T: Encode> Size<T> {
    /// The capacity hinted in bytes.
    pub open spec fn capacity(&self) -> nat {
        match self {
            Size::Manual(cap) => if *cap < 0 {
                0
            } else {
                *cap as nat
            },
            Size::Auto(hint) => hint.size_hint(),
            Size::Full => 2 * REGION_SIZE as nat,
        }
    }

    /// Returns capacity hinted in bytes.
    pub fn cap(&self) -> (r: usize)
        requires
            self.capacity() <= usize::MAX,
        ensures
            r == self.capacity(),
    {
        match self {
            Size::Manual(cap) => if *cap < 0 {
                0
            } else {
                *cap as usize
            },
            Size::Auto(hint) => hint.size_of(),
            Size::Full => REGION_SIZE * 2,
        }
    }
}

/// An error type returned by region processing related methods.
#[derive(Debug)]
pub enum RegionError {
    /// Failed to read data into a region buffer.
    ReadFailure(ReadError),
    /// Failed to allocate capacity to write a region buffer.
    WriteFailure(WriteError),
    /// Invalid region size hint.
    InvalidSizeHint,
    /// Malformed region.
    MalformedRegion,
    /// Hash is not valid for contiguous region.
    InvalidHash,
    /// Requested region operation is out of bounds of current capacity.
    OutOfBounds,
}

impl From<ReadError> for RegionError {
    fn from(e: ReadError) -> (r: Self) {
        RegionError::ReadFailure(e)
    }
}

impl vstd::std_specs::convert::FromSpecImpl<ReadError> for RegionError {
    open spec fn obeys_from_spec() -> bool {
        true
    }

    open spec fn from_spec(e: ReadError) -> Self {
        RegionError::ReadFailure(e)
    }
}

impl From<WriteError> for RegionError {
    fn from(e: WriteError) -> (r: Self) {
        RegionError::WriteFailure(e)
    }
}

impl vstd::std_specs::convert::FromSpecImpl<WriteError> for RegionError {
    open spec fn obeys_from_spec() -> bool {
        true
    }

    open spec fn from_spec(e: WriteError) -> Self {
        RegionError::WriteFailure(e)
    }
}

/// In-memory representation of region header.
///
/// Its byte format is `[CompressedSize; 2][AllocSize; 2][RegionHash; 8]`: the lengths of
/// the compressed and of the raw contents and the hash of the raw contents.
#[derive(Copy, Clone, Debug, PartialEq, Eq, Structural)]
pub struct RegionHeader {
    pub compressed_size: u16,
    pub alloc_size: u16,
    pub hash: u64,
}

/// The header serialized in the first bytes of `bytes`.
pub open spec fn parse_header(bytes: Seq<u8>) -> RegionHeader {
    RegionHeader {
        compressed_size: le_value(bytes.subrange(0, 2)) as u16,
        alloc_size: le_value(bytes.subrange(2, 4)) as u16,
        hash: le_value(bytes.subrange(4, 12)) as u64,
    }
}

impl RegionHeader {
    /// The serialized form.
    pub open spec fn bytes(self) -> Seq<u8> {
        le_bytes(self.compressed_size as nat, 2) + le_bytes(self.alloc_size as nat, 2) + le_bytes(
            self.hash as nat,
            8,
        )
    }

    /// Constructs a new [`RegionHeader`] from serialized header bytes.
    pub fn from_bytes(bytes: &[u8]) -> (r: Self)
        requires
            bytes@.len() >= HEADER_SIZE,
        ensures
            r == parse_header(bytes@),
    {
        proof {
            lemma_span_values();
        }
        let compressed_size: u16 = get_le(slice_subrange(bytes, 0, 2)) as u16;
        let alloc_size: u16 = get_le(slice_subrange(bytes, 2, 4)) as u16;
        let hash: u64 = get_le(slice_subrange(bytes, 4, 12)) as u64;
        Self { compressed_size, alloc_size, hash }
    }

    /// Serializes this [`RegionHeader`] into bytes.
    pub fn into_bytes(self) -> (r: Vec<u8>)
        ensures
            r@ == self.bytes(),
            r@.len() == HEADER_SIZE,
    {
        proof {
            lemma_le_bytes_len(self.compressed_size as nat, 2);
            lemma_le_bytes_len(self.alloc_size as nat, 2);
            lemma_le_bytes_len(self.hash as nat, 8);
        }
        let mut bytes: Vec<u8> = put_le(self.compressed_size as u128, 2);
        let mut alloc_size: Vec<u8> = put_le(self.alloc_size as u128, 2);
        let mut hash: Vec<u8> = put_le(self.hash as u128, 8);
        bytes.append(&mut alloc_size);
        bytes.append(&mut hash);
        bytes
    }
}

/// A header read back from its serialized form is the same header, whatever follows it.
pub proof fn law_header_round_trip(header: RegionHeader, rest: Seq<u8>)
    ensures
        header.bytes().len() == HEADER_SIZE,
        parse_header(header.bytes() + rest) == header,
{
    let bytes = header.bytes() + rest;
    lemma_span_values();
    lemma_le_value_of_bytes(header.compressed_size as nat, 2);
    lemma_le_value_of_bytes(header.alloc_size as nat, 2);
    lemma_le_value_of_bytes(header.hash as nat, 8);
    assert(bytes.subrange(0, 2) =~= le_bytes(header.compressed_size as nat, 2));
    assert(bytes.subrange(2, 4) =~= le_bytes(header.alloc_size as nat, 2));
    assert(bytes.subrange(4, 12) =~= le_bytes(header.hash as nat, 8));
}

/// Any header bytes are the serialized form of the header read from them.
pub proof fn law_header_bytes_round_trip(bytes: Seq<u8>)
    requires
        bytes.len() >= HEADER_SIZE,
    ensures
        parse_header(bytes).bytes() == bytes.take(HEADER_SIZE as int),
{
    lemma_span_values();
    lemma_le_bytes_of_value(bytes.subrange(0, 2));
    lemma_le_bytes_of_value(bytes.subrange(2, 4));
    lemma_le_bytes_of_value(bytes.subrange(4, 12));
    assert(parse_header(bytes).bytes() =~= bytes.take(HEADER_SIZE as int));
}

} // verus!
