//! Streamed LZ4 block compression.
//!
//! Every block of a stream is compressed with the raw contents of the block before it
//! at hand, which improves the ratio of smaller blocks. Both directions therefore keep
//! the last block they have processed.

use vstd::prelude::*;
use vstd::slice::slice_to_vec;

verus! {

/// Length of the longest input LZ4 admits.
pub const MAX_INPUT_SIZE: usize = 0x7E00_0000;

/// What an LZ4 `block` expands to with `dict` before it, given room for `limit` bytes.
/// `None` if the block is malformed or its contents are longer than `limit`.
pub uninterp spec fn lz4_expand(dict: Seq<u8>, block: Seq<u8>, limit: nat) -> Option<Seq<u8>>;

/// The most room a block is expanded into.
pub const MAX_LIMIT: usize = 0x4000_0000;

/// Whether `block` expands to `raw` with `dict` before it, given any room for as much.
pub open spec fn expands(dict: Seq<u8>, block: Seq<u8>, raw: Seq<u8>) -> bool {
    forall|limit: nat|
        raw.len() <= limit <= MAX_LIMIT ==> #[trigger] lz4_expand(dict, block, limit) == Some(raw)
}

/// Calls `lz4_flex::block::compress_with_dict`.
///
/// The block it returns expands to `src` again, given the same dictionary and room for
/// `src` or more, and its length keeps to [`bound`]: a sequence with a match takes less than
/// what it stands for, but for one byte more with every 255 literals, and the last sequence
/// adds two bytes at most besides those. Room beyond `src` lets the bytes be copied in larger
/// pieces when the block is expanded, but what they are stays the same. Which of the blocks
/// with these properties is chosen differs between machines, so nothing more is claimed of it.
/// The bounds on the arguments keep the buffer it allocates below `isize::MAX` bytes.
#[verifier::external_body]
fn lz4_compress(src: &[u8], dict: &[u8]) -> (block: Vec<u8>)
    requires
        src@.len() <= MAX_LIMIT,
        dict@.len() <= 0x1000_0000,
    ensures
        expands(dict@, block@, src@),
        block@.len() <= bound(src@.len()),
{
    lz4_flex::block::compress_with_dict(src, dict)
}

/// Calls `lz4_flex::block::decompress_into_with_dict` with an output of `limit` bytes.
///
/// The result depends on the block, the dictionary and the limit alone and never exceeds
/// the limit. The bound on the block keeps the lengths written in it within `usize`.
#[verifier::external_body]
fn lz4_decompress(src: &[u8], limit: usize, dict: &[u8]) -> (raw: Option<Vec<u8>>)
    requires
        src@.len() <= 0xFF_FFFF,
        limit <= MAX_LIMIT,
    ensures
        raw matches Some(v) ==> lz4_expand(dict@, src@, limit as nat) == Some(v@) && v@.len()
            <= limit,
        raw is None ==> lz4_expand(dict@, src@, limit as nat) is None,
{
    let mut out = vec![0u8; limit];
    let count = lz4_flex::block::decompress_into_with_dict(src, &mut out, dict).ok()?;
    out.truncate(count);
    Some(out)
}

/// Largest length of an LZ4 block holding `size` raw bytes, `0` if LZ4 does not admit that
/// many.
pub open spec fn bound(size: nat) -> nat {
    if size > MAX_INPUT_SIZE {
        0
    } else {
        size + size / 255 + 16
    }
}

/// Largest length of an LZ4 block holding `size` raw bytes, `0` if LZ4 does not admit
/// that many.
pub fn compress_bound(size: usize) -> (r: usize)
    ensures
        r == bound(size as nat),
{
    if size > MAX_INPUT_SIZE {
        0
    } else {
        size + (size / 255) + 16
    }
}

/// The compressing end of a stream.
pub struct CompressStream {
    history: Vec<u8>,
}

impl CompressStream {
    /// Raw contents of the last block compressed, empty if there is none.
    pub closed spec fn history(&self) -> Seq<u8> {
        self.history@
    }

    /// Creates a stream with no block compressed yet.
    pub fn new() -> (r: Self)
        ensures
            r.history() == Seq::<u8>::empty(),
    {
        Self { history: Vec::new() }
    }

    /// Compresses `src` as the next block of this stream.
    ///
    /// The block expands to `src` in a stream which has the same history.
    pub fn compress(&self, src: &[u8]) -> (block: Vec<u8>)
        requires
            src@.len() <= MAX_LIMIT,
            self.history().len() <= 0x1000_0000,
        ensures
            expands(self.history(), block@, src@),
            block@.len() <= bound(src@.len()),
    {
        lz4_compress(src, self.history.as_slice())
    }

    /// Makes `src` the last block of this stream.
    pub fn keep(&mut self, src: &[u8])
        ensures
            final(self).history() == src@,
    {
        self.history = slice_to_vec(src);
    }
}

/// Contents of the next block of a stream whose last block held `history`. An empty
/// block is no valid block of a stream.
pub open spec fn inflate(history: Seq<u8>, block: Seq<u8>, limit: nat) -> Option<Seq<u8>> {
    match lz4_expand(history, block, limit) {
        Some(raw) => if raw.len() > 0 {
            Some(raw)
        } else {
            None
        },
        None => None,
    }
}

/// The decompressing end of a stream.
pub struct DecompressStream {
    history: Vec<u8>,
}

impl DecompressStream {
    /// Raw contents of the last block decompressed, empty if there is none.
    pub closed spec fn history(&self) -> Seq<u8> {
        self.history@
    }

    /// Creates a stream with no block decompressed yet.
    pub fn new() -> (r: Self)
        ensures
            r.history() == Seq::<u8>::empty(),
    {
        Self { history: Vec::new() }
    }

    /// Decompresses `src` as the next block of this stream into at most `limit` bytes.
    ///
    /// `None` returned if the block is malformed, empty or exceeds the limit, in which
    /// case the stream stays as it is.
    pub fn decompress(&mut self, src: &[u8], limit: usize) -> (raw: Option<Vec<u8>>)
        requires
            src@.len() <= 0xFF_FFFF,
            limit <= MAX_LIMIT,
        ensures
            raw matches Some(v) ==> {
                &&& inflate(old(self).history(), src@, limit as nat) == Some(v@)
                &&& final(self).history() == v@
                &&& v@.len() <= limit
            },
            raw is None ==> {
                &&& inflate(old(self).history(), src@, limit as nat) is None
                &&& final(self).history() == old(self).history()
            },
    {
        match lz4_decompress(src, limit, self.history.as_slice()) {
            Some(raw) => {
                if raw.len() > 0 {
                    self.history = slice_to_vec(raw.as_slice());
                    Some(raw)
                } else {
                    None
                }
            },
            None => None,
        }
    }
}

} // verus!
