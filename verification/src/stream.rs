//! Models of the raw bytes which pass through encoders and decoders.

use vstd::prelude::*;

use crate::region::{pull, Held, Inlet, RegionError, Seed, REGION_SIZE};

verus! {

/// Raw bytes as an encoder arranges them: the regions it has finished and the one it
/// still collects.
pub struct RawStream {
    pub regions: Seq<Seq<u8>>,
    pub open: Seq<u8>,
}

impl RawStream {
    /// The stream nothing was written to.
    pub open spec fn empty() -> Self {
        RawStream { regions: Seq::empty(), open: Seq::empty() }
    }

    /// Writes `chunk`, which is never split: if it exceeds what remains of the region,
    /// it starts a new one.
    pub open spec fn append(self, chunk: Seq<u8>) -> Self {
        if self.open.len() + chunk.len() > REGION_SIZE {
            RawStream { regions: self.regions.push(self.open), open: chunk }
        } else {
            RawStream { regions: self.regions, open: self.open + chunk }
        }
    }

    /// Writes `chunks`, one by one.
    pub open spec fn append_all(self, chunks: Seq<Seq<u8>>) -> Self
        decreases chunks.len(),
    {
        if chunks.len() == 0 {
            self
        } else {
            self.append_all(chunks.drop_last()).append(chunks.last())
        }
    }

    /// Finishes the region being collected, if it holds anything.
    pub open spec fn close(self) -> Self {
        if self.open.len() == 0 {
            self
        } else {
            RawStream { regions: self.regions.push(self.open), open: Seq::empty() }
        }
    }
}

/// Writing the chunks of two values one after the other is writing their concatenation.
pub proof fn lemma_append_all_add(raw: RawStream, a: Seq<Seq<u8>>, b: Seq<Seq<u8>>)
    ensures
        raw.append_all(a + b) == raw.append_all(a).append_all(b),
    decreases b.len(),
{
    if b.len() == 0 {
        assert(a + b =~= a);
    } else {
        lemma_append_all_add(raw, a, b.drop_last());
        assert((a + b).drop_last() =~= a + b.drop_last());
        assert((a + b).last() == b.last());
    }
}

/// Whether each of `chunks` has room in a region.
pub open spec fn within(chunks: Seq<Seq<u8>>) -> bool {
    forall|i: int| 0 <= i < chunks.len() ==> (#[trigger] chunks[i]).len() <= REGION_SIZE
}

/// What a stream is made of, apart from the raw bytes written to it.
pub struct Origin {
    /// What the destination held before the stream.
    pub base: Seq<u8>,
    /// Seed of the hashes.
    pub seed: Option<Seed>,
    /// Whether the destination keeps account of what is written to it.
    pub recorded: bool,
}

/// State of a decoder: the buffers it has, its position in the current region and
/// what is left of the stream.
pub struct Feed {
    pub curr: Held,
    pub prev: Held,
    pub cursor: nat,
    pub inlet: Inlet,
}

impl Feed {
    /// Whether the position is one of the current region and the buffers are sound.
    pub open spec fn ready(self) -> bool {
        self.cursor <= self.curr.bytes.len() && self.curr.sound() && self.prev.sound()
    }

    /// The bytes of the current region which are not read yet.
    pub open spec fn unread(self) -> Seq<u8> {
        self.curr.bytes.skip(self.cursor as int)
    }

    /// Reads `n` bytes: of the current region if it has that many left, else of the
    /// next one. If that one can not be pulled, the current region stays.
    pub open spec fn read(self, n: nat) -> (Result<Seq<u8>, RegionError>, Feed) {
        if self.curr.bytes.len() - self.cursor >= n {
            (Ok(self.unread().take(n as int)), Feed { cursor: self.cursor + n, ..self })
        } else {
            let pulled = pull(self.inlet, self.prev);
            let inlet = pulled.inlet;
            match pulled.result {
                Err(e) => (Err(e), Feed { prev: pulled.buf, inlet, ..self }),
                Ok(_) => {
                    let after = Feed { curr: pulled.buf, prev: self.curr, cursor: 0, inlet };
                    if n <= after.curr.bytes.len() {
                        (Ok(after.curr.bytes.take(n as int)), Feed { cursor: n, ..after })
                    } else {
                        (Err(RegionError::OutOfBounds), after)
                    }
                },
            }
        }
    }
}

} // verus!
