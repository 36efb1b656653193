//! The buffers a stream passes through.

use vstd::prelude::*;
use vstd::slice::slice_subrange;

use super::switch::StateSwitch;
use super::{RegionError, REGION_SIZE};

verus! {

/// What a buffer holds and the capacity it has.
pub struct Held {
    pub bytes: Seq<u8>,
    /// The capacity that was asked for, at least. What the allocator gives beyond it is not
    /// made use of.
    pub cap: nat,
}

impl Held {
    /// Nothing, with a capacity of `cap` bytes.
    pub open spec fn empty(cap: nat) -> Self {
        Held { bytes: Seq::empty(), cap }
    }

    /// Whether the contents have room, and neither exceeds a region.
    pub open spec fn sound(self) -> bool {
        self.bytes.len() <= self.cap <= REGION_SIZE
    }

    /// Nothing, with the same capacity up to that of a region.
    pub open spec fn cleared(self) -> Self {
        Held::empty(
            if self.cap < REGION_SIZE {
                self.cap
            } else {
                REGION_SIZE as nat
            },
        )
    }

    /// The capacity once there is room for `n` bytes.
    pub open spec fn room(self, n: nat) -> nat {
        if self.cap < n {
            n
        } else {
            self.cap
        }
    }
}

/// The buffer of the current region and that of the previous one, which is made when it is
/// first needed.
pub struct Buffers {
    pub curr: Held,
    pub prev: Option<Held>,
}

impl Buffers {
    /// Empty buffers capable of streaming `cap` bytes.
    pub open spec fn fresh(cap: nat) -> Self {
        if cap <= REGION_SIZE {
            Buffers { curr: Held::empty(cap), prev: None }
        } else {
            let rest = (cap - REGION_SIZE) as nat;
            Buffers {
                curr: Held::empty(REGION_SIZE as nat),
                prev: Some(
                    Held::empty(
                        if rest < REGION_SIZE {
                            rest
                        } else {
                            REGION_SIZE as nat
                        },
                    ),
                ),
            }
        }
    }

    /// Whether both buffers are.
    pub open spec fn sound(self) -> bool {
        &&& self.curr.sound()
        &&& self.prev matches Some(prev) ==> prev.sound()
    }

    /// The buffer of the previous region, a small one if it is still to be made.
    pub open spec fn spare(self) -> Held {
        match self.prev {
            Some(prev) => prev,
            None => Held::empty(
                if self.curr.bytes.len() > 4096 {
                    self.curr.bytes.len() / 4
                } else {
                    256
                },
            ),
        }
    }

    /// The buffers in each other's place.
    pub open spec fn swap(self) -> Self {
        Buffers { curr: self.spare(), prev: Some(self.curr) }
    }

    /// The buffers with `src` appended to the current one.
    pub open spec fn extended(self, src: Seq<u8>) -> Self {
        let bytes = self.curr.bytes + src;
        Buffers { curr: Held { bytes, cap: self.curr.room(bytes.len()) }, ..self }
    }

    /// The buffers with nothing in the current one.
    pub open spec fn passed(self) -> Self {
        Buffers { curr: Held::empty(self.curr.cap), ..self }
    }

    /// The buffers with nothing in them.
    pub open spec fn cleared(self) -> Self {
        Buffers {
            curr: self.curr.cleared(),
            prev: match self.prev {
                Some(prev) => Some(prev.cleared()),
                None => None,
            },
        }
    }
}

/// A buffer which keeps account of the capacity it was asked to have.
pub struct Buffer {
    bytes: Vec<u8>,
    cap: usize,
}

impl View for Buffer {
    type V = Held;

    closed spec fn view(&self) -> Held {
        Held { bytes: self.bytes@, cap: self.cap as nat }
    }
}

impl Buffer {
    /// Creates an empty buffer with a capacity of `cap` bytes.
    pub fn with_capacity(cap: usize) -> (r: Self)
        ensures
            r@ == Held::empty(cap as nat),
    {
        Self { bytes: Vec::with_capacity(cap), cap }
    }

    /// Returns the length of the contents.
    pub fn len(&self) -> (r: usize)
        ensures
            r == self@.bytes.len(),
    {
        self.bytes.len()
    }

    /// Returns the capacity.
    pub fn cap(&self) -> (r: usize)
        ensures
            r == self@.cap,
    {
        self.cap
    }

    /// Returns the contents.
    pub fn as_slice(&self) -> (r: &[u8])
        ensures
            r@ == self@.bytes,
    {
        self.bytes.as_slice()
    }

    /// Empties this buffer, keeping the capacity.
    pub fn clear(&mut self)
        ensures
            final(self)@ == Held::empty(old(self)@.cap),
    {
        self.bytes.clear();
    }

    /// Empties this buffer for another stream, which counts on no more than the capacity
    /// of a region.
    pub fn reset(&mut self)
        ensures
            final(self)@ == old(self)@.cleared(),
    {
        self.bytes.clear();
        if self.cap > REGION_SIZE {
            self.cap = REGION_SIZE;
        }
    }

    /// Makes room for `n` bytes in an empty buffer.
    pub fn reserve(&mut self, n: usize)
        requires
            old(self)@.bytes.len() == 0,
        ensures
            final(self)@ == (Held { cap: old(self)@.room(n as nat), ..old(self)@ }),
    {
        self.bytes.reserve(n);
        if self.cap < n {
            self.cap = n;
        }
    }

    /// Appends `src`, making room for it if necessary.
    pub fn extend(&mut self, src: &[u8])
        ensures
            final(self)@ == (Held {
                bytes: old(self)@.bytes + src@,
                cap: old(self)@.room((old(self)@.bytes + src@).len()),
            }),
    {
        self.bytes.extend_from_slice(src);
        assert(self.bytes@ =~= old(self).bytes@ + src@);
        if self.cap < self.bytes.len() {
            self.cap = self.bytes.len();
        }
    }
}

/// Two region buffers, used for region streaming.
///
/// The previous buffer keeps the contents of the region before the current one, whose
/// length is limited just as LZ4 window size is. It is allocated when it is first needed,
/// escaping additional allocation for smaller passes.
struct DoubleBuffer {
    curr: Buffer,
    prev: Option<Buffer>,
}

impl DoubleBuffer {
    /// The buffers.
    spec fn buffers(&self) -> Buffers {
        Buffers {
            curr: self.curr@,
            prev: match self.prev {
                Some(prev) => Some(prev@),
                None => None,
            },
        }
    }

    /// Constructs a new [`DoubleBuffer`] capable of streaming `cap` bytes.
    fn new(cap: usize) -> (r: Self)
        ensures
            r.buffers() == Buffers::fresh(cap as nat),
    {
        if cap > REGION_SIZE {
            let rest: usize = cap - REGION_SIZE;
            Self {
                curr: Buffer::with_capacity(REGION_SIZE),
                prev: Some(
                    Buffer::with_capacity(
                        if rest > REGION_SIZE {
                            REGION_SIZE
                        } else {
                            rest
                        },
                    ),
                ),
            }
        } else {
            Self { curr: Buffer::with_capacity(cap), prev: None }
        }
    }

    /// Swaps current and previous buffers.
    fn swap(&mut self)
        ensures
            final(self).buffers() == old(self).buffers().swap(),
    {
        let mut prev: Buffer = match self.prev.take() {
            Some(prev) => prev,
            None => Buffer::with_capacity(
                if self.curr.len() > 4096 {
                    self.curr.len() / 4
                } else {
                    256
                },
            ),
        };
        core::mem::swap(&mut self.curr, &mut prev);
        self.prev = Some(prev);
    }

    /// Invokes `pass` method of the given `authority` with access to current buffer.
    fn authorize_pass<S: StateSwitch>(&mut self, authority: &mut S) -> (r: Result<(), RegionError>)
        requires
            old(authority).inv(),
            old(self).curr@.sound(),
        ensures
            final(authority).inv(),
            final(self).curr@.sound(),
            final(self).prev == old(self).prev,
            S::switched(*old(authority), *final(authority), old(self).curr@, final(self).curr@, r),
    {
        authority.pass(&mut self.curr)
    }

    /// Returns the length of the current buffer.
    fn len(&self) -> (r: usize)
        ensures
            r == self.curr@.bytes.len(),
    {
        self.curr.len()
    }

    /// Returns the bytes of the current buffer from `start` up to `end`.
    fn get(&self, start: usize, end: usize) -> (r: Option<&[u8]>)
        ensures
            r is Some <==> start <= end <= self.curr@.bytes.len(),
            r matches Some(bytes) ==> bytes@ == self.curr@.bytes.subrange(
                start as int,
                end as int,
            ),
    {
        if start <= end && end <= self.curr.len() {
            Some(slice_subrange(self.curr.as_slice(), start, end))
        } else {
            None
        }
    }

    /// Extends current buffer with `src` bytes.
    fn extend(&mut self, src: &[u8])
        ensures
            final(self).curr@ == (Held {
                bytes: old(self).curr@.bytes + src@,
                cap: old(self).curr@.room((old(self).curr@.bytes + src@).len()),
            }),
            final(self).prev == old(self).prev,
    {
        self.curr.extend(src);
    }

    /// Empties both buffers, keeping what they have allocated.
    fn clear(&mut self)
        ensures
            final(self).buffers() == old(self).buffers().cleared(),
    {
        self.curr.reset();
        let prev = self.prev.take();
        if let Some(mut prev) = prev {
            prev.reset();
            self.prev = Some(prev);
        }
    }
}

/// A buffer for operations on region stream, containing the current and the previous
/// region and a cursor for tracking current position.
pub struct RegionBuffer {
    buffer: DoubleBuffer,
    cursor: usize,
}

impl RegionBuffer {
    /// The buffers.
    pub closed spec fn buffers(&self) -> Buffers {
        self.buffer.buffers()
    }

    /// Contents of the current region.
    pub open spec fn curr(&self) -> Seq<u8> {
        self.buffers().curr.bytes
    }

    /// Contents of the previous region.
    pub open spec fn prev(&self) -> Seq<u8> {
        self.buffers().spare().bytes
    }

    /// Position in the current region.
    pub closed spec fn cursor(&self) -> nat {
        self.cursor as nat
    }

    /// No region is longer than the format admits.
    pub open spec fn inv(&self) -> bool {
        self.buffers().sound()
    }

    /// Constructs an empty region buffer capable of streaming `cap` bytes.
    pub fn new(cap: usize) -> (r: Self)
        ensures
            r.inv(),
            r.buffers() == Buffers::fresh(cap as nat),
            r.cursor() == 0,
    {
        Self { buffer: DoubleBuffer::new(cap), cursor: 0 }
    }

    /// Returns remaining capacity of this region buffer.
    pub fn remaining_cap(&self) -> (r: usize)
        requires
            self.curr().len() <= REGION_SIZE,
        ensures
            r == REGION_SIZE - self.curr().len(),
    {
        REGION_SIZE - self.buffer.len()
    }

    /// Returns remaining length of this region buffer.
    pub fn remaining_len(&self) -> (r: usize)
        requires
            self.cursor() <= self.curr().len(),
        ensures
            r == self.curr().len() - self.cursor(),
    {
        self.buffer.len() - self.cursor
    }

    /// Calls a pass implementation for provided [`StateSwitch`], performing
    /// region state switch on the current region buffer.
    ///
    /// Cursor will be reset to `0` after a successful pass.
    pub fn pass<S: StateSwitch>(&mut self, authority: &mut S) -> (r: Result<(), RegionError>)
        requires
            old(authority).inv(),
            old(self).inv(),
        ensures
            final(authority).inv(),
            final(self).inv(),
            final(self).buffers().prev == old(self).buffers().prev,
            final(self).cursor() == (if r is Ok {
                0
            } else {
                old(self).cursor()
            }),
            S::switched(
                *old(authority),
                *final(authority),
                old(self).buffers().curr,
                final(self).buffers().curr,
                r,
            ),
    {
        let r = self.buffer.authorize_pass(authority);
        if r.is_ok() {
            self.cursor = 0;
        }
        r
    }

    /// Swaps the current buffer with previous.
    pub fn swap(&mut self)
        ensures
            final(self).buffers() == old(self).buffers().swap(),
            final(self).cursor() == old(self).cursor(),
    {
        self.buffer.swap();
    }

    /// Reads `n` bytes of this region buffer from the current cursor position.
    ///
    /// `None` returned if there are less, in which case the cursor stays.
    pub fn read(&mut self, n: usize) -> (r: Option<&[u8]>)
        requires
            old(self).cursor() + n <= usize::MAX,
        ensures
            final(self).buffers() == old(self).buffers(),
            r is Some <==> old(self).cursor() + n <= old(self).curr().len(),
            r matches Some(bytes) ==> bytes@ == old(self).curr().subrange(
                old(self).cursor() as int,
                old(self).cursor() + n,
            ),
            final(self).cursor() == (if r is Some {
                old(self).cursor() + n
            } else {
                old(self).cursor() as int
            }),
    {
        let start: usize = self.cursor;
        let end: usize = start + n;
        if end <= self.buffer.len() {
            self.cursor = end;
        }
        self.buffer.get(start, end)
    }

    /// Writes `src` bytes into this region buffer.
    ///
    /// Inner buffer will be reallocated if capacity is insufficient
    /// to hold `src` more bytes.
    pub fn write(&mut self, src: &[u8])
        ensures
            final(self).buffers() == old(self).buffers().extended(src@),
            final(self).cursor() == old(self).cursor(),
    {
        self.buffer.extend(src)
    }

    /// Empties this region buffer, keeping what it has allocated.
    pub fn clear(&mut self)
        ensures
            final(self).buffers() == old(self).buffers().cleared(),
            final(self).cursor() == 0,
    {
        self.buffer.clear();
        self.cursor = 0;
    }
}

} // verus!
