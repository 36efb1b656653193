//! Implementations of [`Reader`] and [`Writer`] traits for types requiring additional
//! tracking of the state.

use vstd::pervasive::arbitrary;
use vstd::prelude::*;
use vstd::slice::slice_subrange;

use crate::decode::{ReadError, ReadResult, Reader};
use crate::encode::{write_to_uninit, WriteError, Writer};

verus! {

/// Anything bytes can be borrowed from.
pub trait Storage {
    /// The bytes held.
    spec fn held(&self) -> Seq<u8>;

    /// Borrows the bytes.
    fn stored(&self) -> (r: &[u8])
        ensures
            r@ == self.held(),
    ;
}

/// Anything bytes can be borrowed from for change.
pub trait StorageMut: Storage {
    /// Borrows the bytes for change.
    fn stored_mut(&mut self) -> (r: &mut [u8])
        ensures
            r@ == old(self).held(),
            final(r)@ == final(self).held(),
    ;
}

impl Storage for &[u8] {
    open spec fn held(&self) -> Seq<u8> {
        self@
    }

    fn stored(&self) -> (r: &[u8]) {
        *self
    }
}

impl Storage for &mut [u8] {
    open spec fn held(&self) -> Seq<u8> {
        (**self)@
    }

    fn stored(&self) -> (r: &[u8]) {
        &**self
    }
}

impl StorageMut for &mut [u8] {
    fn stored_mut(&mut self) -> (r: &mut [u8]) {
        &mut **self
    }
}

impl Storage for Vec<u8> {
    open spec fn held(&self) -> Seq<u8> {
        self@
    }

    fn stored(&self) -> (r: &[u8]) {
        self.as_slice()
    }
}

impl StorageMut for Vec<u8> {
    fn stored_mut(&mut self) -> (r: &mut [u8]) {
        self.as_mut_slice()
    }
}

impl<const N: usize> Storage for [u8; N] {
    open spec fn held(&self) -> Seq<u8> {
        self@
    }

    fn stored(&self) -> (r: &[u8]) {
        self.as_slice()
    }
}

impl<const N: usize> StorageMut for [u8; N] {
    fn stored_mut(&mut self) -> (r: &mut [u8]) {
        self
    }
}

/// A wrapper for any [`Storage`] providing implementations of [`Reader`] and [`Writer`]
/// traits.
pub struct Cursor<T> {
    cursor: usize,
    inner: T,
}

impl<T> Cursor<T> {
    /// The position.
    pub closed spec fn position(&self) -> nat {
        self.cursor as nat
    }

    /// The storage.
    pub closed spec fn inner(&self) -> T {
        self.inner
    }

    /// Creates a new [`Cursor`].
    pub fn new(inner: T) -> (r: Cursor<T>)
        ensures
            r.position() == 0,
            r.inner() == inner,
    {
        Self { cursor: 0, inner }
    }

    /// Advances inner cursor by `n`.
    pub fn advance(&mut self, n: usize)
        requires
            old(self).position() + n <= usize::MAX,
        ensures
            final(self).position() == old(self).position() + n,
            final(self).inner() == old(self).inner(),
    {
        self.cursor = self.cursor + n;
    }
}

impl<T> Reader for Cursor<T> where T: Storage {
    /// What follows the position, nothing once it is past the end.
    open spec fn bytes(&self) -> Seq<u8> {
        if self.position() <= self.inner().held().len() {
            self.inner().held().skip(self.position() as int)
        } else {
            Seq::empty()
        }
    }

    open spec fn overrun(&self) -> bool {
        self.position() > self.inner().held().len()
    }

    open spec fn ready(&self) -> nat {
        self.bytes().len()
    }

    open spec fn faultless(&self) -> bool {
        true
    }

    fn read_borrow(&mut self, n: usize) -> (r: ReadResult<&[u8]>) {
        let held = self.inner.stored();
        if self.cursor <= held.len() && n <= held.len() - self.cursor {
            let shown = slice_subrange(held, self.cursor, self.cursor + n);
            assert(shown@ =~= self.bytes().take(n as int));
            Ok(shown)
        } else {
            Err(ReadError::OutOfBounds)
        }
    }

    fn advance(&mut self, n: usize) {
        let ghost before = self.bytes();
        if n > 0 {
            // The position stays within the storage, whose length is a `usize`
            let len: usize = self.inner.stored().len();
            assert(self.cursor + n <= len);
            self.cursor = self.cursor + n;
        }
        assert(self.bytes() =~= before.skip(n as int));
    }
}

impl<T> Writer for Cursor<T> where T: StorageMut {
    /// What precedes the position.
    open spec fn written(&self) -> Seq<u8> {
        if self.position() <= self.inner().held().len() {
            self.inner().held().take(self.position() as int)
        } else {
            self.inner().held()
        }
    }

    open spec fn recorded(&self) -> bool {
        true
    }

    open spec fn fits(&self, n: nat) -> bool {
        self.position() + n <= self.inner().held().len()
    }

    open spec fn dependable(&self) -> bool {
        true
    }

    fn write_mut(&mut self, n: usize) -> (r: Option<Vec<u8>>)
        ensures
            *final(self) == *old(self),
    {
        let len: usize = self.inner.stored().len();
        if self.cursor <= len && n <= len - self.cursor {
            Some(vec![0u8; n])
        } else {
            None
        }
    }

    fn assume_init(&mut self, arena: &[u8], n: usize)
        ensures
            final(self).position() == old(self).position() + n,
            final(self).inner().held() == old(self).inner().held().take(
                old(self).position() as int,
            ) + arena@.take(n as int) + old(self).inner().held().skip(old(self).position() + n),
    {
        let ghost held = self.inner.held();
        let ghost start = self.cursor;
        // The position stays within the storage, whose length is a `usize`
        let len: usize = self.inner.stored().len();
        assert(self.cursor + n <= len);
        let (_, after) = self.inner.stored_mut().split_at_mut(self.cursor);
        write_to_uninit(slice_subrange(arena, 0, n), after);
        self.cursor = self.cursor + n;
        proof {
            assert(self.inner.held() =~= held.take(start as int) + arena@.take(n as int)
                + held.skip(start + n));
            assert(self.inner.held().take(start + n) =~= held.take(start as int) + arena@.take(
                n as int,
            ));
        }
    }
}

/// A source of bytes which hands out as many as it has at hand, in the manner of
/// [`std::io::Read`].
///
/// Specification functions have defaults for implementations outside of verified code,
/// whose behaviour nothing is stated of. A verified implementation overrides them.
pub trait ByteSource {
    /// The bytes to come.
    open spec fn remaining(&self) -> Seq<u8> {
        arbitrary()
    }

    /// Whether the source never fails.
    open spec fn reliable(&self) -> bool {
        arbitrary()
    }

    /// Fills the start of `buf` and returns how many bytes were filled, none only if there
    /// is no room or nothing to come.
    fn read(&mut self, buf: &mut [u8]) -> (r: Result<usize, std::io::Error>)
        ensures
            final(self).reliable() == old(self).reliable(),
            final(buf)@.len() == old(buf)@.len(),
            match r {
                Ok(n) => {
                    &&& n <= old(buf)@.len()
                    &&& n <= old(self).remaining().len()
                    &&& final(buf)@.take(n as int) == old(self).remaining().take(n as int)
                    &&& final(self).remaining() == old(self).remaining().skip(n as int)
                    &&& n == 0 ==> old(buf)@.len() == 0 || old(self).remaining().len() == 0
                },
                Err(_) => {
                    &&& !old(self).reliable()
                    &&& final(self).remaining() == old(self).remaining()
                },
            },
    ;
}

impl ByteSource for &[u8] {
    open spec fn remaining(&self) -> Seq<u8> {
        self@
    }

    open spec fn reliable(&self) -> bool {
        true
    }

    fn read(&mut self, buf: &mut [u8]) -> (r: Result<usize, std::io::Error>) {
        let n: usize = if buf.len() < self.len() {
            buf.len()
        } else {
            self.len()
        };
        let ghost before = self@;
        write_to_uninit(slice_subrange(*self, 0, n), buf);
        assert(buf@.take(n as int) =~= before.take(n as int));
        *self = slice_subrange(*self, n, self.len());
        Ok(n)
    }
}

/// If `n > THRESHOLD`, amortized grow is disabled and the new capacity equals to `n`.
/// This is half of the largest length of a compressed region.
pub const THRESHOLD: usize = 32904;

/// A wrapper over [`ByteSource`] implementations providing [`Reader`] trait implementation.
///
/// Data received from the source is kept in an internal [`Vec`], which is extended
/// as needed.
pub struct CursorReader<R> where R: ByteSource {
    inner: CursorReaderInner<R>,
}

/// A part of a buffer.
struct Window {
    buffer: Vec<u8>,
    start: usize,
    end: usize,
}

impl Window {
    #[verifier::type_invariant]
    spec fn inv(&self) -> bool {
        self.start <= self.end <= self.buffer@.len()
    }

    /// The bytes of the part.
    spec fn bytes(&self) -> Seq<u8> {
        self.buffer@.subrange(self.start as int, self.end as int)
    }

    /// Makes the first `end` bytes of `buffer` the part.
    fn new(buffer: Vec<u8>, end: usize) -> (r: Self)
        requires
            end <= buffer@.len(),
        ensures
            r.bytes() == buffer@.take(end as int),
    {
        Self { buffer, start: 0, end }
    }

    /// Returns the length of the part.
    fn len(&self) -> (r: usize)
        ensures
            r == self.bytes().len(),
    {
        proof {
            use_type_invariant(self);
        }
        self.end - self.start
    }

    /// Returns the first `n` bytes of the part.
    fn first(&self, n: usize) -> (r: &[u8])
        requires
            n <= self.bytes().len(),
        ensures
            r@ == self.bytes().take(n as int),
    {
        proof {
            use_type_invariant(self);
            assert(self.bytes().take(n as int) =~= self.buffer@.subrange(
                self.start as int,
                self.start + n,
            ));
        }
        slice_subrange(self.buffer.as_slice(), self.start, self.start + n)
    }

    /// Takes the first `n` bytes off the part.
    fn advance(&mut self, n: usize)
        requires
            n <= old(self).bytes().len(),
        ensures
            final(self).bytes() == old(self).bytes().skip(n as int),
    {
        proof {
            use_type_invariant(&*self);
        }
        self.start = self.start + n;
        assert(self.bytes() =~= old(self).bytes().skip(n as int));
    }
}

/// Internal implementation of [`CursorReader`], managing growth and interaction with
/// the source.
struct CursorReaderInner<R> where R: ByteSource {
    window: Window,
    reader: R,
}

impl<R> CursorReaderInner<R> where R: ByteSource {
    /// The bytes received and not consumed yet.
    spec fn kept(&self) -> Seq<u8> {
        self.window.bytes()
    }

    /// All of the bytes not consumed yet.
    spec fn bytes(&self) -> Seq<u8> {
        self.kept() + self.reader.remaining()
    }

    /// Reads next `n` bytes.
    fn read(&mut self, n: usize) -> (r: ReadResult<&[u8]>)
        ensures
            final(self).bytes() == old(self).bytes(),
            final(self).reader.reliable() == old(self).reader.reliable(),
            n <= old(self).kept().len() ==> r is Ok,
            match r {
                Ok(shown) => {
                    &&& n <= old(self).bytes().len()
                    &&& shown@ == old(self).bytes().take(n as int)
                    &&& n <= final(self).kept().len()
                },
                Err(ReadError::OutOfBounds) => n > old(self).bytes().len(),
                Err(ReadError::Io(_)) => !old(self).reader.reliable(),
            },
    {
        if n > self.window.len() {
            if let Err(e) = self.grow(n) {
                return Err(e);
            }
        }
        assert(self.kept().take(n as int) =~= self.bytes().take(n as int));
        Ok(self.window.first(n))
    }

    /// Grows this reader and requests bytes from the source until there are at least `n`.
    ///
    /// A new capacity is amortized, i.e. greater than or equal to `n`, but it will try to
    /// keep itself close to [`THRESHOLD`].
    fn grow(&mut self, n: usize) -> (r: Result<(), ReadError>)
        requires
            n > old(self).kept().len(),
        ensures
            final(self).bytes() == old(self).bytes(),
            final(self).reader.reliable() == old(self).reader.reliable(),
            match r {
                Ok(_) => n <= final(self).kept().len(),
                Err(ReadError::OutOfBounds) => n > old(self).bytes().len(),
                Err(ReadError::Io(_)) => !old(self).reader.reliable(),
            },
    {
        let ghost bytes = self.bytes();
        let ghost reliable = self.reader.reliable();
        let new_len: usize = if n > THRESHOLD {
            n
        } else {
            n * 2
        };
        let mut end: usize = self.window.len();
        let mut grow: Vec<u8> = Vec::with_capacity(new_len);
        grow.extend_from_slice(self.window.first(end));
        grow.resize(new_len, 0);
        assert(grow@.take(end as int) =~= self.kept());

        let mut r: Result<(), ReadError> = Ok(());
        while end < n
            invariant_except_break
                r is Ok,
            invariant
                n <= new_len,
                end <= grow@.len() == new_len,
                grow@.take(end as int) + self.reader.remaining() == bytes,
                self.reader.reliable() == reliable,
            ensures
                match r {
                    Ok(_) => n <= end,
                    Err(ReadError::OutOfBounds) => n > bytes.len(),
                    Err(ReadError::Io(_)) => !reliable,
                },
            decreases new_len - end,
        {
            let ghost before = grow@;
            let ghost remaining = self.reader.remaining();
            let (_, room) = grow.as_mut_slice().split_at_mut(end);
            match self.reader.read(room) {
                Ok(count) => {
                    proof {
                        let filled = remaining.take(count as int);
                        assert(grow@.take(end + count) =~= before.take(end as int) + filled);
                        assert(grow@.take(end + count) + remaining.skip(count as int)
                            =~= before.take(end as int) + remaining);
                    }
                    if count == 0 {
                        r = Err(ReadError::OutOfBounds);
                        break;
                    }
                    end = end + count;
                },
                Err(e) => {
                    proof {
                        assert(grow@.take(end as int) =~= before.take(end as int));
                    }
                    r = Err(ReadError::Io(e));
                    break;
                },
            }
        }
        self.window = Window::new(grow, end);
        r
    }
}

impl<R> CursorReader<R> where R: ByteSource {
    /// The bytes received from the source and not consumed yet.
    pub closed spec fn kept(&self) -> Seq<u8> {
        self.inner.kept()
    }

    /// The source.
    pub closed spec fn source(&self) -> R {
        self.inner.reader
    }

    /// Creates a new [`CursorReader`] over a [`ByteSource`] implementation.
    ///
    /// This method does not perform any allocations.
    pub fn new(reader: R) -> (r: CursorReader<R>)
        ensures
            r.kept() == Seq::<u8>::empty(),
            r.source() == reader,
    {
        CursorReader::with_capacity(reader, 0)
    }

    /// Creates a new [`CursorReader`] over a [`ByteSource`] implementation with specified
    /// `capacity`.
    pub fn with_capacity(reader: R, capacity: usize) -> (r: CursorReader<R>)
        ensures
            r.kept() == Seq::<u8>::empty(),
            r.source() == reader,
    {
        let r = Self {
            inner: CursorReaderInner {
                window: Window::new(Vec::with_capacity(capacity), 0),
                reader,
            },
        };
        assert(r.kept() =~= Seq::empty());
        r
    }
}

impl<R> Reader for CursorReader<R> where R: ByteSource {
    open spec fn bytes(&self) -> Seq<u8> {
        self.kept() + self.source().remaining()
    }

    open spec fn overrun(&self) -> bool {
        false
    }

    open spec fn ready(&self) -> nat {
        self.kept().len()
    }

    open spec fn faultless(&self) -> bool {
        self.source().reliable()
    }

    fn read_borrow(&mut self, n: usize) -> (r: ReadResult<&[u8]>) {
        self.inner.read(n)
    }

    fn advance(&mut self, n: usize) {
        let ghost before = self.bytes();
        self.inner.window.advance(n);
        assert(self.bytes() =~= before.skip(n as int));
    }
}

/// A destination of bytes, in the manner of [`std::io::Write`].
///
/// Specification functions have defaults for implementations outside of verified code,
/// whose behaviour nothing is stated of. A verified implementation overrides them.
pub trait ByteSink {
    /// The bytes that have arrived.
    open spec fn received(&self) -> Seq<u8> {
        arbitrary()
    }

    /// Those of the bytes that are known to have got past any buffer on the way.
    open spec fn settled(&self) -> Seq<u8> {
        arbitrary()
    }

    /// Whether the destination never fails.
    open spec fn reliable(&self) -> bool {
        arbitrary()
    }

    /// Writes all of `bytes`. If the destination fails, some of them may have arrived.
    fn write_all(&mut self, bytes: &[u8]) -> (r: Result<(), std::io::Error>)
        ensures
            final(self).reliable() == old(self).reliable(),
            match r {
                Ok(_) => final(self).received() == old(self).received() + bytes@,
                Err(_) => {
                    &&& !old(self).reliable()
                    &&& exists|count: int|
                        0 <= count <= bytes@.len() && final(self).received() == old(
                            self,
                        ).received() + #[trigger] bytes@.take(count)
                },
            },
    ;

    /// Makes sure that what was written reaches the destination.
    fn flush(&mut self) -> (r: Result<(), std::io::Error>)
        ensures
            final(self).reliable() == old(self).reliable(),
            final(self).received() == old(self).received(),
            r is Ok ==> final(self).settled() == final(self).received(),
            r is Err ==> !old(self).reliable(),
    ;
}

impl ByteSink for Vec<u8> {
    open spec fn received(&self) -> Seq<u8> {
        self@
    }

    open spec fn settled(&self) -> Seq<u8> {
        self@
    }

    open spec fn reliable(&self) -> bool {
        true
    }

    fn write_all(&mut self, bytes: &[u8]) -> (r: Result<(), std::io::Error>) {
        self.extend_from_slice(bytes);
        assert(self@ =~= old(self)@ + bytes@);
        Ok(())
    }

    fn flush(&mut self) -> (r: Result<(), std::io::Error>) {
        Ok(())
    }
}

impl<T: ByteSink> ByteSink for &mut T {
    open spec fn received(&self) -> Seq<u8> {
        (**self).received()
    }

    open spec fn settled(&self) -> Seq<u8> {
        (**self).settled()
    }

    open spec fn reliable(&self) -> bool {
        (**self).reliable()
    }

    /// The reference stays the same, so what arrives reaches the destination referred to.
    fn write_all(&mut self, bytes: &[u8]) -> (r: Result<(), std::io::Error>)
        ensures
            *final(*final(self)) == *final(*old(self)),
    {
        (**self).write_all(bytes)
    }

    fn flush(&mut self) -> (r: Result<(), std::io::Error>)
        ensures
            *final(*final(self)) == *final(*old(self)),
    {
        (**self).flush()
    }
}

/// A wrapper over [`ByteSink`] implementations providing [`Writer`] trait implementation.
///
/// Data written is initially located inside an internal [`Vec`] and stays there unless
/// a flush invoked or the writer closed.
pub struct CursorWriter<W> where W: ByteSink {
    writer: W,
    buffer: Vec<u8>,
    error: bool,
}

impl<W> CursorWriter<W> where W: ByteSink {
    /// The destination.
    pub closed spec fn sink(&self) -> W {
        self.writer
    }

    /// The bytes waiting for a flush.
    pub closed spec fn pending(&self) -> Seq<u8> {
        self.buffer@
    }

    /// Whether the destination has failed.
    pub closed spec fn failed(&self) -> bool {
        self.error
    }

    /// Creates a new [`CursorWriter`] over a [`ByteSink`] implementation.
    ///
    /// This method does not perform any allocations.
    pub fn new(writer: W) -> (r: CursorWriter<W>)
        ensures
            r.sink() == writer,
            r.pending() == Seq::<u8>::empty(),
            !r.failed(),
    {
        Self { writer, buffer: Vec::new(), error: false }
    }

    /// Creates a new [`CursorWriter`] over a [`ByteSink`] implementation with specified
    /// `capacity`.
    pub fn with_capacity(writer: W, capacity: usize) -> (r: CursorWriter<W>)
        ensures
            r.sink() == writer,
            r.pending() == Seq::<u8>::empty(),
            !r.failed(),
    {
        Self { writer, buffer: Vec::with_capacity(capacity), error: false }
    }

    /// Ends the writing: flushes what is pending, unless the destination has failed before,
    /// and gives the destination back. A failure of this last flush is ignored, use
    /// [`Writer::flush`] to handle it.
    pub fn close(self) -> (r: W)
        ensures
            self.failed() ==> r == self.sink(),
            !self.failed() && self.sink().reliable() ==> r.received() == self.sink().received()
                + self.pending() && r.settled() == r.received(),
            !self.failed() ==> exists|count: int|
                0 <= count <= self.pending().len() && r.received() == self.sink().received()
                    + #[trigger] self.pending().take(count),
    {
        let mut writer = self.writer;
        if !self.error {
            let ghost all = self.buffer@;
            let ghost before = writer.received();
            let bytes = self.buffer.as_slice();
            let arrived = writer.write_all(bytes);
            proof {
                let count = if arrived is Ok {
                    all.len() as int
                } else {
                    choose|count: int|
                        0 <= count <= bytes@.len() && writer.received() == before
                            + #[trigger] bytes@.take(count)
                };
                assert(all.take(all.len() as int) =~= all);
                assert(writer.received() == before + self.pending().take(count));
            }
            let _ = writer.flush();
        }
        writer
    }
}

impl<W> Writer for CursorWriter<W> where W: ByteSink {
    /// What has arrived at the destination and what waits for a flush.
    open spec fn written(&self) -> Seq<u8> {
        self.sink().received() + self.pending()
    }

    open spec fn recorded(&self) -> bool {
        true
    }

    open spec fn fits(&self, n: nat) -> bool {
        true
    }

    open spec fn dependable(&self) -> bool {
        self.sink().reliable()
    }

    fn write_mut(&mut self, n: usize) -> (r: Option<Vec<u8>>)
        ensures
            *final(self) == *old(self),
    {
        Some(vec![0u8; n])
    }

    fn assume_init(&mut self, arena: &[u8], n: usize)
        ensures
            final(self).sink() == old(self).sink(),
            final(self).failed() == old(self).failed(),
            final(self).pending() == old(self).pending() + arena@.take(n as int),
    {
        self.buffer.extend_from_slice(slice_subrange(arena, 0, n));
        assert(self.buffer@ =~= old(self).buffer@ + arena@.take(n as int));
        assert(self.writer.received() + self.buffer@ =~= old(self).writer.received() + old(
            self,
        ).buffer@ + arena@.take(n as int));
    }

    fn flush(&mut self) -> (r: Result<(), WriteError>)
        ensures
            final(self).sink().reliable() == old(self).sink().reliable(),
            match r {
                Ok(_) => {
                    &&& final(self).pending() == Seq::<u8>::empty()
                    &&& final(self).sink().settled() == final(self).sink().received()
                    &&& final(self).failed() == old(self).failed()
                },
                Err(e) => {
                    &&& e is Io
                    &&& !old(self).sink().reliable()
                    &&& final(self).pending() == old(self).pending()
                    &&& final(self).failed()
                    &&& exists|count: int|
                        0 <= count <= old(self).pending().len() && final(self).sink().received()
                            == old(self).sink().received() + #[trigger] old(self).pending().take(
                            count,
                        )
                },
            },
    {
        let ghost before = self.writer.received();
        let bytes = self.buffer.as_slice();
        assert(bytes@ == old(self).pending());
        if let Err(e) = self.writer.write_all(bytes) {
            self.error = true;
            proof {
                let count = choose|count: int|
                    0 <= count <= bytes@.len() && self.writer.received() == before
                        + #[trigger] bytes@.take(count);
                assert(self.sink().received() == before + old(self).pending().take(count));
            }
            return Err(WriteError::Io(e));
        }
        if let Err(e) = self.writer.flush() {
            self.error = true;
            proof {
                let count = bytes@.len() as int;
                assert(bytes@.take(count) =~= bytes@);
                assert(self.sink().received() == before + old(self).pending().take(count));
            }
            return Err(WriteError::Io(e));
        }
        let ghost received = self.writer.received();
        self.buffer.clear();
        assert(received + Seq::<u8>::empty() =~= received);
        Ok(())
    }
}

} // verus!
