use barrique::cursor::{ByteSink, ByteSource, Cursor, CursorReader, CursorWriter};
use barrique::decode::{ReadError, Reader};
use barrique::encode::{write_to_uninit, WriteError, Writer};
use std::io::{Error, ErrorKind};

#[test]
fn cursor_writer() {
    let sample = [1, 2, 3, 4, 5, 6, 7, 8, 9, 10];

    let mut dst = vec![];
    let mut writer = CursorWriter::new(&mut dst);

    let mut arena = writer.write_mut(10).unwrap();
    write_to_uninit(&sample, &mut arena);
    writer.assume_init(&arena, 10);

    writer.close();

    assert_eq!(dst, sample);
}

#[test]
fn cursor_reader() {
    let src = vec![1, 2, 3, 4, 5, 6, 7, 8, 9, 10];
    let mut reader = CursorReader::new(src.as_slice());

    assert_eq!(reader.read_borrow(2).unwrap(), &[1, 2]);
    reader.advance(2);
    assert_eq!(reader.read_borrow(8).unwrap(), &[3, 4, 5, 6, 7, 8, 9, 10]);
}

#[test]
fn cursor_reader_example() {
    let src = "Hello, world!".as_bytes();
    let mut reader = CursorReader::with_capacity(src, 4);

    assert_eq!(b"Hello, w", reader.read_borrow(8).unwrap());
    reader.advance(8);
    assert_eq!(b"orld!", reader.read_borrow(5).unwrap());
    assert!(matches!(reader.read_borrow(6), Err(ReadError::OutOfBounds)));
    assert_eq!(b"orld!", reader.read_borrow(5).unwrap());
    reader.advance(5);
    assert!(matches!(reader.read_borrow(1), Err(ReadError::OutOfBounds)));
    assert_eq!(reader.read_borrow(0).unwrap(), b"");
}

/// A source which hands out a byte at a time and fails once.
struct Drip {
    next: u8,
    fails_at: u8,
    failed: bool,
}

impl ByteSource for Drip {
    fn read(&mut self, buf: &mut [u8]) -> Result<usize, Error> {
        if self.next == self.fails_at && !self.failed {
            self.failed = true;
            return Err(Error::from(ErrorKind::TimedOut));
        }
        if buf.is_empty() || self.next == 20 {
            return Ok(0);
        }
        buf[0] = self.next;
        self.next += 1;
        Ok(1)
    }
}

#[test]
fn slow_source() {
    let mut reader = CursorReader::new(Drip { next: 0, fails_at: 7, failed: false });
    assert_eq!(reader.read_borrow(5).unwrap(), &[0, 1, 2, 3, 4]);
    reader.advance(3);
    match reader.read_borrow(6) {
        Err(ReadError::Io(e)) => assert_eq!(e.kind(), ErrorKind::TimedOut),
        other => panic!("{:?}", other),
    }
    assert_eq!(reader.read_borrow(4).unwrap(), &[3, 4, 5, 6]);
    assert_eq!(reader.read_borrow(6).unwrap(), &[3, 4, 5, 6, 7, 8]);
    assert_eq!(reader.read_borrow(6).unwrap(), &[3, 4, 5, 6, 7, 8]);
    assert_eq!(reader.read_borrow_const::<3>().unwrap(), [3, 4, 5]);
    reader.advance(6);
    assert!(matches!(reader.read_borrow(12), Err(ReadError::OutOfBounds)));
    assert_eq!(reader.read_borrow(11).unwrap().last(), Some(&19));
}

#[test]
fn large_requests() {
    let src: Vec<u8> = (0..100_000u32).map(|i| i as u8).collect();
    let mut reader = CursorReader::new(src.as_slice());
    assert_eq!(reader.read_borrow(32_904).unwrap(), &src[..32_904]);
    assert_eq!(reader.read_borrow(70_000).unwrap(), &src[..70_000]);
    reader.advance(65_000);
    assert_eq!(reader.read_borrow(35_000).unwrap(), &src[65_000..]);
}

#[test]
fn slices_read() {
    let bytes = [1, 2, 3, 4];
    let mut reader = bytes.as_slice();
    assert_eq!(reader.read_borrow(2).unwrap(), &[1, 2]);
    reader.advance(3);
    assert_eq!(reader.read_borrow_const::<1>().unwrap(), [4]);
    assert!(matches!(reader.read_borrow(2), Err(ReadError::OutOfBounds)));
    assert!(matches!(reader.read_borrow_const::<2>(), Err(ReadError::OutOfBounds)));

    let mut bytes = [1, 2, 3, 4];
    let mut reader = bytes.as_mut_slice();
    assert_eq!(reader.read_borrow(4).unwrap(), &[1, 2, 3, 4]);
    Reader::advance(&mut reader, 2);
    assert_eq!(reader.read_borrow(2).unwrap(), &[3, 4]);
    assert!(matches!(reader.read_borrow(3), Err(ReadError::OutOfBounds)));
}

#[test]
fn cursors_read() {
    let mut cursor = Cursor::new(vec![1u8, 2, 3]);
    assert_eq!(cursor.read_borrow(3).unwrap(), &[1, 2, 3]);
    cursor.advance(1);
    assert_eq!(cursor.read_borrow(2).unwrap(), &[2, 3]);
    assert!(matches!(cursor.read_borrow(3), Err(ReadError::OutOfBounds)));
    cursor.advance(2);
    assert_eq!(cursor.read_borrow(0).unwrap(), &[]);
    cursor.advance(7);
    assert!(matches!(cursor.read_borrow(1), Err(ReadError::OutOfBounds)));
    assert!(matches!(cursor.read_borrow(0), Err(ReadError::OutOfBounds)));

    let mut cursor = Cursor::new([7u8, 8]);
    Reader::advance(&mut cursor, 1);
    assert_eq!(cursor.read_borrow(1).unwrap(), &[8]);
}

#[test]
fn cursors_write() {
    let mut room = [0u8; 5];
    let mut cursor = Cursor::new(room.as_mut_slice());
    assert!(cursor.write_mut(6).is_none());
    let mut arena = cursor.write_mut(4).unwrap();
    assert_eq!(arena.len(), 4);
    write_to_uninit(&[1, 2, 3], &mut arena);
    cursor.assume_init(&arena, 3);
    assert!(cursor.write_mut(3).is_none());
    let arena = cursor.write_mut(2).unwrap();
    cursor.assume_init(&arena, 0);
    cursor.assume_init(&[4, 5], 2);
    assert!(cursor.write_mut(1).is_none());
    cursor.flush().unwrap();
    assert_eq!(room, [1, 2, 3, 4, 5]);
}

#[test]
fn slices_and_arrays_write() {
    let mut room = [9u8; 4];
    let mut writer = room.as_mut_slice();
    assert!(writer.write_mut(5).is_none());
    assert_eq!(writer.write_mut(3).unwrap().len(), 3);
    writer.assume_init(&[1, 2, 3], 2);
    assert_eq!(writer, &[9, 9]);
    writer.assume_init(&[3], 1);
    Writer::flush(&mut writer).unwrap();
    assert_eq!(room, [1, 2, 3, 9]);

    let mut cursor = Cursor::new([0u8; 3]);
    cursor.assume_init(&[5, 6], 2);
    assert!(cursor.write_mut(2).is_none());
    assert!(cursor.write_mut(1).is_some());
}

/// A destination which refuses more than it has room for.
struct Bucket {
    held: Vec<u8>,
    room: usize,
    flushes: usize,
}

impl ByteSink for Bucket {
    fn write_all(&mut self, bytes: &[u8]) -> Result<(), Error> {
        if bytes.len() > self.room {
            return Err(Error::from(ErrorKind::WriteZero));
        }
        self.held.extend_from_slice(bytes);
        self.room -= bytes.len();
        Ok(())
    }

    fn flush(&mut self) -> Result<(), Error> {
        self.flushes += 1;
        Ok(())
    }
}

#[test]
fn flushes_of_a_cursor_writer() {
    let mut writer = CursorWriter::with_capacity(Bucket { held: vec![], room: 5, flushes: 0 }, 16);
    writer.assume_init(&[1, 2, 3], 2);
    writer.flush().unwrap();
    writer.assume_init(&[3], 1);
    writer.flush().unwrap();
    writer.assume_init(&[9, 9, 9], 3);
    match writer.flush() {
        Err(WriteError::Io(e)) => assert_eq!(e.kind(), ErrorKind::WriteZero),
        other => panic!("{:?}", other),
    }
    let bucket = writer.close();
    assert_eq!(bucket.held, vec![1, 2, 3]);
    assert_eq!(bucket.flushes, 2);
}

#[test]
fn flush_passes_through_references() {
    let mut dst = vec![];
    let mut writer = CursorWriter::new(&mut dst);
    {
        let mut borrowed = &mut writer;
        borrowed.assume_init(&[1, 2], 2);
        Writer::flush(&mut borrowed).unwrap();
    }
    let held = writer.close();
    assert_eq!(held, &[1, 2]);
}

#[test]
fn copies_to_the_start() {
    let mut dst = [9u8; 4];
    write_to_uninit(&[1, 2], &mut dst);
    assert_eq!(dst, [1, 2, 9, 9]);
}
