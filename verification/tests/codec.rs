use barrique::codec::decode_char_from_bytes;
use barrique::decode::{get, Decode, DecodeError, ReadError, StreamDecoderBuilder};
use barrique::encode::{Encode, EncodeBearer, EncodeError, StreamEncoderBuilder, WriteError};
use barrique::frame::FrameError;
use barrique::lz4::DecompressStream;
use barrique::region::RegionError;
use std::collections::{BTreeMap, BTreeSet, HashMap, HashSet, VecDeque};
use std::io::{Error, ErrorKind};
use std::marker::PhantomData;
use std::rc::Rc;
use std::sync::Arc;

fn stream<T: Encode + ?Sized>(value: &T) -> Vec<u8> {
    let mut dst = vec![];
    let mut encoder = StreamEncoderBuilder::new(0).build(&mut dst);
    T::encode(&mut encoder, value).unwrap();
    encoder.flush().unwrap();
    dst
}

/// The raw bytes of a value.
fn raw<T: Encode + ?Sized>(value: &T) -> Vec<u8> {
    let bytes = stream(value);
    DecompressStream::new().decompress(&bytes[12..], 65_535).unwrap()
}

fn decode<T: Decode>(bytes: &[u8]) -> Result<T, DecodeError> {
    let mut dst = vec![];
    let mut encoder = StreamEncoderBuilder::new(0).build(&mut dst);
    encoder.write(bytes).unwrap();
    encoder.flush().unwrap();
    let mut decoder = StreamDecoderBuilder::new(0).build(dst.as_slice()).unwrap();
    get(&mut decoder)
}

fn same<T: Encode + Decode + PartialEq + std::fmt::Debug>(value: T) {
    let bytes = stream(&value);
    let mut decoder = StreamDecoderBuilder::new(0).build(bytes.as_slice()).unwrap();
    assert_eq!(get::<T>(&mut decoder).unwrap(), value);
}

#[test]
fn integers() {
    assert_eq!(raw(&0x0102u16), vec![2, 1]);
    assert_eq!(raw(&-2i32), vec![0xFE, 0xFF, 0xFF, 0xFF]);
    assert_eq!(raw(&5usize), vec![5, 0, 0, 0, 0, 0, 0, 0]);
    assert_eq!(raw(&-1isize), vec![0xFF; 8]);
    assert_eq!(raw(&i128::MIN)[15], 0x80);
    same(u8::MAX);
    same(u16::MAX);
    same(u32::MAX);
    same(u64::MAX);
    same(u128::MAX);
    same(usize::MAX);
    same(i8::MIN);
    same(i16::MIN);
    same(i32::MIN);
    same(i64::MIN);
    same(i128::MIN);
    same(isize::MIN);
    same(i8::MAX);
    same(i128::MAX);
    same(-1i64);
    assert_eq!(0u128.size_of(), 16);
    assert_eq!(0usize.size_of(), 8);
}

#[test]
fn flags() {
    assert_eq!(raw(&true), vec![1]);
    assert_eq!(raw(&false), vec![0]);
    assert!(matches!(decode::<bool>(&[2]), Err(DecodeError::InvalidPattern)));
    same(true);
    same(false);
}

#[test]
fn characters() {
    assert_eq!(raw(&'x'), b"x");
    assert_eq!(raw(&'é'), "é".as_bytes());
    assert_eq!(raw(&'€'), "€".as_bytes());
    assert_eq!(raw(&'👻'), "👻".as_bytes());
    for c in ['\0', '\u{7F}', '\u{80}', '\u{7FF}', '\u{800}', '\u{FFFF}', '\u{10000}', char::MAX] {
        same(c);
        assert_eq!(c.size_of(), c.len_utf8());
    }
    assert!(matches!(decode::<char>(&[0x80]), Err(DecodeError::InvalidPattern)));
    assert!(matches!(decode::<char>(&[0xF8, 0x80]), Err(DecodeError::InvalidPattern)));
    assert!(matches!(decode::<char>(&[0xC3, 0x29]), Err(DecodeError::InvalidPattern)));
    assert!(matches!(decode::<char>(&[0xED, 0xA0, 0x80]), Err(DecodeError::InvalidPattern)));
    assert!(matches!(decode::<char>(&[0xF7, 0x80, 0x80, 0x80]), Err(DecodeError::InvalidPattern)));
    assert!(matches!(decode::<char>(&[0xC3]), Err(DecodeError::BearerError(_))));
    assert_eq!(decode_char_from_bytes(0xC0, &[0x80]), Some('\0'));
    assert_eq!(decode_char_from_bytes(0xE2, &[0x82, 0xAC]), Some('€'));
    assert_eq!(decode_char_from_bytes(0xE2, &[0x82, 0xC0]), None);
}

#[test]
fn options_and_results() {
    assert_eq!(raw(&Some(7u8)), vec![1, 7]);
    assert_eq!(raw(&None::<u8>), vec![0]);
    assert_eq!(raw(&Ok::<u8, u16>(7)), vec![1, 7]);
    assert_eq!(raw(&Err::<u8, u16>(7)), vec![0, 7, 0]);
    same(Some(Some(3i64)));
    same(None::<String>);
    same(Ok::<u8, String>(1));
    same(Err::<u8, String>("no".to_string()));
    assert!(matches!(decode::<Option<u8>>(&[2, 0]), Err(DecodeError::InvalidPattern)));
    assert!(matches!(decode::<Result<u8, u8>>(&[3, 0]), Err(DecodeError::InvalidPattern)));
    assert_eq!(Some(1u32).size_of(), 5);
    assert_eq!(None::<u32>.size_of(), 1);
    assert_eq!(Ok::<u32, u8>(1).size_of(), 4);
    assert_eq!(Err::<u32, u8>(1).size_of(), 1);
}

#[test]
fn types_without_contents() {
    assert!(stream(&()).is_empty());
    assert!(stream(&PhantomData::<u8>).is_empty());
    same((1u8, ()));
    same((PhantomData::<String>, 1u8));
    assert_eq!(().size_of(), 0);
}

#[test]
fn sequences() {
    assert_eq!(raw([1u8, 2].as_slice()), vec![2, 0, 0, 0, 1, 2]);
    assert_eq!(raw(&[1u8, 2]), vec![1, 2]);
    assert_eq!(raw(&vec![1u16]), vec![1, 0, 0, 0, 1, 0]);
    assert_eq!(raw(&VecDeque::from([1u8, 2])), vec![2, 0, 0, 0, 1, 2]);
    assert_eq!(raw(&&9u8), vec![9]);
    same([String::from("a"), String::from("b")]);
    same(vec![vec![1u8], vec![], vec![2, 3]]);
    let mut rotated = VecDeque::from([3u32, 1, 2]);
    rotated.rotate_left(1);
    rotated.push_back(4);
    assert_eq!(raw(&rotated)[4..8], [1, 0, 0, 0]);
    same(rotated);
    same(Vec::<u64>::new());
    assert_eq!([1u16, 2].size_of(), 4);
    assert_eq!([1u16, 2].as_slice().size_of(), 8);
    assert_eq!(vec![1u16, 2].size_of(), 4);
    assert_eq!(VecDeque::from([1u32]).size_of(), 4);
    assert!(matches!(decode::<Vec<u8>>(&[3, 0, 0, 0, 1]), Err(DecodeError::BearerError(_))));
    assert!(matches!(decode::<[bool; 2]>(&[1, 5]), Err(DecodeError::InvalidPattern)));
}

#[test]
fn strings() {
    assert_eq!(raw("añ"), vec![3, 0, 0, 0, b'a', 0xC3, 0xB1]);
    assert_eq!(raw(&String::from("x")), vec![1, 0, 0, 0, b'x']);
    same(String::from("Boo! 👻"));
    same(String::new());
    for text in ["", "añ", "Hello, world!"] {
        assert_eq!(text.size_of(), raw(text).len());
        assert_eq!(String::from(text).size_of(), text.len() + 4);
    }
    assert!(matches!(
        decode::<String>(&[2, 0, 0, 0, 0xC3, 0x28]),
        Err(DecodeError::InvalidPattern)
    ));
}

#[test]
fn heap_pointers() {
    assert_eq!(raw(&Box::new(5u16)), vec![5, 0]);
    same(Box::new(5u16));
    same(Rc::new(String::from("rc")));
    same(Arc::new(Some(1u8)));
    let boxed: Box<[u16]> = vec![1, 2, 3].into_boxed_slice();
    assert_eq!(raw(&boxed)[..6], [3, 0, 0, 0, 1, 0]);
    same(boxed);
    same(Rc::<[u8]>::from(vec![1, 2]));
    same(Arc::<[String]>::from(vec![String::from("x")]));
    let text: Box<str> = "text".into();
    assert_eq!(raw(&text), raw("text"));
    assert_eq!(text.size_of(), 8);
}

#[test]
fn tuples() {
    assert_eq!(raw(&(1u8, 2u16)), vec![1, 2, 0]);
    assert_eq!(raw(&(1u8, 2u8, 3u8)), vec![1, 2, 3]);
    same((1u8, String::from("two"), Some(3i32)));
    same((1u8, 2u16, 3u32, 4u64));
    same((1u8, 2u16, 3u32, 4u64, 5i8, 6i16, 7i32, 8i64, 9usize, 'x', true, String::from("12")));
    let all = (1u8, 2u8, 3u8, 4u8, 5u8, 6u8, 7u8, 8u8, 9u8, 10u8, 11u8, 12u8);
    assert_eq!(raw(&all), vec![1, 2, 3, 4, 5, 6, 7, 8, 9, 10, 11, 12]);
    assert_eq!(all.size_of(), 12);
    assert_eq!((1u8, 2u64, 3u16).size_of(), 11);
}

#[test]
fn maps_and_sets() {
    let map = BTreeMap::from([(3u8, "c".to_string()), (1, "a".to_string())]);
    assert_eq!(
        raw(&map),
        vec![2, 0, 0, 0, 1, 1, 0, 0, 0, b'a', 3, 1, 0, 0, 0, b'c']
    );
    assert_eq!(map.size_of(), 12);
    same(map);
    let set = BTreeSet::from([5i16, -5, 0]);
    assert_eq!(raw(&set), vec![3, 0, 0, 0, 0xFB, 0xFF, 0, 0, 5, 0]);
    assert_eq!(set.size_of(), 6);
    same(set);
    let map: HashMap<u32, Vec<u8>> = (0..100).map(|i| (i, vec![i as u8; 2])).collect();
    assert_eq!(raw(&map).len(), 4 + 100 * 10);
    same(map);
    let set: HashSet<i64> = (-50..50).collect();
    assert_eq!(set.size_of(), 800);
    same(set);
    same(BTreeMap::<u8, u8>::new());
    // The last entry of a key counts
    assert_eq!(
        decode::<BTreeMap<u8, u8>>(&[2, 0, 0, 0, 7, 1, 7, 2]).unwrap(),
        BTreeMap::from([(7, 2)])
    );
    assert_eq!(
        decode::<HashMap<u8, u8>>(&[2, 0, 0, 0, 7, 1, 7, 2]).unwrap(),
        HashMap::from([(7, 2)])
    );
    assert_eq!(
        decode::<HashSet<bool>>(&[3, 0, 0, 0, 1, 1, 1]).unwrap(),
        HashSet::from([true])
    );
    assert!(matches!(
        decode::<BTreeSet<u8>>(&[9, 0, 0, 0, 1]),
        Err(DecodeError::BearerError(_))
    ));
}

#[test]
fn keys_of_several_values() {
    let map = BTreeMap::from([((2u8, 1u8), 5u8), ((1, 9), 6), ((1, 2), 7)]);
    assert_eq!(raw(&map), vec![3, 0, 0, 0, 1, 2, 7, 1, 9, 6, 2, 1, 5]);
    same(map);
    let set = BTreeSet::from([Some(1u8), None]);
    assert_eq!(raw(&set), vec![2, 0, 0, 0, 0, 1, 1]);
    same(set);
    same(BTreeSet::from([(1u8, Some((2u16, 3i8)), 4u64), (1, None, 5)]));
    same(BTreeSet::from([(1u8, 2u8, 3u8, 4u8, 5u8, 6u8, 7u8, 8u8, 9u8, 10u8, 11u8, 12u8)]));
}

#[test]
fn a_map_is_stored_as_its_entries() {
    let map = BTreeMap::from([(1u8, 10u16), (2, 20)]);
    assert_eq!(raw(&map), raw(&vec![(1u8, 10u16), (2, 20)]));
}

#[test]
fn conversions_of_errors() {
    let io = || Error::from(ErrorKind::Other);
    assert!(matches!(ReadError::from(io()), ReadError::Io(_)));
    assert!(matches!(WriteError::from(io()), WriteError::Io(_)));
    assert!(matches!(
        RegionError::from(ReadError::OutOfBounds),
        RegionError::ReadFailure(ReadError::OutOfBounds)
    ));
    assert!(matches!(RegionError::from(WriteError::from(io())), RegionError::WriteFailure(_)));
    assert!(matches!(FrameError::from(ReadError::OutOfBounds), FrameError::ReadError(_)));
    assert!(matches!(FrameError::from(WriteError::from(io())), FrameError::WriteError(_)));
    assert!(matches!(EncodeError::from(FrameError::NoMagicNumber), EncodeError::FrameError(_)));
    assert!(matches!(EncodeError::from(RegionError::InvalidHash), EncodeError::BearerError(_)));
    assert!(matches!(DecodeError::from(FrameError::NoMagicNumber), DecodeError::FrameError(_)));
    assert!(matches!(DecodeError::from(RegionError::InvalidHash), DecodeError::BearerError(_)));
}
