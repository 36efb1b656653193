use barrique::cursor::{Cursor, CursorReader};
use barrique::decode::{DecodeError, ReadError};
use barrique::encode::{EncodeError, WriteError};
use barrique::frame::{
    is_magic_num_bytes, magic_num_bytes, Frame, FrameDescriptor, FrameError, Label,
};
use barrique::region::RegionError;

#[test]
fn frame_back_and_forth() {
    let sample = [1, 2, 3, 4, 5, 6, 7, 8, 9, 10];
    let mut dst = vec![];

    let frame = Frame::new(&mut dst);
    frame.encode(sample).unwrap();

    let frame = Frame::<[i32; 10], _>::decode(dst.as_slice(), None).unwrap();
    assert_eq!(frame.get_value(0).unwrap(), sample);
}

#[test]
fn frame_metadata() {
    let mut dst = vec![];

    let frame = Frame::<i32, _>::new(&mut dst)
        .with_label("A snack".try_into().unwrap())
        .with_timestamp(u64::MAX);

    // We need to pass at least some data so metadata gets flushed
    frame.encode(0).unwrap();

    let frame = Frame::<(), _>::decode(dst.as_slice(), None).unwrap();

    assert_eq!(frame.get_label().unwrap().as_str(), "A snack");
    assert_eq!(frame.get_timestamp().unwrap(), u64::MAX);
}

#[test]
fn frame_bytes() {
    let mut dst = vec![1];
    Frame::new(&mut dst)
        .with_label(Label::new("ab").unwrap())
        .with_timestamp(0x0102)
        .encode(3u8)
        .unwrap();
    let expected: [u8; 31] = [
        1, 0xA9, 0xCE, 0xEB, 0x96, 0x40, 2, 1, 0, 0, 0, 0, 0, 0, 2, b'a', b'b', 2, 0, 1, 0, 0, 0, 0,
        0, 0, 0, 0, 0, 0x10, 3,
    ];
    assert_eq!(dst, expected);
}

#[test]
fn order_of_label_and_timestamp_does_not_matter() {
    let label = Label::new("order").unwrap();
    for last in [0, 1, u64::MAX] {
        let one = Frame::new(vec![])
            .with_timestamp(7)
            .with_label(label)
            .with_timestamp(last)
            .encode(String::from("same"))
            .unwrap();
        let other = Frame::new(vec![])
            .with_timestamp(last)
            .with_label(label)
            .encode(String::from("same"))
            .unwrap();
        assert_eq!(one, other);
        assert_eq!(one[5..13], last.to_le_bytes());
        let frame = Frame::<String, _>::decode(one.as_slice(), None).unwrap();
        assert_eq!(frame.get_timestamp(), Some(last));
    }
}

#[test]
fn frame_value_expands_into_the_room_there_is() {
    let mut bytes = Frame::new(vec![]).encode(0x0102_0304u32).unwrap();
    // Four bytes, of which the header tells three
    assert_eq!(bytes[8..10], [4, 0]);
    bytes[8] = 3;
    let frame = Frame::<u32, _>::decode(bytes.as_slice(), None).unwrap();
    assert_eq!(frame.get_value(4).unwrap(), 0x0102_0304);
    let frame = Frame::<u32, _>::decode(bytes.as_slice(), None).unwrap();
    assert!(matches!(
        frame.get_value(0),
        Err(DecodeError::BearerError(RegionError::MalformedRegion))
    ));
}

#[test]
fn frame_without_metadata() {
    let mut dst = vec![];
    Frame::new(&mut dst).encode(String::from("Hello")).unwrap();
    let frame = Frame::<String, _>::decode(dst.as_slice(), None).unwrap();
    assert_eq!(frame.get_label(), None);
    assert_eq!(frame.get_timestamp(), None);
    assert_eq!(frame.get_value(100).unwrap(), "Hello");
}

#[test]
fn seeded_frames() {
    let mut dst = vec![];
    let encoded = Frame::new(&mut dst).with_seed(42).encode(vec![1u16, 2]).unwrap();
    assert_eq!(encoded[4], 0x80);

    let frame = Frame::<Vec<u16>, _>::decode(dst.as_slice(), Some(42)).unwrap();
    assert_eq!(frame.get_value(0).unwrap(), vec![1, 2]);
    let frame = Frame::<Vec<u16>, _>::decode(dst.as_slice(), Some(43)).unwrap();
    assert!(matches!(
        frame.get_value(0),
        Err(DecodeError::BearerError(RegionError::InvalidHash))
    ));
    let frame = Frame::<Vec<u16>, _>::decode(dst.as_slice(), None).unwrap();
    assert!(matches!(
        frame.get_value(0),
        Err(DecodeError::FrameError(FrameError::EnvironmentMismatch))
    ));

    let mut dst = vec![];
    Frame::new(&mut dst).encode(vec![1u16, 2]).unwrap();
    let frame = Frame::<Vec<u16>, _>::decode(dst.as_slice(), Some(0)).unwrap();
    assert!(matches!(
        frame.get_value(0),
        Err(DecodeError::FrameError(FrameError::EnvironmentMismatch))
    ));
}

#[test]
fn broken_frames() {
    let mut dst = vec![];
    Frame::new(&mut dst).with_label(Label::new("label").unwrap()).encode(7u64).unwrap();

    assert!(matches!(
        Frame::<u64, _>::decode(&dst[..3], None),
        Err(FrameError::ReadError(ReadError::OutOfBounds))
    ));
    assert!(matches!(
        Frame::<u64, _>::decode(&dst[1..], None),
        Err(FrameError::NoMagicNumber)
    ));
    assert!(matches!(
        Frame::<u64, _>::decode(&dst[..12], None),
        Err(FrameError::ReadError(ReadError::OutOfBounds))
    ));
    let mut long = dst.clone();
    long[5] = 255;
    assert!(matches!(
        Frame::<u64, _>::decode(long.as_slice(), None),
        Err(FrameError::MalformedLabel)
    ));
    let mut foreign = dst.clone();
    foreign[6] = 0x80;
    assert!(matches!(
        Frame::<u64, _>::decode(foreign.as_slice(), None),
        Err(FrameError::NonAsciiLabel)
    ));
    let frame = Frame::<u64, _>::decode(&dst[..20], None).unwrap();
    assert!(matches!(
        frame.get_value(0),
        Err(DecodeError::BearerError(RegionError::ReadFailure(ReadError::OutOfBounds)))
    ));
}

#[test]
fn frame_of_nothing_can_not_be_opened() {
    let mut dst = vec![];
    Frame::new(&mut dst).encode(()).unwrap();
    assert_eq!(dst.len(), 6);
    assert!(matches!(
        Frame::<(), _>::decode(dst.as_slice(), None),
        Err(FrameError::ReadError(ReadError::OutOfBounds))
    ));
}

#[test]
fn frame_without_room() {
    let mut room = [0u8; 4];
    assert!(matches!(
        Frame::new(Cursor::new(room.as_mut_slice())).encode(1u8),
        Err(EncodeError::FrameError(FrameError::WriteError(WriteError::Custom(_))))
    ));
    let mut room = [0u8; 8];
    assert!(matches!(
        Frame::new(Cursor::new(room.as_mut_slice())).encode(1u8),
        Err(EncodeError::BearerError(RegionError::WriteFailure(WriteError::Custom(_))))
    ));
    assert_eq!(room, [0xA9, 0xCE, 0xEB, 0x96, 0, 0, 0, 0]);
}

#[test]
fn frame_through_a_buffered_source() {
    let values: Vec<u64> = (0..20_000).collect();
    let mut dst = vec![];
    Frame::new(&mut dst).with_seed(1).encode(&values).unwrap();
    let frame = Frame::<Vec<u64>, _>::decode(CursorReader::new(dst.as_slice()), Some(1)).unwrap();
    assert_eq!(frame.get_value(1 << 17).unwrap(), values);
}

#[test]
fn labels() {
    let label = Label::new("Verified").unwrap();
    assert_eq!(label.len(), 8);
    assert!(!label.is_empty());
    assert_eq!(label.as_bytes(), b"Verified");
    assert_eq!(label.as_str(), "Verified");
    assert_eq!(&*label, "Verified");
    assert_eq!(Label::try_from("Verified"), Ok(label));
    assert_ne!(Label::default(), label);
    assert!(Label::default().is_empty());
    assert_eq!(Label::new(&"x".repeat(255)).unwrap().len(), 255);
    assert_eq!(Label::new(&"x".repeat(256)), None);
    assert_eq!(Label::new("é"), None);
    assert_eq!(Label::try_from("é"), Err(()));
}

#[test]
fn labels_back_and_forth() {
    let mut dst = vec![];
    Label::new("abc").unwrap().encode_into_writer(&mut dst).unwrap();
    assert_eq!(dst, vec![3, b'a', b'b', b'c']);
    let mut src = dst.as_slice();
    assert_eq!(Label::decode_from_reader(&mut src).unwrap().as_str(), "abc");
    assert!(src.is_empty());
}

#[test]
fn descriptors_back_and_forth() {
    for seeded in [false, true] {
        for timestamp in [None, Some(0), Some(u64::MAX)] {
            let descriptor = FrameDescriptor { seeded, timestamp };
            let mut bytes = [0x3F; 10];
            descriptor.into_bytes(&mut bytes).unwrap();
            assert_eq!(bytes[9], 0x3F);
            assert_eq!(FrameDescriptor::from_bytes(&bytes), Some(descriptor));
            assert_eq!(descriptor.len(), if timestamp.is_some() { 9 } else { 1 });
        }
    }
    assert_eq!(FrameDescriptor::from_bytes(&[0x40, 1, 2]), None);
    let descriptor = FrameDescriptor { seeded: true, timestamp: Some(1) };
    let mut short = [9; 8];
    assert_eq!(descriptor.into_bytes(&mut short), None);
    assert_eq!(short, [9; 8]);
    assert_eq!(FrameDescriptor::max_len(), 9);
}

#[test]
fn magic_number() {
    assert_eq!(magic_num_bytes(), vec![0xA9, 0xCE, 0xEB, 0x96]);
    assert!(is_magic_num_bytes([0xA9, 0xCE, 0xEB, 0x96]));
    assert!(!is_magic_num_bytes([0x96, 0xEB, 0xCE, 0xA9]));
}
